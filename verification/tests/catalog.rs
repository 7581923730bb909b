use k_ruoka_mcp::browser::catalog::{
    clamp_limit, percent_encode, unexpected_product_shape, unexpected_store_shape, Catalog,
    DEFAULT_LIMIT, EMPTY_PRODUCT_QUERY, EMPTY_STORE_QUERY, MAX_LIMIT,
};
use k_ruoka_mcp::browser::session::ApiError;
use k_ruoka_mcp::http::Method;

#[test]
fn limits_are_clamped_into_range() {
    assert_eq!(clamp_limit(None), DEFAULT_LIMIT);
    assert_eq!(clamp_limit(Some(0)), 1);
    assert_eq!(clamp_limit(Some(5)), 5);
    assert_eq!(clamp_limit(Some(9999)), MAX_LIMIT);
}

/// The search term reaches the server inside a URL, so anything that could end the
/// path or start a new parameter has to be escaped. `&limit=` here would otherwise
/// override the real one.
#[test]
fn encoding_escapes_everything_that_could_change_the_url() {
    assert_eq!(percent_encode("banaani"), "banaani");
    assert_eq!(percent_encode("maito 1l"), "maito%201l");
    assert_eq!(percent_encode("a&limit=9999"), "a%26limit%3D9999");
    assert_eq!(percent_encode("a/../b"), "a%2F..%2Fb");
    assert_eq!(percent_encode("a?b#c"), "a%3Fb%23c");
    // Finnish letters are multi-byte UTF-8 and must be escaped per byte.
    assert_eq!(percent_encode("ä"), "%C3%A4");
}

#[test]
fn unreserved_characters_stand_for_themselves() {
    assert_eq!(percent_encode("AZaz09-_.~"), "AZaz09-_.~");
    assert_eq!(percent_encode(""), "");
    assert_eq!(percent_encode("%"), "%25");
    assert_eq!(percent_encode("\u{7f}\u{0}"), "%7F%00");
    assert_eq!(percent_encode("🍌"), "%F0%9F%8D%8C");
}

#[test]
fn product_search_goes_in_the_path() {
    let api = 7u8;
    let catalog = Catalog::new(&api);
    assert_eq!(*catalog.api(), 7);
    let request = catalog.search_products("N1&x", "  maito 1l ", Some(12)).unwrap();
    assert_eq!(request.method, Method::Post);
    assert_eq!(
        request.path,
        "/kr-api/v2/product-search/maito%201l?language=fi&storeId=N1%26x&offset=0&limit=12"
    );
    assert!(request.body.is_none());
    let request = catalog.search_products("N1", "maito", None).unwrap();
    assert_eq!(
        request.path,
        "/kr-api/v2/product-search/maito?language=fi&storeId=N1&offset=0&limit=10"
    );
}

#[test]
fn different_searches_have_different_paths() {
    let api = ();
    let catalog = Catalog::new(&api);
    let plain = catalog.search_products("1", "a", Some(2)).unwrap();
    let sly = catalog.search_products("1&offset=0&limit=2", "a", Some(2)).unwrap();
    let other = catalog.search_products("1", "a", Some(3)).unwrap();
    assert_ne!(plain.path, sly.path);
    assert_ne!(plain.path, other.path);
}

#[test]
fn store_search_goes_in_the_body() {
    let api = ();
    let request = Catalog::new(&api).search_stores(" Ruoholahti\n", Some(99)).unwrap();
    assert_eq!(request.method, Method::Post);
    assert_eq!(request.path, "/kr-api/stores/search");
    let body = request.body.unwrap();
    assert_eq!(body.to_string(), r#"{"limit":50,"offset":0,"query":"Ruoholahti"}"#);
}

#[test]
fn blank_queries_are_refused() {
    let api = ();
    let catalog = Catalog::new(&api);
    match catalog.search_products("N1", " \t\u{a0}", None) {
        Err(ApiError::InvalidRequest(message)) => {
            assert_eq!(message, EMPTY_PRODUCT_QUERY);
            assert_eq!(
                message,
                "query must not be empty. Pass something to search for, e.g. \"banaani\"."
            );
        }
        _ => panic!("a blank query was accepted"),
    }
    match catalog.search_stores("", None) {
        Err(ApiError::InvalidRequest(message)) => {
            assert_eq!(message, EMPTY_STORE_QUERY);
            assert_eq!(
                message,
                "query must not be empty. Pass a place or store name, e.g. \"Ruoholahti\"."
            );
        }
        _ => panic!("a blank query was accepted"),
    }
}

#[test]
fn terms_stay_in_their_path_segment() {
    let api = ();
    let catalog = Catalog::new(&api);
    for (query, segment) in [("../..", "..%2F.."), ("a?b", "a%3Fb"), ("\\", "%5C"), ("%2e", "%252e")] {
        let request = catalog.search_products("1", query, None).unwrap();
        let page = request.path.split('?').next().unwrap();
        assert_eq!(page, format!("/kr-api/v2/product-search/{segment}"));
    }
}

#[test]
fn unexpected_answers_are_told_with_their_reason() {
    match unexpected_product_shape("missing field `a`") {
        ApiError::Other(message) => {
            assert_eq!(message, "unexpected product-search shape: missing field `a`")
        }
        _ => panic!(),
    }
    match unexpected_store_shape("no") {
        ApiError::Other(message) => assert_eq!(message, "unexpected stores/search shape: no"),
        _ => panic!(),
    }
}
