use k_ruoka_mcp::alko_mcp::{tool_failure, SearchAlkoProductsArg, SearchAlkoStoresArg};
use k_ruoka_mcp::http::{HttpStatus, Method};
use k_ruoka_mcp::providers::alko::{
    price_per_litre, product_search_body, product_search_view, stores_view, AlkoError, AlkoProduct,
    AlkoStore, BootstrapAction, JsonRequest, ProductSearchResponse, Reply, RequestAction,
    SessionState, PRODUCT_SEARCH_PATH, SESSION_REFRESH_AFTER, STORES_PATH,
};
use reqwest::header::{HeaderMap, HeaderValue, SET_COOKIE};
use serde_json::Value;

fn headers(values: Vec<&'static str>) -> HeaderMap {
    let mut headers = HeaderMap::new();
    headers.insert("x-other", HeaderValue::from_static("a=b"));
    for value in values {
        headers.append(SET_COOKIE, HeaderValue::from_static(value));
    }
    headers
}

fn reply(code: u16, values: Vec<&'static str>) -> Reply {
    Reply::read(HttpStatus::new(code).unwrap(), &headers(values))
}

#[test]
fn cookies_are_taken_without_their_attributes() {
    let mut state = SessionState::default();
    let outcome = state.absorb_set_cookies(&headers(vec![
        "a = 1 ; Path=/; HttpOnly",
        "nothing; x=y",
        "b=x=y",
        "a=2",
        "=z",
    ]));
    assert!(outcome.is_ok());
    assert_eq!(state.cookie_header(), "a=2; b=x=y; =z");
    assert!(state.has_cookie("b"));
    assert!(!state.has_cookie("nothing"));
}

#[test]
fn a_cookie_that_is_no_text_stops_the_reading() {
    let mut headers = headers(vec!["a=1"]);
    headers.append(SET_COOKIE, HeaderValue::from_bytes(b"b=\xc3\xa4").unwrap());
    headers.append(SET_COOKIE, HeaderValue::from_static("c=3"));
    let mut state = SessionState::default();
    match state.absorb_set_cookies(&headers) {
        Err(error) => {
            assert_eq!(error.message(), "Alko returned a non-UTF8 Set-Cookie header")
        }
        Ok(()) => panic!("the cookie was taken"),
    }
    assert_eq!(state.cookie_header(), "a=1");
    let mut state = SessionState::default();
    assert!(state.absorb_cookie_values(&vec![b"t=\t1\t2".to_vec()]).is_ok());
    assert_eq!(state.cookie_header(), "t=1\t2");
}

#[test]
fn a_bootstrap_makes_a_session() {
    let mut state = SessionState::default();
    assert!(!state.is_fresh(0));
    assert_eq!(state.cookie_header(), "");
    match state.start_bootstrap() {
        BootstrapAction::FetchCsrf { url } => assert_eq!(url, "https://www.alko.fi/api/auth/csrf"),
        _ => panic!(),
    }
    assert!(matches!(
        state.on_csrf_reply(Some(reply(200, vec!["csrf=c; Path=/"]))),
        BootstrapAction::ReadCsrfToken
    ));
    match state.on_csrf_token(Some("t".to_string())) {
        BootstrapAction::SubmitLogin { url, cookie, form } => {
            assert_eq!(url, "https://www.alko.fi/api/auth/callback/credentials");
            assert_eq!(cookie, "csrf=c");
            let expected = vec![
                ("redirect", "false"),
                ("csrfToken", "t"),
                ("callbackUrl", "https://www.alko.fi/fi/tuotteet"),
                ("json", "true"),
            ];
            assert_eq!(form.len(), expected.len());
            for (pair, (key, value)) in form.iter().zip(expected) {
                assert_eq!(pair.0, key);
                assert_eq!(pair.1, value);
            }
        }
        _ => panic!(),
    }
    let login = reply(302, vec!["__Secure-next-auth.session-token=s; Secure"]);
    assert!(matches!(state.on_login_reply(Some(login), 1_000), BootstrapAction::Ready));
    assert!(state.is_fresh(1_000));
    assert!(state.is_fresh(0));
    assert!(state.is_fresh(1_000 + SESSION_REFRESH_AFTER - 1));
    assert!(!state.is_fresh(1_000 + SESSION_REFRESH_AFTER));
    assert_eq!(SESSION_REFRESH_AFTER, 1_500_000_000_000);
    assert_eq!(
        state.usable_cookie(1_000).as_deref(),
        Some("csrf=c; __Secure-next-auth.session-token=s")
    );
    assert_eq!(state.usable_cookie(1_000 + SESSION_REFRESH_AFTER), None);
    state.invalidate();
    assert!(!state.is_fresh(1_000));
    assert_eq!(state.cookie_header(), "");
}

#[test]
fn failed_bootstraps_say_why_and_leave_no_session() {
    let token = "__Secure-next-auth.session-token=s";
    let not_text = Reply { status: HttpStatus::new(200).unwrap(), set_cookies: vec![vec![0xff]] };
    let not_text_either =
        Reply { status: HttpStatus::new(200).unwrap(), set_cookies: vec![vec![0xff]] };
    let mut state = SessionState::default();
    let actions = vec![
        (state.on_csrf_reply(None), "Alko CSRF request failed"),
        (
            state.on_csrf_reply(Some(reply(404, vec![token]))),
            "Alko CSRF request returned HTTP 404 Not Found",
        ),
        (
            state.on_csrf_reply(Some(reply(302, vec![token]))),
            "Alko CSRF request returned HTTP 302 Found",
        ),
        (state.on_csrf_reply(Some(not_text)), "Alko returned a non-UTF8 Set-Cookie header"),
        (state.on_csrf_token(None), "Alko CSRF response had an unexpected shape"),
        (state.on_login_reply(None, 5), "Alko guest-session bootstrap failed"),
        (
            state.on_login_reply(Some(reply(500, vec![token])), 5),
            "Alko guest-session bootstrap returned HTTP 500 Internal Server Error",
        ),
        (
            state.on_login_reply(Some(not_text_either), 5),
            "Alko returned a non-UTF8 Set-Cookie header",
        ),
        (
            state.on_login_reply(Some(reply(200, vec!["other=1"])), 5),
            "Alko guest-session bootstrap returned no NextAuth session token",
        ),
    ];
    for (action, message) in actions {
        match action {
            BootstrapAction::Fail(error) => assert_eq!(error.message(), message),
            _ => panic!("no failure: {message}"),
        }
    }
    assert!(!state.is_fresh(5));
    assert_eq!(state.cookie_header(), "other=1");
}

#[test]
fn denied_access_renews_the_session_once() {
    for code in [401, 403] {
        let mut request = JsonRequest::new(Method::Get, STORES_PATH, None);
        match request.on_session(Ok("a=1".to_string())) {
            RequestAction::Send { method, url, cookie, body } => {
                assert_eq!(method, Method::Get);
                assert_eq!(url, "https://www.alko.fi/api/stores");
                assert_eq!(cookie, "a=1");
                assert!(body.is_none());
            }
            _ => panic!(),
        }
        assert!(matches!(request.on_reply(HttpStatus::new(code)), RequestAction::RenewSession));
        match request.on_reply(HttpStatus::new(code)) {
            RequestAction::Fail(error) => {
                let reason = if code == 401 { "Unauthorized" } else { "Forbidden" };
                assert_eq!(
                    error.message(),
                    format!("Alko API returned HTTP {code} {reason} for /api/stores")
                );
            }
            _ => panic!("the request went on"),
        }
    }
}

#[test]
fn both_tries_send_the_same_with_their_own_cookies() {
    let body = product_search_body("lonkero", None, None).unwrap();
    let mut request = JsonRequest::new(Method::Post, PRODUCT_SEARCH_PATH, Some(&body));
    for (cookie, renewed) in [("a=1", false), ("b=2", true)] {
        assert_eq!(request.renewed, renewed);
        match request.on_session(Ok(cookie.to_string())) {
            RequestAction::Send { method, url, cookie: sent, body: given } => {
                assert_eq!(method, Method::Post);
                assert_eq!(url, "https://www.alko.fi/api/search/product?lang=fi");
                assert_eq!(sent, cookie);
                assert_eq!(given, Some(&body));
            }
            _ => panic!("the request was not sent"),
        }
        request.on_reply(HttpStatus::new(401));
    }
}

#[test]
fn other_replies_are_final() {
    let mut request = JsonRequest::new(Method::Post, PRODUCT_SEARCH_PATH, None);
    match request.on_reply(None) {
        RequestAction::Fail(error) => assert_eq!(
            error.message(),
            "Alko request failed: POST /api/search/product?lang=fi"
        ),
        _ => panic!(),
    }
    match request.on_reply(HttpStatus::new(599)) {
        RequestAction::Fail(error) => assert_eq!(
            error.message(),
            "Alko API returned HTTP 599 <unknown status code> for /api/search/product?lang=fi"
        ),
        _ => panic!(),
    }
    assert!(matches!(request.on_reply(HttpStatus::new(204)), RequestAction::ReadBody));
    match request.on_body(None) {
        RequestAction::Fail(error) => assert_eq!(
            error.message(),
            "Alko API returned invalid JSON for /api/search/product?lang=fi"
        ),
        _ => panic!(),
    }
    match request.on_body(Some(Value::from(3))) {
        RequestAction::Finish(value) => assert_eq!(value, Value::from(3)),
        _ => panic!(),
    }
    match request.on_session(Err(AlkoError::CsrfShape)) {
        RequestAction::Fail(AlkoError::CsrfShape) => {}
        _ => panic!(),
    }
    assert!(!request.renewed);
}

#[test]
fn statuses_are_from_100_to_999() {
    assert!(HttpStatus::new(99).is_none());
    assert!(HttpStatus::new(1000).is_none());
    assert_eq!(HttpStatus::new(100).unwrap().code(), 100);
    assert_eq!(HttpStatus::new(999).unwrap().code(), 999);
}

#[test]
fn product_searches_are_national_unless_a_store_is_named() {
    let body = product_search_body(" riesling ", None, None).unwrap();
    assert_eq!(body.to_string(), r#"{"search":"riesling","skip":0,"top":10}"#);
    let body = product_search_body("lonkero", Some(" 2102 "), Some(80)).unwrap();
    assert_eq!(
        body.to_string(),
        r#"{"search":"lonkero","skip":0,"storeId":" 2102 ","top":50}"#
    );
    let arg = SearchAlkoProductsArg {
        query: "lonkero".to_string(),
        store_id: Some(" ".to_string()),
        limit: Some(3),
    };
    assert_eq!(arg.body().unwrap().to_string(), r#"{"search":"lonkero","skip":0,"top":3}"#);
    let arg = SearchAlkoProductsArg { query: " ".to_string(), store_id: None, limit: None };
    assert_eq!(arg.body().unwrap_err().0, "query must not be empty");
}

fn product(price: Option<f64>, volume: Option<f64>, groups: Vec<&str>) -> AlkoProduct<f64> {
    AlkoProduct {
        id: "004246".to_string(),
        name: "Viini".to_string(),
        price,
        abv: Some(12.5),
        volume,
        country_name: Some("Italia".to_string()),
        product_group_name: groups.into_iter().map(str::to_string).collect(),
    }
}

#[test]
fn products_are_shown_with_their_price_per_litre() {
    let view = product_search_view(
        ProductSearchResponse {
            total: None,
            value: vec![
                product(Some(9.0), Some(0.75), vec!["punaviinit", "viinit"]),
                product(Some(9.0), Some(0.0), vec![]),
            ],
        },
        &|volume: f64| volume > 0.0,
        &|price: f64, volume: f64| price / volume,
    );
    assert_eq!(view.total_hits, 2);
    let first = &view.results[0];
    assert_eq!(first.sku, "004246");
    assert_eq!(first.name, "Viini");
    assert_eq!(first.price, Some(9.0));
    assert_eq!(first.price_per_litre, Some(12.0));
    assert_eq!(first.abv, Some(12.5));
    assert_eq!(first.country.as_deref(), Some("Italia"));
    assert_eq!(first.category.as_deref(), Some("punaviinit"));
    assert_eq!(
        first.image_url,
        "https://images.alko.fi/images/cs_srgb,f_auto,t_products/cdn/004246/004246.jpg"
    );
    assert_eq!(view.results[1].price_per_litre, None);
    assert_eq!(view.results[1].category, None);
    let view = product_search_view(
        ProductSearchResponse { total: Some(12), value: vec![product(None, None, vec![])] },
        &|volume: f64| volume > 0.0,
        &|price: f64, volume: f64| price / volume,
    );
    assert_eq!(view.total_hits, 12);
}

#[test]
fn the_price_per_litre_needs_price_and_volume() {
    let positive = |volume: f64| volume > 0.0;
    let divide = |price: f64, volume: f64| price / volume;
    assert_eq!(price_per_litre(Some(3.0), Some(1.5), &positive, &divide), Some(2.0));
    assert_eq!(price_per_litre(None, Some(1.5), &positive, &divide), None);
    assert_eq!(price_per_litre(Some(3.0), None, &positive, &divide), None);
    assert_eq!(price_per_litre(Some(3.0), Some(-1.0), &positive, &divide), None);
}

fn stores() -> Vec<AlkoStore> {
    [("1", "Helsinki"), ("2", "JYVÄSKYLÄ"), ("3", "Jyväskylän mlk")]
        .into_iter()
        .map(|(id, city)| AlkoStore {
            id: id.to_string(),
            name: format!("Alko {id}"),
            city: city.to_string(),
            address: "Katu 1".to_string(),
            postal_code: "00100".to_string(),
        })
        .collect()
}

#[test]
fn stores_are_found_by_a_part_of_the_city_in_any_case() {
    let ids = |view: Vec<k_ruoka_mcp::providers::alko::AlkoStoreView>| -> Vec<String> {
        view.into_iter().map(|store| store.store_id).collect()
    };
    assert_eq!(ids(stores_view(stores(), Some(" jyväskylÄ "))), vec!["2", "3"]);
    assert_eq!(ids(stores_view(stores(), Some("INKI"))), vec!["1"]);
    assert_eq!(ids(stores_view(stores(), Some("Turku"))), Vec::<String>::new());
    assert_eq!(ids(stores_view(stores(), Some("  "))), vec!["1", "2", "3"]);
    let arg = SearchAlkoStoresArg { city: None };
    let view = arg.listed(stores());
    assert_eq!(view.len(), 3);
    assert_eq!(view[1].name, "Alko 2");
    assert_eq!(view[1].city, "JYVÄSKYLÄ");
    assert_eq!(view[1].address, "Katu 1");
    assert_eq!(view[1].postal_code, "00100");
}

#[test]
fn failures_carry_the_description_of_the_error() {
    assert_eq!(
        tool_failure(AlkoError::ProductShape).0,
        "Alko product-search response had an unexpected shape"
    );
    assert_eq!(
        tool_failure(AlkoError::StoresShape).0,
        "Alko stores response had an unexpected shape"
    );
}
