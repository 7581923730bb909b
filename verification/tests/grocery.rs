use k_ruoka_mcp::browser::session::ApiError;
use k_ruoka_mcp::grocery_mcp::{
    alko_failure, auth_status, cart_addition, debug_port, k_tool_failure, read_default_store,
    s_kaupat_failure, DefaultStore,
};
use k_ruoka_mcp::providers::alko::AlkoError;
use k_ruoka_mcp::providers::s_kaupat::SKaupatError;
use k_ruoka_mcp::s_kaupat_mcp::{tool_failure, SearchSKaupatProductsArg, SearchSKaupatStoresArg};

#[test]
fn k_ruoka_errors_are_told_to_the_caller() {
    assert_eq!(
        k_tool_failure(ApiError::AuthExpired).0,
        "The K-Plussa session has expired. Run `k-ruoka-mcp login` on the machine hosting this server, then retry."
    );
    assert_eq!(k_tool_failure(ApiError::InvalidRequest("no".to_string())).0, "no");
    assert_eq!(k_tool_failure(ApiError::Other("oh".to_string())).0, "oh");
    assert_eq!(alko_failure(AlkoError::EmptyQuery).0, "query must not be empty");
    assert_eq!(s_kaupat_failure(SKaupatError::EmptyStoreId).0, "store_id must not be empty");
}

#[test]
fn the_default_store_is_remembered() {
    assert_eq!(read_default_store(Some(" N1\n")), Some("N1".to_string()));
    assert_eq!(read_default_store(Some(" \n")), None);
    assert_eq!(read_default_store(None), None);
    let none = DefaultStore::initial(None, Some("  "));
    assert_eq!(
        none.resolve_store(None).unwrap_err().0,
        "No K-Ruoka store_id provided and no default store has been set. Call set_default_store first, or pass store_id explicitly."
    );
    assert_eq!(none.probe_store(None, "fallback"), "fallback");
    let configured = DefaultStore::initial(Some(""), Some(" C "));
    assert_eq!(configured.resolve_store(None).unwrap(), "C");
    let mut saved = DefaultStore::initial(Some("S\n"), Some("C"));
    assert_eq!(saved.resolve_store(None).unwrap(), "S");
    assert_eq!(saved.resolve_store(Some("".to_string())).unwrap(), "");
    assert_eq!(saved.probe_store(Some("P".to_string()), "fallback"), "P");
    let status = saved.set_default_store("T".to_string());
    assert_eq!(status.default_store, "T");
    assert_eq!(saved.resolve_store(None).unwrap(), "T");
    assert_eq!(saved.probe_store(None, "fallback"), "T");
    let restarted = DefaultStore::initial(Some(&status.default_store), Some("C"));
    assert_eq!(restarted.resolve_store(None).unwrap(), "T");
}

#[test]
fn the_sign_in_is_read_off_the_cart() {
    let status = auth_status(Ok(Some("Maija".to_string()))).unwrap();
    assert!(status.logged_in);
    assert_eq!(status.account.as_deref(), Some("Maija"));
    assert_eq!(status.detail, "Signed in as Maija.");
    let status = auth_status(Ok(None)).unwrap();
    assert!(!status.logged_in);
    assert_eq!(status.account, None);
    assert_eq!(
        status.detail,
        "Not signed in. The reachable cart is anonymous, not the account's. Start login or run `k-ruoka-mcp login`."
    );
    let status = auth_status(Err(ApiError::AuthExpired)).unwrap();
    assert!(!status.logged_in);
    assert_eq!(status.detail, "The K-Plussa session has expired. Start login again.");
    assert_eq!(auth_status(Err(ApiError::Other("down".to_string()))).unwrap_err().0, "down");
}

#[test]
fn cart_additions_have_defaults() {
    let plain = cart_addition(None, None, None, 1.0, "kpl");
    assert_eq!(plain.quantity, 1.0);
    assert_eq!(plain.unit, "kpl");
    assert!(plain.allow_substitutes);
    let full = cart_addition(Some(2.5), Some("kg".to_string()), Some(false), 1.0, "kpl");
    assert_eq!(full.quantity, 2.5);
    assert_eq!(full.unit, "kg");
    assert!(!full.allow_substitutes);
    assert_eq!(debug_port(None), 9222);
    assert_eq!(debug_port(Some(1)), 1);
}

#[test]
fn s_kaupat_tools_take_their_arguments() {
    let arg = SearchSKaupatProductsArg {
        query: "maito".to_string(),
        store_id: "513".to_string(),
        limit: None,
    };
    assert_eq!(
        arg.variables().unwrap().to_string(),
        r#"{"from":0,"limit":10,"queryString":"maito","storeId":"513"}"#
    );
    let arg = SearchSKaupatProductsArg {
        query: "maito".to_string(),
        store_id: " ".to_string(),
        limit: None,
    };
    assert_eq!(arg.variables().unwrap_err().0, "store_id must not be empty");
    let arg = SearchSKaupatStoresArg { query: Some(" Prisma ".to_string()) };
    assert_eq!(
        arg.search().variables().to_string(),
        r#"{"brand":null,"cursor":null,"query":"Prisma"}"#
    );
    assert_eq!(
        tool_failure(SKaupatError::StoreShape).0,
        "S-Kaupat store-search response had an unexpected shape"
    );
}
