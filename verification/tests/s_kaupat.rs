use k_ruoka_mcp::http::HttpStatus;
use k_ruoka_mcp::providers::s_kaupat::{
    error_codes, hash_from_request_url, metadata_of_parts, metadata_of_request, on_probe,
    persisted_query_not_found, product_search_variables, product_search_view, request_url,
    unknown_hash_reported, Discovery, DiscoveryAction, HashCache, HashStep, HierarchyItem,
    LocalizedString, Operation, PersistedQuery, Pricing, Probe, ProductDetails, ProductImage,
    ProductImages, ProductListItem, ProductsConnection, QueryAction, SKaupatError, SKaupatProduct,
    SKaupatStore, StoreAddress, StoreLocation, StoreSearch, StoreSearchConnection,
    StoreSearchStep, TriggerAction, API_URL, MAX_STORE_PAGES,
};
use serde_json::Value;

fn object(pairs: Vec<(&str, Value)>) -> Value {
    Value::Object(pairs.into_iter().map(|(key, value)| (key.to_string(), value)).collect())
}

fn read_hash(metadata: &str) -> Result<String, ()> {
    let value: Value = serde_json::from_str(metadata).map_err(|_| ())?;
    value["persistedQuery"]["sha256Hash"].as_str().map(str::to_string).ok_or(())
}

fn not_found() -> Value {
    object(vec![(
        "errors",
        Value::Array(vec![object(vec![(
            "extensions",
            object(vec![("code", Value::from("PERSISTED_QUERY_NOT_FOUND"))]),
        )])]),
    )])
}

#[test]
fn extracts_persisted_query_hash_from_network_url() {
    let extensions = object(vec![(
        "persistedQuery",
        object(vec![("version", Value::from(1)), ("sha256Hash", Value::from("abc123"))]),
    )]);
    let mut url = reqwest::Url::parse(API_URL).unwrap();
    url.query_pairs_mut()
        .append_pair("operationName", "RemoteFilteredProducts")
        .append_pair("variables", "{}")
        .append_pair("extensions", &extensions.to_string());

    assert_eq!(
        hash_from_request_url(url.as_str(), "RemoteFilteredProducts", &read_hash).unwrap(),
        Some("abc123".to_string())
    );
    assert_eq!(
        hash_from_request_url(url.as_str(), "RemoteStoreSearch", &read_hash).unwrap(),
        None
    );
}

#[test]
fn detects_persisted_query_not_found() {
    let missing = not_found();
    assert!(persisted_query_not_found(&missing));
    assert!(!persisted_query_not_found(&object(vec![("data", object(vec![]))])));
}

#[test]
fn reads_the_codes_of_all_errors() {
    let answer = object(vec![(
        "errors",
        Value::Array(vec![
            Value::Null,
            object(vec![("extensions", object(vec![("code", Value::from(7))]))]),
            object(vec![("extensions", object(vec![("code", Value::from("OTHER"))]))]),
            object(vec![(
                "extensions",
                object(vec![("code", Value::from("PERSISTED_QUERY_NOT_FOUND"))]),
            )]),
        ]),
    )]);
    let codes = error_codes(&answer);
    assert_eq!(
        codes,
        vec![
            None,
            None,
            Some("OTHER".to_string()),
            Some("PERSISTED_QUERY_NOT_FOUND".to_string())
        ]
    );
    assert!(unknown_hash_reported(&codes));
    assert!(!unknown_hash_reported(&codes[..3].to_vec()));
    assert!(persisted_query_not_found(&answer));
    assert!(!persisted_query_not_found(&Value::from("errors")));
    assert!(!persisted_query_not_found(&object(vec![("errors", Value::from("x"))])));
}

#[test]
fn request_urls_name_operation_variables_and_hash() {
    let url = request_url(Operation::Stores, &object(vec![("query", Value::Null)]), "a+b é");
    assert_eq!(
        url,
        "https://api.s-kaupat.fi/?operationName=RemoteStoreSearch&variables=%7B%22query%22%3Anull%7D&extensions=%7B%22persistedQuery%22%3A%7B%22sha256Hash%22%3A%22a%2Bb+%C3%A9%22%2C%22version%22%3A1%7D%7D"
    );
}

#[test]
fn request_urls_are_read_back() {
    for hash in ["", "abc", "a&b=c#d", "ä \" \\"] {
        for operation in [Operation::Products, Operation::Stores] {
            let url = request_url(operation, &Value::Null, hash);
            assert_eq!(
                hash_from_request_url(&url, operation.name(), &read_hash).unwrap(),
                Some(hash.to_string())
            );
            assert_eq!(hash_from_request_url(&url, "Other", &read_hash).unwrap(), None);
            let other = match operation {
                Operation::Products => Operation::Stores,
                Operation::Stores => Operation::Products,
            };
            assert_eq!(hash_from_request_url(&url, other.name(), &read_hash).unwrap(), None);
        }
    }
}

#[test]
fn foreign_and_broken_requests_carry_no_metadata() {
    let name = "RemoteStoreSearch";
    assert_eq!(metadata_of_request("no url", name), None);
    assert_eq!(
        metadata_of_request("https://www.s-kaupat.fi/?operationName=RemoteStoreSearch&extensions=x", name),
        None
    );
    assert_eq!(metadata_of_request("data:text/plain,x", name), None);
    assert_eq!(metadata_of_request("https://api.s-kaupat.fi/?extensions=x", name), None);
    assert_eq!(
        metadata_of_request("https://api.s-kaupat.fi/?operationName=RemoteStoreSearch", name),
        None
    );
    assert_eq!(
        metadata_of_request(
            "https://API.s-kaupat.fi/p?extensions=x&operationName=Other&extensions=y+z&operationName=RemoteStoreSearch#f",
            name
        ),
        Some("y z".to_string())
    );
    let host = Some("api.s-kaupat.fi".to_string());
    let pairs = vec![
        ("operationName".to_string(), name.to_string()),
        ("extensions".to_string(), "e".to_string()),
    ];
    assert_eq!(metadata_of_parts(&host, &pairs, name), Some("e".to_string()));
    assert_eq!(metadata_of_parts(&None, &pairs, name), None);
}

#[test]
fn malformed_metadata_is_an_error() {
    let url = "https://api.s-kaupat.fi/?operationName=RemoteStoreSearch&extensions=%7B";
    match hash_from_request_url(url, "RemoteStoreSearch", &read_hash) {
        Err(error) => assert_eq!(
            error.message(),
            "S-Kaupat request carried malformed persisted-query metadata"
        ),
        Ok(_) => panic!("malformed metadata was accepted"),
    }
}

#[test]
fn hashes_are_kept_per_operation() {
    let mut cache = HashCache::new();
    assert!(matches!(cache.look(Operation::Products, false), HashStep::TakeGate));
    assert!(matches!(cache.look(Operation::Products, true), HashStep::Discover));
    match cache.on_discovered(Operation::Products, Ok("h".to_string())) {
        HashStep::Ready(hash) => assert_eq!(hash, "h"),
        _ => panic!("the discovered hash was not taken"),
    }
    assert_eq!(cache.get(Operation::Products), Some("h".to_string()));
    assert_eq!(cache.get(Operation::Stores), None);
    match cache.look(Operation::Products, false) {
        HashStep::Ready(hash) => assert_eq!(hash, "h"),
        _ => panic!("the kept hash was not found"),
    }
    match cache.on_discovered(Operation::Stores, Err(SKaupatError::TabFailed)) {
        HashStep::Fail(error) => assert_eq!(error.message(), "opening S-Kaupat hash-discovery tab"),
        _ => panic!("the failure was lost"),
    }
    cache.insert(Operation::Stores, "s".to_string());
    cache.remove(Operation::Products);
    assert_eq!(cache.get(Operation::Products), None);
    assert_eq!(cache.get(Operation::Stores), Some("s".to_string()));
}

#[test]
fn an_unknown_hash_is_renewed_once() {
    let variables = Value::from("v");
    let mut query = PersistedQuery::new(Operation::Products, &variables);
    match query.on_hash(Ok("old".to_string())) {
        QueryAction::Send { url } => {
            assert_eq!(url, request_url(Operation::Products, &variables, "old"))
        }
        _ => panic!("the query was not sent"),
    }
    assert!(matches!(query.on_reply(HttpStatus::new(200)), QueryAction::ReadBody));
    assert!(matches!(query.on_body(Some(not_found())), QueryAction::RenewHash));
    match query.on_hash(Ok("new".to_string())) {
        QueryAction::Send { url } => {
            assert_eq!(url, request_url(Operation::Products, &variables, "new"))
        }
        _ => panic!("the query was not sent again"),
    }
    match query.on_body(Some(not_found())) {
        QueryAction::Fail(error) => assert_eq!(
            error.message(),
            "S-Kaupat rejected a freshly discovered RemoteFilteredProducts persisted-query hash"
        ),
        _ => panic!("the query went on"),
    }
    let mut query = PersistedQuery::new(Operation::Products, &variables);
    assert!(matches!(query.on_body(Some(not_found())), QueryAction::RenewHash));
    match query.on_body(Some(Value::from(5))) {
        QueryAction::Finish(value) => assert_eq!(value, Value::from(5)),
        _ => panic!("the answer was lost"),
    }
}

#[test]
fn failed_queries_say_why() {
    let variables = Value::Null;
    let mut query = PersistedQuery::new(Operation::Stores, &variables);
    match query.on_reply(None) {
        QueryAction::Fail(error) => {
            assert_eq!(error.message(), "S-Kaupat RemoteStoreSearch request failed")
        }
        _ => panic!(),
    }
    match query.on_reply(HttpStatus::new(503)) {
        QueryAction::Fail(error) => assert_eq!(
            error.message(),
            "S-Kaupat RemoteStoreSearch returned HTTP 503 Service Unavailable"
        ),
        _ => panic!(),
    }
    match query.on_body(None) {
        QueryAction::Fail(error) => {
            assert_eq!(error.message(), "S-Kaupat RemoteStoreSearch returned invalid JSON")
        }
        _ => panic!(),
    }
    match query.on_hash(Err(SKaupatError::ListenerFailed)) {
        QueryAction::Fail(error) => {
            assert_eq!(error.message(), "registering S-Kaupat network listener")
        }
        _ => panic!(),
    }
}

#[test]
fn discovery_goes_step_by_step() {
    let stores = Discovery { operation: Operation::Stores };
    let products = Discovery { operation: Operation::Products };
    assert!(matches!(stores.on_tab(true), DiscoveryAction::Listen));
    match stores.on_listening(true) {
        DiscoveryAction::OpenPage { url } => {
            assert_eq!(url, "https://www.s-kaupat.fi/myymalat/prisma")
        }
        _ => panic!(),
    }
    match products.on_listening(true) {
        DiscoveryAction::OpenPage { url } => {
            assert_eq!(url, "https://www.s-kaupat.fi/hakutulokset?queryString=test")
        }
        _ => panic!(),
    }
    assert!(matches!(stores.on_page(true), DiscoveryAction::TriggerStoreSearch));
    assert!(matches!(products.on_page(true), DiscoveryAction::AwaitRequest));
    assert!(matches!(stores.on_trigger(Ok(())), DiscoveryAction::AwaitRequest));
    let other = request_url(Operation::Products, &Value::Null, "p");
    assert!(matches!(
        stores.on_request(Some(other.as_str()), &read_hash),
        DiscoveryAction::AwaitRequest
    ));
    let own = request_url(Operation::Stores, &Value::Null, "s");
    match stores.on_request(Some(own.as_str()), &read_hash) {
        DiscoveryAction::Finish(hash) => assert_eq!(hash, "s"),
        _ => panic!("the hash was not found"),
    }
}

#[test]
fn the_first_request_with_metadata_decides() {
    let discovery = Discovery { operation: Operation::Stores };
    let traffic = vec![
        "https://www.s-kaupat.fi/myymalat/prisma".to_string(),
        request_url(Operation::Products, &Value::Null, "p"),
        "https://api.s-kaupat.fi/?operationName=RemoteStoreSearch".to_string(),
        request_url(Operation::Stores, &Value::Null, "first"),
        request_url(Operation::Stores, &Value::Null, "second"),
    ];
    let decided = traffic
        .iter()
        .map(|url| discovery.on_request(Some(url.as_str()), &read_hash))
        .find(|action| !matches!(action, DiscoveryAction::AwaitRequest));
    match decided {
        Some(DiscoveryAction::Finish(hash)) => assert_eq!(hash, "first"),
        _ => panic!("the hash was not found"),
    }
    for url in &traffic[..3] {
        assert!(matches!(
            discovery.on_request(Some(url.as_str()), &read_hash),
            DiscoveryAction::AwaitRequest
        ));
    }
    assert!(matches!(
        discovery.on_request(None, &read_hash),
        DiscoveryAction::Fail(SKaupatError::TrafficEnded)
    ));
}

#[test]
fn failed_discoveries_say_why() {
    let stores = Discovery { operation: Operation::Stores };
    let cases = vec![
        (stores.on_tab(false), "opening S-Kaupat hash-discovery tab"),
        (stores.on_listening(false), "registering S-Kaupat network listener"),
        (stores.on_page(false), "opening S-Kaupat page for RemoteStoreSearch discovery"),
        (stores.on_trigger(Err(SKaupatError::ProbeFailed)), "probing S-Kaupat stores page"),
        (
            stores.on_request(None, &read_hash),
            "S-Kaupat network event stream ended during hash discovery",
        ),
        (stores.on_timeout(), "timed out discovering S-Kaupat RemoteStoreSearch hash"),
        (
            stores.on_request(
                Some("https://api.s-kaupat.fi/?operationName=RemoteStoreSearch&extensions=1"),
                &read_hash,
            ),
            "S-Kaupat request carried malformed persisted-query metadata",
        ),
    ];
    for (action, message) in cases {
        match action {
            DiscoveryAction::Fail(error) => assert_eq!(error.message(), message),
            _ => panic!("no failure: {message}"),
        }
    }
}

#[test]
fn the_stores_page_is_probed_until_it_searches() {
    assert!(matches!(on_probe(Some(Probe::Clicked(true))), TriggerAction::Done));
    assert!(matches!(on_probe(Some(Probe::Clicked(false))), TriggerAction::ProbeAfter(200)));
    let cases = vec![
        (on_probe(Some(Probe::Failed)), "probing S-Kaupat stores page"),
        (
            on_probe(Some(Probe::NotBoolean)),
            "S-Kaupat stores-page trigger returned a non-boolean value",
        ),
        (on_probe(None), "S-Kaupat stores page never rendered the 'Näytä lisää' trigger"),
    ];
    for (action, message) in cases {
        match action {
            TriggerAction::Fail(error) => assert_eq!(error.message(), message),
            _ => panic!("no failure: {message}"),
        }
    }
}

#[test]
fn remaining_errors_describe_themselves() {
    assert_eq!(
        SKaupatError::ProductShape.message(),
        "S-Kaupat product-search response had an unexpected shape"
    );
    assert_eq!(
        SKaupatError::StoreShape.message(),
        "S-Kaupat store-search response had an unexpected shape"
    );
    assert_eq!(
        SKaupatError::TooManyPages.message(),
        "S-Kaupat store search exceeded 50 pages"
    );
}

#[test]
fn product_searches_need_a_term_and_a_store() {
    let variables = product_search_variables(" maito ", " 513 ", Some(0)).unwrap();
    assert_eq!(
        variables.to_string(),
        r#"{"from":0,"limit":1,"queryString":"maito","storeId":"513"}"#
    );
    match product_search_variables("  ", "", None) {
        Err(error) => assert_eq!(error.message(), "query must not be empty"),
        Ok(_) => panic!(),
    }
    match product_search_variables("maito", " ", None) {
        Err(error) => assert_eq!(error.message(), "store_id must not be empty"),
        Ok(_) => panic!(),
    }
}

fn item(
    current_price: Option<f64>,
    price: Option<f64>,
    template: Option<&str>,
    path: Vec<&str>,
) -> ProductListItem<f64> {
    ProductListItem {
        product: SKaupatProduct {
            name: "Maito".to_string(),
            ean: "64".to_string(),
            price,
            brand_name: Some("Kotimaista".to_string()),
            pricing: Pricing {
                current_price,
                comparison_price: Some(1.5),
                comparison_unit: Some("l".to_string()),
            },
            product_details: ProductDetails {
                product_images: ProductImages {
                    main_image: template
                        .map(|template| ProductImage { url_template: template.to_string() }),
                },
            },
            hierarchy_path: path
                .into_iter()
                .map(|name| HierarchyItem { name: name.to_string() })
                .collect(),
        },
    }
}

#[test]
fn products_are_shown_with_their_current_price() {
    let view = product_search_view(ProductsConnection {
        total: 77,
        product_list_items: vec![
            item(
                Some(1.25),
                Some(2.5),
                Some("https://x/{MODIFIERS}/a.{EXTENSION}?{MODIFIERS}"),
                vec!["Maidot", "Juomat"],
            ),
            item(None, Some(2.5), None, vec![]),
        ],
    });
    assert_eq!(view.total_hits, 77);
    assert_eq!(view.results.len(), 2);
    let first = &view.results[0];
    assert_eq!(first.ean, "64");
    assert_eq!(first.name, "Maito");
    assert_eq!(first.price, Some(1.25));
    assert_eq!(first.comparison_price, Some(1.5));
    assert_eq!(first.comparison_unit.as_deref(), Some("l"));
    assert_eq!(first.brand.as_deref(), Some("Kotimaista"));
    assert_eq!(first.category.as_deref(), Some("Maidot"));
    assert_eq!(first.image_url.as_deref(), Some("https://x/w_400,h_400/a.png?w_400,h_400"));
    let second = &view.results[1];
    assert_eq!(second.price, Some(2.5));
    assert_eq!(second.category, None);
    assert_eq!(second.image_url, None);
}

fn page(total_count: u64, cursor: Option<&str>, ids: Vec<&str>) -> StoreSearchConnection {
    StoreSearchConnection {
        total_count,
        cursor: cursor.map(str::to_string),
        stores: ids
            .into_iter()
            .map(|id| SKaupatStore {
                id: id.to_string(),
                name: format!("Prisma {id}"),
                location: StoreLocation {
                    address: StoreAddress {
                        postcode_name: LocalizedString { default: "JYVÄSKYLÄ".to_string() },
                    },
                },
            })
            .collect(),
    }
}

#[test]
fn store_searches_collect_every_page() {
    let search = StoreSearch::new(Some(" Seppälä "));
    assert_eq!(
        search.variables().to_string(),
        r#"{"brand":null,"cursor":null,"query":"Seppälä"}"#
    );
    let search = match search.on_page(page(9, Some("c1"), vec!["1", "2"])) {
        StoreSearchStep::NextPage(search) => search,
        _ => panic!("the search stopped early"),
    };
    assert_eq!(
        search.variables().to_string(),
        r#"{"brand":null,"cursor":"c1","query":"Seppälä"}"#
    );
    match search.on_page(page(3, None, vec!["3"])) {
        StoreSearchStep::Finish(view) => {
            assert_eq!(view.total_hits, 3);
            let ids: Vec<&str> = view.results.iter().map(|s| s.store_id.as_str()).collect();
            assert_eq!(ids, vec!["1", "2", "3"]);
            assert_eq!(view.results[0].name, "Prisma 1");
            assert_eq!(view.results[0].city, "JYVÄSKYLÄ");
        }
        _ => panic!("the search did not end"),
    }
}

#[test]
fn store_searches_are_bounded() {
    let mut search = StoreSearch::new(Some("  "));
    assert_eq!(
        search.variables().to_string(),
        r#"{"brand":null,"cursor":null,"query":null}"#
    );
    for _ in 0..MAX_STORE_PAGES - 1 {
        search = match search.on_page(page(1, Some("more"), vec![])) {
            StoreSearchStep::NextPage(search) => search,
            _ => panic!("the search stopped early"),
        };
    }
    match search.on_page(page(1, Some("more"), vec![])) {
        StoreSearchStep::Fail(error) => {
            assert_eq!(error.message(), "S-Kaupat store search exceeded 50 pages")
        }
        _ => panic!("the search went on"),
    }
}
