//! S-Kaupat catalogue access through the website's persisted GraphQL queries.
//!
//! The GraphQL operation hashes are deployment artefacts of the S-Kaupat frontend rather than
//! stable API identifiers. They are therefore learnt from the site's own network traffic, kept
//! in memory, and discovered anew once if the API reports `PERSISTED_QUERY_NOT_FOUND`.

use vstd::prelude::*;
use vstd::string::*;

use crate::browser::catalog;
use crate::browser::catalog::clamp_limit;
use crate::http;
use crate::http::HttpStatus;
use crate::json;
use crate::text;

verus! {

pub const WEB_ORIGIN: &'static str = "https://www.s-kaupat.fi";

pub const API_URL: &'static str = "https://api.s-kaupat.fi/";

pub const API_HOST: &'static str = "api.s-kaupat.fi";

/// How many pages a store search reads at most.
pub const MAX_STORE_PAGES: usize = 50;

/// What the API reports where it does not know a hash.
pub const NOT_FOUND_CODE: &'static str = "PERSISTED_QUERY_NOT_FOUND";

/// The GraphQL operations that the provider uses.
#[derive(Debug, Clone, Copy, PartialEq, Eq, Structural)]
pub enum Operation {
    Products,
    Stores,
}

impl Operation {
    /// The name that requests carry.
    pub open spec fn called(self) -> Seq<char> {
        match self {
            Operation::Products => "RemoteFilteredProducts"@,
            Operation::Stores => "RemoteStoreSearch"@,
        }
    }

    /// The page that sends the operation.
    pub open spec fn discovered_at(self) -> Seq<char> {
        match self {
            Operation::Products => "https://www.s-kaupat.fi/hakutulokset?queryString=test"@,
            Operation::Stores => "https://www.s-kaupat.fi/myymalat/prisma"@,
        }
    }

    pub fn name(self) -> (name: &'static str)
        ensures
            name@ == self.called(),
    {
        match self {
            Operation::Products => "RemoteFilteredProducts",
            Operation::Stores => "RemoteStoreSearch",
        }
    }

    pub fn discovery_url(self) -> (url: &'static str)
        ensures
            url@ == self.discovered_at(),
    {
        match self {
            Operation::Products => "https://www.s-kaupat.fi/hakutulokset?queryString=test",
            Operation::Stores => "https://www.s-kaupat.fi/myymalat/prisma",
        }
    }
}

/// What can go wrong with S-Kaupat.
#[derive(Debug)]
pub enum SKaupatError {
    /// A search without a term.
    EmptyQuery,
    /// A search without a store.
    EmptyStoreId,
    /// No tab could be opened for hash discovery.
    TabFailed,
    /// The tab's network traffic could not be listened to.
    ListenerFailed,
    /// The page that sends the operation could not be opened.
    PageFailed(Operation),
    /// The stores page could not be probed.
    ProbeFailed,
    /// The probe of the stores page gave no yes or no.
    ProbeShape,
    /// The stores page never showed the button that starts a search.
    TriggerTimedOut,
    /// A request of the site carried something other than persisted-query metadata.
    MalformedMetadata,
    /// The tab's network traffic ended.
    TrafficEnded,
    /// No request of the operation was seen in time.
    DiscoveryTimedOut(Operation),
    /// A request could not be made.
    RequestFailed(Operation),
    /// A request was answered with an error status.
    Status { operation: Operation, status: HttpStatus },
    /// A request was answered with something other than JSON.
    InvalidJson(Operation),
    /// A hash that was just discovered is not known either.
    RejectedFreshHash(Operation),
    /// A product search was answered with something else.
    ProductShape,
    /// A store search was answered with something else.
    StoreShape,
    /// A store search had too many pages.
    TooManyPages,
}

impl SKaupatError {
    /// The text that describes the error.
    pub open spec fn describes(self) -> Seq<char> {
        match self {
            SKaupatError::EmptyQuery => "query must not be empty"@,
            SKaupatError::EmptyStoreId => "store_id must not be empty"@,
            SKaupatError::TabFailed => "opening S-Kaupat hash-discovery tab"@,
            SKaupatError::ListenerFailed => "registering S-Kaupat network listener"@,
            SKaupatError::PageFailed(operation) => "opening S-Kaupat page for "@
                + operation.called() + " discovery"@,
            SKaupatError::ProbeFailed => "probing S-Kaupat stores page"@,
            SKaupatError::ProbeShape =>
                "S-Kaupat stores-page trigger returned a non-boolean value"@,
            SKaupatError::TriggerTimedOut =>
                "S-Kaupat stores page never rendered the 'Näytä lisää' trigger"@,
            SKaupatError::MalformedMetadata =>
                "S-Kaupat request carried malformed persisted-query metadata"@,
            SKaupatError::TrafficEnded =>
                "S-Kaupat network event stream ended during hash discovery"@,
            SKaupatError::DiscoveryTimedOut(operation) => "timed out discovering S-Kaupat "@
                + operation.called() + " hash"@,
            SKaupatError::RequestFailed(operation) => "S-Kaupat "@ + operation.called()
                + " request failed"@,
            SKaupatError::Status { operation, status } => "S-Kaupat "@ + operation.called()
                + " returned HTTP "@ + status.shown(),
            SKaupatError::InvalidJson(operation) => "S-Kaupat "@ + operation.called()
                + " returned invalid JSON"@,
            SKaupatError::RejectedFreshHash(operation) =>
                "S-Kaupat rejected a freshly discovered "@ + operation.called()
                + " persisted-query hash"@,
            SKaupatError::ProductShape =>
                "S-Kaupat product-search response had an unexpected shape"@,
            SKaupatError::StoreShape => "S-Kaupat store-search response had an unexpected shape"@,
            SKaupatError::TooManyPages => "S-Kaupat store search exceeded "@ + text::decimal(
                MAX_STORE_PAGES as nat,
            ) + " pages"@,
        }
    }

    /// The text that describes the error.
    pub fn message(&self) -> (message: String)
        ensures
            message@ == self.describes(),
    {
        match self {
            SKaupatError::EmptyQuery => "query must not be empty".to_owned(),
            SKaupatError::EmptyStoreId => "store_id must not be empty".to_owned(),
            SKaupatError::TabFailed => "opening S-Kaupat hash-discovery tab".to_owned(),
            SKaupatError::ListenerFailed => "registering S-Kaupat network listener".to_owned(),
            SKaupatError::PageFailed(operation) => "opening S-Kaupat page for ".to_owned().concat(
                operation.name(),
            ).concat(" discovery"),
            SKaupatError::ProbeFailed => "probing S-Kaupat stores page".to_owned(),
            SKaupatError::ProbeShape =>
                "S-Kaupat stores-page trigger returned a non-boolean value".to_owned(),
            SKaupatError::TriggerTimedOut =>
                "S-Kaupat stores page never rendered the 'Näytä lisää' trigger".to_owned(),
            SKaupatError::MalformedMetadata =>
                "S-Kaupat request carried malformed persisted-query metadata".to_owned(),
            SKaupatError::TrafficEnded =>
                "S-Kaupat network event stream ended during hash discovery".to_owned(),
            SKaupatError::DiscoveryTimedOut(operation) =>
                "timed out discovering S-Kaupat ".to_owned().concat(operation.name()).concat(
                " hash",
            ),
            SKaupatError::RequestFailed(operation) => "S-Kaupat ".to_owned().concat(
                operation.name(),
            ).concat(" request failed"),
            SKaupatError::Status { operation, status } => "S-Kaupat ".to_owned().concat(
                operation.name(),
            ).concat(" returned HTTP ").concat(status.text().as_str()),
            SKaupatError::InvalidJson(operation) => "S-Kaupat ".to_owned().concat(
                operation.name(),
            ).concat(" returned invalid JSON"),
            SKaupatError::RejectedFreshHash(operation) =>
                "S-Kaupat rejected a freshly discovered ".to_owned().concat(
                operation.name(),
            ).concat(" persisted-query hash"),
            SKaupatError::ProductShape =>
                "S-Kaupat product-search response had an unexpected shape".to_owned(),
            SKaupatError::StoreShape =>
                "S-Kaupat store-search response had an unexpected shape".to_owned(),
            SKaupatError::TooManyPages => "S-Kaupat store search exceeded ".to_owned().concat(
                text::numeral(MAX_STORE_PAGES as u64).as_str(),
            ).concat(" pages"),
        }
    }
}

/// An error names the operation, and the status where it comes with one.
pub proof fn law_errors_name_what_failed(operation: Operation, status: HttpStatus)
    ensures
        ({
            let name = match operation {
                Operation::Products => "RemoteFilteredProducts"@,
                Operation::Stores => "RemoteStoreSearch"@,
            };
            &&& operation.called() == name
            &&& SKaupatError::PageFailed(operation).describes() == "opening S-Kaupat page for "@
                + name + " discovery"@
            &&& SKaupatError::DiscoveryTimedOut(operation).describes()
                == "timed out discovering S-Kaupat "@ + name + " hash"@
            &&& SKaupatError::RequestFailed(operation).describes() == "S-Kaupat "@ + name
                + " request failed"@
            &&& (SKaupatError::Status { operation, status }).describes() == "S-Kaupat "@ + name
                + " returned HTTP "@ + status.shown()
            &&& SKaupatError::InvalidJson(operation).describes() == "S-Kaupat "@ + name
                + " returned invalid JSON"@
            &&& SKaupatError::RejectedFreshHash(operation).describes()
                == "S-Kaupat rejected a freshly discovered "@ + name + " persisted-query hash"@
        }),
{
}

/// The hash among `hashes` for an operation.
pub open spec fn held(hashes: Map<Operation, Seq<char>>, operation: Operation) -> Option<Seq<char>> {
    if hashes.dom().contains(operation) {
        Some(hashes[operation])
    } else {
        None
    }
}

/// What comes of looking for a hash.
pub ghost enum LookVerdict {
    Found(Seq<char>),
    TakeGate,
    Discover,
}

/// What comes of looking for the hash of an operation. Where there is none, the discovery gate is
/// taken and the hash looked for once more, for another task may have found it meanwhile; after
/// that it is discovered.
pub open spec fn look_verdict(
    hashes: Map<Operation, Seq<char>>,
    operation: Operation,
    gate_taken: bool,
) -> LookVerdict {
    match held(hashes, operation) {
        Some(hash) => LookVerdict::Found(hash),
        None => if gate_taken {
            LookVerdict::Discover
        } else {
            LookVerdict::TakeGate
        },
    }
}

/// A hash that was learnt is found until it is forgotten, also by a task that waited while another
/// learnt it; one that was forgotten is discovered anew. Neither touches another operation.
pub proof fn law_hashes_are_kept_until_forgotten(
    hashes: Map<Operation, Seq<char>>,
    operation: Operation,
    hash: Seq<char>,
    other: Operation,
    gate_taken: bool,
)
    ensures
        look_verdict(hashes.insert(operation, hash), operation, gate_taken) == LookVerdict::Found(
            hash,
        ),
        look_verdict(hashes.remove(operation), operation, gate_taken) == if gate_taken {
            LookVerdict::Discover
        } else {
            LookVerdict::TakeGate
        },
        other != operation ==> {
            &&& look_verdict(hashes.insert(operation, hash), other, gate_taken) == look_verdict(
                hashes,
                other,
                gate_taken,
            )
            &&& look_verdict(hashes.remove(operation), other, gate_taken) == look_verdict(
                hashes,
                other,
                gate_taken,
            )
        },
{
}

/// The hashes that were learnt, one for each operation at most.
pub struct HashCache {
    products: Option<String>,
    stores: Option<String>,
}

impl View for HashCache {
    type V = Map<Operation, Seq<char>>;

    closed spec fn view(&self) -> Map<Operation, Seq<char>> {
        Map::new(
            |operation: Operation| self.slot(operation) is Some,
            |operation: Operation| self.slot(operation)->0,
        )
    }
}

impl HashCache {
    spec fn slot(&self, operation: Operation) -> Option<Seq<char>> {
        match operation {
            Operation::Products => text::optional_view(self.products),
            Operation::Stores => text::optional_view(self.stores),
        }
    }

    pub fn new() -> (cache: HashCache)
        ensures
            cache@ == Map::<Operation, Seq<char>>::empty(),
    {
        HashCache { products: None, stores: None }
    }

    pub fn get(&self, operation: Operation) -> (hash: Option<String>)
        ensures
            text::optional_view(hash) == held(self@, operation),
    {
        match operation {
            Operation::Products => self.products.clone(),
            Operation::Stores => self.stores.clone(),
        }
    }

    pub fn insert(&mut self, operation: Operation, hash: String)
        ensures
            final(self)@ == old(self)@.insert(operation, hash@),
    {
        match operation {
            Operation::Products => {
                self.products = Some(hash);
            },
            Operation::Stores => {
                self.stores = Some(hash);
            },
        }
    }

    pub fn remove(&mut self, operation: Operation)
        ensures
            final(self)@ == old(self)@.remove(operation),
    {
        match operation {
            Operation::Products => {
                self.products = None;
            },
            Operation::Stores => {
                self.stores = None;
            },
        }
    }

    /// Looks for the hash of an operation.
    pub fn look(&self, operation: Operation, gate_taken: bool) -> (step: HashStep)
        ensures
            match look_verdict(self@, operation, gate_taken) {
                LookVerdict::Found(hash) => step matches HashStep::Ready(found) && found@ == hash,
                LookVerdict::TakeGate => step is TakeGate,
                LookVerdict::Discover => step is Discover,
            },
    {
        match self.get(operation) {
            Some(hash) => HashStep::Ready(hash),
            None => if gate_taken {
                HashStep::Discover
            } else {
                HashStep::TakeGate
            },
        }
    }

    /// Takes what a discovery found.
    pub fn on_discovered(&mut self, operation: Operation, found: Result<String, SKaupatError>) -> (step:
        HashStep)
        ensures
            match found {
                Ok(hash) => {
                    &&& final(self)@ == old(self)@.insert(operation, hash@)
                    &&& step matches HashStep::Ready(ready)
                    &&& ready@ == hash@
                },
                Err(error) => {
                    &&& final(self)@ == old(self)@
                    &&& step == HashStep::Fail(error)
                },
            },
    {
        match found {
            Ok(hash) => {
                self.insert(operation, hash.clone());
                HashStep::Ready(hash)
            },
            Err(error) => HashStep::Fail(error),
        }
    }
}

/// What getting a hash does next.
pub enum HashStep {
    /// The hash is there.
    Ready(String),
    /// Take the discovery gate, and look again.
    TakeGate,
    /// Discover the hash.
    Discover,
    /// The hash could not be discovered.
    Fail(SKaupatError),
}

/// The metadata that names a persisted query by its hash.
pub open spec fn metadata_json(hash: Seq<char>) -> json::Json {
    json::Json::Object(
        Map::empty().insert(
            "persistedQuery"@,
            json::Json::Object(
                Map::empty().insert("version"@, json::Json::Integer(1)).insert(
                    "sha256Hash"@,
                    json::Json::Text(hash),
                ),
            ),
        ),
    )
}

/// The query pairs of a request.
pub open spec fn request_pairs(operation: Operation, variables: json::Json, hash: Seq<char>) -> Seq<
    (Seq<char>, Seq<char>),
> {
    seq![
        ("operationName"@, operation.called()),
        ("variables"@, json::json_text(variables)),
        ("extensions"@, json::json_text(metadata_json(hash))),
    ]
}

/// The metadata holds the hash and the version of the scheme under the persisted query, and
/// nothing else. So metadata for different hashes is different.
pub proof fn law_metadata_names_the_hash(hash: Seq<char>, key: Seq<char>, other: Seq<char>)
    ensures
        ({
            let query = json::member(metadata_json(hash), "persistedQuery"@);
            &&& query is Some
            &&& json::member(query->0, "sha256Hash"@) == Some(json::Json::Text(hash))
            &&& json::member(query->0, "version"@) == Some(json::Json::Integer(1))
            &&& key != "sha256Hash"@ && key != "version"@ ==> json::member(query->0, key) is None
        }),
        key != "persistedQuery"@ ==> json::member(metadata_json(hash), key) is None,
        metadata_json(hash) == metadata_json(other) ==> hash == other,
{
    lemma_metadata_members(hash);
    lemma_metadata_members(other);
}

proof fn lemma_metadata_members(hash: Seq<char>)
    ensures
        ({
            let query = json::member(metadata_json(hash), "persistedQuery"@);
            &&& query is Some
            &&& json::member(query->0, "sha256Hash"@) == Some(json::Json::Text(hash))
            &&& json::member(query->0, "version"@) == Some(json::Json::Integer(1))
        }),
{
    reveal_strlit("version");
    reveal_strlit("sha256Hash");
    assert("version"@.len() == 7 && "sha256Hash"@.len() == 10);
}

/// A request says which operation is asked for, with which variables, and by which metadata, each
/// once.
pub proof fn law_requests_say_what_is_asked(operation: Operation, variables: json::Json, hash: Seq<char>)
    ensures
        ({
            let pairs = request_pairs(operation, variables, hash);
            &&& pairs.len() == 3
            &&& last_value(pairs, "operationName"@) == Some(operation.called())
            &&& last_value(pairs, "variables"@) == Some(json::json_text(variables))
            &&& last_value(pairs, "extensions"@) == Some(json::json_text(metadata_json(hash)))
        }),
{
    let pairs = request_pairs(operation, variables, hash);
    reveal_strlit("operationName");
    reveal_strlit("variables");
    reveal_strlit("extensions");
    assert("extensions"@.len() == 10 && "operationName"@.len() == 13 && "variables"@.len() == 9);
    assert(pairs.drop_last().last() == pairs[1]);
    assert(pairs.drop_last().drop_last().last() == pairs[0]);
    reveal_with_fuel(last_value, 4);
}

/// The URL of a request is the API's, with the pairs of the request.
pub proof fn law_requests_go_to_the_api(
    url: Seq<char>,
    operation: Operation,
    variables: json::Json,
    hash: Seq<char>,
)
    requires
        is_request_url(url, operation, variables, hash),
    ensures
        url == http::url_with_pairs(
            "https://api.s-kaupat.fi/"@,
            request_pairs(operation, variables, hash),
        ),
        http::url_parts(url) == Some(
            (Some("api.s-kaupat.fi"@), request_pairs(operation, variables, hash)),
        ),
{
}

/// The metadata that names a persisted query by its hash.
fn metadata(hash: &str) -> (value: serde_json::Value)
    ensures
        json::json_tree(value) == metadata_json(hash@),
{
    let mut query: Vec<(String, serde_json::Value)> = Vec::new();
    query.push(("version".to_owned(), json::json_integer(1)));
    query.push(("sha256Hash".to_owned(), json::json_string(hash)));
    let mut envelope: Vec<(String, serde_json::Value)> = Vec::new();
    proof {
        reveal_with_fuel(json::members_of, 3);
        assert(query@.drop_last().drop_last() == Seq::<(String, serde_json::Value)>::empty());
        reveal_strlit("version");
        reveal_strlit("sha256Hash");
        assert("version"@.len() == 7 && "sha256Hash"@.len() == 10);
    }
    envelope.push(("persistedQuery".to_owned(), json::json_object(query)));
    proof {
        assert(envelope@.drop_last() == Seq::<(String, serde_json::Value)>::empty());
    }
    json::json_object(envelope)
}

/// Whether `url` is the URL of a request: the API's with the pairs of the request, which has the
/// API's host and those pairs when it is read back.
pub open spec fn is_request_url(
    url: Seq<char>,
    operation: Operation,
    variables: json::Json,
    hash: Seq<char>,
) -> bool {
    let pairs = request_pairs(operation, variables, hash);
    &&& url == http::url_with_pairs(API_URL@, pairs)
    &&& http::url_parts(url) == Some((Some(API_HOST@), pairs))
}

/// The URL of a request. Read back, it has the API's host and the pairs of the request.
pub fn request_url(operation: Operation, variables: &serde_json::Value, hash: &str) -> (url: String)
    ensures
        is_request_url(url@, operation, json::json_tree(*variables), hash@),
        metadata_in(http::url_parts(url@), operation.called()) == Some(
            json::json_text(metadata_json(hash@)),
        ),
{
    let extensions: serde_json::Value = metadata(hash);
    let mut pairs: Vec<(String, String)> = Vec::new();
    pairs.push(("operationName".to_owned(), operation.name().to_owned()));
    pairs.push(("variables".to_owned(), json::json_to_string(variables)));
    pairs.push(("extensions".to_owned(), json::json_to_string(&extensions)));
    proof {
        assert(http::pair_views(pairs@) == request_pairs(
            operation,
            json::json_tree(*variables),
            hash@,
        ));
        reveal_strlit("https://api.s-kaupat.fi/");
        reveal_strlit("https://");
        reveal_strlit("api.s-kaupat.fi");
        reveal_strlit("/");
        assert(API_URL@ == "https://"@ + API_HOST@ + "/"@);
        assert(http::plain_host(API_HOST@));
        law_metadata_is_read_back(operation, json::json_tree(*variables), hash@, Seq::empty());
    }
    match http::append_query(API_URL, &pairs) {
        Some(url) => url,
        None => {
            assert(false);
            String::new()
        },
    }
}

/// The code that an error of an answer carries.
pub open spec fn error_code(error: json::Json) -> Option<Seq<char>> {
    match json::member(error, "extensions"@) {
        Some(extensions) => match json::member(extensions, "code"@) {
            Some(json::Json::Text(code)) => Some(code),
            _ => None,
        },
        None => None,
    }
}

/// The codes of the errors of an answer, in their order.
pub open spec fn error_codes_of(answer: json::Json) -> Seq<Option<Seq<char>>> {
    match json::member(answer, "errors"@) {
        Some(json::Json::List(errors)) => errors.map_values(|error: json::Json| error_code(error)),
        _ => Seq::empty(),
    }
}

/// Whether one of the codes says that the hash is not known.
pub open spec fn reports_unknown_hash(codes: Seq<Option<Seq<char>>>) -> bool {
    codes.contains(Some(NOT_FOUND_CODE@))
}

/// The contents of optional texts.
pub open spec fn optional_views(texts: Seq<Option<String>>) -> Seq<Option<Seq<char>>> {
    texts.map_values(|text: Option<String>| text::optional_view(text))
}

fn code_of(error: &serde_json::Value) -> (code: Option<String>)
    ensures
        text::optional_view(code) == error_code(json::json_tree(*error)),
{
    match json::json_get(error, "extensions") {
        Some(extensions) => match json::json_get(extensions, "code") {
            Some(code) => match code.as_str() {
                Some(code) => Some(code.to_owned()),
                None => None,
            },
            None => None,
        },
        None => None,
    }
}

/// The codes of the errors of an answer, in their order.
pub fn error_codes(answer: &serde_json::Value) -> (codes: Vec<Option<String>>)
    ensures
        optional_views(codes@) == error_codes_of(json::json_tree(*answer)),
{
    let mut codes: Vec<Option<String>> = Vec::new();
    match json::json_get(answer, "errors") {
        Some(errors) => match errors.as_array() {
            Some(errors) => {
                let ghost all = errors@.map_values(
                    |item: serde_json::Value| json::json_tree(item),
                ).map_values(|error: json::Json| error_code(error));
                let mut i: usize = 0;
                while i < errors.len()
                    invariant
                        i <= errors@.len(),
                        all == errors@.map_values(
                            |item: serde_json::Value| json::json_tree(item),
                        ).map_values(|error: json::Json| error_code(error)),
                        optional_views(codes@) == all.take(i as int),
                    decreases errors@.len() - i,
                {
                    codes.push(code_of(&errors[i]));
                    i = i + 1;
                    assert(optional_views(codes@) == all.take(i - 1).push(all[i - 1]));
                    assert(all.take(i as int) == all.take(i - 1).push(all[i - 1]));
                }
                assert(all.take(i as int) == all);
            },
            None => {
                assert(optional_views(codes@) == Seq::<Option<Seq<char>>>::empty());
            },
        },
        None => {
            assert(optional_views(codes@) == Seq::<Option<Seq<char>>>::empty());
        },
    }
    codes
}

/// Tells whether one of the codes says that the hash is not known.
pub fn unknown_hash_reported(codes: &Vec<Option<String>>) -> (reported: bool)
    ensures
        reported == reports_unknown_hash(optional_views(codes@)),
{
    let mut i: usize = 0;
    let ghost all = optional_views(codes@);
    while i < codes.len()
        invariant
            i <= codes@.len(),
            all == optional_views(codes@),
            forall|k: int| 0 <= k < i ==> all[k] != Some(NOT_FOUND_CODE@),
        decreases codes@.len() - i,
    {
        match &codes[i] {
            Some(code) => {
                if text::same_text(code.as_str(), NOT_FOUND_CODE) {
                    assert(all[i as int] == Some(NOT_FOUND_CODE@));
                    return true;
                }
            },
            None => {},
        }
        assert(all[i as int] != Some(NOT_FOUND_CODE@));
        i = i + 1;
    }
    false
}

/// Tells whether an answer says that the hash is not known.
pub fn persisted_query_not_found(answer: &serde_json::Value) -> (reported: bool)
    ensures
        reported == reports_unknown_hash(error_codes_of(json::json_tree(*answer))),
{
    let codes: Vec<Option<String>> = error_codes(answer);
    unknown_hash_reported(&codes)
}

/// An answer has a code for each of its errors, in their order: the text under the error's
/// extensions, or none where there is no such text. An answer without a list of errors has none.
pub proof fn law_error_codes_stand_in_order(answer: json::Json, i: int, code: Seq<char>)
    ensures
        match json::member(answer, "errors"@) {
            Some(json::Json::List(errors)) => {
                &&& error_codes_of(answer).len() == errors.len()
                &&& 0 <= i < errors.len() ==> (error_codes_of(answer)[i] == Some(code) <==> (
                json::member(errors[i], "extensions"@) matches Some(extensions) && json::member(
                    extensions,
                    "code"@,
                ) == Some(json::Json::Text(code))))
            },
            _ => error_codes_of(answer).len() == 0,
        },
{
}

/// Whether an error of an answer carries the code that says that a hash is not known.
pub open spec fn says_unknown_hash(error: json::Json) -> bool {
    json::member(error, "extensions"@) matches Some(extensions) && json::member(
        extensions,
        "code"@,
    ) == Some(json::Json::Text("PERSISTED_QUERY_NOT_FOUND"@))
}

/// An answer says that the hash is not known exactly where it has a list of errors and one of
/// them, wherever it stands, carries that code.
pub proof fn law_one_error_reports_an_unknown_hash(answer: json::Json)
    ensures
        reports_unknown_hash(error_codes_of(answer)) <==> (json::member(answer, "errors"@) matches Some(json::Json::List(errors))
            && exists|i: int| 0 <= i < errors.len() && says_unknown_hash(#[trigger] errors[i])),
{
    let codes = error_codes_of(answer);
    if let Some(json::Json::List(errors)) = json::member(answer, "errors"@) {
        if reports_unknown_hash(codes) {
            let k = choose|k: int| 0 <= k < codes.len() && codes[k] == Some(NOT_FOUND_CODE@);
            assert(codes[k] == error_code(errors[k]));
            assert(says_unknown_hash(errors[k]));
        }
        if exists|i: int| 0 <= i < errors.len() && says_unknown_hash(#[trigger] errors[i]) {
            let k = choose|k: int| 0 <= k < errors.len() && says_unknown_hash(#[trigger] errors[k]);
            assert(codes[k] == error_code(errors[k]));
            assert(codes[k] == Some(NOT_FOUND_CODE@));
        }
    }
}

/// What a query does next.
pub enum QueryAction {
    /// Send the request at `url`.
    Send { url: String },
    /// Read the body of the answer.
    ReadBody,
    /// Forget the hash, and begin again with another.
    RenewHash,
    /// The query is answered.
    Finish(serde_json::Value),
    /// The query failed.
    Fail(SKaupatError),
}

/// What becomes of a query when the body of an answer comes.
pub ghost enum AnswerVerdict {
    Renew,
    Rejected,
    Unreadable,
    Answered,
}

/// What becomes of a query when the body of an answer comes. The hash is discovered anew the
/// first time it is not known; a second time is final.
pub open spec fn answer_verdict(renewed: bool, answer: Option<json::Json>) -> AnswerVerdict {
    match answer {
        None => AnswerVerdict::Unreadable,
        Some(answer) => if !reports_unknown_hash(error_codes_of(answer)) {
            AnswerVerdict::Answered
        } else if renewed {
            AnswerVerdict::Rejected
        } else {
            AnswerVerdict::Renew
        },
    }
}

/// What an optional JSON value says.
pub open spec fn optional_tree(value: Option<serde_json::Value>) -> Option<json::Json> {
    match value {
        Some(value) => Some(json::json_tree(value)),
        None => None,
    }
}

/// A query that is tried again once, with another hash, where the API does not know its hash.
pub struct PersistedQuery<'a> {
    pub operation: Operation,
    pub variables: &'a serde_json::Value,
    /// Whether the hash was renewed for this query.
    pub renewed: bool,
}

/// Whether two queries ask for the same, whatever became of their hashes.
pub open spec fn same_query(a: PersistedQuery, b: PersistedQuery) -> bool {
    a.operation == b.operation && a.variables == b.variables
}

/// Whether `action` sends `query`, named by `hash`.
pub open spec fn sends(action: QueryAction, query: PersistedQuery, hash: Seq<char>) -> bool {
    &&& action matches QueryAction::Send { url }
    &&& is_request_url(url@, query.operation, json::json_tree(*query.variables), hash)
}

impl<'a> PersistedQuery<'a> {
    pub fn new(operation: Operation, variables: &'a serde_json::Value) -> (query: PersistedQuery<'a>)
        ensures
            query.operation == operation,
            query.variables == variables,
            !query.renewed,
    {
        PersistedQuery { operation, variables, renewed: false }
    }

    /// Takes the hash, or the error that kept it from being found.
    pub fn on_hash(&self, hash: Result<String, SKaupatError>) -> (action: QueryAction)
        ensures
            match hash {
                Ok(hash) => sends(action, *self, hash@),
                Err(error) => action == QueryAction::Fail(error),
            },
    {
        match hash {
            Ok(hash) => QueryAction::Send {
                url: request_url(self.operation, self.variables, hash.as_str()),
            },
            Err(error) => QueryAction::Fail(error),
        }
    }

    /// Takes the status of the reply; nothing where the request failed.
    pub fn on_reply(&self, status: Option<HttpStatus>) -> (action: QueryAction)
        ensures
            match status {
                None => action matches QueryAction::Fail(SKaupatError::RequestFailed(operation))
                    && operation == self.operation,
                Some(status) => if status.succeeds() {
                    action is ReadBody
                } else {
                    action == QueryAction::Fail(
                        SKaupatError::Status { operation: self.operation, status },
                    )
                },
            },
    {
        match status {
            None => QueryAction::Fail(SKaupatError::RequestFailed(self.operation)),
            Some(status) => if status.is_success() {
                QueryAction::ReadBody
            } else {
                QueryAction::Fail(SKaupatError::Status { operation: self.operation, status })
            },
        }
    }

    /// Takes the body of the answer; nothing where it is no JSON.
    pub fn on_body(&mut self, body: Option<serde_json::Value>) -> (action: QueryAction)
        ensures
            same_query(*old(self), *final(self)),
            final(self).renewed == (old(self).renewed || action is RenewHash),
            match answer_verdict(old(self).renewed, optional_tree(body)) {
                AnswerVerdict::Renew => action is RenewHash,
                AnswerVerdict::Rejected => action == QueryAction::Fail(
                    SKaupatError::RejectedFreshHash(old(self).operation),
                ),
                AnswerVerdict::Unreadable => action == QueryAction::Fail(
                    SKaupatError::InvalidJson(old(self).operation),
                ),
                AnswerVerdict::Answered => body matches Some(value) && action
                    == QueryAction::Finish(value),
            },
    {
        match body {
            None => QueryAction::Fail(SKaupatError::InvalidJson(self.operation)),
            Some(value) => {
                if !persisted_query_not_found(&value) {
                    return QueryAction::Finish(value);
                }
                if self.renewed {
                    return QueryAction::Fail(SKaupatError::RejectedFreshHash(self.operation));
                }
                self.renewed = true;
                QueryAction::RenewHash
            },
        }
    }
}

/// The body of an answer decides: one that is no JSON fails the query, one that does not know the
/// hash renews it the first time and fails the query the second time, and any other answers it.
pub proof fn law_answer_decides(renewed: bool, answer: json::Json)
    ensures
        answer_verdict(renewed, None) is Unreadable,
        answer_verdict(renewed, Some(answer)) is Answered <==> !reports_unknown_hash(
            error_codes_of(answer),
        ),
        answer_verdict(renewed, Some(answer)) is Renew <==> (!renewed && reports_unknown_hash(
            error_codes_of(answer),
        )),
        answer_verdict(renewed, Some(answer)) is Rejected <==> (renewed && reports_unknown_hash(
            error_codes_of(answer),
        )),
{
}

/// How often a query is sent, where `answers` are the bodies that come back, one by one.
pub open spec fn times_sent(renewed: bool, answers: spec_fn(nat) -> Option<json::Json>, at: nat) -> nat
    decreases (if renewed { 0nat } else { 1nat }),
{
    if answer_verdict(renewed, answers(at)) is Renew && !renewed {
        1 + times_sent(true, answers, at + 1)
    } else {
        1
    }
}

/// A query is sent once or twice; the second time only where the first answer said that the hash
/// is not known. No answer makes it go on after that.
pub proof fn law_query_is_sent_at_most_twice(
    answers: spec_fn(nat) -> Option<json::Json>,
    answer: Option<json::Json>,
)
    ensures
        1 <= times_sent(false, answers, 0) <= 2,
        times_sent(false, answers, 0) == 2 <==> (answers(0) matches Some(first)
            && reports_unknown_hash(error_codes_of(first))),
        answer_verdict(true, answer) !is Renew,
{
    reveal_with_fuel(times_sent, 3);
}

/// Both tries of a query are requests of the API for the same operation with the same variables:
/// their query pairs differ in the metadata alone, which names each by its own hash.
pub proof fn law_both_tries_ask_the_same(
    first: QueryAction,
    second: QueryAction,
    query: PersistedQuery,
    retried: PersistedQuery,
    hash: Seq<char>,
    other_hash: Seq<char>,
)
    requires
        sends(first, query, hash),
        same_query(query, retried),
        sends(second, retried, other_hash),
    ensures
        ({
            let variables = json::json_tree(*query.variables);
            let pairs = request_pairs(query.operation, variables, hash);
            &&& http::url_parts(first->url@) == Some((Some(API_HOST@), pairs))
            &&& http::url_parts(second->url@) == Some(
                (
                    Some(API_HOST@),
                    pairs.update(
                        2,
                        ("extensions"@, json::json_text(metadata_json(other_hash))),
                    ),
                ),
            )
        }),
{
    let variables = json::json_tree(*query.variables);
    assert(request_pairs(query.operation, variables, hash).update(
        2,
        ("extensions"@, json::json_text(metadata_json(other_hash))),
    ) == request_pairs(query.operation, variables, other_hash));
}

/// The last value that `pairs` give under `key`.
pub open spec fn last_value(pairs: Seq<(Seq<char>, Seq<char>)>, key: Seq<char>) -> Option<Seq<char>>
    decreases pairs.len(),
{
    if pairs.len() == 0 {
        None
    } else if pairs.last().0 == key {
        Some(pairs.last().1)
    } else {
        last_value(pairs.drop_last(), key)
    }
}

/// The metadata that a request carries, where `parts` are those of a request to the API for the
/// operation `expected`.
pub open spec fn metadata_in(
    parts: Option<(Option<Seq<char>>, Seq<(Seq<char>, Seq<char>)>)>,
    expected: Seq<char>,
) -> Option<Seq<char>> {
    match parts {
        Some((host, pairs)) => if host == Some(API_HOST@) && last_value(pairs, "operationName"@)
            == Some(expected) {
            last_value(pairs, "extensions"@)
        } else {
            None
        },
        None => None,
    }
}

/// The last value under a key is that of a pair with this key after which none has it.
pub proof fn law_last_value_is_the_last(
    pairs: Seq<(Seq<char>, Seq<char>)>,
    key: Seq<char>,
    at: int,
)
    requires
        0 <= at <= pairs.len(),
        forall|i: int| at < i < pairs.len() ==> (#[trigger] pairs[i]).0 != key,
        at < pairs.len() ==> pairs[at].0 == key,
        at == pairs.len() ==> forall|i: int|
            0 <= i < pairs.len() ==> (#[trigger] pairs[i]).0 != key,
    ensures
        last_value(pairs, key) == if at < pairs.len() {
            Some(pairs[at].1)
        } else {
            None
        },
    decreases pairs.len(),
{
    if pairs.len() > 0 {
        let rest = pairs.drop_last();
        assert(pairs.last() == pairs[pairs.len() - 1]);
        if at < pairs.len() - 1 {
            assert forall|i: int| at < i < rest.len() implies (#[trigger] rest[i]).0 != key by {
                assert(rest[i] == pairs[i]);
            }
            law_last_value_is_the_last(rest, key, at);
        } else if at == pairs.len() {
            assert forall|i: int| 0 <= i < rest.len() implies (#[trigger] rest[i]).0 != key by {
                assert(rest[i] == pairs[i]);
            }
            law_last_value_is_the_last(rest, key, at - 1);
        }
    }
}

/// Metadata is taken from a request to the API's own host whose last operation name is the one
/// expected, and is the last that the request carries. Nothing is taken from any other request.
pub proof fn law_metadata_comes_from_the_api(
    host: Option<Seq<char>>,
    pairs: Seq<(Seq<char>, Seq<char>)>,
    expected: Seq<char>,
)
    ensures
        metadata_in(None, expected) is None,
        host == Some("api.s-kaupat.fi"@) && last_value(pairs, "operationName"@) == Some(expected)
            ==> metadata_in(Some((host, pairs)), expected) == last_value(pairs, "extensions"@),
        host != Some("api.s-kaupat.fi"@) || last_value(pairs, "operationName"@) != Some(expected)
            ==> metadata_in(Some((host, pairs)), expected) is None,
{
}

/// The last value that `pairs` give under `key`.
fn find_last(pairs: &Vec<(String, String)>, key: &str) -> (value: Option<String>)
    ensures
        text::optional_view(value) == last_value(http::pair_views(pairs@), key@),
{
    let ghost all = http::pair_views(pairs@);
    let mut i: usize = pairs.len();
    assert(all.take(i as int) == all);
    while i > 0
        invariant
            i <= pairs@.len(),
            all == http::pair_views(pairs@),
            last_value(all, key@) == last_value(all.take(i as int), key@),
        decreases i,
    {
        assert(all.take(i as int).drop_last() == all.take(i - 1));
        assert(all.take(i as int).last() == (pairs@[i - 1].0@, pairs@[i - 1].1@));
        i = i - 1;
        if text::same_text(pairs[i].0.as_str(), key) {
            return Some(pairs[i].1.clone());
        }
    }
    None
}

/// The metadata that a request carries, where its host and query pairs are those of a request to
/// the API for the operation `expected`.
pub fn metadata_of_parts(host: &Option<String>, pairs: &Vec<(String, String)>, expected: &str) -> (found:
    Option<String>)
    ensures
        text::optional_view(found) == metadata_in(
            Some((text::optional_view(*host), http::pair_views(pairs@))),
            expected@,
        ),
{
    match host {
        Some(host) => {
            if !text::same_text(host.as_str(), API_HOST) {
                return None;
            }
        },
        None => {
            return None;
        },
    }
    match find_last(pairs, "operationName") {
        Some(operation) => {
            if !text::same_text(operation.as_str(), expected) {
                return None;
            }
        },
        None => {
            return None;
        },
    }
    find_last(pairs, "extensions")
}

/// The metadata that a request to the API for the operation `expected` carries, by its URL.
pub fn metadata_of_request(raw: &str, expected: &str) -> (found: Option<String>)
    ensures
        text::optional_view(found) == metadata_in(http::url_parts(raw@), expected@),
{
    match http::parse_url(raw) {
        Some((host, pairs)) => metadata_of_parts(&host, &pairs, expected),
        None => None,
    }
}

/// Whether `hash` is what `read_hash` makes of the metadata of a request: nothing where there is
/// none, and an error where it is malformed.
pub open spec fn is_hash_read<E, F: Fn(&str) -> Result<String, E>>(
    metadata: Option<Seq<char>>,
    read_hash: F,
    hash: Result<Option<String>, SKaupatError>,
) -> bool {
    match metadata {
        None => hash == Ok::<Option<String>, SKaupatError>(None),
        Some(metadata) => exists|given: &str, outcome: Result<String, E>|
            given@ == metadata && #[trigger] call_ensures(read_hash, (given,), outcome)
                && match outcome {
                Ok(read) => hash == Ok::<Option<String>, SKaupatError>(Some(read)),
                Err(_) => hash == Err::<Option<String>, SKaupatError>(
                    SKaupatError::MalformedMetadata,
                ),
            },
    }
}

/// The hash that a request to the API for the operation `expected` carries, by its URL. Nothing
/// for any other request, or one without metadata. `read_hash` reads the hash out of the
/// metadata; it is handed in because serde derives it, and nothing is said here of what it
/// accepts.
pub fn hash_from_request_url<E, F: Fn(&str) -> Result<String, E>>(
    raw: &str,
    expected: &str,
    read_hash: &F,
) -> (hash: Result<Option<String>, SKaupatError>)
    requires
        forall|metadata: &str| call_requires(*read_hash, (metadata,)),
    ensures
        is_hash_read(metadata_in(http::url_parts(raw@), expected@), *read_hash, hash),
{
    match metadata_of_request(raw, expected) {
        None => Ok(None),
        Some(metadata) => {
            let given: &str = metadata.as_str();
            let outcome: Result<String, E> = read_hash(given);
            match outcome {
                Ok(read) => Ok(Some(read)),
                Err(_) => Err(SKaupatError::MalformedMetadata),
            }
        },
    }
}

/// The metadata of a request is found in the request's own URL under its own operation, and under
/// no other.
pub proof fn law_metadata_is_read_back(
    operation: Operation,
    variables: json::Json,
    hash: Seq<char>,
    expected: Seq<char>,
)
    ensures
        ({
            let parts = Some((Some(API_HOST@), request_pairs(operation, variables, hash)));
            &&& metadata_in(parts, operation.called()) == Some(
                json::json_text(metadata_json(hash)),
            )
            &&& expected != operation.called() ==> metadata_in(parts, expected) is None
        }),
{
    let pairs = request_pairs(operation, variables, hash);
    reveal_strlit("operationName");
    reveal_strlit("variables");
    reveal_strlit("extensions");
    assert("extensions"@.len() == 10 && "operationName"@.len() == 13 && "variables"@.len() == 9);
    assert(pairs.drop_last().last() == pairs[1]);
    assert(pairs.drop_last().drop_last().last() == pairs[0]);
    reveal_with_fuel(last_value, 4);
}

/// The hash of a request is read back out of the request's own URL, and none is found there for
/// the other operation, where `read_hash` reads metadata back: all that it makes of the metadata
/// that names `hash` is `hash`.
pub proof fn law_hash_is_read_back<E, F: Fn(&str) -> Result<String, E>>(
    url: Seq<char>,
    operation: Operation,
    other: Operation,
    variables: json::Json,
    hash: Seq<char>,
    read_hash: F,
    own: Result<Option<String>, SKaupatError>,
    foreign: Result<Option<String>, SKaupatError>,
)
    requires
        is_request_url(url, operation, variables, hash),
        other != operation,
        forall|given: &str, outcome: Result<String, E>|
            given@ == json::json_text(metadata_json(hash)) && #[trigger] call_ensures(
                read_hash,
                (given,),
                outcome,
            ) ==> (outcome matches Ok(read) && read@ == hash),
        is_hash_read(metadata_in(http::url_parts(url), operation.called()), read_hash, own),
        is_hash_read(metadata_in(http::url_parts(url), other.called()), read_hash, foreign),
    ensures
        own matches Ok(Some(read)) && read@ == hash,
        foreign == Ok::<Option<String>, SKaupatError>(None),
{
    reveal_strlit("RemoteFilteredProducts");
    reveal_strlit("RemoteStoreSearch");
    assert("RemoteFilteredProducts"@.len() == 22 && "RemoteStoreSearch"@.len() == 17);
    law_metadata_is_read_back(operation, variables, hash, other.called());
}

/// The reader decides what is made of metadata: the hash that it reads, or an error where it reads
/// none. Without metadata there is no hash, whatever the reader does.
pub proof fn law_reader_decides_the_hash<E, F: Fn(&str) -> Result<String, E>>(
    metadata: Seq<char>,
    read_hash: F,
    hash: Result<Option<String>, SKaupatError>,
    none: Result<Option<String>, SKaupatError>,
)
    requires
        is_hash_read(Some(metadata), read_hash, hash),
        is_hash_read(None, read_hash, none),
    ensures
        none == Ok::<Option<String>, SKaupatError>(None),
        hash matches Ok(found) ==> {
            &&& found is Some
            &&& exists|given: &str|
                given@ == metadata && #[trigger] call_ensures(
                    read_hash,
                    (given,),
                    Ok::<String, E>(found->0),
                )
        },
        hash matches Err(error) ==> error is MalformedMetadata && exists|given: &str, reason: E|
            given@ == metadata && #[trigger] call_ensures(
                read_hash,
                (given,),
                Err::<String, E>(reason),
            ),
{
    let (given, outcome) = choose|given: &str, outcome: Result<String, E>|
        given@ == metadata && #[trigger] call_ensures(read_hash, (given,), outcome) && match outcome {
            Ok(read) => hash == Ok::<Option<String>, SKaupatError>(Some(read)),
            Err(_) => hash == Err::<Option<String>, SKaupatError>(SKaupatError::MalformedMetadata),
        };
    match outcome {
        Ok(read) => {
            let found = hash->Ok_0;
            assert(found == Some(read));
            assert(given@ == metadata && call_ensures(
                read_hash,
                (given,),
                Ok::<String, E>(found->0),
            ));
        },
        Err(reason) => {
            assert(call_ensures(read_hash, (given,), Err::<String, E>(reason)));
        },
    }
}

/// What a hash discovery does next.
pub enum DiscoveryAction {
    /// Listen to the tab's requests.
    Listen,
    /// Open the page at `url` in the tab.
    OpenPage { url: String },
    /// Make the stores page search.
    TriggerStoreSearch,
    /// Wait for the next request of the tab.
    AwaitRequest,
    /// The hash is found.
    Finish(String),
    /// The hash could not be found.
    Fail(SKaupatError),
}

/// What a probe of the stores page gave.
pub enum Probe {
    /// The page could not be asked.
    Failed,
    /// The answer was no yes or no.
    NotBoolean,
    /// Whether the button that starts a search was there, and was pressed.
    Clicked(bool),
}

/// What making the stores page search does next.
pub enum TriggerAction {
    /// The page searches.
    Done,
    /// Probe again after this many milliseconds.
    ProbeAfter(u64),
    /// The page could not be made to search.
    Fail(SKaupatError),
}

/// How long the stores page is left alone between two probes, in milliseconds.
pub const PROBE_INTERVAL_MILLIS: u64 = 200;

/// Takes what a probe of the stores page gave; nothing where the time for it ran out.
pub fn on_probe(probe: Option<Probe>) -> (action: TriggerAction)
    ensures
        match probe {
            None => action == TriggerAction::Fail(SKaupatError::TriggerTimedOut),
            Some(Probe::Failed) => action == TriggerAction::Fail(SKaupatError::ProbeFailed),
            Some(Probe::NotBoolean) => action == TriggerAction::Fail(SKaupatError::ProbeShape),
            Some(Probe::Clicked(true)) => action is Done,
            Some(Probe::Clicked(false)) => action == TriggerAction::ProbeAfter(
                PROBE_INTERVAL_MILLIS,
            ),
        },
{
    match probe {
        None => TriggerAction::Fail(SKaupatError::TriggerTimedOut),
        Some(Probe::Failed) => TriggerAction::Fail(SKaupatError::ProbeFailed),
        Some(Probe::NotBoolean) => TriggerAction::Fail(SKaupatError::ProbeShape),
        Some(Probe::Clicked(clicked)) => if clicked {
            TriggerAction::Done
        } else {
            TriggerAction::ProbeAfter(PROBE_INTERVAL_MILLIS)
        },
    }
}

/// What becomes of a discovery when a request of the tab comes.
pub ghost enum RequestVerdict {
    /// The next request is waited for.
    Await,
    /// The hash is read out of this metadata, and the discovery ends.
    Read(Seq<char>),
    /// The discovery ends without a hash.
    TrafficEnded,
}

/// What becomes of a discovery when a request of the tab comes, or when its traffic ends.
pub open spec fn request_verdict(operation: Operation, url: Option<Seq<char>>) -> RequestVerdict {
    match url {
        None => RequestVerdict::TrafficEnded,
        Some(url) => match metadata_in(http::url_parts(url), operation.called()) {
            Some(metadata) => RequestVerdict::Read(metadata),
            None => RequestVerdict::Await,
        },
    }
}

/// What becomes of a discovery when requests come, one by one, and the traffic then ends.
pub open spec fn discovery_over(operation: Operation, urls: Seq<Seq<char>>) -> RequestVerdict
    decreases urls.len(),
{
    if urls.len() == 0 {
        request_verdict(operation, None)
    } else {
        match request_verdict(operation, Some(urls[0])) {
            RequestVerdict::Await => discovery_over(operation, urls.skip(1)),
            verdict => verdict,
        }
    }
}

/// The first request of the operation with metadata decides a discovery, whatever comes after it.
pub proof fn law_first_request_decides(operation: Operation, urls: Seq<Seq<char>>, first: int)
    requires
        0 <= first < urls.len(),
        forall|i: int|
            0 <= i < first ==> metadata_in(
                http::url_parts(#[trigger] urls[i]),
                operation.called(),
            ) is None,
        metadata_in(http::url_parts(urls[first]), operation.called()) is Some,
    ensures
        discovery_over(operation, urls) == RequestVerdict::Read(
            metadata_in(http::url_parts(urls[first]), operation.called())->0,
        ),
    decreases urls.len(),
{
    if first > 0 {
        let rest = urls.skip(1);
        assert(metadata_in(http::url_parts(urls[0]), operation.called()) is None);
        assert forall|i: int| 0 <= i < first - 1 implies metadata_in(
            http::url_parts(#[trigger] rest[i]),
            operation.called(),
        ) is None by {
            assert(rest[i] == urls[i + 1]);
        }
        law_first_request_decides(operation, rest, first - 1);
    }
}

/// A discovery that sees no request of the operation with metadata fails when the traffic ends.
pub proof fn law_discovery_fails_without_metadata(operation: Operation, urls: Seq<Seq<char>>)
    requires
        forall|i: int|
            0 <= i < urls.len() ==> metadata_in(
                http::url_parts(#[trigger] urls[i]),
                operation.called(),
            ) is None,
    ensures
        discovery_over(operation, urls) is TrafficEnded,
    decreases urls.len(),
{
    if urls.len() > 0 {
        let rest = urls.skip(1);
        assert(metadata_in(http::url_parts(urls[0]), operation.called()) is None);
        assert forall|i: int| 0 <= i < rest.len() implies metadata_in(
            http::url_parts(#[trigger] rest[i]),
            operation.called(),
        ) is None by {
            assert(rest[i] == urls[i + 1]);
        }
        law_discovery_fails_without_metadata(operation, rest);
    }
}

/// The discovery of an operation's hash in the traffic of a browser tab.
pub struct Discovery {
    pub operation: Operation,
}

impl Discovery {
    /// Takes whether a tab was opened.
    pub fn on_tab(&self, opened: bool) -> (action: DiscoveryAction)
        ensures
            action == if opened {
                DiscoveryAction::Listen
            } else {
                DiscoveryAction::Fail(SKaupatError::TabFailed)
            },
    {
        if opened {
            DiscoveryAction::Listen
        } else {
            DiscoveryAction::Fail(SKaupatError::TabFailed)
        }
    }

    /// Takes whether the tab's requests are listened to.
    pub fn on_listening(&self, listening: bool) -> (action: DiscoveryAction)
        ensures
            if listening {
                action matches DiscoveryAction::OpenPage { url } && url@
                    == self.operation.discovered_at()
            } else {
                action == DiscoveryAction::Fail(SKaupatError::ListenerFailed)
            },
    {
        if listening {
            DiscoveryAction::OpenPage { url: self.operation.discovery_url().to_owned() }
        } else {
            DiscoveryAction::Fail(SKaupatError::ListenerFailed)
        }
    }

    /// Takes whether the page was opened. The stores page sends its search only when it is made
    /// to.
    pub fn on_page(&self, opened: bool) -> (action: DiscoveryAction)
        ensures
            action == if !opened {
                DiscoveryAction::Fail(SKaupatError::PageFailed(self.operation))
            } else if self.operation == Operation::Stores {
                DiscoveryAction::TriggerStoreSearch
            } else {
                DiscoveryAction::AwaitRequest
            },
    {
        if !opened {
            return DiscoveryAction::Fail(SKaupatError::PageFailed(self.operation));
        }
        match self.operation {
            Operation::Stores => DiscoveryAction::TriggerStoreSearch,
            Operation::Products => DiscoveryAction::AwaitRequest,
        }
    }

    /// Takes whether the stores page was made to search.
    pub fn on_trigger(&self, outcome: Result<(), SKaupatError>) -> (action: DiscoveryAction)
        ensures
            action == match outcome {
                Ok(()) => DiscoveryAction::AwaitRequest,
                Err(error) => DiscoveryAction::Fail(error),
            },
    {
        match outcome {
            Ok(()) => DiscoveryAction::AwaitRequest,
            Err(error) => DiscoveryAction::Fail(error),
        }
    }

    /// Takes the hash that was found in a request of the tab, if any.
    pub fn on_hash(&self, hash: Result<Option<String>, SKaupatError>) -> (action: DiscoveryAction)
        ensures
            action == match hash {
                Ok(Some(hash)) => DiscoveryAction::Finish(hash),
                Ok(None) => DiscoveryAction::AwaitRequest,
                Err(error) => DiscoveryAction::Fail(error),
            },
    {
        match hash {
            Ok(Some(hash)) => DiscoveryAction::Finish(hash),
            Ok(None) => DiscoveryAction::AwaitRequest,
            Err(error) => DiscoveryAction::Fail(error),
        }
    }

    /// Takes the URL of a request of the tab; nothing where its traffic ended. The first request
    /// of the operation with metadata decides. `read_hash` reads the hash out of the metadata.
    pub fn on_request<E, F: Fn(&str) -> Result<String, E>>(&self, url: Option<&str>, read_hash: &F) -> (action:
        DiscoveryAction)
        requires
            forall|metadata: &str| call_requires(*read_hash, (metadata,)),
        ensures
            match request_verdict(self.operation, text::slice_view(url)) {
                RequestVerdict::TrafficEnded => action == DiscoveryAction::Fail(
                    SKaupatError::TrafficEnded,
                ),
                RequestVerdict::Await => action is AwaitRequest,
                RequestVerdict::Read(metadata) => exists|given: &str, outcome: Result<String, E>|
                    given@ == metadata && #[trigger] call_ensures(*read_hash, (given,), outcome)
                        && match outcome {
                        Ok(read) => action == DiscoveryAction::Finish(read),
                        Err(_) => action == DiscoveryAction::Fail(SKaupatError::MalformedMetadata),
                    },
            },
    {
        match url {
            None => DiscoveryAction::Fail(SKaupatError::TrafficEnded),
            Some(url) => self.on_hash(
                hash_from_request_url(url, self.operation.name(), read_hash),
            ),
        }
    }

    /// Takes that the time for the discovery ran out.
    pub fn on_timeout(&self) -> (action: DiscoveryAction)
        ensures
            action == DiscoveryAction::Fail(SKaupatError::DiscoveryTimedOut(self.operation)),
    {
        DiscoveryAction::Fail(SKaupatError::DiscoveryTimedOut(self.operation))
    }
}

/// The variables of a product search.
pub open spec fn product_search_json(query: Seq<char>, store_id: Seq<char>, limit: u32) -> json::Json {
    json::Json::Object(
        Map::empty().insert("queryString"@, json::Json::Text(query)).insert(
            "storeId"@,
            json::Json::Text(store_id),
        ).insert("from"@, json::Json::Integer(0)).insert("limit"@, json::Json::Integer(limit as int)),
    )
}

/// The names of the variables have different lengths, so no two are the same.
proof fn lemma_variable_keys()
    ensures
        "from"@.len() == 4,
        "limit"@.len() == 5,
        "storeId"@.len() == 7,
        "queryString"@.len() == 11,
{
    reveal_strlit("from");
    reveal_strlit("limit");
    reveal_strlit("storeId");
    reveal_strlit("queryString");
}

proof fn lemma_product_search_members(query: Seq<char>, store_id: Seq<char>, limit: u32)
    ensures
        ({
            let variables = product_search_json(query, store_id, limit);
            &&& json::member(variables, "queryString"@) == Some(json::Json::Text(query))
            &&& json::member(variables, "storeId"@) == Some(json::Json::Text(store_id))
            &&& json::member(variables, "from"@) == Some(json::Json::Integer(0))
            &&& json::member(variables, "limit"@) == Some(json::Json::Integer(limit as int))
        }),
{
    lemma_variable_keys();
}

/// The variables of a product search hold the whole term, the whole store id, where to begin and
/// the number of results, and nothing else. So searches with the same variables are the same.
pub proof fn law_product_variables_say_what_is_asked(
    query: Seq<char>,
    store_id: Seq<char>,
    limit: u32,
    key: Seq<char>,
    other_query: Seq<char>,
    other_store_id: Seq<char>,
    other_limit: u32,
)
    ensures
        ({
            let variables = product_search_json(query, store_id, limit);
            &&& json::member(variables, "queryString"@) == Some(json::Json::Text(query))
            &&& json::member(variables, "storeId"@) == Some(json::Json::Text(store_id))
            &&& json::member(variables, "from"@) == Some(json::Json::Integer(0))
            &&& json::member(variables, "limit"@) == Some(json::Json::Integer(limit as int))
            &&& key != "queryString"@ && key != "storeId"@ && key != "from"@ && key != "limit"@
                ==> json::member(variables, key) is None
        }),
        product_search_json(query, store_id, limit) == product_search_json(
            other_query,
            other_store_id,
            other_limit,
        ) ==> query == other_query && store_id == other_store_id && limit == other_limit,
{
    lemma_product_search_members(query, store_id, limit);
    lemma_product_search_members(other_query, other_store_id, other_limit);
}

/// The variables of a product search at a store.
pub fn product_search_variables(query: &str, store_id: &str, limit: Option<u32>) -> (variables:
    Result<serde_json::Value, SKaupatError>)
    ensures
        match variables {
            Ok(variables) => {
                &&& text::trimmed(query@).len() > 0
                &&& text::trimmed(store_id@).len() > 0
                &&& json::json_tree(variables) == product_search_json(
                    text::trimmed(query@),
                    text::trimmed(store_id@),
                    catalog::clamped(limit),
                )
                &&& json::member(json::json_tree(variables), "queryString"@) == Some(
                    json::Json::Text(text::trimmed(query@)),
                )
                &&& json::member(json::json_tree(variables), "storeId"@) == Some(
                    json::Json::Text(text::trimmed(store_id@)),
                )
                &&& json::member(json::json_tree(variables), "from"@) == Some(
                    json::Json::Integer(0),
                )
                &&& json::member(json::json_tree(variables), "limit"@) == Some(
                    json::Json::Integer(catalog::clamped(limit) as int),
                )
            },
            Err(error) => if text::trimmed(query@).len() == 0 {
                error is EmptyQuery
            } else {
                text::trimmed(store_id@).len() == 0 && error is EmptyStoreId
            },
        },
{
    let query: &str = text::trim(query);
    if query.is_empty() {
        return Err(SKaupatError::EmptyQuery);
    }
    let store_id: &str = text::trim(store_id);
    if store_id.is_empty() {
        return Err(SKaupatError::EmptyStoreId);
    }
    let mut pairs: Vec<(String, serde_json::Value)> = Vec::new();
    pairs.push(("queryString".to_owned(), json::json_string(query)));
    pairs.push(("storeId".to_owned(), json::json_string(store_id)));
    pairs.push(("from".to_owned(), json::json_integer(0)));
    pairs.push(("limit".to_owned(), json::json_integer(clamp_limit(limit))));
    proof {
        reveal_with_fuel(json::members_of, 5);
        assert(pairs@.drop_last().drop_last().drop_last().drop_last() == Seq::<
            (String, serde_json::Value),
        >::empty());
        lemma_variable_keys();
    }
    Ok(json::json_object(pairs))
}

/// A product in a list of search results, as S-Kaupat describes it. `P` is the type of prices.
pub struct ProductListItem<P> {
    pub product: SKaupatProduct<P>,
}

/// A product as S-Kaupat describes it.
pub struct SKaupatProduct<P> {
    pub name: String,
    pub ean: String,
    pub price: Option<P>,
    pub brand_name: Option<String>,
    pub pricing: Pricing<P>,
    pub product_details: ProductDetails,
    pub hierarchy_path: Vec<HierarchyItem>,
}

/// The prices of a product.
pub struct Pricing<P> {
    pub current_price: Option<P>,
    pub comparison_price: Option<P>,
    pub comparison_unit: Option<String>,
}

/// The details of a product.
pub struct ProductDetails {
    pub product_images: ProductImages,
}

/// The pictures of a product.
pub struct ProductImages {
    pub main_image: Option<ProductImage>,
}

/// A picture, by a template of its address.
pub struct ProductImage {
    pub url_template: String,
}

/// A category that a product is in.
pub struct HierarchyItem {
    pub name: String,
}

/// An answer to a product search, as S-Kaupat gives it.
pub struct ProductsConnection<P> {
    pub total: u64,
    pub product_list_items: Vec<ProductListItem<P>>,
}

/// A product as callers see it.
#[derive(Debug)]
pub struct SKaupatProductView<P> {
    pub ean: String,
    pub name: String,
    pub price: Option<P>,
    pub comparison_price: Option<P>,
    pub comparison_unit: Option<String>,
    pub brand: Option<String>,
    pub category: Option<String>,
    pub image_url: Option<String>,
}

/// An answer to a product search, as callers see it.
#[derive(Debug)]
pub struct SKaupatProductSearchView<P> {
    pub total_hits: u64,
    pub results: Vec<SKaupatProductView<P>>,
}

/// The address of a picture, from its template.
pub open spec fn image_address(template: Seq<char>) -> Seq<char> {
    text::replaced(
        text::replaced(template, "{MODIFIERS}"@, "w_400,h_400"@),
        "{EXTENSION}"@,
        "png"@,
    )
}

/// No placeholder is left in the address of a picture.
pub proof fn law_no_placeholder_is_left(template: Seq<char>)
    ensures
        !text::occurs(image_address(template), "{MODIFIERS}"@),
        !text::occurs(image_address(template), "{EXTENSION}"@),
{
    reveal_strlit("{MODIFIERS}");
    reveal_strlit("{EXTENSION}");
    reveal_strlit("w_400,h_400");
    reveal_strlit("png");
    let sized = text::replaced(template, "{MODIFIERS}"@, "w_400,h_400"@);
    text::law_replacing_leaves_nothing(template, "{MODIFIERS}"@, "w_400,h_400"@);
    text::law_replacing_leaves_nothing(sized, "{EXTENSION}"@, "png"@);
    if text::occurs(image_address(template), "{MODIFIERS}"@) {
        text::law_replacing_adds_nothing_else(sized, "{EXTENSION}"@, "png"@, "{MODIFIERS}"@);
    }
}

proof fn lemma_replaced_after(head: Seq<char>, rest: Seq<char>, pattern: Seq<char>, by: Seq<char>)
    requires
        pattern.len() > 0,
        !head.contains(pattern[0]),
    ensures
        text::replaced(head + rest, pattern, by) == head + text::replaced(rest, pattern, by),
    decreases head.len(),
{
    if head.len() == 0 {
        assert(head + rest == rest);
        assert(head + text::replaced(rest, pattern, by) == text::replaced(rest, pattern, by));
    } else {
        let whole = head + rest;
        let tail = head.skip(1);
        assert(head.contains(head[0]));
        if text::stands_at(whole, pattern, 0) {
            assert(whole.subrange(0, pattern.len() as int)[0] == head[0]);
        }
        assert forall|i: int| 0 <= i < tail.len() implies tail[i] != pattern[0] by {
            assert(head.contains(head[i + 1]));
        }
        assert(whole.skip(1) == tail + rest);
        lemma_replaced_after(tail, rest, pattern, by);
        assert(seq![head[0]] + (tail + text::replaced(rest, pattern, by)) == head + text::replaced(
            rest,
            pattern,
            by,
        ));
    }
}

/// Whether `piece` is the pattern, or a text that no occurrence of the pattern reaches into.
spec fn stands_alone(piece: Seq<char>, pattern: Seq<char>) -> bool {
    ||| piece == pattern
    ||| !piece.contains(pattern[0])
    ||| piece.len() > 1 && pattern.len() > 1 && piece[1] != pattern[1] && !piece.skip(1).contains(
        pattern[0],
    )
}

/// A piece after replacing.
spec fn replaced_piece(piece: Seq<char>, pattern: Seq<char>, by: Seq<char>) -> Seq<char> {
    if piece == pattern {
        by
    } else {
        piece
    }
}

proof fn lemma_replaced_piece(piece: Seq<char>, rest: Seq<char>, pattern: Seq<char>, by: Seq<char>)
    requires
        pattern.len() > 0,
        stands_alone(piece, pattern),
    ensures
        text::replaced(piece + rest, pattern, by) == replaced_piece(piece, pattern, by)
            + text::replaced(rest, pattern, by),
{
    let whole = piece + rest;
    if piece == pattern {
        assert(whole.subrange(0, pattern.len() as int) =~= pattern);
        assert(whole.skip(pattern.len() as int) == rest);
    } else if !piece.contains(pattern[0]) {
        lemma_replaced_after(piece, rest, pattern, by);
    } else {
        if text::stands_at(whole, pattern, 0) {
            assert(whole.subrange(0, pattern.len() as int)[1] == piece[1]);
        }
        let tail = piece.skip(1);
        assert(whole.skip(1) == tail + rest);
        lemma_replaced_after(tail, rest, pattern, by);
        assert(seq![piece[0]] + (tail + text::replaced(rest, pattern, by)) == piece
            + text::replaced(rest, pattern, by));
    }
}

proof fn lemma_replaced_in_template(
    head: Seq<char>,
    first: Seq<char>,
    middle: Seq<char>,
    second: Seq<char>,
    tail: Seq<char>,
    pattern: Seq<char>,
    by: Seq<char>,
)
    requires
        pattern.len() > 0,
        !head.contains(pattern[0]),
        !middle.contains(pattern[0]),
        !tail.contains(pattern[0]),
        stands_alone(first, pattern),
        stands_alone(second, pattern),
    ensures
        text::replaced(head + first + middle + second + tail, pattern, by) == head + replaced_piece(
            first,
            pattern,
            by,
        ) + middle + replaced_piece(second, pattern, by) + tail,
{
    let after_second = tail + Seq::<char>::empty();
    assert(after_second == tail);
    lemma_replaced_after(tail, Seq::empty(), pattern, by);
    assert(text::replaced(Seq::empty(), pattern, by) == Seq::<char>::empty());
    assert(text::replaced(tail, pattern, by) == tail);
    lemma_replaced_piece(second, tail, pattern, by);
    lemma_replaced_after(middle, second + tail, pattern, by);
    lemma_replaced_piece(first, middle + (second + tail), pattern, by);
    lemma_replaced_after(head, first + (middle + (second + tail)), pattern, by);
    assert(head + first + middle + second + tail == head + (first + (middle + (second + tail))));
    let a = replaced_piece(first, pattern, by);
    let b = replaced_piece(second, pattern, by);
    assert(head + a + middle + b + tail == head + (a + (middle + (b + tail))));
}

/// The address of a picture is its template with the size in place of the one placeholder and the
/// format in place of the other, in whichever order and however often they stand there; a template
/// without placeholders is the address itself.
pub proof fn law_placeholders_are_filled_in(head: Seq<char>, middle: Seq<char>, tail: Seq<char>)
    requires
        !head.contains('{'),
        !middle.contains('{'),
        !tail.contains('{'),
    ensures
        image_address(head) == head,
        image_address(head + "{MODIFIERS}"@ + middle + "{EXTENSION}"@ + tail) == head
            + "w_400,h_400"@ + middle + "png"@ + tail,
        image_address(head + "{EXTENSION}"@ + middle + "{MODIFIERS}"@ + tail) == head + "png"@
            + middle + "w_400,h_400"@ + tail,
        image_address(head + "{MODIFIERS}"@ + middle + "{MODIFIERS}"@ + tail) == head
            + "w_400,h_400"@ + middle + "w_400,h_400"@ + tail,
        image_address(head + "{EXTENSION}"@ + middle + "{EXTENSION}"@ + tail) == head + "png"@
            + middle + "png"@ + tail,
{
    let size = "{MODIFIERS}"@;
    let format = "{EXTENSION}"@;
    let sized = "w_400,h_400"@;
    let png = "png"@;
    reveal_strlit("{MODIFIERS}");
    reveal_strlit("{EXTENSION}");
    reveal_strlit("w_400,h_400");
    reveal_strlit("png");
    assert(size[1] == 'M' && format[1] == 'E');
    assert(!sized.contains('{') && !png.contains('{'));
    assert(!size.skip(1).contains('{') && !format.skip(1).contains('{'));
    assert(sized != format && size != format && sized[0] == 'w' && png[0] == 'p');
    lemma_replaced_after(head, Seq::empty(), size, sized);
    lemma_replaced_after(head, Seq::empty(), format, png);
    assert(head + Seq::<char>::empty() == head);
    lemma_replaced_in_template(head, size, middle, format, tail, size, sized);
    lemma_replaced_in_template(head, sized, middle, format, tail, format, png);
    lemma_replaced_in_template(head, format, middle, size, tail, size, sized);
    lemma_replaced_in_template(head, format, middle, sized, tail, format, png);
    lemma_replaced_in_template(head, size, middle, size, tail, size, sized);
    lemma_replaced_in_template(head, sized, middle, sized, tail, format, png);
    lemma_replaced_in_template(head, format, middle, format, tail, size, sized);
    lemma_replaced_in_template(head, format, middle, format, tail, format, png);
}

/// Whether `view` shows the product of `item`.
pub open spec fn shows_product<P>(view: SKaupatProductView<P>, item: ProductListItem<P>) -> bool {
    let product = item.product;
    &&& view.ean == product.ean
    &&& view.name == product.name
    &&& view.price == match product.pricing.current_price {
        Some(price) => Some(price),
        None => product.price,
    }
    &&& view.comparison_price == product.pricing.comparison_price
    &&& view.comparison_unit == product.pricing.comparison_unit
    &&& view.brand == product.brand_name
    &&& view.category == if product.hierarchy_path@.len() > 0 {
        Some(product.hierarchy_path@[0].name)
    } else {
        None
    }
    &&& match product.product_details.product_images.main_image {
        Some(image) => view.image_url matches Some(url) && url@ == image_address(
            image.url_template@,
        ),
        None => view.image_url is None,
    }
}

/// A product is shown with its own number, name, comparison price, unit and brand; with its
/// current price, or its list price where there is no current one; with a category exactly where
/// it is in one, the first; and with a picture exactly where it has one.
pub proof fn law_products_are_shown_as_they_are<P>(view: SKaupatProductView<P>, item: ProductListItem<P>)
    requires
        shows_product(view, item),
    ensures
        view.ean@ == item.product.ean@,
        view.name@ == item.product.name@,
        item.product.pricing.current_price is Some ==> view.price
            == item.product.pricing.current_price,
        item.product.pricing.current_price is None ==> view.price == item.product.price,
        view.comparison_price == item.product.pricing.comparison_price,
        view.comparison_unit == item.product.pricing.comparison_unit,
        view.brand == item.product.brand_name,
        view.category is Some <==> item.product.hierarchy_path@.len() > 0,
        item.product.hierarchy_path@.len() > 0 ==> view.category == Some(
            item.product.hierarchy_path@[0].name,
        ),
        view.image_url is Some
            <==> item.product.product_details.product_images.main_image is Some,
        item.product.product_details.product_images.main_image matches Some(image)
            ==> view.image_url->0@ == image_address(image.url_template@),
{
}

impl<P> SKaupatProductView<P> {
    pub fn from_item(item: ProductListItem<P>) -> (view: Self)
        ensures
            shows_product(view, item),
    {
        let product: SKaupatProduct<P> = item.product;
        let image_url: Option<String> = match product.product_details.product_images.main_image {
            Some(image) => {
                proof {
                    reveal_strlit("{MODIFIERS}");
                    reveal_strlit("{EXTENSION}");
                }
                let sized: String = text::replace(
                    image.url_template.as_str(),
                    "{MODIFIERS}",
                    "w_400,h_400",
                );
                Some(text::replace(sized.as_str(), "{EXTENSION}", "png"))
            },
            None => None,
        };
        let mut path: Vec<HierarchyItem> = product.hierarchy_path;
        let category: Option<String> = if path.len() > 0 {
            Some(path.remove(0).name)
        } else {
            None
        };
        let price: Option<P> = match product.pricing.current_price {
            Some(price) => Some(price),
            None => product.price,
        };
        SKaupatProductView {
            ean: product.ean,
            name: product.name,
            price,
            comparison_price: product.pricing.comparison_price,
            comparison_unit: product.pricing.comparison_unit,
            brand: product.brand_name,
            category,
            image_url,
        }
    }
}

/// What callers see of an answer to a product search: its products in their order, and how many
/// there are in all.
pub fn product_search_view<P>(products: ProductsConnection<P>) -> (view: SKaupatProductSearchView<P>)
    ensures
        view.total_hits == products.total,
        view.results@.len() == products.product_list_items@.len(),
        forall|i: int|
            0 <= i < products.product_list_items@.len() ==> shows_product(
                #[trigger] view.results@[i],
                products.product_list_items@[i],
            ),
{
    let mut results: Vec<SKaupatProductView<P>> = Vec::new();
    let ghost items = products.product_list_items@;
    for item in it: products.product_list_items
        invariant
            it.seq() == items,
            results@.len() == it.index(),
            forall|i: int|
                0 <= i < it.index() ==> shows_product(#[trigger] results@[i], items[i]),
    {
        results.push(SKaupatProductView::from_item(item));
    }
    SKaupatProductSearchView { total_hits: products.total, results }
}

/// A store as S-Kaupat describes it.
pub struct SKaupatStore {
    pub id: String,
    pub name: String,
    pub location: StoreLocation,
}

/// Where a store is.
pub struct StoreLocation {
    pub address: StoreAddress,
}

/// The address of a store.
pub struct StoreAddress {
    pub postcode_name: LocalizedString,
}

/// A text that may be had in several languages.
pub struct LocalizedString {
    pub default: String,
}

/// A page of an answer to a store search, as S-Kaupat gives it.
pub struct StoreSearchConnection {
    pub total_count: u64,
    /// What the next page is asked for with, where there is one.
    pub cursor: Option<String>,
    pub stores: Vec<SKaupatStore>,
}

/// A store as callers see it.
#[derive(Debug)]
pub struct SKaupatStoreView {
    pub store_id: String,
    pub name: String,
    pub city: String,
}

/// An answer to a store search, as callers see it.
#[derive(Debug)]
pub struct SKaupatStoreSearchView {
    pub total_hits: u64,
    pub results: Vec<SKaupatStoreView>,
}

/// A store as callers see it.
pub open spec fn store_view(store: SKaupatStore) -> SKaupatStoreView {
    SKaupatStoreView {
        store_id: store.id,
        name: store.name,
        city: store.location.address.postcode_name.default,
    }
}

impl From<SKaupatStore> for SKaupatStoreView {
    fn from(store: SKaupatStore) -> (view: Self) {
        SKaupatStoreView {
            store_id: store.id,
            name: store.name,
            city: store.location.address.postcode_name.default,
        }
    }
}

impl vstd::std_specs::convert::FromSpecImpl<SKaupatStore> for SKaupatStoreView {
    open spec fn obeys_from_spec() -> bool {
        true
    }

    open spec fn from_spec(store: SKaupatStore) -> Self {
        store_view(store)
    }
}

/// The stores of a page, as callers see them.
pub open spec fn stores_on(page: StoreSearchConnection) -> Seq<SKaupatStoreView> {
    page.stores@.map_values(|store: SKaupatStore| store_view(store))
}

/// The stores of pages in their order, as callers see them.
pub open spec fn stores_on_all(pages: Seq<StoreSearchConnection>) -> Seq<SKaupatStoreView>
    decreases pages.len(),
{
    if pages.len() == 0 {
        Seq::empty()
    } else {
        stores_on(pages[0]) + stores_on_all(pages.skip(1))
    }
}

/// A store is shown with its own number and name, and with the place of its postal code as its
/// city.
pub proof fn law_stores_are_shown_as_they_are(store: SKaupatStore)
    ensures
        store_view(store).store_id == store.id,
        store_view(store).name == store.name,
        store_view(store).city == store.location.address.postcode_name.default,
{
}

/// The stores of a row of pages are the stores of each page, all of them, page after page.
pub proof fn law_pages_list_all_their_stores(pages: Seq<StoreSearchConnection>)
    ensures
        stores_on_all(pages) == pages.map_values(
            |page: StoreSearchConnection|
                page.stores@.map_values(
                    |store: SKaupatStore|
                        (SKaupatStoreView {
                            store_id: store.id,
                            name: store.name,
                            city: store.location.address.postcode_name.default,
                        }),
                ),
        ).flatten(),
    decreases pages.len(),
{
    let shown = |page: StoreSearchConnection|
        page.stores@.map_values(
            |store: SKaupatStore|
                (SKaupatStoreView {
                    store_id: store.id,
                    name: store.name,
                    city: store.location.address.postcode_name.default,
                }),
        );
    if pages.len() > 0 {
        law_pages_list_all_their_stores(pages.skip(1));
        assert(pages.map_values(shown).drop_first() =~= pages.skip(1).map_values(shown));
        assert(shown(pages[0]) =~= stores_on(pages[0]));
    } else {
        assert(pages.map_values(shown).len() == 0);
    }
}

/// A text, or null where there is none.
pub open spec fn text_or_null(text: Option<Seq<char>>) -> json::Json {
    match text {
        Some(text) => json::Json::Text(text),
        None => json::Json::Null,
    }
}

/// The variables of a store search, for one page.
pub open spec fn store_search_json(query: Option<Seq<char>>, cursor: Option<Seq<char>>) -> json::Json {
    json::Json::Object(
        Map::empty().insert("query"@, text_or_null(query)).insert("brand"@, json::Json::Null).insert(
            "cursor"@,
            text_or_null(cursor),
        ),
    )
}

/// The variables of a store search hold what is sought and what the page is asked for with, null
/// where there is none, and a null brand; nothing else.
pub proof fn law_store_variables_say_what_is_asked(
    query: Option<Seq<char>>,
    cursor: Option<Seq<char>>,
    key: Seq<char>,
)
    ensures
        json::member(store_search_json(query, cursor), "query"@) == Some(
            match query {
                Some(query) => json::Json::Text(query),
                None => json::Json::Null,
            },
        ),
        json::member(store_search_json(query, cursor), "cursor"@) == Some(
            match cursor {
                Some(cursor) => json::Json::Text(cursor),
                None => json::Json::Null,
            },
        ),
        json::member(store_search_json(query, cursor), "brand"@) == Some(json::Json::Null),
        key != "query"@ && key != "cursor"@ && key != "brand"@ ==> json::member(
            store_search_json(query, cursor),
            key,
        ) is None,
{
    reveal_strlit("query");
    reveal_strlit("brand");
    reveal_strlit("cursor");
    assert("query"@[0] == 'q' && "brand"@[0] == 'b' && "cursor"@[0] == 'c');
}

/// Where a store search is: what is sought, what the next page is asked for with, and what the
/// pages before it held.
pub ghost struct StoreSearchState {
    pub query: Option<Seq<char>>,
    pub cursor: Option<Seq<char>>,
    pub results: Seq<SKaupatStoreView>,
    pub pages: nat,
}

/// What becomes of a store search when a page comes.
pub ghost enum PageVerdict {
    Next(StoreSearchState),
    Done { total_hits: u64, results: Seq<SKaupatStoreView> },
    TooMany,
}

/// The beginning of a store search.
pub open spec fn search_start(query: Option<Seq<char>>) -> StoreSearchState {
    StoreSearchState { query, cursor: None, results: Seq::empty(), pages: 0 }
}

/// What becomes of a store search when a page comes.
pub open spec fn page_verdict(state: StoreSearchState, page: StoreSearchConnection) -> PageVerdict {
    let results = state.results + stores_on(page);
    match page.cursor {
        None => PageVerdict::Done { total_hits: page.total_count, results },
        Some(cursor) => if state.pages + 1 < MAX_STORE_PAGES {
            PageVerdict::Next(
                StoreSearchState {
                    query: state.query,
                    cursor: Some(cursor@),
                    results,
                    pages: state.pages + 1,
                },
            )
        } else {
            PageVerdict::TooMany
        },
    }
}

/// What becomes of a store search when pages come, one by one.
pub open spec fn search_over(state: StoreSearchState, pages: Seq<StoreSearchConnection>) -> PageVerdict
    decreases pages.len(),
{
    if pages.len() == 0 {
        PageVerdict::Next(state)
    } else {
        match page_verdict(state, pages[0]) {
            PageVerdict::Next(next) => search_over(next, pages.skip(1)),
            verdict => verdict,
        }
    }
}

/// A search for stores, page by page.
pub struct StoreSearch {
    query: Option<String>,
    cursor: Option<String>,
    results: Vec<SKaupatStoreView>,
    pages: usize,
}

/// What a store search does next.
pub enum StoreSearchStep {
    /// Ask for the next page.
    NextPage(StoreSearch),
    /// The search is answered.
    Finish(SKaupatStoreSearchView),
    /// The search failed.
    Fail(SKaupatError),
}

impl View for StoreSearch {
    type V = StoreSearchState;

    closed spec fn view(&self) -> StoreSearchState {
        StoreSearchState {
            query: text::optional_view(self.query),
            cursor: text::optional_view(self.cursor),
            results: self.results@,
            pages: self.pages as nat,
        }
    }
}

impl StoreSearch {
    /// There is room for another page.
    #[verifier::type_invariant]
    spec fn has_room(self) -> bool {
        self.pages < MAX_STORE_PAGES
    }

    pub fn new(query: Option<&str>) -> (search: StoreSearch)
        ensures
            search@ == search_start(text::filled(text::slice_view(query))),
    {
        let query: Option<String> = text::owned_text(text::filled_text(query));
        StoreSearch { query, cursor: None, results: Vec::new(), pages: 0 }
    }

    /// The variables that ask for the next page.
    pub fn variables(&self) -> (variables: serde_json::Value)
        ensures
            json::json_tree(variables) == store_search_json(self@.query, self@.cursor),
            json::member(json::json_tree(variables), "query"@) == Some(text_or_null(self@.query)),
            json::member(json::json_tree(variables), "cursor"@) == Some(text_or_null(self@.cursor)),
    {
        let mut pairs: Vec<(String, serde_json::Value)> = Vec::new();
        pairs.push(("query".to_owned(), json_text_or_null(&self.query)));
        pairs.push(("brand".to_owned(), json::json_null()));
        pairs.push(("cursor".to_owned(), json_text_or_null(&self.cursor)));
        proof {
            reveal_with_fuel(json::members_of, 4);
            assert(pairs@.drop_last().drop_last().drop_last() == Seq::<
                (String, serde_json::Value),
            >::empty());
            reveal_strlit("query");
            reveal_strlit("brand");
            reveal_strlit("cursor");
            assert("query"@[0] == 'q' && "brand"@[0] == 'b' && "cursor"@[0] == 'c');
        }
        json::json_object(pairs)
    }

    /// Takes a page. The search ends with the page that gives no cursor; it fails where the last
    /// page that it may read gives one.
    pub fn on_page(self, page: StoreSearchConnection) -> (step: StoreSearchStep)
        ensures
            match page_verdict(self@, page) {
                PageVerdict::Next(state) => {
                    &&& step matches StoreSearchStep::NextPage(search)
                    &&& search@ == state
                },
                PageVerdict::Done { total_hits, results } => {
                    &&& step matches StoreSearchStep::Finish(view)
                    &&& view.total_hits == total_hits
                    &&& view.results@ == results
                },
                PageVerdict::TooMany => step == StoreSearchStep::Fail(SKaupatError::TooManyPages),
            },
            step is Finish <==> page.cursor is None,
            step matches StoreSearchStep::NextPage(search) ==> {
                &&& page.cursor is Some
                &&& search@.cursor == Some(page.cursor->0@)
                &&& search@.query == self@.query
            },
    {
        proof {
            use_type_invariant(&self);
        }
        let mut results: Vec<SKaupatStoreView> = self.results;
        let ghost before = self.results@;
        let ghost on_page = stores_on(page);
        let ghost stores = page.stores@;
        for store in it: page.stores
            invariant
                it.seq() == stores,
                on_page == stores.map_values(|store: SKaupatStore| store_view(store)),
                results@ == before + on_page.take(it.index() as int),
        {
            results.push(SKaupatStoreView::from(store));
            assert(on_page.take(it.index() + 1) == on_page.take(it.index() as int).push(
                on_page[it.index() as int],
            ));
        }
        assert(on_page.take(on_page.len() as int) == on_page);
        match page.cursor {
            None => StoreSearchStep::Finish(
                SKaupatStoreSearchView { total_hits: page.total_count, results },
            ),
            Some(cursor) => if self.pages + 1 < MAX_STORE_PAGES {
                StoreSearchStep::NextPage(
                    StoreSearch {
                        query: self.query,
                        cursor: Some(cursor),
                        results,
                        pages: self.pages + 1,
                    },
                )
            } else {
                StoreSearchStep::Fail(SKaupatError::TooManyPages)
            },
        }
    }
}

/// A text, or null where there is none.
fn json_text_or_null(text: &Option<String>) -> (value: serde_json::Value)
    ensures
        json::json_tree(value) == text_or_null(text::optional_view(*text)),
{
    match text {
        Some(text) => json::json_string(text.as_str()),
        None => json::json_null(),
    }
}

proof fn lemma_search_over(state: StoreSearchState, pages: Seq<StoreSearchConnection>)
    requires
        pages.len() > 0,
        state.pages + pages.len() <= MAX_STORE_PAGES,
        forall|i: int| 0 <= i < pages.len() - 1 ==> (#[trigger] pages[i]).cursor is Some,
        pages.last().cursor is None,
    ensures
        search_over(state, pages) == (PageVerdict::Done {
            total_hits: pages.last().total_count,
            results: state.results + stores_on_all(pages),
        }),
    decreases pages.len(),
{
    let rest = pages.skip(1);
    if rest.len() == 0 {
        assert(stores_on_all(rest) == Seq::<SKaupatStoreView>::empty());
        assert(state.results + stores_on(pages[0]) == state.results + stores_on_all(pages));
    } else {
        let cursor = pages[0].cursor->0;
        let next = StoreSearchState {
            query: state.query,
            cursor: Some(cursor@),
            results: state.results + stores_on(pages[0]),
            pages: state.pages + 1,
        };
        assert forall|i: int| 0 <= i < rest.len() - 1 implies (#[trigger] rest[i]).cursor is Some by {
            assert(rest[i] == pages[i + 1]);
        }
        lemma_search_over(next, rest);
        assert(next.results + stores_on_all(rest) == state.results + stores_on_all(pages));
    }
}

/// A store search whose last page gives no cursor, and comes within the limit, answers with the
/// stores of all its pages in their order and with the number of hits that the last page gives.
pub proof fn law_store_search_collects_every_page(
    query: Option<Seq<char>>,
    pages: Seq<StoreSearchConnection>,
)
    requires
        0 < pages.len() <= MAX_STORE_PAGES,
        forall|i: int| 0 <= i < pages.len() - 1 ==> (#[trigger] pages[i]).cursor is Some,
        pages.last().cursor is None,
    ensures
        search_over(search_start(query), pages) == (PageVerdict::Done {
            total_hits: pages.last().total_count,
            results: stores_on_all(pages),
        }),
{
    lemma_search_over(search_start(query), pages);
    assert(Seq::<SKaupatStoreView>::empty() + stores_on_all(pages) == stores_on_all(pages));
}

proof fn lemma_search_goes_on(state: StoreSearchState, pages: Seq<StoreSearchConnection>)
    requires
        forall|i: int| 0 <= i < pages.len() ==> (#[trigger] pages[i]).cursor is Some,
        state.pages < MAX_STORE_PAGES,
    ensures
        search_over(state, pages) is TooMany <==> state.pages + pages.len() >= MAX_STORE_PAGES,
        search_over(state, pages) !is Done,
    decreases pages.len(),
{
    if pages.len() > 0 {
        let rest = pages.skip(1);
        assert forall|i: int| 0 <= i < rest.len() implies (#[trigger] rest[i]).cursor is Some by {
            assert(rest[i] == pages[i + 1]);
        }
        match page_verdict(state, pages[0]) {
            PageVerdict::Next(next) => {
                lemma_search_goes_on(next, rest);
            },
            _ => {},
        }
    }
}

/// As long as every page gives a cursor, a store search asks for the next page, and fails with
/// the last page that it may read.
pub proof fn law_store_search_is_bounded(
    query: Option<Seq<char>>,
    pages: Seq<StoreSearchConnection>,
)
    requires
        forall|i: int| 0 <= i < pages.len() ==> (#[trigger] pages[i]).cursor is Some,
    ensures
        if pages.len() < MAX_STORE_PAGES {
            search_over(search_start(query), pages) is Next
        } else {
            search_over(search_start(query), pages) is TooMany
        },
{
    lemma_search_goes_on(search_start(query), pages);
}

proof fn lemma_search_follows(state: StoreSearchState, pages: Seq<StoreSearchConnection>)
    requires
        pages.len() > 0,
        state.pages + pages.len() < MAX_STORE_PAGES,
        forall|i: int| 0 <= i < pages.len() ==> (#[trigger] pages[i]).cursor is Some,
    ensures
        search_over(state, pages) == PageVerdict::Next(
            (StoreSearchState {
                query: state.query,
                cursor: Some(pages.last().cursor->0@),
                results: state.results + stores_on_all(pages),
                pages: state.pages + pages.len(),
            }),
        ),
    decreases pages.len(),
{
    let rest = pages.skip(1);
    assert(pages[0].cursor is Some);
    match page_verdict(state, pages[0]) {
        PageVerdict::Next(next) => {
            if rest.len() > 0 {
                assert forall|i: int| 0 <= i < rest.len() implies (#[trigger] rest[i]).cursor is Some by {
                    assert(rest[i] == pages[i + 1]);
                }
                lemma_search_follows(next, rest);
                assert(next.results + stores_on_all(rest) == state.results + stores_on_all(pages));
            } else {
                assert(stores_on_all(rest) == Seq::<SKaupatStoreView>::empty());
                assert(state.results + stores_on(pages[0]) == state.results + stores_on_all(pages));
                assert(search_over(next, rest) == PageVerdict::Next(next));
            }
        },
        _ => {},
    }
}

/// A search that goes on asks for the next page with the cursor that the last page gave, for what
/// it began with, and keeps the stores of all the pages so far in their order.
pub proof fn law_store_search_follows_the_cursor(
    query: Option<Seq<char>>,
    pages: Seq<StoreSearchConnection>,
)
    requires
        0 < pages.len() < 50,
        forall|i: int| 0 <= i < pages.len() ==> (#[trigger] pages[i]).cursor is Some,
    ensures
        search_over(search_start(query), pages) matches PageVerdict::Next(state) && {
            &&& state.cursor == Some(pages.last().cursor->0@)
            &&& state.query == query
            &&& state.results == stores_on_all(pages)
            &&& state.pages == pages.len()
        },
        search_start(query).query == query,
        search_start(query).cursor is None,
        search_start(query).results.len() == 0,
{
    lemma_search_follows(search_start(query), pages);
    assert(Seq::<SKaupatStoreView>::empty() + stores_on_all(pages) == stores_on_all(pages));
}

/// A page ends a search exactly where it gives no cursor, and the answer then has the number of
/// hits that this page gives and the stores of this page after those before it.
pub proof fn law_last_page_ends_the_search(state: StoreSearchState, page: StoreSearchConnection)
    ensures
        page_verdict(state, page) is Done <==> page.cursor is None,
        page.cursor is None ==> {
            &&& page_verdict(state, page)->total_hits == page.total_count
            &&& page_verdict(state, page)->results == state.results + stores_on_all(seq![page])
        },
        page.cursor is Some && state.pages >= 49 ==> page_verdict(state, page) is TooMany,
{
    assert(seq![page].skip(1) == Seq::<StoreSearchConnection>::empty());
    reveal_with_fuel(stores_on_all, 2);
    assert(stores_on_all(seq![page]) =~= stores_on(page));
}

}
