//! Catalogue lookups: finding a product's EAN, and finding a store's id.
//!
//! None of this touches a cart. Both endpoints are read-only, and both exist because the cart
//! tools take opaque identifiers that a caller otherwise has no way to obtain.

use vstd::prelude::*;
use vstd::string::*;
use vstd::utf8::*;

use crate::browser::session::{ApiError, KrRequest};
use crate::http::Method;
use crate::json;
use crate::text;

verus! {

/// Keeps one response from being large enough to swamp a model's context.
pub const MAX_LIMIT: u32 = 50;

pub const DEFAULT_LIMIT: u32 = 10;

/// How many results a search asks for: what the caller named, brought into `1..=50`, or ten.
pub open spec fn clamped(limit: Option<u32>) -> u32 {
    match limit {
        None => DEFAULT_LIMIT,
        Some(n) => if n < 1 {
            1
        } else if n > MAX_LIMIT {
            MAX_LIMIT
        } else {
            n
        },
    }
}

/// How many results a search asks for.
pub fn clamp_limit(limit: Option<u32>) -> (n: u32)
    ensures
        n == clamped(limit),
        1 <= n <= MAX_LIMIT,
{
    match limit {
        None => DEFAULT_LIMIT,
        Some(n) => if n < 1 {
            1
        } else if n > MAX_LIMIT {
            MAX_LIMIT
        } else {
            n
        },
    }
}

/// Bytes that stand for themselves in a URL wherever they are.
pub open spec fn unreserved(byte: u8) -> bool {
    ||| 0x41 <= byte <= 0x5a
    ||| 0x61 <= byte <= 0x7a
    ||| 0x30 <= byte <= 0x39
    ||| byte == 0x2d
    ||| byte == 0x5f
    ||| byte == 0x2e
    ||| byte == 0x7e
}

/// The upper-case hexadecimal digit of `n`, for `n < 16`.
pub open spec fn hex_digit(n: u8) -> char {
    if n < 10 {
        (0x30 + n) as char
    } else {
        (0x37 + n) as char
    }
}

/// A byte as it is written in an encoded text.
pub open spec fn encoded_byte(byte: u8) -> Seq<char> {
    if unreserved(byte) {
        seq![byte as char]
    } else {
        seq!['%', hex_digit(byte / 16), hex_digit(byte % 16)]
    }
}

/// Bytes as they are written in an encoded text.
pub open spec fn encoded_bytes(bytes: Seq<u8>) -> Seq<char>
    decreases bytes.len(),
{
    if bytes.len() == 0 {
        Seq::empty()
    } else {
        encoded_byte(bytes[0]) + encoded_bytes(bytes.skip(1))
    }
}

/// The percent-encoding of a text: that of its UTF-8 bytes.
pub open spec fn percent_encoded(value: Seq<char>) -> Seq<char> {
    encoded_bytes(encode_utf8(value))
}

fn push_hex_digit(out: &mut String, n: u8)
    requires
        n < 16,
    ensures
        final(out)@ == old(out)@.push(hex_digit(n)),
{
    if n < 10 {
        out.push((0x30 + n) as char);
    } else {
        out.push((0x37 + n) as char);
    }
}

/// Percent-encode a path segment or query value.
///
/// The allowed set is deliberately conservative (unreserved characters only), so anything else
/// -- spaces, Finnish letters, `?`, `&`, `#`, `/` -- is escaped rather than being able to
/// change which URL is requested.
pub fn percent_encode(value: &str) -> (out: String)
    ensures
        out@ == percent_encoded(value@),
{
    let bytes: &[u8] = value.as_bytes();
    let mut out: String = String::new();
    let mut i: usize = 0;
    assert(bytes@.skip(0) == bytes@);
    while i < bytes.len()
        invariant
            i <= bytes@.len(),
            bytes@ == encode_utf8(value@),
            out@ + encoded_bytes(bytes@.skip(i as int)) == percent_encoded(value@),
        decreases bytes@.len() - i,
    {
        let byte: u8 = bytes[i];
        let ghost before = out@;
        let ghost rest = bytes@.skip(i as int);
        if (0x41 <= byte && byte <= 0x5a) || (0x61 <= byte && byte <= 0x7a) || (0x30 <= byte && byte
            <= 0x39) || byte == 0x2d || byte == 0x5f || byte == 0x2e || byte == 0x7e {
            out.push(byte as char);
        } else {
            out.push('%');
            push_hex_digit(&mut out, byte / 16);
            push_hex_digit(&mut out, byte % 16);
        }
        assert(out@ == before + encoded_byte(byte));
        assert(rest.skip(1) == bytes@.skip(i + 1));
        assert(before + (encoded_byte(byte) + encoded_bytes(rest.skip(1))) == out@ + encoded_bytes(
            rest.skip(1),
        ));
        i = i + 1;
    }
    assert(out@ + Seq::<char>::empty() == out@);
    out
}

pub const EMPTY_PRODUCT_QUERY: &'static str =
    "query must not be empty. Pass something to search for, e.g. \"banaani\".";

pub const EMPTY_STORE_QUERY: &'static str =
    "query must not be empty. Pass a place or store name, e.g. \"Ruoholahti\".";

/// Path and query of a product search.
pub open spec fn product_search_path(store_id: Seq<char>, query: Seq<char>, limit: u32) -> Seq<char> {
    "/kr-api/v2/product-search/"@ + percent_encoded(query) + "?language=fi&storeId="@
        + percent_encoded(store_id) + "&offset=0&limit="@ + text::decimal(limit as nat)
}

/// Body of a store search.
pub open spec fn store_search_body(query: Seq<char>, limit: u32) -> json::Json {
    json::Json::Object(
        Map::empty().insert("query"@, json::Json::Text(query)).insert(
            "limit"@,
            json::Json::Integer(limit as int),
        ).insert("offset"@, json::Json::Integer(0)),
    )
}

/// Whether `error` refuses a request for the reason `message`.
pub open spec fn refuses(error: ApiError, message: Seq<char>) -> bool {
    match error {
        ApiError::InvalidRequest(given) => given@ == message,
        _ => false,
    }
}

/// The error where a product search is answered with something else, for the given reason.
pub fn unexpected_product_shape(reason: &str) -> (error: ApiError)
    ensures
        error matches ApiError::Other(message) && message@ == "unexpected product-search shape: "@
            + reason@,
{
    ApiError::Other("unexpected product-search shape: ".to_owned().concat(reason))
}

/// The error where a store search is answered with something else, for the given reason.
pub fn unexpected_store_shape(reason: &str) -> (error: ApiError)
    ensures
        error matches ApiError::Other(message) && message@ == "unexpected stores/search shape: "@
            + reason@,
{
    ApiError::Other("unexpected stores/search shape: ".to_owned().concat(reason))
}

/// The catalogue behind a K-Ruoka API handle.
pub struct Catalog<'a, A: ?Sized> {
    api: &'a A,
}

impl<'a, A: ?Sized> Catalog<'a, A> {
    /// The handle that the requests go through.
    pub closed spec fn handle(&self) -> &'a A {
        self.api
    }

    pub fn new(api: &'a A) -> (catalog: Self)
        ensures
            catalog.handle() == api,
    {
        Self { api }
    }

    /// The handle that the requests go through.
    pub fn api(&self) -> (api: &'a A)
        ensures
            api == self.handle(),
    {
        self.api
    }

    /// The request that searches products at a store.
    ///
    /// The term goes in the *path*, percent-encoded, with paging and store in the query
    /// string. Results are store-scoped: price and availability differ per store, so the
    /// same term at a different store is a genuinely different answer.
    pub fn search_products(&self, store_id: &str, query: &str, limit: Option<u32>) -> (request:
        Result<KrRequest, ApiError>)
        ensures
            match request {
                Ok(request) => {
                    &&& text::trimmed(query@).len() > 0
                    &&& request.method == Method::Post
                    &&& request.path@ == product_search_path(
                        store_id@,
                        text::trimmed(query@),
                        clamped(limit),
                    )
                    &&& request.body is None
                },
                Err(error) => {
                    &&& text::trimmed(query@).len() == 0
                    &&& refuses(error, EMPTY_PRODUCT_QUERY@)
                },
            },
    {
        let query: &str = text::trim(query);
        if query.is_empty() {
            return Err(ApiError::InvalidRequest(EMPTY_PRODUCT_QUERY.to_owned()));
        }
        let limit: u32 = clamp_limit(limit);
        let mut path: String = "/kr-api/v2/product-search/".to_owned();
        path.append(percent_encode(query).as_str());
        path.append("?language=fi&storeId=");
        path.append(percent_encode(store_id).as_str());
        path.append("&offset=0&limit=");
        path.append(text::numeral(limit as u64).as_str());
        Ok(KrRequest { method: Method::Post, path, body: None })
    }

    /// The request that searches stores by name or place.
    ///
    /// Unlike product search, the term goes in a JSON body.
    pub fn search_stores(&self, query: &str, limit: Option<u32>) -> (request: Result<
        KrRequest,
        ApiError,
    >)
        ensures
            match request {
                Ok(request) => {
                    &&& text::trimmed(query@).len() > 0
                    &&& request.method == Method::Post
                    &&& request.path@ == "/kr-api/stores/search"@
                    &&& request.body matches Some(body)
                    &&& json::json_tree(body) == store_search_body(text::trimmed(query@), clamped(limit))
                    &&& json::member(json::json_tree(body), "query"@) == Some(
                        json::Json::Text(text::trimmed(query@)),
                    )
                    &&& json::member(json::json_tree(body), "limit"@) == Some(
                        json::Json::Integer(clamped(limit) as int),
                    )
                    &&& json::member(json::json_tree(body), "offset"@) == Some(
                        json::Json::Integer(0),
                    )
                },
                Err(error) => {
                    &&& text::trimmed(query@).len() == 0
                    &&& refuses(error, EMPTY_STORE_QUERY@)
                },
            },
    {
        let query: &str = text::trim(query);
        if query.is_empty() {
            return Err(ApiError::InvalidRequest(EMPTY_STORE_QUERY.to_owned()));
        }
        let mut pairs: Vec<(String, serde_json::Value)> = Vec::new();
        pairs.push(("query".to_owned(), json::json_string(query)));
        pairs.push(("limit".to_owned(), json::json_integer(clamp_limit(limit))));
        pairs.push(("offset".to_owned(), json::json_integer(0)));
        proof {
            assert(pairs@.drop_last().drop_last().drop_last() == Seq::<(String, serde_json::Value)>::empty());
            reveal_with_fuel(json::members_of, 4);
            reveal_strlit("query");
            reveal_strlit("limit");
            reveal_strlit("offset");
            assert("query"@[0] == 'q' && "limit"@[0] == 'l' && "offset"@[0] == 'o');
        }
        Ok(
            KrRequest {
                method: Method::Post,
                path: "/kr-api/stores/search".to_owned(),
                body: Some(json::json_object(pairs)),
            },
        )
    }
}

/// A character that an encoded text may hold.
pub open spec fn encoding_char(c: char) -> bool {
    c == '%' || ((c as u32) < 0x80 && unreserved(c as u8))
}

/// The value of a hexadecimal digit.
pub open spec fn hex_value(c: char) -> u8 {
    if (c as u32) < 0x3a {
        (c as u32 - 0x30) as u8
    } else {
        (c as u32 - 0x37) as u8
    }
}

/// The bytes that an encoded text stands for.
pub open spec fn percent_decoded(text: Seq<char>) -> Seq<u8>
    decreases text.len(),
{
    if text.len() == 0 {
        Seq::empty()
    } else if text[0] == '%' && text.len() >= 3 {
        seq![(hex_value(text[1]) * 16 + hex_value(text[2])) as u8] + percent_decoded(text.skip(3))
    } else {
        seq![text[0] as u8] + percent_decoded(text.skip(1))
    }
}

proof fn lemma_encoded_bytes_chars(bytes: Seq<u8>)
    ensures
        forall|i: int| 0 <= i < encoded_bytes(bytes).len() ==> encoding_char(#[trigger] encoded_bytes(bytes)[i]),
    decreases bytes.len(),
{
    if bytes.len() > 0 {
        lemma_encoded_bytes_chars(bytes.skip(1));
        let first = encoded_byte(bytes[0]);
        let rest = encoded_bytes(bytes.skip(1));
        assert forall|i: int| 0 <= i < encoded_bytes(bytes).len() implies encoding_char(
            #[trigger] encoded_bytes(bytes)[i],
        ) by {
            if i < first.len() {
                assert(encoded_bytes(bytes)[i] == first[i]);
            } else {
                assert(encoded_bytes(bytes)[i] == rest[i - first.len()]);
            }
        }
    }
}

/// An encoded text holds unreserved characters and `%` only, so nothing in it can end a path
/// segment, start a query, or add a parameter.
pub proof fn law_encoding_escapes_everything_else(value: Seq<char>)
    ensures
        forall|c: char| percent_encoded(value).contains(c) ==> encoding_char(c),
        !percent_encoded(value).contains('/'),
        !percent_encoded(value).contains('\\'),
        !percent_encoded(value).contains('?'),
        !percent_encoded(value).contains('&'),
        !percent_encoded(value).contains('='),
        !percent_encoded(value).contains('#'),
        !percent_encoded(value).contains(' '),
{
    lemma_encoded_bytes_chars(encode_utf8(value));
}

proof fn lemma_decode_encoded_bytes(bytes: Seq<u8>)
    ensures
        percent_decoded(encoded_bytes(bytes)) == bytes,
    decreases bytes.len(),
{
    if bytes.len() > 0 {
        let byte = bytes[0];
        let rest = encoded_bytes(bytes.skip(1));
        let all = encoded_bytes(bytes);
        lemma_decode_encoded_bytes(bytes.skip(1));
        if unreserved(byte) {
            assert(all.skip(1) == rest);
            assert(all[0] == byte as char);
        } else {
            assert(all.skip(3) == rest);
            assert(all[0] == '%' && all[1] == hex_digit(byte / 16) && all[2] == hex_digit(byte % 16));
            assert(hex_value(hex_digit(byte / 16)) == byte / 16);
            assert(hex_value(hex_digit(byte % 16)) == byte % 16);
        }
        assert(seq![byte] + bytes.skip(1) == bytes);
    }
}

/// Decoding an encoded text gives back the UTF-8 bytes of the text that was encoded.
pub proof fn law_decoding_undoes_encoding(value: Seq<char>)
    ensures
        percent_decoded(percent_encoded(value)) == encode_utf8(value),
{
    lemma_decode_encoded_bytes(encode_utf8(value));
}

/// Different texts have different encodings.
pub proof fn law_encoding_is_injective(a: Seq<char>, b: Seq<char>)
    requires
        percent_encoded(a) == percent_encoded(b),
    ensures
        a == b,
{
    law_decoding_undoes_encoding(a);
    law_decoding_undoes_encoding(b);
    encode_utf8_decode_utf8(a);
    encode_utf8_decode_utf8(b);
}

proof fn lemma_split_at_mark(a: Seq<char>, rest_a: Seq<char>, b: Seq<char>, rest_b: Seq<char>, mark: char)
    requires
        a + rest_a == b + rest_b,
        rest_a.len() > 0 && rest_a[0] == mark,
        rest_b.len() > 0 && rest_b[0] == mark,
        !a.contains(mark),
        !b.contains(mark),
    ensures
        a == b,
        rest_a == rest_b,
{
    let whole = a + rest_a;
    assert(whole[a.len() as int] == mark);
    assert(whole[b.len() as int] == mark);
    if a.len() < b.len() {
        assert(b[a.len() as int] == whole[a.len() as int]);
    }
    if b.len() < a.len() {
        assert(a[b.len() as int] == whole[b.len() as int]);
    }
    assert(a == whole.take(a.len() as int));
    assert(b == whole.take(b.len() as int));
    assert(rest_a == whole.skip(a.len() as int));
    assert(rest_b == whole.skip(b.len() as int));
}

/// What follows the term in the path of a product search.
spec fn after_term(store_id: Seq<char>, limit: u32) -> Seq<char> {
    "?language=fi&storeId="@ + after_store_key(store_id, limit)
}

/// What follows the key of the store in the path of a product search.
spec fn after_store_key(store_id: Seq<char>, limit: u32) -> Seq<char> {
    percent_encoded(store_id) + ("&offset=0&limit="@ + text::decimal(limit as nat))
}

proof fn lemma_same_term(
    store_a: Seq<char>,
    query_a: Seq<char>,
    limit_a: u32,
    store_b: Seq<char>,
    query_b: Seq<char>,
    limit_b: u32,
)
    requires
        product_search_path(store_a, query_a, limit_a) == product_search_path(
            store_b,
            query_b,
            limit_b,
        ),
    ensures
        query_a == query_b,
        after_store_key(store_a, limit_a) == after_store_key(store_b, limit_b),
{
    let start = "/kr-api/v2/product-search/"@;
    let key = "?language=fi&storeId="@;
    reveal_strlit("?language=fi&storeId=");
    law_encoding_escapes_everything_else(query_a);
    law_encoding_escapes_everything_else(query_b);
    let rest_a = after_term(store_a, limit_a);
    let rest_b = after_term(store_b, limit_b);
    assert(product_search_path(store_a, query_a, limit_a).skip(start.len() as int)
        == percent_encoded(query_a) + rest_a);
    assert(product_search_path(store_b, query_b, limit_b).skip(start.len() as int)
        == percent_encoded(query_b) + rest_b);
    lemma_split_at_mark(percent_encoded(query_a), rest_a, percent_encoded(query_b), rest_b, '?');
    law_encoding_is_injective(query_a, query_b);
    assert(rest_a.skip(key.len() as int) == after_store_key(store_a, limit_a));
    assert(rest_b.skip(key.len() as int) == after_store_key(store_b, limit_b));
}

proof fn lemma_same_store_and_limit(
    store_a: Seq<char>,
    limit_a: u32,
    store_b: Seq<char>,
    limit_b: u32,
)
    requires
        after_store_key(store_a, limit_a) == after_store_key(store_b, limit_b),
    ensures
        store_a == store_b,
        limit_a == limit_b,
{
    let key = "&offset=0&limit="@;
    reveal_strlit("&offset=0&limit=");
    law_encoding_escapes_everything_else(store_a);
    law_encoding_escapes_everything_else(store_b);
    let number_a = text::decimal(limit_a as nat);
    let number_b = text::decimal(limit_b as nat);
    lemma_split_at_mark(
        percent_encoded(store_a),
        key + number_a,
        percent_encoded(store_b),
        key + number_b,
        '&',
    );
    law_encoding_is_injective(store_a, store_b);
    assert((key + number_a).skip(key.len() as int) == number_a);
    assert((key + number_b).skip(key.len() as int) == number_b);
    text::lemma_decimal_is_injective(limit_a as nat, limit_b as nat);
}

/// Two product searches with the same path ask for the same term, store and number of results:
/// neither the term nor the store id can reach into another part of the request.
pub proof fn law_product_path_is_unambiguous(
    store_a: Seq<char>,
    query_a: Seq<char>,
    limit_a: u32,
    store_b: Seq<char>,
    query_b: Seq<char>,
    limit_b: u32,
)
    requires
        product_search_path(store_a, query_a, limit_a) == product_search_path(
            store_b,
            query_b,
            limit_b,
        ),
    ensures
        store_a == store_b,
        query_a == query_b,
        limit_a == limit_b,
{
    lemma_same_term(store_a, query_a, limit_a, store_b, query_b, limit_b);
    lemma_same_store_and_limit(store_a, limit_a, store_b, limit_b);
}

/// Where a text is encoded as ASCII characters, it is those characters.
proof fn lemma_encoded_as_itself(value: Seq<char>, encoding: Seq<char>)
    requires
        percent_encoded(value) == encoding,
        is_ascii_chars(encoding),
        percent_decoded(encoding) == encoding.map_values(|c: char| c as u8),
    ensures
        value == encoding,
{
    law_decoding_undoes_encoding(value);
    is_ascii_chars_encode_utf8(encoding);
    assert(encode_utf8(value) == encode_utf8(encoding));
    encode_utf8_decode_utf8(value);
    encode_utf8_decode_utf8(encoding);
}

/// A product search stays on its endpoint: what stands before the query string is the endpoint
/// and one more path segment, which is not empty. The segment is no `.` or `..` either, unless
/// that is the term itself.
pub proof fn law_product_search_stays_on_its_endpoint(store_id: Seq<char>, query: Seq<char>, limit: u32)
    requires
        query.len() > 0,
        query != seq!['.'],
        query != seq!['.', '.'],
    ensures
        ({
            let segment = percent_encoded(query);
            &&& text::before_first(product_search_path(store_id, query, limit), '?')
                == "/kr-api/v2/product-search/"@ + segment
            &&& !segment.contains('/')
            &&& !segment.contains('\\')
            &&& segment.len() > 0
            &&& segment != seq!['.']
            &&& segment != seq!['.', '.']
        }),
{
    let segment = percent_encoded(query);
    let start = "/kr-api/v2/product-search/"@;
    reveal_strlit("/kr-api/v2/product-search/");
    reveal_strlit("?language=fi&storeId=");
    law_encoding_escapes_everything_else(query);
    let rest = "?language=fi&storeId="@ + percent_encoded(store_id) + "&offset=0&limit="@
        + text::decimal(limit as nat);
    assert(product_search_path(store_id, query, limit) == (start + segment) + rest);
    assert forall|i: int| 0 <= i < (start + segment).len() implies (start + segment)[i] != '?' by {
        if i >= start.len() {
            assert(segment.contains(segment[i - start.len()]));
        }
    }
    text::lemma_before_first_of_joined(start + segment, rest, '?');
    if segment.len() == 0 {
        lemma_encoded_as_itself(query, segment);
    }
    reveal_with_fuel(percent_decoded, 3);
    if segment =~= seq!['.'] {
        assert(segment.skip(1) == Seq::<char>::empty());
        assert(percent_decoded(segment) == segment.map_values(|c: char| c as u8));
        lemma_encoded_as_itself(query, segment);
    }
    if segment =~= seq!['.', '.'] {
        assert(segment.skip(1) == seq!['.']);
        assert(segment.skip(1).skip(1) == Seq::<char>::empty());
        assert(percent_decoded(segment) == segment.map_values(|c: char| c as u8));
        lemma_encoded_as_itself(query, segment);
    }
}

/// A search asks for as many results as the caller names, from one to fifty; for the nearest of
/// those where the caller names fewer or more, and for ten where the caller names none.
pub proof fn law_limits_are_brought_into_range(limit: Option<u32>)
    ensures
        1 <= clamped(limit) <= 50,
        limit is None ==> clamped(limit) == 10,
        limit matches Some(n) ==> {
            &&& 1 <= n <= 50 ==> clamped(limit) == n
            &&& n < 1 ==> clamped(limit) == 1
            &&& n > 50 ==> clamped(limit) == 50
        },
{
}

/// The body of a store search holds the term, the number of results, where to begin, and nothing
/// else. So searches with the same body are the same.
pub proof fn law_store_search_body_says_what_is_asked(
    query: Seq<char>,
    limit: u32,
    key: Seq<char>,
    other_query: Seq<char>,
    other_limit: u32,
)
    ensures
        json::member(store_search_body(query, limit), "query"@) == Some(json::Json::Text(query)),
        json::member(store_search_body(query, limit), "limit"@) == Some(
            json::Json::Integer(limit as int),
        ),
        json::member(store_search_body(query, limit), "offset"@) == Some(json::Json::Integer(0)),
        key != "query"@ && key != "limit"@ && key != "offset"@ ==> json::member(
            store_search_body(query, limit),
            key,
        ) is None,
        store_search_body(query, limit) == store_search_body(other_query, other_limit) ==> query
            == other_query && limit == other_limit,
{
    lemma_store_search_members(query, limit);
    lemma_store_search_members(other_query, other_limit);
}

proof fn lemma_store_search_members(query: Seq<char>, limit: u32)
    ensures
        json::member(store_search_body(query, limit), "query"@) == Some(json::Json::Text(query)),
        json::member(store_search_body(query, limit), "limit"@) == Some(
            json::Json::Integer(limit as int),
        ),
        json::member(store_search_body(query, limit), "offset"@) == Some(json::Json::Integer(0)),
{
    reveal_strlit("query");
    reveal_strlit("limit");
    reveal_strlit("offset");
    assert("query"@[0] == 'q' && "limit"@[0] == 'l' && "offset"@[0] == 'o');
}

proof fn lemma_encoded_bytes_of_joined(a: Seq<u8>, b: Seq<u8>)
    ensures
        encoded_bytes(a + b) == encoded_bytes(a) + encoded_bytes(b),
    decreases a.len(),
{
    if a.len() == 0 {
        assert(a + b == b);
        assert(encoded_bytes(a) + encoded_bytes(b) == encoded_bytes(b));
    } else {
        assert((a + b).skip(1) == a.skip(1) + b);
        lemma_encoded_bytes_of_joined(a.skip(1), b);
        assert(encoded_byte(a[0]) + (encoded_bytes(a.skip(1)) + encoded_bytes(b)) == encoded_bytes(a)
            + encoded_bytes(b));
    }
}

proof fn lemma_encode_utf8_of_joined(a: Seq<char>, b: Seq<char>)
    ensures
        encode_utf8(a + b) == encode_utf8(a) + encode_utf8(b),
    decreases a.len(),
{
    if a.len() == 0 {
        assert(a + b == b);
        assert(encode_utf8(a) + encode_utf8(b) == encode_utf8(b));
    } else {
        assert((a + b).drop_first() == a.drop_first() + b);
        lemma_encode_utf8_of_joined(a.drop_first(), b);
        assert(encode_scalar(a[0] as u32) + (encode_utf8(a.drop_first()) + encode_utf8(b))
            == encode_utf8(a) + encode_utf8(b));
    }
}

/// A text is encoded character by character, and a character by the bytes of its UTF-8 form, one
/// after the other.
pub proof fn law_encoding_goes_piece_by_piece(
    a: Seq<char>,
    b: Seq<char>,
    c: char,
    bytes: Seq<u8>,
    more: Seq<u8>,
)
    ensures
        percent_encoded(a + b) == percent_encoded(a) + percent_encoded(b),
        percent_encoded(Seq::empty()) == Seq::<char>::empty(),
        percent_encoded(seq![c]) == encoded_bytes(encode_scalar(c as u32)),
        encoded_bytes(bytes + more) == encoded_bytes(bytes) + encoded_bytes(more),
{
    lemma_encode_utf8_of_joined(a, b);
    lemma_encoded_bytes_of_joined(encode_utf8(a), encode_utf8(b));
    lemma_encoded_bytes_of_joined(bytes, more);
    assert(seq![c].drop_first() == Seq::<char>::empty());
    assert(encode_utf8(seq![c].drop_first()) == Seq::<u8>::empty());
    assert(encode_utf8(seq![c]) == encode_scalar(c as u32));
}

/// Whether `c` is the upper-case hexadecimal digit of `n`.
pub open spec fn is_hex_digit_of(c: char, n: int) -> bool {
    ||| 0 <= n < 10 && c as int == '0' as int + n
    ||| 10 <= n < 16 && c as int == 'A' as int + n - 10
}

/// Letters, digits, `-`, `.`, `_` and `~` stand for themselves; any other byte is written as `%`
/// and its two hexadecimal digits.
pub proof fn law_bytes_stand_for_themselves_or_are_escaped(byte: u8)
    ensures
        ({
            let c = byte as char;
            let plain = 'a' <= c <= 'z' || 'A' <= c <= 'Z' || '0' <= c <= '9' || c == '-' || c
                == '.' || c == '_' || c == '~';
            let written = encoded_bytes(seq![byte]);
            if plain {
                written == seq![c]
            } else {
                &&& written.len() == 3
                &&& written[0] == '%'
                &&& is_hex_digit_of(written[1], byte as int / 16)
                &&& is_hex_digit_of(written[2], byte as int % 16)
            }
        }),
{
    assert(seq![byte].skip(1) == Seq::<u8>::empty());
    assert(encoded_bytes(seq![byte].skip(1)) == Seq::<char>::empty());
    assert(encoded_bytes(seq![byte]) == encoded_byte(byte));
}

/// The path of a product search holds the term in its last segment, and the language, the store,
/// where to begin and the number of results in its query string, in that order.
pub proof fn law_product_path_says_what_is_asked(store_id: Seq<char>, query: Seq<char>, limit: u32)
    ensures
        text::split_at_first(product_search_path(store_id, query, limit), '?') == Some(
            (
                "/kr-api/v2/product-search/"@ + percent_encoded(query),
                "language=fi&storeId="@ + percent_encoded(store_id) + "&offset=0&limit="@
                    + text::decimal(limit as nat),
            ),
        ),
        percent_decoded(percent_encoded(query)) == encode_utf8(query),
        percent_decoded(percent_encoded(store_id)) == encode_utf8(store_id),
        text::digits_value(text::decimal(limit as nat)) == limit,
{
    let head = "/kr-api/v2/product-search/"@ + percent_encoded(query);
    let rest = "language=fi&storeId="@ + percent_encoded(store_id) + "&offset=0&limit="@
        + text::decimal(limit as nat);
    reveal_strlit("/kr-api/v2/product-search/");
    reveal_strlit("?language=fi&storeId=");
    reveal_strlit("language=fi&storeId=");
    law_encoding_escapes_everything_else(query);
    law_decoding_undoes_encoding(query);
    law_decoding_undoes_encoding(store_id);
    text::law_numerals_stand_for_their_number(limit as nat);
    assert("?language=fi&storeId="@ == seq!['?'] + "language=fi&storeId="@);
    assert(product_search_path(store_id, query, limit) == head + seq!['?'] + rest);
    assert forall|i: int| 0 <= i < head.len() implies head[i] != '?' by {
        let start = "/kr-api/v2/product-search/"@;
        if i >= start.len() {
            assert(percent_encoded(query).contains(percent_encoded(query)[i - start.len()]));
        }
    }
    text::law_splitting_at_the_first_mark(head, rest, '?');
}

}
