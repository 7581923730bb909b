//! HTTP vocabulary: methods, statuses, header values and URLs.

use vstd::prelude::*;
use vstd::string::*;

use crate::text;

verus! {

/// The request methods that the providers use.
#[derive(Debug, Clone, Copy, PartialEq, Eq, Structural)]
pub enum Method {
    Get,
    Post,
}

impl Method {
    /// The method as it is written in a request.
    pub open spec fn spelled(self) -> Seq<char> {
        match self {
            Method::Get => "GET"@,
            Method::Post => "POST"@,
        }
    }

    pub fn name(self) -> (name: &'static str)
        ensures
            name@ == self.spelled(),
    {
        match self {
            Method::Get => "GET",
            Method::Post => "POST",
        }
    }
}

/// The reason phrase that a status is displayed with.
pub uninterp spec fn status_reason(code: u16) -> Seq<char>;

/// `StatusCode`'s `Display` writes the code in decimal, a space, and the reason phrase that
/// belongs to the code. `StatusCode::from_u16` takes the codes from 100 to 999.
#[verifier::external_body]
fn status_display(code: u16) -> (text: String)
    requires
        100 <= code < 1000,
    ensures
        text@ == text::decimal(code as nat) + " "@ + status_reason(code),
{
    reqwest::StatusCode::from_u16(code).unwrap().to_string()
}

/// A response status, from 100 to 999.
#[derive(Debug, Clone, Copy)]
pub struct HttpStatus {
    code: u16,
}

impl HttpStatus {
    #[verifier::type_invariant]
    spec fn in_range(self) -> bool {
        100 <= self.code < 1000
    }

    pub closed spec fn number(self) -> u16 {
        self.code
    }

    /// The codes from 200 to 299.
    pub open spec fn succeeds(self) -> bool {
        200 <= self.number() < 300
    }

    /// The codes from 400 to 599.
    pub open spec fn refuses(self) -> bool {
        400 <= self.number() < 600
    }

    /// The codes that ask for another sign-in.
    pub open spec fn denies_access(self) -> bool {
        self.number() == 401 || self.number() == 403
    }

    /// The status as it is displayed.
    pub open spec fn shown(self) -> Seq<char> {
        text::decimal(self.number() as nat) + " "@ + status_reason(self.number())
    }

    pub fn new(code: u16) -> (status: Option<HttpStatus>)
        ensures
            status is Some <==> 100 <= code < 1000,
            status matches Some(status) ==> status.number() == code,
    {
        if 100 <= code && code < 1000 {
            Some(HttpStatus { code })
        } else {
            None
        }
    }

    pub fn code(self) -> (code: u16)
        ensures
            code == self.number(),
            100 <= code < 1000,
    {
        proof {
            use_type_invariant(&self);
        }
        self.code
    }

    pub fn is_success(self) -> (yes: bool)
        ensures
            yes == self.succeeds(),
    {
        200 <= self.code && self.code < 300
    }

    /// Whether this is a client error or a server error.
    pub fn is_refusal(self) -> (yes: bool)
        ensures
            yes == self.refuses(),
    {
        400 <= self.code && self.code < 600
    }

    /// Whether this is 401 (unauthorized) or 403 (forbidden).
    pub fn is_access_denied(self) -> (yes: bool)
        ensures
            yes == self.denies_access(),
    {
        self.code == 401 || self.code == 403
    }

    /// The code and its reason phrase.
    pub fn text(self) -> (text: String)
        ensures
            text@ == self.shown(),
    {
        status_display(self.code())
    }
}

/// `http::HeaderValue`, which header maps hold.
#[verifier::external_type_specification]
#[verifier::external_body]
pub struct ExHeaderValue(reqwest::header::HeaderValue);

/// `http::HeaderMap`.
#[verifier::external_type_specification]
#[verifier::external_body]
#[verifier::reject_recursive_types(T)]
pub struct ExHeaderMap<T>(reqwest::header::HeaderMap<T>);

/// The values that a header map holds under `Set-Cookie`, in order.
pub uninterp spec fn set_cookie_bytes(
    headers: reqwest::header::HeaderMap<reqwest::header::HeaderValue>,
) -> Seq<Seq<u8>>;

/// The contents of byte strings.
pub open spec fn byte_views(values: Seq<Vec<u8>>) -> Seq<Seq<u8>> {
    values.map_values(|value: Vec<u8>| value@)
}

/// `HeaderMap::get_all` walks the values that the map holds under a name, in the order in which
/// they were added; each is taken as its bytes.
#[verifier::external_body]
pub(crate) fn set_cookie_values(
    headers: &reqwest::header::HeaderMap<reqwest::header::HeaderValue>,
) -> (values: Vec<Vec<u8>>)
    ensures
        byte_views(values@) == set_cookie_bytes(*headers),
{
    headers.get_all(reqwest::header::SET_COOKIE).iter().map(|value| value.as_bytes().to_vec()).collect()
}

/// Whether a byte is visible ASCII, a space or a tab.
pub open spec fn visible(byte: u8) -> bool {
    0x20 <= byte < 0x7f || byte == 0x9
}

/// The text of a header value: its bytes as characters, where all of them are visible.
pub open spec fn header_text(bytes: Seq<u8>) -> Option<Seq<char>> {
    if forall|i: int| 0 <= i < bytes.len() ==> visible(#[trigger] bytes[i]) {
        Some(bytes.map_values(|byte: u8| byte as char))
    } else {
        None
    }
}

/// Reads a header value as text, where all of its bytes are visible.
pub fn read_header(bytes: &Vec<u8>) -> (text: Option<String>)
    ensures
        match text {
            Some(text) => header_text(bytes@) == Some(text@),
            None => header_text(bytes@) is None,
        },
{
    let mut text: String = String::new();
    let mut i: usize = 0;
    while i < bytes.len()
        invariant
            i <= bytes@.len(),
            forall|k: int| 0 <= k < i ==> visible(#[trigger] bytes@[k]),
            text@ == bytes@.take(i as int).map_values(|byte: u8| byte as char),
        decreases bytes@.len() - i,
    {
        let byte: u8 = bytes[i];
        if !((0x20 <= byte && byte < 0x7f) || byte == 0x9) {
            return None;
        }
        text.push(byte as char);
        i = i + 1;
        assert(bytes@.take(i as int) == bytes@.take(i - 1).push(byte));
    }
    assert(bytes@.take(i as int) == bytes@);
    Some(text)
}

/// The contents of pairs of texts.
pub open spec fn pair_views(pairs: Seq<(String, String)>) -> Seq<(Seq<char>, Seq<char>)> {
    pairs.map_values(|pair: (String, String)| (pair.0@, pair.1@))
}

/// The host and the query pairs of a URL; nothing where a text is no URL.
pub uninterp spec fn url_parts(raw: Seq<char>) -> Option<
    (Option<Seq<char>>, Seq<(Seq<char>, Seq<char>)>),
>;

/// `Url::parse` reads a URL; `Url::host_str` is its host and `Url::query_pairs` its query, read
/// as a web form.
#[verifier::external_body]
pub(crate) fn parse_url(raw: &str) -> (parts: Option<(Option<String>, Vec<(String, String)>)>)
    ensures
        match parts {
            Some((host, pairs)) => url_parts(raw@) == Some((text::optional_view(host), pair_views(pairs@))),
            None => url_parts(raw@) is None,
        },
{
    let url = reqwest::Url::parse(raw).ok()?;
    let host = url.host_str().map(str::to_string);
    Some((host, url.query_pairs().into_owned().collect()))
}

/// The text of a URL after pairs were appended to its query.
pub uninterp spec fn url_with_pairs(base: Seq<char>, pairs: Seq<(Seq<char>, Seq<char>)>) -> Seq<char>;

/// Whether a character is a lower-case letter.
pub open spec fn letter(c: char) -> bool {
    'a' <= c && c <= 'z'
}

/// A host name of lower-case letters, with dots and hyphens between letters.
pub open spec fn plain_host(host: Seq<char>) -> bool {
    &&& host.len() > 0
    &&& forall|i: int|
        0 <= i < host.len() ==> letter(#[trigger] host[i]) || {
            &&& host[i] == '.' || host[i] == '-'
            &&& 0 < i < host.len() - 1
            &&& letter(host[i - 1])
            &&& letter(host[i + 1])
        }
}

/// `Url::query_pairs_mut` appends pairs to the query of a URL, written as a web form; it fails
/// where `base` is no URL. `https://`, a plain host name and `/` make a URL; read back after
/// pairs were appended, it has that host and exactly those pairs.
#[verifier::external_body]
pub(crate) fn append_query(base: &str, pairs: &Vec<(String, String)>) -> (url: Option<String>)
    requires
        base@.len() <= 0x10_0000,
        !base@.contains('#'),
    ensures
        url is Some <==> url_parts(base@) is Some,
        url matches Some(url) ==> url@ == url_with_pairs(base@, pair_views(pairs@)),
        forall|host: Seq<char>|
            plain_host(host) && base@ == #[trigger] ("https://"@ + host + "/"@) ==> {
                &&& url matches Some(url)
                &&& url_parts(url@) == Some((Some(host), pair_views(pairs@)))
            },
{
    let mut url = reqwest::Url::parse(base).ok()?;
    url.query_pairs_mut().extend_pairs(pairs);
    Some(url.as_str().to_string())
}

/// The class of a status is its hundreds: two for success, four and five for refusal. Access is
/// denied by two statuses of the refusing class.
pub proof fn law_status_classes(status: HttpStatus)
    ensures
        status.succeeds() <==> status.number() as int / 100 == 2,
        status.refuses() <==> (status.number() as int / 100 == 4 || status.number() as int / 100
            == 5),
        status.denies_access() <==> (status.number() == 401 || status.number() == 403),
        !(status.succeeds() && status.refuses()),
{
}

/// A status is shown as its number and its reason phrase, with a space between them.
pub proof fn law_statuses_are_shown_with_number_and_reason(status: HttpStatus)
    ensures
        text::split_at_first(status.shown(), ' ') == Some(
            (text::decimal(status.number() as nat), status_reason(status.number())),
        ),
{
    let number = text::decimal(status.number() as nat);
    text::law_numerals_stand_for_their_number(status.number() as nat);
    reveal_strlit(" ");
    assert(" "@ == seq![' ']);
    assert(!number.contains(' '));
    text::law_splitting_at_the_first_mark(number, status_reason(status.number()), ' ');
}

/// A header value is text where each of its bytes is a tab or printable ASCII, and the text then
/// has a character for each byte, with the byte as its code.
pub proof fn law_header_text_is_printable(bytes: Seq<u8>)
    ensures
        match header_text(bytes) {
            Some(text) => {
                &&& text.len() == bytes.len()
                &&& forall|i: int|
                    0 <= i < bytes.len() ==> {
                        &&& text[i] as u32 == #[trigger] bytes[i] as u32
                        &&& bytes[i] == 9 || 32 <= bytes[i] <= 126
                    }
            },
            None => exists|i: int|
                0 <= i < bytes.len() && #[trigger] bytes[i] != 9 && !(32 <= bytes[i] <= 126),
        },
{
    if header_text(bytes) is None {
        let i = choose|i: int| 0 <= i < bytes.len() && !visible(#[trigger] bytes[i]);
        assert(bytes[i] != 9 && !(32 <= bytes[i] <= 126));
    }
}

/// Pairs of texts and byte strings are viewed one by one, each part as what it holds.
pub proof fn law_views_are_taken_one_by_one(pairs: Seq<(String, String)>, values: Seq<Vec<u8>>)
    ensures
        pair_views(pairs).len() == pairs.len(),
        forall|i: int|
            0 <= i < pairs.len() ==> (#[trigger] pair_views(pairs)[i]).0 == pairs[i].0@,
        forall|i: int|
            0 <= i < pairs.len() ==> (#[trigger] pair_views(pairs)[i]).1 == pairs[i].1@,
        byte_views(values).len() == values.len(),
        forall|i: int| 0 <= i < values.len() ==> #[trigger] byte_views(values)[i] == values[i]@,
{
}

}
