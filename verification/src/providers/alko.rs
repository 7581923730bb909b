//! Alko catalogue access through the website's guest-session HTTP API.
//!
//! Alko's website issues a short-lived NextAuth guest session, after which product and store
//! lookups are ordinary JSON HTTP calls. No account login and no browser process are required.

use vstd::prelude::*;
use vstd::string::*;

use crate::browser::catalog::clamp_limit;
use crate::browser::catalog;
use crate::http;
use crate::http::{HttpStatus, Method};
use crate::json;
use crate::text;

verus! {

/// How long a guest session is used before it is renewed, in nanoseconds.
pub const SESSION_REFRESH_AFTER: u64 = 25 * 60 * 1_000_000_000;

/// The cookie that carries a guest session.
pub const SESSION_COOKIE: &'static str = "__Secure-next-auth.session-token";

/// A cookie's name and value.
pub type CookieView = (Seq<char>, Seq<char>);

/// The value of the cookie `name`.
pub open spec fn cookie_value(cookies: Seq<CookieView>, name: Seq<char>) -> Option<Seq<char>>
    decreases cookies.len(),
{
    if cookies.len() == 0 {
        None
    } else if cookies[0].0 == name {
        Some(cookies[0].1)
    } else {
        cookie_value(cookies.skip(1), name)
    }
}

/// The cookies after `name` was set to `value`: an earlier value is replaced where it stands.
pub open spec fn with_cookie(
    cookies: Seq<CookieView>,
    name: Seq<char>,
    value: Seq<char>,
) -> Seq<CookieView>
    decreases cookies.len(),
{
    if cookies.len() == 0 {
        seq![(name, value)]
    } else if cookies[0].0 == name {
        cookies.update(0, (name, value))
    } else {
        seq![cookies[0]] + with_cookie(cookies.skip(1), name, value)
    }
}

/// The name and the value that a `Set-Cookie` header sets: what stands before its attributes,
/// split at the first `=`. A header without `=` sets nothing.
pub open spec fn cookie_set_by(header: Seq<char>) -> Option<CookieView> {
    match text::split_at_first(text::before_first(header, ';'), '=') {
        Some((name, value)) => Some((text::trimmed(name), text::trimmed(value))),
        None => None,
    }
}

/// The cookies after a `Set-Cookie` header.
pub open spec fn with_header(cookies: Seq<CookieView>, header: Seq<char>) -> Seq<CookieView> {
    match cookie_set_by(header) {
        Some((name, value)) => with_cookie(cookies, name, value),
        None => cookies,
    }
}

/// The cookies after `Set-Cookie` headers in their order, and whether all of them were text.
/// Reading stops at the first that is not.
pub open spec fn with_headers(cookies: Seq<CookieView>, headers: Seq<Seq<u8>>) -> (
    Seq<CookieView>,
    bool,
)
    decreases headers.len(),
{
    if headers.len() == 0 {
        (cookies, true)
    } else {
        match http::header_text(headers[0]) {
            None => (cookies, false),
            Some(header) => with_headers(with_header(cookies, header), headers.skip(1)),
        }
    }
}

/// The `Cookie` header for `cookies`.
pub open spec fn cookie_line(cookies: Seq<CookieView>) -> Seq<char>
    decreases cookies.len(),
{
    if cookies.len() == 0 {
        Seq::empty()
    } else if cookies.len() == 1 {
        cookies[0].0 + "="@ + cookies[0].1
    } else {
        cookie_line(cookies.drop_last()) + "; "@ + (cookies.last().0 + "="@ + cookies.last().1)
    }
}

/// No cookie occurs twice.
pub open spec fn distinct_cookies(cookies: Seq<CookieView>) -> bool {
    forall|i: int, j: int| 0 <= i < j < cookies.len() ==> #[trigger] cookies[i].0 != #[trigger] cookies[j].0
}

/// What a session state holds: its cookies, and when the session was made.
pub ghost struct SessionView {
    pub cookies: Seq<CookieView>,
    pub created_at: Option<u64>,
}

impl SessionView {
    /// Whether the session can be used at the time `now`.
    pub open spec fn fresh(self, now: u64) -> bool {
        match self.created_at {
            Some(created) => now - created < SESSION_REFRESH_AFTER && self.cookies.len() > 0,
            None => false,
        }
    }
}

proof fn lemma_with_cookie(cookies: Seq<CookieView>, name: Seq<char>, value: Seq<char>, at: int)
    requires
        0 <= at <= cookies.len(),
        forall|k: int| 0 <= k < at ==> #[trigger] cookies[k].0 != name,
        at < cookies.len() ==> cookies[at].0 == name,
    ensures
        with_cookie(cookies, name, value) == if at < cookies.len() {
            cookies.update(at, (name, value))
        } else {
            cookies.push((name, value))
        },
    decreases cookies.len(),
{
    if cookies.len() == 0 {
        assert(seq![(name, value)] == cookies.push((name, value)));
    } else if at > 0 {
        let rest = cookies.skip(1);
        assert forall|k: int| 0 <= k < at - 1 implies #[trigger] rest[k].0 != name by {
            assert(rest[k] == cookies[k + 1]);
        }
        lemma_with_cookie(rest, name, value, at - 1);
        if at < cookies.len() {
            assert(seq![cookies[0]] + rest.update(at - 1, (name, value)) == cookies.update(
                at,
                (name, value),
            ));
        } else {
            assert(seq![cookies[0]] + rest.push((name, value)) == cookies.push((name, value)));
        }
    }
}

/// Setting a cookie gives it its value, leaves the other cookies as they were, and makes none
/// occur twice.
pub proof fn law_setting_a_cookie(
    cookies: Seq<CookieView>,
    name: Seq<char>,
    value: Seq<char>,
    other: Seq<char>,
)
    ensures
        cookie_value(with_cookie(cookies, name, value), name) == Some(value),
        other != name ==> cookie_value(with_cookie(cookies, name, value), other) == cookie_value(
            cookies,
            other,
        ),
        distinct_cookies(cookies) ==> distinct_cookies(with_cookie(cookies, name, value)),
    decreases cookies.len(),
{
    let after = with_cookie(cookies, name, value);
    if cookies.len() == 0 {
        assert(after.skip(1) == cookies);
    } else if cookies[0].0 == name {
        assert(after.skip(1) == cookies.skip(1));
    } else {
        assert(after.skip(1) == with_cookie(cookies.skip(1), name, value));
        law_setting_a_cookie(cookies.skip(1), name, value, other);
    }
    if distinct_cookies(cookies) {
        lemma_with_cookie_keeps_distinct(cookies, name, value);
    }
}

proof fn lemma_with_cookie_keeps_distinct(cookies: Seq<CookieView>, name: Seq<char>, value: Seq<char>)
    requires
        distinct_cookies(cookies),
    ensures
        distinct_cookies(with_cookie(cookies, name, value)),
{
    if exists|at: int| 0 <= at < cookies.len() && #[trigger] cookies[at].0 == name {
        let at = choose|at: int| 0 <= at < cookies.len() && #[trigger] cookies[at].0 == name;
        lemma_with_cookie(cookies, name, value, at);
    } else {
        lemma_with_cookie(cookies, name, value, cookies.len() as int);
    }
}

/// The attributes of a `Set-Cookie` header stay out of the cookie that it sets: neither the name
/// nor the value holds a `;`, and the name holds no `=`.
pub proof fn law_cookies_carry_no_attributes(header: Seq<char>)
    ensures
        cookie_set_by(header) matches Some((name, value)) ==> {
            &&& !name.contains(';')
            &&& !value.contains(';')
            &&& !name.contains('=')
        },
{
    let pair = text::before_first(header, ';');
    text::lemma_before_first_avoids(header, ';');
    text::lemma_before_first_avoids(pair, '=');
    if let Some((left, right)) = text::split_at_first(pair, '=') {
        if left.len() == pair.len() {
            assert(pair.take(left.len() as int) == pair);
        }
        assert forall|i: int| 0 <= i < left.len() implies #[trigger] left[i] != ';' by {
            assert(pair.contains(pair[i]));
        }
        assert forall|i: int| 0 <= i < right.len() implies #[trigger] right[i] != ';' by {
            assert(pair.contains(pair[left.len() + 1 + i]));
        }
        if text::trimmed(left).contains(';') {
            text::lemma_trimmed_within(left, ';');
        }
        if text::trimmed(right).contains(';') {
            text::lemma_trimmed_within(right, ';');
        }
        if text::trimmed(left).contains('=') {
            text::lemma_trimmed_within(left, '=');
        }
    }
}

/// A cookie's value is the one that stands with its name; a name without a value does not stand
/// there.
pub proof fn law_cookie_values_stand_with_their_names(cookies: Seq<CookieView>, name: Seq<char>)
    ensures
        match cookie_value(cookies, name) {
            Some(value) => cookies.contains((name, value)),
            None => forall|i: int| 0 <= i < cookies.len() ==> (#[trigger] cookies[i]).0 != name,
        },
        distinct_cookies(cookies) ==> forall|i: int|
            0 <= i < cookies.len() && (#[trigger] cookies[i]).0 == name ==> cookie_value(
                cookies,
                name,
            ) == Some(cookies[i].1),
    decreases cookies.len(),
{
    if cookies.len() > 0 {
        let rest = cookies.skip(1);
        law_cookie_values_stand_with_their_names(rest, name);
        if cookies[0].0 == name {
            assert(cookies[0] == (name, cookies[0].1));
        } else {
            match cookie_value(cookies, name) {
                Some(value) => {
                    let k = choose|k: int| 0 <= k < rest.len() && rest[k] == (name, value);
                    assert(cookies[k + 1] == (name, value));
                },
                None => {
                    assert forall|i: int| 0 <= i < cookies.len() implies (#[trigger] cookies[i]).0
                        != name by {
                        if i > 0 {
                            assert(rest[i - 1] == cookies[i]);
                        }
                    }
                },
            }
        }
        if distinct_cookies(cookies) {
            assert forall|i: int, j: int| 0 <= i < j < rest.len() implies #[trigger] rest[i].0
                != #[trigger] rest[j].0 by {
                assert(rest[i] == cookies[i + 1] && rest[j] == cookies[j + 1]);
            }
            assert forall|i: int|
                0 <= i < cookies.len() && (#[trigger] cookies[i]).0 == name implies cookie_value(
                cookies,
                name,
            ) == Some(cookies[i].1) by {
                if i > 0 {
                    assert(cookies[0].0 != cookies[i].0);
                    assert(rest[i - 1] == cookies[i]);
                }
            }
        }
    }
}

/// Setting a cookie leaves the cookies in their places; a cookie that was not there comes last.
pub proof fn law_setting_a_cookie_keeps_the_order(
    cookies: Seq<CookieView>,
    name: Seq<char>,
    value: Seq<char>,
)
    ensures
        ({
            let after = with_cookie(cookies, name, value);
            &&& forall|i: int|
                0 <= i < cookies.len() ==> (#[trigger] after[i]).0 == cookies[i].0
            &&& forall|i: int|
                0 <= i < cookies.len() && cookies[i].0 != name ==> #[trigger] after[i] == cookies[i]
            &&& cookie_value(cookies, name) is Some ==> after.len() == cookies.len()
            &&& cookie_value(cookies, name) is None ==> after == cookies.push((name, value))
        }),
{
    law_cookie_values_stand_with_their_names(cookies, name);
    if let Some(found) = cookie_value(cookies, name) {
        let k = choose|k: int| 0 <= k < cookies.len() && cookies[k] == (name, found);
        assert(cookies[k].0 == name);
    }
    if exists|at: int| 0 <= at < cookies.len() && #[trigger] cookies[at].0 == name {
        let at = lemma_first_with_name(cookies, name);
        lemma_with_cookie(cookies, name, value, at);
    } else {
        lemma_with_cookie(cookies, name, value, cookies.len() as int);
    }
}

proof fn lemma_first_with_name(cookies: Seq<CookieView>, name: Seq<char>) -> (at: int)
    requires
        exists|at: int| 0 <= at < cookies.len() && #[trigger] cookies[at].0 == name,
    ensures
        0 <= at < cookies.len(),
        cookies[at].0 == name,
        forall|k: int| 0 <= k < at ==> #[trigger] cookies[k].0 != name,
    decreases cookies.len(),
{
    if cookies[0].0 == name {
        0
    } else {
        let rest = cookies.skip(1);
        let some = choose|at: int| 0 <= at < cookies.len() && #[trigger] cookies[at].0 == name;
        assert(rest[some - 1].0 == name);
        let at = lemma_first_with_name(rest, name) + 1;
        assert forall|k: int| 0 <= k < at implies #[trigger] cookies[k].0 != name by {
            if k > 0 {
                assert(rest[k - 1] == cookies[k]);
            }
        }
        at
    }
}

/// A `Set-Cookie` header sets the cookie that stands in it as `name=value`, without the white
/// space around name and value, whatever attributes follow. It sets none where no `=` stands
/// before the attributes.
pub proof fn law_cookies_are_read_off_their_header(
    name: Seq<char>,
    value: Seq<char>,
    attributes: Seq<char>,
    bare: Seq<char>,
)
    requires
        !name.contains('='),
        !name.contains(';'),
        !value.contains(';'),
        !bare.contains('='),
        !bare.contains(';'),
    ensures
        cookie_set_by(name + seq!['='] + value) == Some((text::trimmed(name), text::trimmed(value))),
        cookie_set_by(name + seq!['='] + value + seq![';'] + attributes) == Some(
            (text::trimmed(name), text::trimmed(value)),
        ),
        cookie_set_by(bare) is None,
        cookie_set_by(bare + seq![';'] + attributes) is None,
{
    let pair = name + seq!['='] + value;
    assert forall|i: int| 0 <= i < pair.len() implies pair[i] != ';' by {
        if i < name.len() {
            assert(name.contains(name[i]));
        } else if i > name.len() {
            assert(value.contains(value[i - name.len() - 1]));
        }
    }
    text::law_splitting_at_the_first_mark(pair, attributes, ';');
    text::law_splitting_at_the_first_mark(name, value, '=');
    text::law_splitting_at_the_first_mark(bare, attributes, ';');
    text::law_splitting_at_the_first_mark(bare, attributes, '=');
}

/// Whether all header values are text.
pub open spec fn all_text(headers: Seq<Seq<u8>>) -> bool {
    forall|i: int| 0 <= i < headers.len() ==> http::header_text(#[trigger] headers[i]) is Some
}

/// Headers are taken one after the other, as long as they are text: what the first ones leave is
/// what the next ones begin with. The first that is not text ends it, and those after it count for
/// nothing.
pub proof fn law_headers_are_taken_in_order(
    cookies: Seq<CookieView>,
    headers: Seq<Seq<u8>>,
    header: Seq<u8>,
    more: Seq<Seq<u8>>,
)
    requires
        all_text(headers),
    ensures
        with_headers(cookies, headers).1,
        with_headers(cookies, Seq::empty()).0 == cookies,
        with_headers(cookies, headers + more) == with_headers(
            with_headers(cookies, headers).0,
            more,
        ),
        http::header_text(header) is None ==> with_headers(cookies, headers + seq![header] + more)
            == (with_headers(cookies, headers).0, false),
        http::header_text(header) matches Some(text) ==> with_headers(cookies, seq![header]) == (
            with_header(cookies, text),
            true,
        ),
    decreases headers.len(),
{
    if headers.len() == 0 {
        assert(headers + more == more);
        assert(headers + seq![header] + more == seq![header] + more);
        assert((seq![header] + more)[0] == header);
    } else {
        assert(http::header_text(headers[0]) is Some);
        let next = with_header(cookies, http::header_text(headers[0])->0);
        let rest = headers.skip(1);
        assert forall|i: int| 0 <= i < rest.len() implies http::header_text(#[trigger] rest[i]) is Some by {
            assert(rest[i] == headers[i + 1]);
        }
        law_headers_are_taken_in_order(next, rest, header, more);
        assert((headers + more).skip(1) == rest + more);
        assert((headers + seq![header] + more).skip(1) == rest + seq![header] + more);
    }
    assert(seq![header].skip(1) == Seq::<Seq<u8>>::empty());
    reveal_with_fuel(with_headers, 2);
}

/// A header sets the cookie that stands in it, whatever its value, and changes nothing where none
/// stands in it.
pub proof fn law_headers_set_their_cookie(cookies: Seq<CookieView>, header: Seq<char>)
    ensures
        match cookie_set_by(header) {
            Some((name, value)) => {
                &&& cookie_value(with_header(cookies, header), name) == Some(value)
                &&& with_header(cookies, header) == with_cookie(cookies, name, value)
            },
            None => with_header(cookies, header) == cookies,
        },
{
    if let Some((name, value)) = cookie_set_by(header) {
        law_setting_a_cookie(cookies, name, value, name);
    }
}

/// Whether a header sets the cookie `name`.
pub open spec fn sets_cookie(header: Seq<u8>, name: Seq<char>) -> bool {
    http::header_text(header) matches Some(text) && (cookie_set_by(text) matches Some((given, _))
        && given == name)
}

proof fn lemma_unset_cookie_stays(cookies: Seq<CookieView>, headers: Seq<Seq<u8>>, name: Seq<char>)
    requires
        forall|i: int| 0 <= i < headers.len() ==> !sets_cookie(#[trigger] headers[i], name),
    ensures
        cookie_value(with_headers(cookies, headers).0, name) == cookie_value(cookies, name),
    decreases headers.len(),
{
    if headers.len() > 0 {
        let rest = headers.skip(1);
        assert forall|i: int| 0 <= i < rest.len() implies !sets_cookie(#[trigger] rest[i], name) by {
            assert(rest[i] == headers[i + 1]);
        }
        assert(!sets_cookie(headers[0], name));
        match http::header_text(headers[0]) {
            None => {},
            Some(text) => {
                match cookie_set_by(text) {
                    Some((given, value)) => {
                        law_setting_a_cookie(cookies, given, value, name);
                    },
                    None => {},
                }
                lemma_unset_cookie_stays(with_header(cookies, text), rest, name);
            },
        }
    }
}

/// The last header that sets a cookie gives it its value. A cookie that no header sets keeps the
/// value that it had.
pub proof fn law_last_header_wins(
    cookies: Seq<CookieView>,
    headers: Seq<Seq<u8>>,
    name: Seq<char>,
    value: Seq<char>,
    at: int,
)
    requires
        all_text(headers),
        0 <= at <= headers.len(),
        forall|i: int| at < i < headers.len() ==> !sets_cookie(#[trigger] headers[i], name),
        at < headers.len() ==> cookie_set_by(http::header_text(headers[at])->0) == Some(
            (name, value),
        ),
        at == headers.len() ==> forall|i: int|
            0 <= i < headers.len() ==> !sets_cookie(#[trigger] headers[i], name),
    ensures
        cookie_value(with_headers(cookies, headers).0, name) == if at < headers.len() {
            Some(value)
        } else {
            cookie_value(cookies, name)
        },
    decreases headers.len(),
{
    if at == headers.len() {
        lemma_unset_cookie_stays(cookies, headers, name);
    } else {
        assert(http::header_text(headers[0]) is Some);
        let rest = headers.skip(1);
        let next = with_header(cookies, http::header_text(headers[0])->0);
        assert forall|i: int| 0 <= i < rest.len() implies http::header_text(#[trigger] rest[i]) is Some by {
            assert(rest[i] == headers[i + 1]);
        }
        if at == 0 {
            assert forall|i: int| 0 <= i < rest.len() implies !sets_cookie(#[trigger] rest[i], name) by {
                assert(rest[i] == headers[i + 1]);
            }
            law_setting_a_cookie(cookies, name, value, name);
            lemma_unset_cookie_stays(next, rest, name);
        } else {
            assert forall|i: int| at - 1 < i < rest.len() implies !sets_cookie(
                #[trigger] rest[i],
                name,
            ) by {
                assert(rest[i] == headers[i + 1]);
            }
            assert(rest[at - 1] == headers[at]);
            law_last_header_wins(next, rest, name, value, at - 1);
        }
    }
}

/// The `Cookie` header of one cookie is `name=value`; that of two rows of cookies is the two
/// headers with `; ` between them.
pub proof fn law_cookie_lines_join(
    first: Seq<CookieView>,
    second: Seq<CookieView>,
    name: Seq<char>,
    value: Seq<char>,
)
    requires
        first.len() > 0,
        second.len() > 0,
    ensures
        cookie_line(first + second) == cookie_line(first) + "; "@ + cookie_line(second),
        cookie_line(seq![(name, value)]) == name + "="@ + value,
        cookie_line(Seq::empty()) == Seq::<char>::empty(),
    decreases second.len(),
{
    let whole = first + second;
    assert(whole.drop_last() == first + second.drop_last());
    assert(whole.last() == second.last());
    if second.len() == 1 {
        assert(second.drop_last() == Seq::<CookieView>::empty());
        assert(first + second.drop_last() == first);
    } else {
        law_cookie_lines_join(first, second.drop_last(), name, value);
        let last = second.last().0 + "="@ + second.last().1;
        assert(cookie_line(first) + "; "@ + cookie_line(second.drop_last()) + "; "@ + last
            == cookie_line(first) + "; "@ + (cookie_line(second.drop_last()) + "; "@ + last));
    }
}

/// A session is used for twenty-five minutes from when it was made, and only with a cookie.
pub proof fn law_sessions_last_twenty_five_minutes(session: SessionView, now: u64)
    ensures
        session.fresh(now) <==> (session.cookies.len() > 0 && (session.created_at matches Some(created)
            && now < created + 25 * 60 * 1_000_000_000)),
{
}

/// The cookies of a guest session, and when the session was made.
pub struct SessionState {
    cookies: Vec<(String, String)>,
    created_at: Option<u64>,
}

impl View for SessionState {
    type V = SessionView;

    closed spec fn view(&self) -> SessionView {
        SessionView { cookies: http::pair_views(self.cookies@), created_at: self.created_at }
    }
}

impl Default for SessionState {
    fn default() -> (state: Self)
        ensures
            state@ == (SessionView { cookies: Seq::empty(), created_at: None }),
            state.wf(),
    {
        let cookies: Vec<(String, String)> = Vec::new();
        assert(http::pair_views(cookies@) == Seq::<CookieView>::empty());
        SessionState { cookies, created_at: None }
    }
}

impl SessionState {
    /// No cookie occurs twice.
    pub open spec fn wf(&self) -> bool {
        distinct_cookies(self@.cookies)
    }

    /// Whether the session can be used at the time `now`, in nanoseconds.
    pub fn is_fresh(&self, now: u64) -> (fresh: bool)
        ensures
            fresh == self@.fresh(now),
    {
        match self.created_at {
            Some(created) => (now < created || now - created < SESSION_REFRESH_AFTER)
                && self.cookies.len() > 0,
            None => false,
        }
    }

    /// The `Cookie` header that carries the session.
    pub fn cookie_header(&self) -> (line: String)
        ensures
            line@ == cookie_line(self@.cookies),
    {
        let mut line: String = String::new();
        let mut i: usize = 0;
        let ghost all = self@.cookies;
        while i < self.cookies.len()
            invariant
                i <= self.cookies@.len(),
                all == http::pair_views(self.cookies@),
                line@ == cookie_line(all.take(i as int)),
            decreases self.cookies@.len() - i,
        {
            let ghost before = line@;
            if i > 0 {
                line.append("; ");
            }
            line.append(self.cookies[i].0.as_str());
            line.append("=");
            line.append(self.cookies[i].1.as_str());
            i = i + 1;
            proof {
                let part = all.take(i as int);
                assert(part.drop_last() == all.take(i - 1));
                assert(part.last() == (self.cookies@[i - 1].0@, self.cookies@[i - 1].1@));
                if i > 1 {
                    assert(line@ == before + "; "@ + (part.last().0 + "="@ + part.last().1));
                } else {
                    assert(line@ == part.last().0 + "="@ + part.last().1);
                }
            }
        }
        assert(all.take(i as int) == all);
        line
    }

    /// Tells whether a cookie is set.
    pub fn has_cookie(&self, name: &str) -> (found: bool)
        ensures
            found == (cookie_value(self@.cookies, name@) is Some),
    {
        let mut i: usize = 0;
        let ghost all = self@.cookies;
        assert(all.skip(0) == all);
        while i < self.cookies.len()
            invariant
                i <= self.cookies@.len(),
                all == http::pair_views(self.cookies@),
                cookie_value(all, name@) == cookie_value(all.skip(i as int), name@),
            decreases self.cookies@.len() - i,
        {
            assert(all.skip(i as int)[0] == all[i as int]);
            assert(all.skip(i as int).skip(1) == all.skip(i + 1));
            if text::same_text(self.cookies[i].0.as_str(), name) {
                return true;
            }
            i = i + 1;
        }
        false
    }

    /// Sets a cookie.
    fn set_cookie(&mut self, name: String, value: String)
        ensures
            old(self).wf() ==> final(self).wf(),
            final(self)@.cookies == with_cookie(old(self)@.cookies, name@, value@),
            final(self)@.created_at == old(self)@.created_at,
    {
        let ghost all = self@.cookies;
        let mut i: usize = 0;
        while i < self.cookies.len() && !text::same_text(self.cookies[i].0.as_str(), name.as_str())
            invariant
                i <= self.cookies@.len(),
                all == http::pair_views(self.cookies@),
                forall|k: int| 0 <= k < i ==> #[trigger] all[k].0 != name@,
            decreases self.cookies@.len() - i,
        {
            i = i + 1;
        }
        proof {
            lemma_with_cookie(all, name@, value@, i as int);
            law_setting_a_cookie(all, name@, value@, name@);
        }
        let ghost pair = (name@, value@);
        if i < self.cookies.len() {
            self.cookies.set(i, (name, value));
            assert(http::pair_views(self.cookies@) == all.update(i as int, pair));
        } else {
            self.cookies.push((name, value));
            assert(http::pair_views(self.cookies@) == all.push(pair));
        }
    }

    /// Takes the cookies out of `Set-Cookie` values, each given by its bytes. Stops at the first
    /// value that is not text; what came before it is kept.
    pub fn absorb_cookie_values(&mut self, values: &Vec<Vec<u8>>) -> (outcome: Result<(), AlkoError>)
        ensures
            old(self).wf() ==> final(self).wf(),
            final(self)@.cookies == with_headers(
                old(self)@.cookies,
                http::byte_views(values@),
            ).0,
            final(self)@.created_at == old(self)@.created_at,
            match outcome {
                Ok(()) => with_headers(old(self)@.cookies, http::byte_views(values@)).1,
                Err(error) => {
                    &&& !with_headers(old(self)@.cookies, http::byte_views(values@)).1
                    &&& error is NonTextCookie
                },
            },
    {
        let ghost before = self@.cookies;
        let ghost all = http::byte_views(values@);
        let mut i: usize = 0;
        assert(all.skip(0) == all);
        while i < values.len()
            invariant
                i <= values@.len(),
                all == http::byte_views(values@),
                before == old(self)@.cookies,
                old(self).wf() ==> self.wf(),
                self@.created_at == old(self)@.created_at,
                with_headers(before, all) == with_headers(self@.cookies, all.skip(i as int)),
            decreases values@.len() - i,
        {
            assert(all.skip(i as int)[0] == values@[i as int]@);
            assert(all.skip(i as int).skip(1) == all.skip(i + 1));
            match http::read_header(&values[i]) {
                None => {
                    return Err(AlkoError::NonTextCookie);
                },
                Some(header) => {
                    let pair: String = text::head(header.as_str(), ';');
                    match text::split_once(pair.as_str(), '=') {
                        None => {},
                        Some((name, value)) => {
                            self.set_cookie(
                                text::trim(name.as_str()).to_owned(),
                                text::trim(value.as_str()).to_owned(),
                            );
                        },
                    }
                },
            }
            i = i + 1;
        }
        Ok(())
    }

    /// Takes the cookies that response headers set.
    pub fn absorb_set_cookies(
        &mut self,
        headers: &reqwest::header::HeaderMap<reqwest::header::HeaderValue>,
    ) -> (outcome: Result<(), AlkoError>)
        ensures
            old(self).wf() ==> final(self).wf(),
            final(self)@.cookies == with_headers(
                old(self)@.cookies,
                http::set_cookie_bytes(*headers),
            ).0,
            final(self)@.created_at == old(self)@.created_at,
            match outcome {
                Ok(()) => with_headers(old(self)@.cookies, http::set_cookie_bytes(*headers)).1,
                Err(error) => {
                    &&& !with_headers(old(self)@.cookies, http::set_cookie_bytes(*headers)).1
                    &&& error is NonTextCookie
                },
            },
    {
        let values: Vec<Vec<u8>> = http::set_cookie_values(headers);
        self.absorb_cookie_values(&values)
    }
}

/// What can go wrong with Alko.
#[derive(Debug)]
pub enum AlkoError {
    /// A search without a term.
    EmptyQuery,
    /// A `Set-Cookie` header that is not text.
    NonTextCookie,
    /// The CSRF token could not be asked for.
    CsrfRequestFailed,
    /// The CSRF token was refused.
    CsrfStatus(HttpStatus),
    /// The answer held no CSRF token.
    CsrfShape,
    /// The guest session could not be asked for.
    BootstrapFailed,
    /// The guest session was refused.
    BootstrapStatus(HttpStatus),
    /// The answer carried no session cookie.
    NoSessionToken,
    /// A request could not be made.
    RequestFailed { method: Method, path: String },
    /// A request was answered with an error status.
    Status { status: HttpStatus, path: String },
    /// A request was answered with something other than JSON.
    InvalidJson { path: String },
    /// A product search was answered with something else.
    ProductShape,
    /// A store listing was answered with something else.
    StoresShape,
}

impl AlkoError {
    /// The text that describes the error.
    pub open spec fn describes(self) -> Seq<char> {
        match self {
            AlkoError::EmptyQuery => "query must not be empty"@,
            AlkoError::NonTextCookie => "Alko returned a non-UTF8 Set-Cookie header"@,
            AlkoError::CsrfRequestFailed => "Alko CSRF request failed"@,
            AlkoError::CsrfStatus(status) => "Alko CSRF request returned HTTP "@ + status.shown(),
            AlkoError::CsrfShape => "Alko CSRF response had an unexpected shape"@,
            AlkoError::BootstrapFailed => "Alko guest-session bootstrap failed"@,
            AlkoError::BootstrapStatus(status) => "Alko guest-session bootstrap returned HTTP "@
                + status.shown(),
            AlkoError::NoSessionToken =>
                "Alko guest-session bootstrap returned no NextAuth session token"@,
            AlkoError::RequestFailed { method, path } => "Alko request failed: "@
                + method.spelled() + " "@ + path@,
            AlkoError::Status { status, path } => "Alko API returned HTTP "@ + status.shown()
                + " for "@ + path@,
            AlkoError::InvalidJson { path } => "Alko API returned invalid JSON for "@ + path@,
            AlkoError::ProductShape => "Alko product-search response had an unexpected shape"@,
            AlkoError::StoresShape => "Alko stores response had an unexpected shape"@,
        }
    }

    /// The text that describes the error.
    pub fn message(&self) -> (message: String)
        ensures
            message@ == self.describes(),
    {
        match self {
            AlkoError::EmptyQuery => "query must not be empty".to_owned(),
            AlkoError::NonTextCookie => "Alko returned a non-UTF8 Set-Cookie header".to_owned(),
            AlkoError::CsrfRequestFailed => "Alko CSRF request failed".to_owned(),
            AlkoError::CsrfStatus(status) => "Alko CSRF request returned HTTP ".to_owned().concat(
                status.text().as_str(),
            ),
            AlkoError::CsrfShape => "Alko CSRF response had an unexpected shape".to_owned(),
            AlkoError::BootstrapFailed => "Alko guest-session bootstrap failed".to_owned(),
            AlkoError::BootstrapStatus(
                status,
            ) => "Alko guest-session bootstrap returned HTTP ".to_owned().concat(
                status.text().as_str(),
            ),
            AlkoError::NoSessionToken =>
                "Alko guest-session bootstrap returned no NextAuth session token".to_owned(),
            AlkoError::RequestFailed { method, path } => "Alko request failed: ".to_owned().concat(
                method.name(),
            ).concat(" ").concat(path.as_str()),
            AlkoError::Status { status, path } => "Alko API returned HTTP ".to_owned().concat(
                status.text().as_str(),
            ).concat(" for ").concat(path.as_str()),
            AlkoError::InvalidJson { path } =>
                "Alko API returned invalid JSON for ".to_owned().concat(path.as_str()),
            AlkoError::ProductShape =>
                "Alko product-search response had an unexpected shape".to_owned(),
            AlkoError::StoresShape => "Alko stores response had an unexpected shape".to_owned(),
        }
    }
}

/// An error names what failed: the status, the method and the path that it comes with.
pub proof fn law_errors_name_what_failed(status: HttpStatus, method: Method, path: String)
    ensures
        AlkoError::CsrfStatus(status).describes() == "Alko CSRF request returned HTTP "@
            + status.shown(),
        AlkoError::BootstrapStatus(status).describes()
            == "Alko guest-session bootstrap returned HTTP "@ + status.shown(),
        (AlkoError::RequestFailed { method, path }).describes() == "Alko request failed: "@ + (
        match method {
            Method::Get => "GET"@,
            Method::Post => "POST"@,
        }) + " "@ + path@,
        (AlkoError::Status { status, path }).describes() == "Alko API returned HTTP "@
            + status.shown() + " for "@ + path@,
        (AlkoError::InvalidJson { path }).describes() == "Alko API returned invalid JSON for "@
            + path@,
{
}

pub const BASE_URL: &'static str = "https://www.alko.fi";

pub const CSRF_PATH: &'static str = "/api/auth/csrf";

pub const LOGIN_PATH: &'static str = "/api/auth/callback/credentials";

pub const LOGIN_CALLBACK_URL: &'static str = "https://www.alko.fi/fi/tuotteet";

/// What is read off a response before its body: the status, and the `Set-Cookie` values.
pub struct Reply {
    pub status: HttpStatus,
    pub set_cookies: Vec<Vec<u8>>,
}

impl Reply {
    pub fn read(
        status: HttpStatus,
        headers: &reqwest::header::HeaderMap<reqwest::header::HeaderValue>,
    ) -> (reply: Reply)
        ensures
            reply.status == status,
            http::byte_views(reply.set_cookies@) == http::set_cookie_bytes(*headers),
    {
        Reply { status, set_cookies: http::set_cookie_values(headers) }
    }

    /// The session after the reply's cookies were taken, and whether all of them were text.
    pub open spec fn absorbed_by(self, session: SessionView) -> (SessionView, bool) {
        let (cookies, text) = with_headers(session.cookies, http::byte_views(self.set_cookies@));
        (SessionView { cookies, created_at: session.created_at }, text)
    }
}

/// The session before a bootstrap.
pub open spec fn no_session() -> SessionView {
    SessionView { cookies: Seq::empty(), created_at: None }
}

/// Whether the reply to the CSRF request lets a bootstrap go on.
pub open spec fn csrf_accepted(session: SessionView, reply: Option<Reply>) -> bool {
    match reply {
        Some(reply) => reply.status.succeeds() && reply.absorbed_by(session).1,
        None => false,
    }
}

/// The session after the reply to the CSRF request.
pub open spec fn after_csrf(session: SessionView, reply: Option<Reply>) -> SessionView {
    match reply {
        Some(reply) => if reply.status.succeeds() {
            reply.absorbed_by(session).0
        } else {
            session
        },
        None => session,
    }
}

/// Whether the reply to the login request completes a bootstrap.
pub open spec fn login_accepted(session: SessionView, reply: Option<Reply>) -> bool {
    match reply {
        Some(reply) => {
            &&& !reply.status.refuses()
            &&& reply.absorbed_by(session).1
            &&& cookie_value(reply.absorbed_by(session).0.cookies, SESSION_COOKIE@) is Some
        },
        None => false,
    }
}

/// The session after the reply to the login request, which came at the time `now`.
pub open spec fn after_login(session: SessionView, reply: Option<Reply>, now: u64) -> SessionView {
    match reply {
        Some(reply) => if reply.status.refuses() {
            session
        } else if login_accepted(session, Some(reply)) {
            SessionView {
                cookies: reply.absorbed_by(session).0.cookies,
                created_at: Some(now),
            }
        } else {
            reply.absorbed_by(session).0
        },
        None => session,
    }
}

/// The form that asks for a guest session.
pub open spec fn login_form(csrf_token: Seq<char>) -> Seq<(Seq<char>, Seq<char>)> {
    seq![
        ("redirect"@, "false"@),
        ("csrfToken"@, csrf_token),
        ("callbackUrl"@, LOGIN_CALLBACK_URL@),
        ("json"@, "true"@),
    ]
}

/// What a bootstrap does next.
pub enum BootstrapAction {
    /// Ask for a CSRF token, with a `GET` of `url`.
    FetchCsrf { url: String },
    /// Read the token out of the body of the answer.
    ReadCsrfToken,
    /// `POST` the form to `url`, with the `Cookie` header `cookie`.
    SubmitLogin { url: String, cookie: String, form: Vec<(String, String)> },
    /// The session can be used.
    Ready,
    /// The session could not be made.
    Fail(AlkoError),
}

impl SessionState {
    /// Forgets the session.
    pub fn invalidate(&mut self)
        ensures
            final(self).wf(),
            final(self)@ == no_session(),
    {
        self.cookies = Vec::new();
        self.created_at = None;
        assert(http::pair_views(self.cookies@) == Seq::<CookieView>::empty());
    }

    /// The `Cookie` header, where the session can be used at the time `now`. Otherwise a
    /// bootstrap comes first.
    pub fn usable_cookie(&self, now: u64) -> (cookie: Option<String>)
        ensures
            match cookie {
                Some(cookie) => self@.fresh(now) && cookie@ == cookie_line(self@.cookies),
                None => !self@.fresh(now),
            },
    {
        if self.is_fresh(now) {
            Some(self.cookie_header())
        } else {
            None
        }
    }

    /// Begins a bootstrap: forgets the session and asks for a CSRF token.
    pub fn start_bootstrap(&mut self) -> (action: BootstrapAction)
        ensures
            final(self).wf(),
            final(self)@ == no_session(),
            action matches BootstrapAction::FetchCsrf { url } && url@ == BASE_URL@ + CSRF_PATH@,
    {
        self.invalidate();
        BootstrapAction::FetchCsrf { url: BASE_URL.to_owned().concat(CSRF_PATH) }
    }

    /// Takes the reply to the CSRF request; nothing where the request failed.
    pub fn on_csrf_reply(&mut self, reply: Option<Reply>) -> (action: BootstrapAction)
        ensures
            old(self).wf() ==> final(self).wf(),
            final(self)@ == after_csrf(old(self)@, reply),
            match reply {
                None => action matches BootstrapAction::Fail(error) && error is CsrfRequestFailed,
                Some(reply) => if !reply.status.succeeds() {
                    action matches BootstrapAction::Fail(AlkoError::CsrfStatus(status)) && status
                        == reply.status
                } else if !csrf_accepted(old(self)@, Some(reply)) {
                    action matches BootstrapAction::Fail(error) && error is NonTextCookie
                } else {
                    action is ReadCsrfToken
                },
            },
    {
        match reply {
            None => BootstrapAction::Fail(AlkoError::CsrfRequestFailed),
            Some(reply) => {
                if !reply.status.is_success() {
                    return BootstrapAction::Fail(AlkoError::CsrfStatus(reply.status));
                }
                match self.absorb_cookie_values(&reply.set_cookies) {
                    Err(error) => BootstrapAction::Fail(error),
                    Ok(()) => BootstrapAction::ReadCsrfToken,
                }
            },
        }
    }

    /// Takes the CSRF token; nothing where the answer held none.
    pub fn on_csrf_token(&self, token: Option<String>) -> (action: BootstrapAction)
        ensures
            match token {
                None => action matches BootstrapAction::Fail(error) && error is CsrfShape,
                Some(token) => {
                    &&& action matches BootstrapAction::SubmitLogin { url, cookie, form }
                    &&& url@ == BASE_URL@ + LOGIN_PATH@
                    &&& cookie@ == cookie_line(self@.cookies)
                    &&& http::pair_views(form@) == login_form(token@)
                },
            },
    {
        match token {
            None => BootstrapAction::Fail(AlkoError::CsrfShape),
            Some(token) => {
                let mut form: Vec<(String, String)> = Vec::new();
                form.push(("redirect".to_owned(), "false".to_owned()));
                form.push(("csrfToken".to_owned(), token));
                form.push(("callbackUrl".to_owned(), LOGIN_CALLBACK_URL.to_owned()));
                form.push(("json".to_owned(), "true".to_owned()));
                assert(http::pair_views(form@) == login_form(token@));
                BootstrapAction::SubmitLogin {
                    url: BASE_URL.to_owned().concat(LOGIN_PATH),
                    cookie: self.cookie_header(),
                    form,
                }
            },
        }
    }

    /// Takes the reply to the login request, which came at the time `now`; nothing where the
    /// request failed.
    pub fn on_login_reply(&mut self, reply: Option<Reply>, now: u64) -> (action: BootstrapAction)
        ensures
            old(self).wf() ==> final(self).wf(),
            final(self)@ == after_login(old(self)@, reply, now),
            match reply {
                None => action matches BootstrapAction::Fail(error) && error is BootstrapFailed,
                Some(reply) => if reply.status.refuses() {
                    action matches BootstrapAction::Fail(AlkoError::BootstrapStatus(status))
                        && status == reply.status
                } else if !reply.absorbed_by(old(self)@).1 {
                    action matches BootstrapAction::Fail(error) && error is NonTextCookie
                } else if !login_accepted(old(self)@, Some(reply)) {
                    action matches BootstrapAction::Fail(error) && error is NoSessionToken
                } else {
                    action is Ready
                },
            },
    {
        match reply {
            None => BootstrapAction::Fail(AlkoError::BootstrapFailed),
            Some(reply) => {
                if reply.status.is_refusal() {
                    return BootstrapAction::Fail(AlkoError::BootstrapStatus(reply.status));
                }
                match self.absorb_cookie_values(&reply.set_cookies) {
                    Err(error) => {
                        return BootstrapAction::Fail(error);
                    },
                    Ok(()) => {},
                }
                if !self.has_cookie(SESSION_COOKIE) {
                    return BootstrapAction::Fail(AlkoError::NoSessionToken);
                }
                self.created_at = Some(now);
                BootstrapAction::Ready
            },
        }
    }
}

/// The session after a whole bootstrap: the reply to the CSRF request, whether a token was
/// read, and the reply to the login request, which came at the time `now`.
pub open spec fn bootstrapped(
    csrf: Option<Reply>,
    token_read: bool,
    login: Option<Reply>,
    now: u64,
) -> SessionView {
    let session = after_csrf(no_session(), csrf);
    if csrf_accepted(no_session(), csrf) && token_read {
        after_login(session, login, now)
    } else {
        session
    }
}

/// Whether a whole bootstrap ends with a session that can be used.
pub open spec fn bootstrap_completes(csrf: Option<Reply>, token_read: bool, login: Option<Reply>) -> bool {
    &&& csrf_accepted(no_session(), csrf)
    &&& token_read
    &&& login_accepted(after_csrf(no_session(), csrf), login)
}

/// A bootstrap that completes leaves a session with the session cookie, which can be used at
/// once. Any other leaves a session that can never be used.
pub proof fn law_bootstrap_decides_freshness(
    csrf: Option<Reply>,
    token_read: bool,
    login: Option<Reply>,
    now: u64,
    later: u64,
)
    ensures
        ({
            let session = bootstrapped(csrf, token_read, login, now);
            if bootstrap_completes(csrf, token_read, login) {
                &&& cookie_value(session.cookies, SESSION_COOKIE@) is Some
                &&& session.fresh(now)
                &&& session.fresh(later) <==> later - now < SESSION_REFRESH_AFTER
            } else {
                !session.fresh(later)
            }
        }),
{
}

/// The session of a bootstrap that completes has the cookies of both replies, those of the CSRF
/// reply first, and was made when the login reply came.
pub proof fn law_bootstrap_takes_the_cookies_of_both_replies(csrf: Reply, login: Reply, now: u64)
    requires
        bootstrap_completes(Some(csrf), true, Some(login)),
    ensures
        ({
            let session = bootstrapped(Some(csrf), true, Some(login), now);
            &&& session.cookies == with_headers(
                Seq::empty(),
                http::byte_views(csrf.set_cookies@) + http::byte_views(login.set_cookies@),
            ).0
            &&& session.created_at == Some(now)
        }),
{
    let first = http::byte_views(csrf.set_cookies@);
    lemma_taken_headers_are_text(Seq::empty(), first);
    law_headers_are_taken_in_order(
        Seq::empty(),
        first,
        Seq::empty(),
        http::byte_views(login.set_cookies@),
    );
}

proof fn lemma_taken_headers_are_text(cookies: Seq<CookieView>, headers: Seq<Seq<u8>>)
    ensures
        with_headers(cookies, headers).1 <==> all_text(headers),
    decreases headers.len(),
{
    if headers.len() > 0 {
        let rest = headers.skip(1);
        match http::header_text(headers[0]) {
            None => {
                assert(!all_text(headers));
            },
            Some(text) => {
                lemma_taken_headers_are_text(with_header(cookies, text), rest);
                if all_text(rest) {
                    assert forall|i: int| 0 <= i < headers.len() implies http::header_text(
                        #[trigger] headers[i],
                    ) is Some by {
                        if i > 0 {
                            assert(rest[i - 1] == headers[i]);
                        }
                    }
                }
                if all_text(headers) {
                    assert forall|i: int| 0 <= i < rest.len() implies http::header_text(
                        #[trigger] rest[i],
                    ) is Some by {
                        assert(rest[i] == headers[i + 1]);
                    }
                }
            },
        }
    }
}

/// A bootstrap completes exactly where the CSRF reply is a success, a token is read, the login
/// reply is neither a client error nor a server error, all cookies are text, and together they
/// leave a session token.
pub proof fn law_bootstrap_completes_with_a_session_token(csrf: Reply, token_read: bool, login: Reply)
    ensures
        ({
            let headers = http::byte_views(csrf.set_cookies@) + http::byte_views(login.set_cookies@);
            bootstrap_completes(Some(csrf), token_read, Some(login)) <==> {
                &&& csrf.status.number() as int / 100 == 2
                &&& token_read
                &&& login.status.number() as int / 100 != 4
                &&& login.status.number() as int / 100 != 5
                &&& all_text(headers)
                &&& cookie_value(
                    with_headers(Seq::empty(), headers).0,
                    "__Secure-next-auth.session-token"@,
                ) is Some
            }
        }),
        !bootstrap_completes(None, token_read, Some(login)),
        !bootstrap_completes(Some(csrf), token_read, None),
{
    let first = http::byte_views(csrf.set_cookies@);
    let second = http::byte_views(login.set_cookies@);
    let headers = first + second;
    lemma_taken_headers_are_text(Seq::empty(), first);
    lemma_taken_headers_are_text(with_headers(Seq::empty(), first).0, second);
    if all_text(first) {
        law_headers_are_taken_in_order(Seq::empty(), first, Seq::empty(), second);
        lemma_taken_headers_are_text(Seq::empty(), headers);
    }
    if all_text(headers) {
        assert forall|i: int| 0 <= i < first.len() implies http::header_text(#[trigger] first[i]) is Some by {
            assert(headers[i] == first[i]);
        }
    }
}

/// The login form carries the CSRF token, and asks for an answer in JSON without a redirect.
pub proof fn law_login_form_carries_the_token(token: Seq<char>)
    ensures
        login_form(token).len() == 4,
        login_form(token).contains(("csrfToken"@, token)),
        login_form(token).contains(("redirect"@, "false"@)),
        login_form(token).contains(("json"@, "true"@)),
        login_form(token).contains(("callbackUrl"@, "https://www.alko.fi/fi/tuotteet"@)),
        forall|other: Seq<char>| login_form(other) == login_form(token) ==> other == token,
{
    let form = login_form(token);
    assert(form[0] == ("redirect"@, "false"@));
    assert(form[1] == ("csrfToken"@, token));
    assert(form[2] == ("callbackUrl"@, "https://www.alko.fi/fi/tuotteet"@));
    assert(form[3] == ("json"@, "true"@));
    assert forall|other: Seq<char>| login_form(other) == login_form(token) implies other == token by {
        assert(login_form(other)[1].1 == other);
    }
}

/// A session that was forgotten can never be used, and a session that can no longer be used at
/// some time cannot be used at any later time.
pub proof fn law_stale_sessions_stay_stale(session: SessionView, now: u64, later: u64)
    requires
        now <= later,
    ensures
        !no_session().fresh(now),
        !session.fresh(now) ==> !session.fresh(later),
{
}

/// What a JSON request does next.
pub enum RequestAction<'a> {
    /// Send `body`, if any, to `url` with `method` and the `Cookie` header `cookie`.
    Send { method: Method, url: String, cookie: String, body: Option<&'a serde_json::Value> },
    /// Forget the session, and begin again with another.
    RenewSession,
    /// Read the body of the answer.
    ReadBody,
    /// The request is answered.
    Finish(serde_json::Value),
    /// The request failed.
    Fail(AlkoError),
}

/// What becomes of a request when its reply comes.
pub ghost enum ReplyVerdict {
    Renew,
    Read,
    Failed,
    Refused,
}

/// What becomes of a request when its reply comes. Access is denied a first time where the
/// session has run out, and another session is tried then; a second denial is final.
pub open spec fn reply_verdict(renewed: bool, status: Option<HttpStatus>) -> ReplyVerdict {
    match status {
        None => ReplyVerdict::Failed,
        Some(status) => if status.denies_access() && !renewed {
            ReplyVerdict::Renew
        } else if !status.succeeds() {
            ReplyVerdict::Refused
        } else {
            ReplyVerdict::Read
        },
    }
}

/// A JSON request that is tried again once, with another session, where access is denied.
pub struct JsonRequest<'a> {
    pub method: Method,
    /// Path and query, below the site's origin.
    pub path: String,
    pub body: Option<&'a serde_json::Value>,
    /// Whether the session was renewed for this request.
    pub renewed: bool,
}

/// Whether two requests ask for the same, whatever became of their sessions.
pub open spec fn same_request(a: JsonRequest, b: JsonRequest) -> bool {
    a.method == b.method && a.path@ == b.path@ && a.body == b.body
}

/// Whether `action` sends `request` with the `Cookie` header `cookie`.
pub open spec fn sends(action: RequestAction, request: JsonRequest, cookie: String) -> bool {
    &&& action matches RequestAction::Send { method, url, cookie: sent, body }
    &&& method == request.method
    &&& url@ == BASE_URL@ + request.path@
    &&& sent == cookie
    &&& body == request.body
}

impl<'a> JsonRequest<'a> {
    pub fn new(method: Method, path: &str, body: Option<&'a serde_json::Value>) -> (request:
        JsonRequest<'a>)
        ensures
            request.method == method,
            request.path@ == path@,
            request.body == body,
            !request.renewed,
    {
        JsonRequest { method, path: path.to_owned(), body, renewed: false }
    }

    /// Takes the `Cookie` header of a usable session, or the error that kept it from being made.
    pub fn on_session(&self, cookie: Result<String, AlkoError>) -> (action: RequestAction<'a>)
        ensures
            match cookie {
                Ok(cookie) => sends(action, *self, cookie),
                Err(error) => action == RequestAction::Fail(error),
            },
    {
        match cookie {
            Ok(cookie) => RequestAction::Send {
                method: self.method,
                url: BASE_URL.to_owned().concat(self.path.as_str()),
                cookie,
                body: self.body,
            },
            Err(error) => RequestAction::Fail(error),
        }
    }

    /// Takes the status of the reply; nothing where the request failed.
    pub fn on_reply(&mut self, status: Option<HttpStatus>) -> (action: RequestAction<'a>)
        ensures
            same_request(*old(self), *final(self)),
            final(self).renewed == (old(self).renewed || action is RenewSession),
            match reply_verdict(old(self).renewed, status) {
                ReplyVerdict::Renew => action is RenewSession,
                ReplyVerdict::Read => action is ReadBody,
                ReplyVerdict::Failed => {
                    &&& action matches RequestAction::Fail(AlkoError::RequestFailed { method, path })
                    &&& method == old(self).method
                    &&& path@ == old(self).path@
                },
                ReplyVerdict::Refused => {
                    &&& action matches RequestAction::Fail(AlkoError::Status { status: given, path })
                    &&& status == Some(given)
                    &&& path@ == old(self).path@
                },
            },
    {
        match status {
            None => RequestAction::Fail(
                AlkoError::RequestFailed { method: self.method, path: self.path.clone() },
            ),
            Some(status) => {
                if status.is_access_denied() && !self.renewed {
                    self.renewed = true;
                    return RequestAction::RenewSession;
                }
                if !status.is_success() {
                    return RequestAction::Fail(
                        AlkoError::Status { status, path: self.path.clone() },
                    );
                }
                RequestAction::ReadBody
            },
        }
    }

    /// Takes the body of the answer; nothing where it is no JSON.
    pub fn on_body(&self, body: Option<serde_json::Value>) -> (action: RequestAction<'a>)
        ensures
            match body {
                Some(value) => action == RequestAction::Finish(value),
                None => {
                    &&& action matches RequestAction::Fail(AlkoError::InvalidJson { path })
                    &&& path@ == self.path@
                },
            },
    {
        match body {
            Some(value) => RequestAction::Finish(value),
            None => RequestAction::Fail(AlkoError::InvalidJson { path: self.path.clone() }),
        }
    }
}

/// How often a request is sent, where `replies` are the statuses that come back, one by one.
pub open spec fn times_sent(renewed: bool, replies: spec_fn(nat) -> Option<HttpStatus>, at: nat) -> nat
    decreases (if renewed { 0nat } else { 1nat }),
{
    if reply_verdict(renewed, replies(at)) is Renew && !renewed {
        1 + times_sent(true, replies, at + 1)
    } else {
        1
    }
}

/// A request is sent once or twice; the second time only where the first reply denied access.
/// No reply makes it go on after that.
pub proof fn law_request_is_sent_at_most_twice(replies: spec_fn(nat) -> Option<HttpStatus>, status: Option<HttpStatus>)
    ensures
        1 <= times_sent(false, replies, 0) <= 2,
        times_sent(false, replies, 0) == 2 <==> (replies(0) matches Some(first) && first.denies_access()),
        reply_verdict(true, status) !is Renew,
{
    reveal_with_fuel(times_sent, 3);
}

/// The status of a reply decides: a success is read, a first denial of access renews the session,
/// and any other status refuses the request. Without a reply the request failed.
pub proof fn law_status_decides(renewed: bool, status: HttpStatus)
    ensures
        reply_verdict(renewed, None) is Failed,
        reply_verdict(renewed, Some(status)) is Read <==> 200 <= status.number() <= 299,
        reply_verdict(renewed, Some(status)) is Renew <==> (!renewed && (status.number() == 401
            || status.number() == 403)),
        reply_verdict(renewed, Some(status)) !is Failed,
{
}

/// A request goes to Alko's site, at its own path.
pub proof fn law_requests_go_to_their_path(action: RequestAction, request: JsonRequest, cookie: String)
    requires
        sends(action, request, cookie),
    ensures
        action->url@ == "https://www.alko.fi"@ + request.path@,
        action->method == request.method,
        action->body == request.body,
        action->cookie == cookie,
{
}

/// Both tries of a request carry the same method, URL and body, each with the cookies of its own
/// session.
pub proof fn law_both_tries_send_the_same(
    first: RequestAction,
    second: RequestAction,
    request: JsonRequest,
    retried: JsonRequest,
    cookie: String,
    other_cookie: String,
)
    requires
        sends(first, request, cookie),
        same_request(request, retried),
        sends(second, retried, other_cookie),
    ensures
        first->method == second->method,
        first->url@ == second->url@,
        first->body == second->body,
        first->cookie == cookie,
        second->cookie == other_cookie,
{
}

pub const PRODUCT_SEARCH_PATH: &'static str = "/api/search/product?lang=fi";

pub const STORES_PATH: &'static str = "/api/stores";

/// The store that a search is scoped to: the one named, unless its id is blank.
pub open spec fn scoping_store(store_id: Option<Seq<char>>) -> Option<Seq<char>> {
    if text::filled(store_id) is Some {
        store_id
    } else {
        None
    }
}

/// The body of a product search.
pub open spec fn product_search_json(query: Seq<char>, store: Option<Seq<char>>, limit: u32) -> json::Json {
    let national = Map::<Seq<char>, json::Json>::empty().insert(
        "top"@,
        json::Json::Integer(limit as int),
    ).insert("skip"@, json::Json::Integer(0)).insert("search"@, json::Json::Text(query));
    json::Json::Object(
        match store {
            Some(id) => national.insert("storeId"@, json::Json::Text(id)),
            None => national,
        },
    )
}

/// The keys of a product search have different lengths, so no two are the same.
proof fn lemma_body_keys()
    ensures
        "top"@.len() == 3,
        "skip"@.len() == 4,
        "search"@.len() == 6,
        "storeId"@.len() == 7,
{
    reveal_strlit("top");
    reveal_strlit("skip");
    reveal_strlit("search");
    reveal_strlit("storeId");
}

/// A search names a store where the caller gives an id that is not blank, and that store. Any
/// other search is national: it names none.
pub proof fn law_search_names_the_given_store(query: Seq<char>, store_id: Option<Seq<char>>, limit: u32)
    ensures
        json::member(product_search_json(query, scoping_store(store_id), limit), "storeId"@) == match store_id {
            Some(id) => if text::trimmed(id).len() > 0 {
                Some(json::Json::Text(id))
            } else {
                None
            },
            None => None,
        },
        json::member(product_search_json(query, scoping_store(store_id), limit), "search"@) == Some(
            json::Json::Text(query),
        ),
        json::member(product_search_json(query, scoping_store(store_id), limit), "top"@) == Some(
            json::Json::Integer(limit as int),
        ),
        json::member(product_search_json(query, scoping_store(store_id), limit), "skip"@) == Some(
            json::Json::Integer(0),
        ),
{
    lemma_body_keys();
}

/// The body of a product search holds nothing but the term, the number of results, where to begin
/// and the store. So searches with the same body are the same.
pub proof fn law_search_bodies_tell_searches_apart(
    query: Seq<char>,
    store: Option<Seq<char>>,
    limit: u32,
    key: Seq<char>,
    other_query: Seq<char>,
    other_store: Option<Seq<char>>,
    other_limit: u32,
)
    ensures
        key != "search"@ && key != "top"@ && key != "skip"@ && key != "storeId"@ ==> json::member(
            product_search_json(query, store, limit),
            key,
        ) is None,
        product_search_json(query, store, limit) == product_search_json(
            other_query,
            other_store,
            other_limit,
        ) ==> query == other_query && store == other_store && limit == other_limit,
{
    lemma_body_keys();
    let body = product_search_json(query, store, limit);
    let other = product_search_json(other_query, other_store, other_limit);
    assert(json::member(body, "search"@) == Some(json::Json::Text(query)));
    assert(json::member(other, "search"@) == Some(json::Json::Text(other_query)));
    assert(json::member(body, "top"@) == Some(json::Json::Integer(limit as int)));
    assert(json::member(other, "top"@) == Some(json::Json::Integer(other_limit as int)));
    assert(json::member(body, "storeId"@) == match store {
        Some(id) => Some(json::Json::Text(id)),
        None => None,
    });
    assert(json::member(other, "storeId"@) == match other_store {
        Some(id) => Some(json::Json::Text(id)),
        None => None,
    });
}

/// The body of a product search: nationally, or at one store.
pub fn product_search_body(query: &str, store_id: Option<&str>, limit: Option<u32>) -> (body: Result<
    serde_json::Value,
    AlkoError,
>)
    ensures
        match body {
            Ok(body) => {
                &&& text::trimmed(query@).len() > 0
                &&& json::json_tree(body) == product_search_json(
                    text::trimmed(query@),
                    scoping_store(text::slice_view(store_id)),
                    catalog::clamped(limit),
                )
                &&& json::member(json::json_tree(body), "search"@) == Some(
                    json::Json::Text(text::trimmed(query@)),
                )
                &&& json::member(json::json_tree(body), "top"@) == Some(
                    json::Json::Integer(catalog::clamped(limit) as int),
                )
            },
            Err(error) => text::trimmed(query@).len() == 0 && error is EmptyQuery,
        },
{
    let query: &str = text::trim(query);
    if query.is_empty() {
        return Err(AlkoError::EmptyQuery);
    }
    let mut pairs: Vec<(String, serde_json::Value)> = Vec::new();
    pairs.push(("top".to_owned(), json::json_integer(clamp_limit(limit))));
    pairs.push(("skip".to_owned(), json::json_integer(0)));
    pairs.push(("search".to_owned(), json::json_string(query)));
    proof {
        reveal_with_fuel(json::members_of, 4);
        assert(pairs@.drop_last().drop_last().drop_last() == Seq::<(String, serde_json::Value)>::empty());
        lemma_body_keys();
    }
    let ghost national = pairs@;
    assert(json::Json::Object(json::members_of(national)) == product_search_json(
        query@,
        None,
        catalog::clamped(limit),
    ));
    match store_id {
        Some(id) => {
            if text::filled_text(store_id).is_some() {
                pairs.push(("storeId".to_owned(), json::json_string(id)));
                assert(pairs@.drop_last() == national);
            }
        },
        None => {},
    }
    Ok(json::json_object(pairs))
}

/// A product as Alko describes it. `P` is the type of its numbers.
pub struct AlkoProduct<P> {
    pub id: String,
    pub name: String,
    pub price: Option<P>,
    pub abv: Option<P>,
    /// In litres.
    pub volume: Option<P>,
    pub country_name: Option<String>,
    pub product_group_name: Vec<String>,
}

/// An answer to a product search, as Alko gives it.
pub struct ProductSearchResponse<P> {
    pub total: Option<u64>,
    pub value: Vec<AlkoProduct<P>>,
}

/// A product as callers see it.
#[derive(Debug)]
pub struct AlkoProductView<P> {
    pub sku: String,
    pub name: String,
    pub price: Option<P>,
    pub price_per_litre: Option<P>,
    pub abv: Option<P>,
    pub country: Option<String>,
    pub category: Option<String>,
    pub image_url: String,
}

/// An answer to a product search, as callers see it.
#[derive(Debug)]
pub struct AlkoProductSearchView<P> {
    pub total_hits: u64,
    pub results: Vec<AlkoProductView<P>>,
}

/// Whether `ratio` is the price per litre: the price divided by the volume, where both are known
/// and `positive` finds the volume to be above zero.
pub open spec fn is_price_per_litre<P, Positive: Fn(P) -> bool, Divide: Fn(P, P) -> P>(
    price: Option<P>,
    volume: Option<P>,
    positive: Positive,
    divide: Divide,
    ratio: Option<P>,
) -> bool {
    match (price, volume) {
        (Some(price), Some(volume)) => exists|above: bool| #[trigger]
            call_ensures(positive, (volume,), above) && match ratio {
                Some(ratio) => above && call_ensures(divide, (price, volume), ratio),
                None => !above,
            },
        _ => ratio is None,
    }
}

/// The price per litre, where price and volume are known and the volume is above zero. The two
/// functions do the arithmetic of the number type.
pub fn price_per_litre<P: Copy, Positive: Fn(P) -> bool, Divide: Fn(P, P) -> P>(
    price: Option<P>,
    volume: Option<P>,
    positive: &Positive,
    divide: &Divide,
) -> (ratio: Option<P>)
    requires
        forall|v: P| call_requires(*positive, (v,)),
        forall|p: P, v: P| call_requires(*divide, (p, v)),
    ensures
        is_price_per_litre(price, volume, *positive, *divide, ratio),
{
    match (price, volume) {
        (Some(price), Some(volume)) => {
            let above: bool = positive(volume);
            if above {
                Some(divide(price, volume))
            } else {
                None
            }
        },
        _ => None,
    }
}

/// The picture of a product.
pub open spec fn image_address(sku: Seq<char>) -> Seq<char> {
    "https://images.alko.fi/images/cs_srgb,f_auto,t_products/cdn/"@ + sku + "/"@ + sku + ".jpg"@
}

/// The first of a list of texts.
pub open spec fn first_of(texts: Seq<String>) -> Option<String> {
    if texts.len() > 0 {
        Some(texts[0])
    } else {
        None
    }
}

/// Whether `view` shows `product`.
pub open spec fn shows_product<P, Positive: Fn(P) -> bool, Divide: Fn(P, P) -> P>(
    view: AlkoProductView<P>,
    product: AlkoProduct<P>,
    positive: Positive,
    divide: Divide,
) -> bool {
    &&& view.sku == product.id
    &&& view.name == product.name
    &&& view.price == product.price
    &&& is_price_per_litre(product.price, product.volume, positive, divide, view.price_per_litre)
    &&& view.abv == product.abv
    &&& view.country == product.country_name
    &&& view.category == first_of(product.product_group_name@)
    &&& view.image_url@ == image_address(product.id@)
}

/// The price per litre is the price divided by the volume, in this order. There is none where the
/// price or the volume is not known, or the volume is not above zero.
pub proof fn law_price_per_litre_is_price_by_volume<P, Positive: Fn(P) -> bool, Divide: Fn(P, P) -> P>(
    price: Option<P>,
    volume: Option<P>,
    positive: Positive,
    divide: Divide,
    ratio: Option<P>,
)
    requires
        is_price_per_litre(price, volume, positive, divide, ratio),
    ensures
        price is None || volume is None ==> ratio is None,
        price is Some && volume is Some ==> {
            &&& (forall|above: bool| call_ensures(positive, (volume->0,), above) ==> above)
                ==> ratio is Some
            &&& (forall|above: bool| call_ensures(positive, (volume->0,), above) ==> !above)
                ==> ratio is None
            &&& ratio is Some ==> {
                &&& call_ensures(positive, (volume->0,), true)
                &&& call_ensures(divide, (price->0, volume->0), ratio->0)
            }
        },
{
}

/// The picture of a product stands in the image service's folder of the product, under the
/// product's number.
pub proof fn law_pictures_stand_under_their_product(sku: Seq<char>)
    ensures
        ({
            let folder = "https://images.alko.fi/images/cs_srgb,f_auto,t_products/cdn/"@;
            let address = image_address(sku);
            let n = folder.len() as int;
            &&& address.take(n) == folder
            &&& address.subrange(n, n + sku.len()) == sku
            &&& address[n + sku.len()] == '/'
            &&& address.subrange(n + sku.len() + 1, n + 2 * sku.len() + 1) == sku
            &&& address.skip(n + 2 * sku.len() + 1) == ".jpg"@
        }),
{
    let folder = "https://images.alko.fi/images/cs_srgb,f_auto,t_products/cdn/"@;
    let address = image_address(sku);
    let n = folder.len() as int;
    reveal_strlit("/");
    assert("/"@ == seq!['/']);
    assert(address == folder + sku + seq!['/'] + sku + ".jpg"@);
    assert(address.take(n) =~= folder);
    assert(address.subrange(n, n + sku.len()) =~= sku);
    assert(address.subrange(n + sku.len() + 1, n + 2 * sku.len() + 1) =~= sku);
    assert(address.skip(n + 2 * sku.len() + 1) =~= ".jpg"@);
}

/// A product is shown with its own number, name, price, strength and country, and with a category
/// exactly where it is in a product group: the first of its groups.
pub proof fn law_products_are_shown_as_they_are<P, Positive: Fn(P) -> bool, Divide: Fn(P, P) -> P>(
    view: AlkoProductView<P>,
    product: AlkoProduct<P>,
    positive: Positive,
    divide: Divide,
)
    requires
        shows_product(view, product, positive, divide),
    ensures
        view.sku@ == product.id@,
        view.name@ == product.name@,
        view.price == product.price,
        view.abv == product.abv,
        view.country == product.country_name,
        view.category is Some <==> product.product_group_name@.len() > 0,
        product.product_group_name@.len() > 0 ==> view.category == Some(
            product.product_group_name@[0],
        ),
        is_price_per_litre(product.price, product.volume, positive, divide, view.price_per_litre),
        view.image_url@ == image_address(product.id@),
{
}

impl<P: Copy> AlkoProductView<P> {
    pub fn from_product<Positive: Fn(P) -> bool, Divide: Fn(P, P) -> P>(
        product: AlkoProduct<P>,
        positive: &Positive,
        divide: &Divide,
    ) -> (view: Self)
        requires
            forall|v: P| call_requires(*positive, (v,)),
            forall|p: P, v: P| call_requires(*divide, (p, v)),
        ensures
            shows_product(view, product, *positive, *divide),
            view.category is Some <==> product.product_group_name@.len() > 0,
            product.product_group_name@.len() > 0 ==> view.category == Some(
                product.product_group_name@[0],
            ),
    {
        let price_per_litre = price_per_litre(product.price, product.volume, positive, divide);
        let sku: String = product.id;
        let image_url: String =
            "https://images.alko.fi/images/cs_srgb,f_auto,t_products/cdn/".to_owned().concat(
            sku.as_str(),
        ).concat("/").concat(sku.as_str()).concat(".jpg");
        let mut groups: Vec<String> = product.product_group_name;
        let category: Option<String> = if groups.len() > 0 {
            Some(groups.remove(0))
        } else {
            None
        };
        AlkoProductView {
            sku,
            name: product.name,
            price: product.price,
            price_per_litre,
            abv: product.abv,
            country: product.country_name,
            category,
            image_url,
        }
    }
}

/// What callers see of an answer to a product search: its products in their order, and how many
/// there are in all, which is taken to be the number given where Alko does not say.
pub fn product_search_view<P: Copy, Positive: Fn(P) -> bool, Divide: Fn(P, P) -> P>(
    response: ProductSearchResponse<P>,
    positive: &Positive,
    divide: &Divide,
) -> (view: AlkoProductSearchView<P>)
    requires
        forall|v: P| call_requires(*positive, (v,)),
        forall|p: P, v: P| call_requires(*divide, (p, v)),
    ensures
        view.total_hits == match response.total {
            Some(total) => total,
            None => response.value@.len() as u64,
        },
        view.results@.len() == response.value@.len(),
        forall|i: int|
            0 <= i < response.value@.len() ==> shows_product(
                #[trigger] view.results@[i],
                response.value@[i],
                *positive,
                *divide,
            ),
{
    let total_hits: u64 = match response.total {
        Some(total) => total,
        None => response.value.len() as u64,
    };
    let mut results: Vec<AlkoProductView<P>> = Vec::new();
    let ghost products = response.value@;
    for product in it: response.value
        invariant
            it.seq() == products,
            results@.len() == it.index(),
            forall|v: P| call_requires(*positive, (v,)),
            forall|p: P, v: P| call_requires(*divide, (p, v)),
            forall|i: int|
                0 <= i < it.index() ==> shows_product(
                    #[trigger] results@[i],
                    products[i],
                    *positive,
                    *divide,
                ),
    {
        results.push(AlkoProductView::from_product(product, positive, divide));
    }
    AlkoProductSearchView { total_hits, results }
}

/// A store as Alko describes it.
pub struct AlkoStore {
    pub id: String,
    pub name: String,
    pub city: String,
    pub address: String,
    pub postal_code: String,
}

/// A store as callers see it.
#[derive(Debug)]
pub struct AlkoStoreView {
    pub store_id: String,
    pub name: String,
    pub city: String,
    pub address: String,
    pub postal_code: String,
}

/// A store as callers see it.
pub open spec fn store_view(store: AlkoStore) -> AlkoStoreView {
    AlkoStoreView {
        store_id: store.id,
        name: store.name,
        city: store.city,
        address: store.address,
        postal_code: store.postal_code,
    }
}

impl From<AlkoStore> for AlkoStoreView {
    fn from(store: AlkoStore) -> (view: Self) {
        AlkoStoreView {
            store_id: store.id,
            name: store.name,
            city: store.city,
            address: store.address,
            postal_code: store.postal_code,
        }
    }
}

impl vstd::std_specs::convert::FromSpecImpl<AlkoStore> for AlkoStoreView {
    open spec fn obeys_from_spec() -> bool {
        true
    }

    open spec fn from_spec(store: AlkoStore) -> Self {
        store_view(store)
    }
}

/// Whether a city is one that is sought: whatever the case, `sought` is a part of its name.
pub open spec fn city_matches(city: Seq<char>, sought: Option<Seq<char>>) -> bool {
    match sought {
        Some(sought) => text::occurs(text::lowercase(city), text::lowercase(sought)),
        None => true,
    }
}

/// The stores in a sought city, as callers see them, in their order.
pub open spec fn stores_in(stores: Seq<AlkoStore>, sought: Option<Seq<char>>) -> Seq<AlkoStoreView>
    decreases stores.len(),
{
    if stores.len() == 0 {
        Seq::empty()
    } else if city_matches(stores.last().city@, sought) {
        stores_in(stores.drop_last(), sought).push(store_view(stores.last()))
    } else {
        stores_in(stores.drop_last(), sought)
    }
}

/// The stores in a city, or all of them.
pub fn stores_view(stores: Vec<AlkoStore>, city: Option<&str>) -> (view: Vec<AlkoStoreView>)
    ensures
        view@ == stores_in(stores@, text::filled(text::slice_view(city))),
{
    let sought: Option<String> = match text::filled_text(city) {
        Some(city) => Some(city.to_lowercase()),
        None => None,
    };
    let ghost filter = text::filled(text::slice_view(city));
    let mut view: Vec<AlkoStoreView> = Vec::new();
    let ghost all = stores@;
    for store in it: stores
        invariant
            it.seq() == all,
            view@ == stores_in(all.take(it.index() as int), filter),
            match sought {
                Some(sought) => filter is Some && sought@ == text::lowercase(filter->0),
                None => filter is None,
            },
    {
        proof {
            let part = all.take(it.index() + 1);
            assert(part.drop_last() == all.take(it.index() as int));
            assert(part.last() == store);
        }
        let kept: bool = match &sought {
            Some(sought) => text::contains(store.city.to_lowercase().as_str(), sought.as_str()),
            None => true,
        };
        if kept {
            view.push(AlkoStoreView::from(store));
        }
    }
    assert(all.take(all.len() as int) == all);
    view
}

/// Without a city, every store is listed.
pub proof fn law_no_city_lists_every_store(stores: Seq<AlkoStore>)
    ensures
        stores_in(stores, None) == stores.map_values(|store: AlkoStore| store_view(store)),
    decreases stores.len(),
{
    if stores.len() > 0 {
        law_no_city_lists_every_store(stores.drop_last());
        assert(stores == stores.drop_last().push(stores.last()));
    }
}

/// The case in which a city is written makes no difference to what is listed.
pub proof fn law_city_filter_ignores_case(stores: Seq<AlkoStore>, a: Seq<char>, b: Seq<char>)
    requires
        text::lowercase(a) == text::lowercase(b),
    ensures
        stores_in(stores, Some(a)) == stores_in(stores, Some(b)),
    decreases stores.len(),
{
    if stores.len() > 0 {
        law_city_filter_ignores_case(stores.drop_last(), a, b);
    }
}

/// With a city sought, exactly the stores are listed whose city holds it, whatever the case, in
/// their order, each as it is. Where all stores are in the city, all are listed.
pub proof fn law_city_lists_exactly_its_stores(stores: Seq<AlkoStore>, city: Seq<char>)
    ensures
        stores_in(stores, Some(city)) == stores.filter(
            |store: AlkoStore|
                text::occurs(text::lowercase(store.city@), text::lowercase(city)),
        ).map_values(
            |store: AlkoStore|
                (AlkoStoreView {
                    store_id: store.id,
                    name: store.name,
                    city: store.city,
                    address: store.address,
                    postal_code: store.postal_code,
                }),
        ),
        (forall|i: int|
            0 <= i < stores.len() ==> text::occurs(
                text::lowercase((#[trigger] stores[i]).city@),
                text::lowercase(city),
            )) ==> stores_in(stores, Some(city)).len() == stores.len(),
    decreases stores.len(),
{
    reveal(Seq::filter);
    if stores.len() > 0 {
        let rest = stores.drop_last();
        law_city_lists_exactly_its_stores(rest, city);
        let kept = |store: AlkoStore|
            text::occurs(text::lowercase(store.city@), text::lowercase(city));
        let shown = |store: AlkoStore|
            (AlkoStoreView {
                store_id: store.id,
                name: store.name,
                city: store.city,
                address: store.address,
                postal_code: store.postal_code,
            });
        if kept(stores.last()) {
            assert(rest.filter(kept).push(stores.last()).map_values(shown) =~= rest.filter(
                kept,
            ).map_values(shown).push(shown(stores.last())));
        }
        if forall|i: int|
            0 <= i < stores.len() ==> text::occurs(
                text::lowercase((#[trigger] stores[i]).city@),
                text::lowercase(city),
            ) {
            assert forall|i: int| 0 <= i < rest.len() implies text::occurs(
                text::lowercase((#[trigger] rest[i]).city@),
                text::lowercase(city),
            ) by {
                assert(rest[i] == stores[i]);
            }
            assert(stores[stores.len() - 1] == stores.last());
        }
    }
}

/// A store is shown with its own number, name, city, address and postal code.
pub proof fn law_stores_are_shown_as_they_are(store: AlkoStore)
    ensures
        store_view(store).store_id == store.id,
        store_view(store).name == store.name,
        store_view(store).city == store.city,
        store_view(store).address == store.address,
        store_view(store).postal_code == store.postal_code,
{
}

}
