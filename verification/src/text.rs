//! Text operations with exact contracts over sequences of characters.

use vstd::prelude::*;
use vstd::string::*;
use vstd::utf8::*;

verus! {

/// `String::push` appends one character.
pub assume_specification[ String::push ](s: &mut String, c: char)
    ensures
        final(s)@ == old(s)@.push(c),
;

/// The lower-case form of a text, as `str::to_lowercase` computes it.
pub uninterp spec fn lowercase(text: Seq<char>) -> Seq<char>;

/// `str::to_lowercase` maps a text to its Unicode lower-case form, whatever the locale.
pub assume_specification[ str::to_lowercase ](s: &str) -> (lowered: String)
    ensures
        lowered@ == lowercase(s@),
;

/// Characters with the Unicode property White_Space.
pub open spec fn white_space(c: char) -> bool {
    let code = c as u32;
    ||| 0x9 <= code <= 0xd
    ||| code == 0x20
    ||| code == 0x85
    ||| code == 0xa0
    ||| code == 0x1680
    ||| 0x2000 <= code <= 0x200a
    ||| code == 0x2028
    ||| code == 0x2029
    ||| code == 0x202f
    ||| code == 0x205f
    ||| code == 0x3000
}

/// Tells whether `c` is white space.
pub fn is_white_space(c: char) -> (white: bool)
    ensures
        white == white_space(c),
{
    let code: u32 = c as u32;
    (0x9 <= code && code <= 0xd) || code == 0x20 || code == 0x85 || code == 0xa0 || code == 0x1680
        || (0x2000 <= code && code <= 0x200a) || code == 0x2028 || code == 0x2029 || code == 0x202f
        || code == 0x205f || code == 0x3000
}

/// `text` without its leading white space.
pub open spec fn trimmed_start(text: Seq<char>) -> Seq<char>
    decreases text.len(),
{
    if text.len() > 0 && white_space(text[0]) {
        trimmed_start(text.skip(1))
    } else {
        text
    }
}

/// `text` without its trailing white space.
pub open spec fn trimmed_end(text: Seq<char>) -> Seq<char>
    decreases text.len(),
{
    if text.len() > 0 && white_space(text.last()) {
        trimmed_end(text.drop_last())
    } else {
        text
    }
}

/// `text` without leading and trailing white space.
pub open spec fn trimmed(text: Seq<char>) -> Seq<char> {
    trimmed_end(trimmed_start(text))
}

proof fn lemma_trimmed_start_within(text: Seq<char>, c: char)
    requires
        trimmed_start(text).contains(c),
    ensures
        text.contains(c),
    decreases text.len(),
{
    if text.len() > 0 && white_space(text[0]) {
        lemma_trimmed_start_within(text.skip(1), c);
        let i = choose|i: int| 0 <= i < text.skip(1).len() && text.skip(1)[i] == c;
        assert(text[i + 1] == c);
    }
}

proof fn lemma_trimmed_end_within(text: Seq<char>, c: char)
    requires
        trimmed_end(text).contains(c),
    ensures
        text.contains(c),
    decreases text.len(),
{
    if text.len() > 0 && white_space(text.last()) {
        lemma_trimmed_end_within(text.drop_last(), c);
        let i = choose|i: int| 0 <= i < text.drop_last().len() && text.drop_last()[i] == c;
        assert(text[i] == c);
    }
}

/// Trimming adds no character.
pub proof fn lemma_trimmed_within(text: Seq<char>, c: char)
    requires
        trimmed(text).contains(c),
    ensures
        text.contains(c),
{
    lemma_trimmed_end_within(trimmed_start(text), c);
    lemma_trimmed_start_within(text, c);
}

/// The characters of `text`.
pub fn chars_of(text: &str) -> (chars: Vec<char>)
    ensures
        chars@ == text@,
{
    let mut chars: Vec<char> = Vec::new();
    for c in it: text.chars()
        invariant
            it.seq() == text@,
            chars@ == it.seq().take(it.index() as int),
    {
        chars.push(c);
    }
    assert(text@.take(text@.len() as int) == text@);
    chars
}

/// Removes leading and trailing white space.
pub fn trim(text: &str) -> (inner: &str)
    ensures
        inner@ == trimmed(text@),
{
    let chars: Vec<char> = chars_of(text);
    let mut start: usize = 0;
    assert(chars@.skip(0) == text@);
    while start < chars.len() && is_white_space(chars[start])
        invariant
            start <= chars.len(),
            chars@ == text@,
            trimmed_start(chars@.skip(start as int)) == trimmed_start(text@),
        decreases chars.len() - start,
    {
        assert(chars@.skip(start as int).skip(1) == chars@.skip(start + 1));
        start = start + 1;
    }
    assert(trimmed_start(text@) == chars@.skip(start as int));
    let mut end: usize = chars.len();
    assert(chars@.subrange(start as int, end as int) == chars@.skip(start as int));
    while start < end && is_white_space(chars[end - 1])
        invariant
            start <= end <= chars.len(),
            chars@ == text@,
            trimmed_end(chars@.subrange(start as int, end as int)) == trimmed(text@),
        decreases end,
    {
        let ghost part = chars@.subrange(start as int, end as int);
        assert(part.drop_last() == chars@.subrange(start as int, end - 1));
        end = end - 1;
    }
    text.substring_char(start, end)
}

/// The contents of an optional text.
pub open spec fn optional_view(text: Option<String>) -> Option<Seq<char>> {
    match text {
        Some(text) => Some(text@),
        None => None,
    }
}

/// The contents of an optional borrowed text.
pub open spec fn slice_view(text: Option<&str>) -> Option<Seq<char>> {
    match text {
        Some(text) => Some(text@),
        None => None,
    }
}

/// A text without white space around it, unless nothing is left of it.
pub open spec fn filled(text: Option<Seq<char>>) -> Option<Seq<char>> {
    match text {
        Some(text) => if trimmed(text).len() > 0 {
            Some(trimmed(text))
        } else {
            None
        },
        None => None,
    }
}

/// An optional text, borrowed.
pub fn borrow_text(text: &Option<String>) -> (slice: Option<&str>)
    ensures
        slice_view(slice) == optional_view(*text),
{
    match text {
        Some(text) => Some(text.as_str()),
        None => None,
    }
}

/// Removes white space around a text; nothing where nothing is left of it.
pub fn filled_text(text: Option<&str>) -> (inner: Option<&str>)
    ensures
        slice_view(inner) == filled(slice_view(text)),
{
    match text {
        Some(text) => {
            let inner: &str = trim(text);
            if inner.is_empty() {
                None
            } else {
                Some(inner)
            }
        },
        None => None,
    }
}

/// An optional text of its own.
pub fn owned_text(text: Option<&str>) -> (owned: Option<String>)
    ensures
        optional_view(owned) == slice_view(text),
{
    match text {
        Some(text) => Some(text.to_owned()),
        None => None,
    }
}

/// The text made of `chars[from..to]`.
pub fn text_of(chars: &Vec<char>, from: usize, to: usize) -> (text: String)
    requires
        from <= to <= chars@.len(),
    ensures
        text@ == chars@.subrange(from as int, to as int),
{
    let mut text: String = String::new();
    let mut i: usize = from;
    while i < to
        invariant
            from <= i <= to <= chars@.len(),
            text@ == chars@.subrange(from as int, i as int),
        decreases to - i,
    {
        text.push(chars[i]);
        i = i + 1;
    }
    text
}

/// Tells whether two texts are the same.
pub fn same_text(a: &str, b: &str) -> (same: bool)
    ensures
        same == (a@ == b@),
{
    let left: &[u8] = a.as_bytes();
    let right: &[u8] = b.as_bytes();
    proof {
        encode_utf8_decode_utf8(a@);
        encode_utf8_decode_utf8(b@);
    }
    if left.len() != right.len() {
        return false;
    }
    let mut i: usize = 0;
    while i < left.len()
        invariant
            i <= left@.len() == right@.len(),
            left@.take(i as int) == right@.take(i as int),
            a@ == b@ ==> left@ == right@,
        decreases left@.len() - i,
    {
        if left[i] != right[i] {
            return false;
        }
        assert(left@.take(i + 1) == left@.take(i as int).push(left@[i as int]));
        assert(right@.take(i + 1) == right@.take(i as int).push(right@[i as int]));
        i = i + 1;
    }
    assert(left@.take(i as int) == left@);
    assert(right@.take(i as int) == right@);
    true
}

/// Whether `pattern` stands in `text` at position `at`.
pub open spec fn stands_at(text: Seq<char>, pattern: Seq<char>, at: int) -> bool {
    0 <= at && at + pattern.len() <= text.len() && text.subrange(at, at + pattern.len()) == pattern
}

/// Whether `pattern` stands somewhere in `text`.
pub open spec fn occurs(text: Seq<char>, pattern: Seq<char>) -> bool {
    exists|at: int| stands_at(text, pattern, at)
}

/// Tells whether `pattern` stands in `text` at position `at`.
fn matches_at(text: &Vec<char>, pattern: &Vec<char>, at: usize) -> (found: bool)
    requires
        at <= text@.len(),
    ensures
        found == stands_at(text@, pattern@, at as int),
{
    if text.len() - at < pattern.len() {
        return false;
    }
    let mut i: usize = 0;
    while i < pattern.len()
        invariant
            i <= pattern@.len(),
            at + pattern@.len() <= text.len(),
            forall|k: int| 0 <= k < i ==> text@[at + k] == pattern@[k],
        decreases pattern@.len() - i,
    {
        if text[at + i] != pattern[i] {
            assert(text@.subrange(at as int, at + pattern@.len())[i as int] != pattern@[i as int]);
            return false;
        }
        i = i + 1;
    }
    assert(text@.subrange(at as int, at + pattern@.len()) =~= pattern@);
    true
}

/// Tells whether `pattern` occurs in `text`.
pub fn contains(text: &str, pattern: &str) -> (found: bool)
    ensures
        found == occurs(text@, pattern@),
{
    let chars: Vec<char> = chars_of(text);
    let sought: Vec<char> = chars_of(pattern);
    let mut at: usize = 0;
    loop
        invariant
            at <= chars@.len(),
            chars@ == text@,
            sought@ == pattern@,
            forall|k: int| 0 <= k < at ==> !stands_at(text@, pattern@, k),
        decreases chars@.len() - at,
    {
        if matches_at(&chars, &sought, at) {
            return true;
        }
        if at == chars.len() {
            return false;
        }
        at = at + 1;
    }
}

/// `text` with every occurrence of `pattern`, taken from left to right, replaced by `by`.
pub open spec fn replaced(text: Seq<char>, pattern: Seq<char>, by: Seq<char>) -> Seq<char>
    decreases text.len(),
{
    if pattern.len() == 0 || text.len() == 0 {
        text
    } else if stands_at(text, pattern, 0) {
        by + replaced(text.skip(pattern.len() as int), pattern, by)
    } else {
        seq![text[0]] + replaced(text.skip(1), pattern, by)
    }
}

/// Whether no character of `text` is one of `chars`.
pub open spec fn avoids(text: Seq<char>, chars: Seq<char>) -> bool {
    forall|i: int| 0 <= i < text.len() ==> !chars.contains(#[trigger] text[i])
}

proof fn lemma_replaced_starts_with(
    text: Seq<char>,
    pattern: Seq<char>,
    by: Seq<char>,
    other: Seq<char>,
)
    requires
        by.len() > 0,
        avoids(by, other),
        stands_at(replaced(text, pattern, by), other, 0),
    ensures
        stands_at(text, other, 0),
    decreases text.len(),
{
    let out = replaced(text, pattern, by);
    if other.len() > 0 && pattern.len() > 0 && text.len() > 0 {
        assert(out[0] == out.subrange(0, other.len() as int)[0]);
        assert(other.contains(other[0]));
        if stands_at(text, pattern, 0) {
            assert(out[0] == by[0]);
        } else {
            let rest = replaced(text.skip(1), pattern, by);
            let tail = other.skip(1);
            assert(out[0] == text[0]);
            assert forall|i: int| 0 <= i < by.len() implies !tail.contains(#[trigger] by[i]) by {
                if tail.contains(by[i]) {
                    let k = choose|k: int| 0 <= k < tail.len() && tail[k] == by[i];
                    assert(other[k + 1] == by[i]);
                }
            }
            assert forall|k: int| 0 <= k < tail.len() implies rest[k] == #[trigger] tail[k] by {
                assert(out.subrange(0, other.len() as int)[k + 1] == other[k + 1]);
                assert(out[k + 1] == rest[k]);
            }
            assert(rest.subrange(0, tail.len() as int) =~= tail);
            lemma_replaced_starts_with(text.skip(1), pattern, by, tail);
            assert forall|k: int| 0 <= k < other.len() implies text[k] == #[trigger] other[k] by {
                if k > 0 {
                    assert(text.skip(1).subrange(0, tail.len() as int)[k - 1] == tail[k - 1]);
                }
            }
            assert(text.subrange(0, other.len() as int) =~= other);
        }
    } else if other.len() == 0 {
        assert(text.subrange(0, 0) =~= other);
    }
}

/// The occurrences of a text after a replacement were there before, where the replacement shares
/// no character with it.
pub proof fn law_replacing_adds_nothing_else(
    text: Seq<char>,
    pattern: Seq<char>,
    by: Seq<char>,
    other: Seq<char>,
)
    requires
        by.len() > 0,
        avoids(by, other),
        occurs(replaced(text, pattern, by), other),
    ensures
        occurs(text, other),
    decreases text.len(),
{
    let out = replaced(text, pattern, by);
    let at = choose|at: int| stands_at(out, other, at);
    if other.len() == 0 {
        assert(text.subrange(0, 0) =~= other);
        assert(stands_at(text, other, 0));
    } else if at == 0 {
        lemma_replaced_starts_with(text, pattern, by, other);
        assert(stands_at(text, other, 0));
    } else if pattern.len() > 0 && text.len() > 0 {
        let replacing = stands_at(text, pattern, 0);
        let step = if replacing { pattern.len() as int } else { 1 };
        let head = if replacing { by } else { seq![text[0]] };
        let rest = replaced(text.skip(step), pattern, by);
        assert(out == head + rest);
        if at < head.len() {
            assert(out.subrange(at, at + other.len())[0] == by[at]);
            assert(other.contains(other[0]));
        } else {
            assert(rest.subrange(at - head.len(), at - head.len() + other.len()) =~= out.subrange(
                at,
                at + other.len(),
            ));
            assert(stands_at(rest, other, at - head.len()));
            law_replacing_adds_nothing_else(text.skip(step), pattern, by, other);
            let before = choose|before: int| stands_at(text.skip(step), other, before);
            assert(text.subrange(before + step, before + step + other.len()) =~= text.skip(
                step,
            ).subrange(before, before + other.len()));
            assert(stands_at(text, other, before + step));
        }
    } else {
        assert(stands_at(text, other, at));
    }
}

/// Nothing is left of a pattern that was replaced by a text that shares no character with it.
pub proof fn law_replacing_leaves_nothing(text: Seq<char>, pattern: Seq<char>, by: Seq<char>)
    requires
        pattern.len() > 0,
        by.len() > 0,
        avoids(by, pattern),
    ensures
        !occurs(replaced(text, pattern, by), pattern),
    decreases text.len(),
{
    let out = replaced(text, pattern, by);
    if text.len() > 0 {
        let replacing = stands_at(text, pattern, 0);
        let step = if replacing { pattern.len() as int } else { 1 };
        let head = if replacing { by } else { seq![text[0]] };
        let rest = replaced(text.skip(step), pattern, by);
        assert(out == head + rest);
        law_replacing_leaves_nothing(text.skip(step), pattern, by);
        assert forall|at: int| !stands_at(out, pattern, at) by {
            if stands_at(out, pattern, at) {
                if at >= head.len() {
                    assert(rest.subrange(at - head.len(), at - head.len() + pattern.len())
                        =~= out.subrange(at, at + pattern.len()));
                    assert(stands_at(rest, pattern, at - head.len()));
                } else if replacing {
                    assert(out.subrange(at, at + pattern.len())[0] == by[at]);
                    assert(pattern.contains(pattern[0]));
                } else {
                    lemma_replaced_starts_with(text, pattern, by, pattern);
                }
            }
        }
    }
}

/// Replaces every occurrence of `pattern`, from left to right, by `by`.
pub fn replace(text: &str, pattern: &str, by: &str) -> (out: String)
    requires
        pattern@.len() > 0,
    ensures
        out@ == replaced(text@, pattern@, by@),
{
    let chars: Vec<char> = chars_of(text);
    let sought: Vec<char> = chars_of(pattern);
    let mut out: String = String::new();
    let mut at: usize = 0;
    assert(chars@.skip(0) == text@);
    while at < chars.len()
        invariant
            at <= chars@.len(),
            chars@ == text@,
            sought@ == pattern@,
            pattern@.len() > 0,
            out@ + replaced(text@.skip(at as int), pattern@, by@) == replaced(text@, pattern@, by@),
        decreases chars@.len() - at,
    {
        let ghost rest = text@.skip(at as int);
        let ghost before = out@;
        if matches_at(&chars, &sought, at) {
            assert(rest.subrange(0, pattern@.len() as int) == text@.subrange(at as int, at + pattern@.len()));
            assert(rest.skip(pattern@.len() as int) == text@.skip(at + pattern@.len()));
            out.append(by);
            at = at + sought.len();
            assert(out@ + replaced(text@.skip(at as int), pattern@, by@) == before + replaced(rest, pattern@, by@));
        } else {
            proof {
                if stands_at(rest, pattern@, 0) {
                    assert(rest.subrange(0, pattern@.len() as int) == text@.subrange(at as int, at + pattern@.len()));
                }
            }
            assert(rest.skip(1) == text@.skip(at + 1));
            out.push(chars[at]);
            at = at + 1;
            assert(out@ + replaced(text@.skip(at as int), pattern@, by@) == before + replaced(rest, pattern@, by@));
        }
    }
    assert(text@.skip(at as int) == Seq::<char>::empty());
    assert(out@ + Seq::<char>::empty() == out@);
    out
}

/// The part of `text` before the first `mark`, or all of it where there is none.
pub open spec fn before_first(text: Seq<char>, mark: char) -> Seq<char>
    decreases text.len(),
{
    if text.len() == 0 || text[0] == mark {
        Seq::empty()
    } else {
        seq![text[0]] + before_first(text.skip(1), mark)
    }
}

/// What stands before the first `mark` is a part of the text without a `mark`.
pub proof fn lemma_before_first_avoids(text: Seq<char>, mark: char)
    ensures
        !before_first(text, mark).contains(mark),
        before_first(text, mark).len() <= text.len(),
        before_first(text, mark) == text.take(before_first(text, mark).len() as int),
    decreases text.len(),
{
    if text.len() > 0 && text[0] != mark {
        lemma_before_first_avoids(text.skip(1), mark);
        let rest = before_first(text.skip(1), mark);
        assert forall|i: int| 0 <= i < rest.len() + 1 implies before_first(text, mark)[i] != mark by {
            if i > 0 {
                assert(rest[i - 1] == before_first(text, mark)[i]);
                assert(rest.contains(rest[i - 1]));
            }
        }
    }
}

/// A text without `mark` is what stands before it.
pub proof fn lemma_before_first_of_joined(head: Seq<char>, rest: Seq<char>, mark: char)
    requires
        !head.contains(mark),
        rest.len() > 0,
        rest[0] == mark,
    ensures
        before_first(head + rest, mark) == head,
    decreases head.len(),
{
    if head.len() == 0 {
        assert(head + rest == rest);
    } else {
        assert(head.contains(head[0]));
        assert((head + rest).skip(1) == head.skip(1) + rest);
        assert forall|i: int| 0 <= i < head.skip(1).len() implies head.skip(1)[i] != mark by {
            assert(head.contains(head[i + 1]));
        }
        lemma_before_first_of_joined(head.skip(1), rest, mark);
        assert(seq![head[0]] + head.skip(1) == head);
    }
}

/// The parts of `text` before and after the first `mark`, where there is one.
pub open spec fn split_at_first(text: Seq<char>, mark: char) -> Option<(Seq<char>, Seq<char>)> {
    if text.contains(mark) {
        let head = before_first(text, mark);
        Some((head, text.skip(head.len() as int + 1)))
    } else {
        None
    }
}

/// The position of the first `mark` in `chars`, or the length of `chars`.
fn find_first(chars: &Vec<char>, mark: char) -> (at: usize)
    ensures
        at <= chars@.len(),
        chars@.subrange(0, at as int) == before_first(chars@, mark),
        at < chars@.len() ==> chars@[at as int] == mark,
        at == chars@.len() ==> !chars@.contains(mark),
{
    let mut at: usize = 0;
    assert(chars@.skip(0) == chars@);
    assert(chars@.subrange(0, 0) + before_first(chars@, mark) == before_first(chars@, mark));
    while at < chars.len() && chars[at] != mark
        invariant
            at <= chars@.len(),
            chars@.subrange(0, at as int) + before_first(chars@.skip(at as int), mark) == before_first(chars@, mark),
            forall|k: int| 0 <= k < at ==> chars@[k] != mark,
        decreases chars@.len() - at,
    {
        let ghost rest = chars@.skip(at as int);
        assert(rest.skip(1) == chars@.skip(at + 1));
        assert(chars@.subrange(0, at as int) + (seq![rest[0]] + before_first(rest.skip(1), mark))
            == chars@.subrange(0, at + 1) + before_first(rest.skip(1), mark));
        at = at + 1;
    }
    assert(before_first(chars@.skip(at as int), mark) == Seq::<char>::empty());
    assert(chars@.subrange(0, at as int) + Seq::<char>::empty() == chars@.subrange(0, at as int));
    at
}

/// The part of `text` before the first `mark`, or all of it where there is none.
pub fn head(text: &str, mark: char) -> (part: String)
    ensures
        part@ == before_first(text@, mark),
{
    let chars: Vec<char> = chars_of(text);
    let at: usize = find_first(&chars, mark);
    text_of(&chars, 0, at)
}

/// Splits `text` at the first `mark`, where there is one.
pub fn split_once(text: &str, mark: char) -> (parts: Option<(String, String)>)
    ensures
        match parts {
            Some((left, right)) => split_at_first(text@, mark) == Some((left@, right@)),
            None => split_at_first(text@, mark) is None,
        },
{
    let chars: Vec<char> = chars_of(text);
    let at: usize = find_first(&chars, mark);
    if at == chars.len() {
        return None;
    }
    assert(chars@.contains(mark));
    assert(chars@.subrange(at + 1, chars@.len() as int) == text@.skip(at + 1));
    Some((text_of(&chars, 0, at), text_of(&chars, at + 1, chars.len())))
}

/// The decimal digit of `n`, for `n < 10`.
pub open spec fn digit(n: nat) -> char {
    (('0' as u32) + n) as char
}

/// The decimal numeral of `n`.
pub open spec fn decimal(n: nat) -> Seq<char>
    decreases n,
{
    if n < 10 {
        seq![digit(n)]
    } else {
        decimal(n / 10).push(digit(n % 10))
    }
}

/// The decimal numeral of `n`.
pub fn numeral(n: u64) -> (text: String)
    ensures
        text@ == decimal(n as nat),
    decreases n,
{
    let last: char = (0x30u8 + (n % 10) as u8) as char;
    assert(last == digit((n % 10) as nat));
    let mut text: String = if n < 10 {
        String::new()
    } else {
        numeral(n / 10)
    };
    text.push(last);
    text
}

/// Different numbers have different numerals.
pub proof fn lemma_decimal_is_injective(a: nat, b: nat)
    requires
        decimal(a) == decimal(b),
    ensures
        a == b,
    decreases a,
{
    assert(decimal(a).last() == digit(a % 10));
    assert(decimal(b).last() == digit(b % 10));
    assert(a % 10 == b % 10);
    if a >= 10 {
        assert(decimal(a / 10).len() >= 1);
    }
    if b >= 10 {
        assert(decimal(b / 10).len() >= 1);
    }
    if a >= 10 && b >= 10 {
        assert(decimal(a).drop_last() == decimal(a / 10));
        assert(decimal(b).drop_last() == decimal(b / 10));
        lemma_decimal_is_injective(a / 10, b / 10);
    }
}

/// Whether a text is white space throughout.
pub open spec fn all_white(text: Seq<char>) -> bool {
    forall|i: int| 0 <= i < text.len() ==> white_space(#[trigger] text[i])
}

/// Whether a text neither begins nor ends with white space.
pub open spec fn bare(text: Seq<char>) -> bool {
    text.len() > 0 ==> !white_space(text[0]) && !white_space(text[text.len() - 1])
}

proof fn lemma_trimmed_start_of_joined(before: Seq<char>, rest: Seq<char>)
    requires
        all_white(before),
        rest.len() > 0 ==> !white_space(rest[0]),
    ensures
        trimmed_start(before + rest) == rest,
    decreases before.len(),
{
    if before.len() == 0 {
        assert(before + rest == rest);
    } else {
        assert((before + rest)[0] == before[0]);
        assert((before + rest).skip(1) == before.skip(1) + rest);
        assert forall|i: int| 0 <= i < before.skip(1).len() implies white_space(
            #[trigger] before.skip(1)[i],
        ) by {
            assert(before.skip(1)[i] == before[i + 1]);
        }
        lemma_trimmed_start_of_joined(before.skip(1), rest);
    }
}

proof fn lemma_trimmed_end_of_joined(rest: Seq<char>, after: Seq<char>)
    requires
        all_white(after),
        rest.len() > 0 ==> !white_space(rest[rest.len() - 1]),
    ensures
        trimmed_end(rest + after) == rest,
    decreases after.len(),
{
    if after.len() == 0 {
        assert(rest + after == rest);
    } else {
        assert((rest + after).last() == after.last());
        assert(white_space(after[after.len() - 1]));
        assert((rest + after).drop_last() == rest + after.drop_last());
        assert forall|i: int| 0 <= i < after.drop_last().len() implies white_space(
            #[trigger] after.drop_last()[i],
        ) by {
            assert(after.drop_last()[i] == after[i]);
        }
        lemma_trimmed_end_of_joined(rest, after.drop_last());
    }
}

/// Trimming leaves what stands between the white space on both sides: white space inside stays,
/// and a text of white space alone becomes empty.
pub proof fn law_trimming_leaves_the_core(before: Seq<char>, core: Seq<char>, after: Seq<char>)
    requires
        all_white(before),
        bare(core),
        all_white(after),
    ensures
        trimmed(before + core + after) == core,
{
    let whole = before + core + after;
    if core.len() == 0 {
        assert forall|i: int| 0 <= i < whole.len() implies white_space(#[trigger] whole[i]) by {
            if i < before.len() {
                assert(whole[i] == before[i]);
            } else {
                assert(whole[i] == after[i - before.len()]);
            }
        }
        assert(whole == whole + core);
        lemma_trimmed_start_of_joined(whole, core);
        assert(trimmed_end(core) == core);
    } else {
        assert(whole == before + (core + after));
        assert((core + after)[0] == core[0]);
        lemma_trimmed_start_of_joined(before, core + after);
        lemma_trimmed_end_of_joined(core, after);
    }
}

/// A text is filled where something other than white space stands in it, and is then what
/// trimming leaves.
pub proof fn law_filled_texts_hold_something(before: Seq<char>, core: Seq<char>, after: Seq<char>)
    requires
        all_white(before),
        bare(core),
        all_white(after),
    ensures
        core.len() > 0 ==> filled(Some(before + core + after)) == Some(core),
        core.len() == 0 ==> filled(Some(before + core + after)) is None,
        filled(None) is None,
{
    law_trimming_leaves_the_core(before, core, after);
}

/// A pattern occurs in a text exactly where the text is made of something, the pattern, and
/// something more.
pub proof fn law_occurrences_lie_between(text: Seq<char>, pattern: Seq<char>)
    ensures
        occurs(text, pattern) <==> exists|before: Seq<char>, after: Seq<char>|
            text == #[trigger] (before + pattern + after),
{
    if occurs(text, pattern) {
        let at = choose|at: int| stands_at(text, pattern, at);
        assert(text =~= text.take(at) + pattern + text.skip(at + pattern.len()));
    }
    if exists|before: Seq<char>, after: Seq<char>| text == #[trigger] (before + pattern + after) {
        let (before, after) = choose|before: Seq<char>, after: Seq<char>|
            text == #[trigger] (before + pattern + after);
        assert(text.subrange(before.len() as int, before.len() as int + pattern.len()) =~= pattern);
        assert(stands_at(text, pattern, before.len() as int));
    }
}

/// A text that does not hold the pattern stays as it is.
pub proof fn law_replacing_keeps_the_rest(text: Seq<char>, pattern: Seq<char>, by: Seq<char>)
    requires
        pattern.len() > 0,
        !occurs(text, pattern),
    ensures
        replaced(text, pattern, by) == text,
    decreases text.len(),
{
    if text.len() > 0 {
        assert(!stands_at(text, pattern, 0));
        let rest = text.skip(1);
        assert forall|at: int| !stands_at(rest, pattern, at) by {
            if stands_at(rest, pattern, at) {
                assert(text.subrange(at + 1, at + 1 + pattern.len()) =~= rest.subrange(
                    at,
                    at + pattern.len(),
                ));
                assert(stands_at(text, pattern, at + 1));
            }
        }
        law_replacing_keeps_the_rest(rest, pattern, by);
        assert(seq![text[0]] + rest == text);
    }
}

/// The first occurrence of the pattern is replaced, what stands before it is kept, and replacing
/// goes on with what stands after it.
pub proof fn law_replacing_goes_from_the_left(
    head: Seq<char>,
    pattern: Seq<char>,
    rest: Seq<char>,
    by: Seq<char>,
)
    requires
        pattern.len() > 0,
        !occurs(head + pattern.drop_last(), pattern),
    ensures
        replaced(head + pattern + rest, pattern, by) == head + by + replaced(rest, pattern, by),
    decreases head.len(),
{
    let whole = head + pattern + rest;
    if head.len() == 0 {
        assert(whole.subrange(0, pattern.len() as int) =~= pattern);
        assert(stands_at(whole, pattern, 0));
        assert(whole.skip(pattern.len() as int) == rest);
        assert(head + by == by);
    } else {
        let short = head + pattern.drop_last();
        if stands_at(whole, pattern, 0) {
            assert(short.subrange(0, pattern.len() as int) =~= whole.subrange(
                0,
                pattern.len() as int,
            ));
            assert(stands_at(short, pattern, 0));
        }
        let tail = head.skip(1);
        let short_tail = tail + pattern.drop_last();
        assert forall|at: int| !stands_at(short_tail, pattern, at) by {
            if stands_at(short_tail, pattern, at) {
                assert(short.subrange(at + 1, at + 1 + pattern.len()) =~= short_tail.subrange(
                    at,
                    at + pattern.len(),
                ));
                assert(stands_at(short, pattern, at + 1));
            }
        }
        assert(whole.skip(1) == tail + pattern + rest);
        law_replacing_goes_from_the_left(tail, pattern, rest, by);
        assert(seq![head[0]] + (tail + by + replaced(rest, pattern, by)) == head + by + replaced(
            rest,
            pattern,
            by,
        ));
    }
}

/// A text splits at its first mark into what stands before and after it; one without a mark stays
/// whole.
pub proof fn law_splitting_at_the_first_mark(head: Seq<char>, rest: Seq<char>, mark: char)
    requires
        !head.contains(mark),
    ensures
        before_first(head, mark) == head,
        before_first(head + seq![mark] + rest, mark) == head,
        split_at_first(head, mark) is None,
        split_at_first(head + seq![mark] + rest, mark) == Some((head, rest)),
{
    let whole = head + seq![mark] + rest;
    lemma_before_first_of_joined(head, seq![mark], mark);
    lemma_before_first_avoids(head, mark);
    lemma_before_first_without_mark(head, mark);
    assert(whole == head + (seq![mark] + rest));
    lemma_before_first_of_joined(head, seq![mark] + rest, mark);
    assert(whole[head.len() as int] == mark);
    assert(whole.skip(head.len() as int + 1) == rest);
}

proof fn lemma_before_first_without_mark(text: Seq<char>, mark: char)
    requires
        !text.contains(mark),
    ensures
        before_first(text, mark) == text,
    decreases text.len(),
{
    if text.len() > 0 {
        assert(text.contains(text[0]));
        assert forall|i: int| 0 <= i < text.skip(1).len() implies text.skip(1)[i] != mark by {
            assert(text.contains(text[i + 1]));
        }
        lemma_before_first_without_mark(text.skip(1), mark);
        assert(seq![text[0]] + text.skip(1) == text);
    }
}

/// The number that a row of decimal digits stands for.
pub open spec fn digits_value(digits: Seq<char>) -> int
    decreases digits.len(),
{
    if digits.len() == 0 {
        0
    } else {
        digits_value(digits.drop_last()) * 10 + (digits.last() as int - '0' as int)
    }
}

/// A numeral is a row of decimal digits, without a zero in front unless it is the numeral of zero,
/// and stands for its number.
pub proof fn law_numerals_stand_for_their_number(n: nat)
    ensures
        digits_value(decimal(n)) == n,
        decimal(n).len() > 0,
        forall|i: int| 0 <= i < decimal(n).len() ==> '0' <= #[trigger] decimal(n)[i] <= '9',
        n > 0 ==> decimal(n)[0] != '0',
    decreases n,
{
    if n < 10 {
        assert(decimal(n).drop_last() == Seq::<char>::empty());
        reveal_with_fuel(digits_value, 2);
    } else {
        law_numerals_stand_for_their_number(n / 10);
        assert(decimal(n).drop_last() == decimal(n / 10));
        assert(decimal(n).last() == digit(n % 10));
        assert(decimal(n)[0] == decimal(n / 10)[0]);
        assert forall|i: int| 0 <= i < decimal(n).len() implies '0' <= #[trigger] decimal(n)[i]
            <= '9' by {
            if i < decimal(n / 10).len() {
                assert(decimal(n)[i] == decimal(n / 10)[i]);
            }
        }
    }
}

/// An optional text is viewed as what it holds, also where it is empty; one that is not there, as
/// nothing.
pub proof fn law_optional_texts_are_viewed_as_they_are(owned: String, borrowed: &str)
    ensures
        optional_view(Some(owned)) == Some(owned@),
        optional_view(None) is None,
        slice_view(Some(borrowed)) == Some(borrowed@),
        slice_view(None) is None,
{
}

}
