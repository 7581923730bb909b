use k_ruoka_mcp::text::{
    contains, filled_text, head, is_white_space, numeral, replace, same_text, split_once, trim,
};

#[test]
fn white_space_is_that_of_std() {
    for code in 0..=0x10ffffu32 {
        if let Some(c) = char::from_u32(code) {
            assert_eq!(is_white_space(c), c.is_whitespace(), "{code:x}");
        }
    }
}

#[test]
fn trimming_is_that_of_std() {
    for text in ["", " ", "a", " a", "a ", "\t a b\u{3000}\n", "\u{200b}a", " ä \u{85}"] {
        assert_eq!(trim(text), text.trim());
    }
    assert_eq!(filled_text(Some("  x ")), Some("x"));
    assert_eq!(filled_text(Some(" \n ")), None);
    assert_eq!(filled_text(None), None);
}

#[test]
fn searching_is_that_of_std() {
    for text in ["", "a", "ab", "aab", "äba", "abab"] {
        for pattern in ["", "a", "ab", "ba", "äb", "aabb"] {
            assert_eq!(contains(text, pattern), text.contains(pattern), "{text} {pattern}");
        }
    }
}

#[test]
fn replacing_is_that_of_std() {
    for text in ["", "a", "aaa", "aaaa", "xaay", "ääaa"] {
        for pattern in ["a", "aa", "ä", "xa"] {
            for by in ["", "a", "bb"] {
                assert_eq!(replace(text, pattern, by), text.replace(pattern, by));
            }
        }
    }
}

#[test]
fn splitting_is_that_of_std() {
    for text in ["", "=", "a", "a=b", "a=b=c", "=b", "ä=;"] {
        let parts = split_once(text, '=');
        let expected = text.split_once('=').map(|(a, b)| (a.to_string(), b.to_string()));
        assert_eq!(parts, expected);
        assert_eq!(head(text, ';'), text.split(';').next().unwrap());
    }
}

#[test]
fn numerals_are_decimal() {
    for n in [0, 7, 10, 42, 100, 9999, u64::MAX] {
        assert_eq!(numeral(n), n.to_string());
    }
}

#[test]
fn texts_are_compared_by_their_characters() {
    assert!(same_text("", ""));
    assert!(same_text("ä", "ä"));
    assert!(!same_text("a", "ä"));
    assert!(!same_text("a", "ab"));
    assert!(!same_text("ab", "ac"));
}

#[test]
fn replacing_leaves_nothing_and_adds_nothing_else() {
    for text in ["{A}{A}", "{{A}}", "{A", "x{A}y{B}", "A}{A"] {
        let out = replace(text, "{A}", "xy");
        assert!(!contains(&out, "{A}"));
        assert_eq!(contains(&out, "{B}"), contains(text, "{B}"));
    }
}
