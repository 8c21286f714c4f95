use codex_api::text::{chars_of, contains_char, find_from, is_white_space, same_text, trim};

#[test]
fn white_space_is_what_unicode_says() {
    for u in 0..=0x10ffff {
        if let Some(c) = char::from_u32(u) {
            assert_eq!(is_white_space(c), c.is_whitespace(), "{u:x}");
        }
    }
}

#[test]
fn texts_are_trimmed_at_both_ends() {
    for s in ["", " ", " \t\n", "a", " a", "a ", "\u{2003}a b\u{85}", "\u{feff} x"] {
        assert_eq!(trim(s), s.trim());
    }
}

#[test]
fn trimming_twice_changes_nothing() {
    let once = trim(" \u{3000} a \n");
    assert_eq!(once, "a");
    assert_eq!(trim(&once), once);
}

#[test]
fn patterns_are_found_where_they_first_stand() {
    let s = chars_of("aXbaaab");
    assert_eq!(find_from(&s, 0, &chars_of("aab")), Some(4));
    assert_eq!(find_from(&s, 0, &chars_of("b")), Some(2));
    assert_eq!(find_from(&s, 3, &chars_of("b")), Some(3));
    assert_eq!(find_from(&s, 0, &chars_of("ba")), Some(2));
    assert_eq!(find_from(&s, 0, &chars_of("c")), None);
    assert_eq!(find_from(&s, 0, &chars_of("aXbaaabb")), None);
}

#[test]
fn characters_are_looked_for() {
    assert!(contains_char("a?b", '?'));
    assert!(!contains_char("ab", '?'));
    assert!(!contains_char("", '?'));
}

#[test]
fn texts_are_compared_by_their_characters() {
    assert!(same_text("function", "function"));
    assert!(!same_text("function", "functions"));
    assert!(!same_text("a", "b"));
}
