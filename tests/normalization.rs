use fuzzy_match::normalization::{
    is_combining_mark, is_whitespace, normalize_whitespace, strip_combining_marks,
};
use fuzzy_match::normalize_string;

#[test]
fn test_normalize_string() {
    assert_eq!(normalize_string("Café", true), "cafe");
    assert_eq!(normalize_string("naïve", true), "naive");
    assert_eq!(normalize_string("résumé", true), "resume");
}

#[test]
fn whitespace_is_collapsed() {
    assert_eq!(normalize_string("  Hello\tWorld\n", false), "Hello World");
    assert_eq!(normalize_whitespace("  a \u{3000}\u{2003} b\r\nc  "), "a b c");
    assert_eq!(normalize_whitespace(" \t\n "), "");
    assert_eq!(normalize_whitespace(""), "");
}

#[test]
fn diacritics_stripped_and_folded() {
    assert_eq!(normalize_string("Café", true), "cafe");
    assert_eq!(normalize_string("Café", false), "Cafe");
    assert_eq!(normalize_string("ÉCOLE  Über", true), "ecole uber");
}

#[test]
fn empty_input_gives_empty_output() {
    assert_eq!(normalize_string("", true), "");
    assert_eq!(normalize_string("", false), "");
    assert_eq!(normalize_string("\u{0301}\u{0308}", true), "");
}

#[test]
fn normalizing_twice_changes_nothing() {
    for s in ["  Crème Brûlée\t", "ÅNGSTRÖM  unit", "plain", ""] {
        for f in [true, false] {
            let once = normalize_string(s, f);
            assert_eq!(normalize_string(&once, f), once);
        }
    }
}

#[test]
fn combining_marks_are_removed() {
    assert_eq!(strip_combining_marks("e\u{0301}a\u{1AB0}b\u{20D0}c\u{FE20}d\u{1DC0}"), "eabcd");
    assert!(is_combining_mark('\u{036F}'));
    assert!(!is_combining_mark('\u{0370}'));
    assert!(!is_combining_mark('e'));
}

#[test]
fn whitespace_set() {
    for c in ['\t', '\n', '\u{0B}', '\u{0C}', '\r', ' ', '\u{85}', '\u{A0}', '\u{1680}', '\u{2000}', '\u{200A}', '\u{2028}', '\u{2029}', '\u{202F}', '\u{205F}', '\u{3000}'] {
        assert!(is_whitespace(c));
        assert!(c.is_whitespace());
    }
    for c in ['a', '\u{200B}', '\u{180E}', '_', '\u{FEFF}'] {
        assert!(!is_whitespace(c));
        assert_eq!(c.is_whitespace(), false);
    }
}
