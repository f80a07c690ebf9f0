use briscola::text::{
    concat3, find_char_str, is_nonempty, is_whitespace_char, lower_eq, strip_prefix_str, trim_str,
};

#[test]
fn whitespace_matches_unicode_white_space() {
    for c in [' ', '\t', '\n', '\r', '\u{a0}', '\u{2003}', '\u{3000}', '\u{85}'] {
        assert!(is_whitespace_char(c));
        assert_eq!(is_whitespace_char(c), c.is_whitespace());
    }
    for c in ['a', '7', ':', '\u{200b}'] {
        assert!(!is_whitespace_char(c));
        assert_eq!(is_whitespace_char(c), c.is_whitespace());
    }
}

#[test]
fn trim_matches_std_trim() {
    for s in ["  oA ", "\tclubs:K\n", "", "   ", "x", " a b "] {
        assert_eq!(trim_str(s), s.trim());
    }
}

#[test]
fn lower_eq_ignores_ascii_case_only() {
    assert!(lower_eq("CoInS", "coins"));
    assert!(!lower_eq("coin", "coins"));
    assert!(lower_eq("⚔️", "⚔️"));
}

#[test]
fn strip_prefix_and_find_char() {
    assert_eq!(strip_prefix_str("🪙A", "🪙"), Some("A"));
    assert_eq!(strip_prefix_str("oA", "u"), None);
    assert_eq!(find_char_str("clubs:K", ':'), Some(5));
    assert_eq!(find_char_str("🪙:A", ':'), Some(1));
    assert_eq!(find_char_str("oA", ':'), None);
}

#[test]
fn nonempty_and_concat() {
    assert!(is_nonempty("a"));
    assert!(!is_nonempty(""));
    assert_eq!(concat3("invalid suit '", "x", "'"), "invalid suit 'x'");
}
