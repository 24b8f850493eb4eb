use tracklog::text::{text_eq, text_less, trim, trim_to_opt};

#[test]
fn trim_removes_unicode_whitespace_on_both_sides() {
    assert_eq!(trim("  \t hello world \n"), "hello world");
    assert_eq!(trim("\u{3000}x\u{a0}"), "x");
    assert_eq!(trim("   "), "");
    assert_eq!(trim(""), "");
}

#[test]
fn trim_to_opt_drops_blank_values() {
    assert_eq!(trim_to_opt(&Some("  a b  ".to_string())), Some("a b".to_string()));
    assert_eq!(trim_to_opt(&Some("   ".to_string())), None);
    assert_eq!(trim_to_opt(&None), None);
}

#[test]
fn text_order_is_binary() {
    assert!(text_less("2024-01-01", "2024-01-02"));
    assert!(!text_less("b", "a"));
    assert!(text_less("ab", "abc"));
    assert!(!text_less("abc", "abc"));
    assert!(text_less("Z", "a"));
    assert!(text_eq("same", "same"));
    assert!(!text_eq("same", "Same"));
}
