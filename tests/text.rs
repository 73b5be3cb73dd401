use ding::text::{byte_length, join_pipeline, name_less, split_pipeline, trim_text};

#[test]
fn split_keeps_empty_segments() {
    assert_eq!(split_pipeline("a||b|"), vec!["a", "", "b", ""]);
    assert_eq!(split_pipeline(""), vec![""]);
}

#[test]
fn trim_removes_unicode_whitespace() {
    assert_eq!(trim_text(" \t a b \u{3000}\n"), "a b");
    assert_eq!(trim_text("   "), "");
}

#[test]
fn join_puts_bars_between_segments() {
    let segs = vec!["a".to_string(), "b".to_string(), "c".to_string()];
    assert_eq!(join_pipeline(&segs), "a | b | c");
}

#[test]
fn names_sort_lexicographically() {
    assert!(name_less("age", "limit"));
    assert!(name_less("lim", "limit"));
    assert!(!name_less("limit", "limit"));
    assert!(!name_less("name", "limit"));
    assert!(name_less("Zeta", "alpha"));
}

#[test]
fn byte_length_counts_utf8() {
    assert_eq!(byte_length("abc"), Some(3));
    assert_eq!(byte_length("\u{e9}\u{20ac}\u{1f600}"), Some(9));
}
