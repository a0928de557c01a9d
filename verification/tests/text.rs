use defmt_core::text::{same_text, split, split_last, split_path, starts_with, text_lt};

#[test]
fn split_keeps_empty_pieces() {
    assert_eq!(split("a,b", ','), vec!["a", "b"]);
    assert_eq!(split("", ','), vec![""]);
    assert_eq!(split(",", ','), vec!["", ""]);
    assert_eq!(split("a,,b,", ','), vec!["a", "", "b", ""]);
    assert_eq!(split("caf\u{e9},x", ','), vec!["caf\u{e9}", "x"]);
}

#[test]
fn split_path_finds_separators_from_the_left() {
    assert_eq!(split_path("a::b::c"), vec!["a", "b", "c"]);
    assert_eq!(split_path("a"), vec!["a"]);
    assert_eq!(split_path(""), vec![""]);
    assert_eq!(split_path("a:::b"), vec!["a", ":b"]);
    assert_eq!(split_path("a::::b"), vec!["a", "", "b"]);
    assert_eq!(split_path("::"), vec!["", ""]);
    assert_eq!(split_path("a:b"), vec!["a:b"]);
    assert_eq!(split_path("a::"), vec!["a", ""]);
}

#[test]
fn split_last_splits_at_the_last_separator() {
    assert_eq!(
        split_last("a=b=c", '='),
        Some(("a=b".to_string(), "c".to_string()))
    );
    assert_eq!(split_last("=", '='), Some((String::new(), String::new())));
    assert_eq!(split_last("abc", '='), None);
    assert_eq!(split_last("", '='), None);
}

#[test]
fn texts_are_compared_character_by_character() {
    assert!(same_text("krate", "krate"));
    assert!(!same_text("krate", "krat"));
    assert!(!same_text("krate", "kratf"));
    assert!(same_text("", ""));
    assert!(starts_with("kratextra", "krate"));
    assert!(starts_with("krate", "krate"));
    assert!(starts_with("krate", ""));
    assert!(!starts_with("krat", "krate"));
    assert!(!starts_with("crate::x", "krate"));
}

#[test]
fn dictionary_order_puts_prefixes_first() {
    assert!(text_lt("", "a"));
    assert!(!text_lt("", ""));
    assert!(text_lt("krate", "krate::a"));
    assert!(!text_lt("krate::a", "krate"));
    assert!(text_lt("krate::a", "krate::b"));
    assert!(!text_lt("krate::b", "krate::a"));
    assert!(!text_lt("krate", "krate"));
    assert!(text_lt("Z", "a"));
    for (a, b) in [("abc", "abd"), ("a", "b"), ("x", "xy"), ("caf\u{e9}", "cafz\u{e9}")] {
        assert_eq!(text_lt(a, b), a < b);
        assert_eq!(text_lt(b, a), b < a);
    }
}
