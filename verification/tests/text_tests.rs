use alibaba_graph::text::{
    contains_char, format_u32, joined, join_path, parse_u32, split_char, starts_with, str_eq,
};

#[test]
fn splitting() {
    assert_eq!(split_char("a_b__c", '_'), vec!["a", "b", "", "c"]);
    assert_eq!(split_char("", '_'), vec![""]);
    assert_eq!(split_char("_", '_'), vec!["", ""]);
    assert_eq!(split_char("abc", '_'), vec!["abc"]);
    assert_eq!(split_char("é_ü", '_'), vec!["é", "ü"]);
}

#[test]
fn parsing_numbers() {
    assert_eq!(parse_u32("0"), Some(0));
    assert_eq!(parse_u32("+7"), Some(7));
    assert_eq!(parse_u32("4294967295"), Some(u32::MAX));
    assert_eq!(parse_u32("4294967296"), None);
    assert_eq!(parse_u32("99999999999999999999"), None);
    assert_eq!(parse_u32(""), None);
    assert_eq!(parse_u32("+"), None);
    assert_eq!(parse_u32("-1"), None);
    assert_eq!(parse_u32("++1"), None);
    assert_eq!(parse_u32("1 "), None);
    assert_eq!(parse_u32("12a"), None);
}

#[test]
fn parsing_agrees_with_std() {
    for s in ["", "+", "0", "00012", "+0", "-0", "4294967295", "4294967296", "1x", "x1", "٣"] {
        assert_eq!(parse_u32(s), s.parse::<u32>().ok(), "{}", s);
    }
}

#[test]
fn formatting_numbers() {
    for n in [0u32, 7, 10, 99, 100, 12345, u32::MAX] {
        assert_eq!(format_u32(n), n.to_string());
        assert_eq!(parse_u32(&format_u32(n)), Some(n));
    }
}

#[test]
fn comparing_texts() {
    assert!(str_eq("abc", "abc"));
    assert!(!str_eq("abc", "abd"));
    assert!(!str_eq("abc", "ab"));
    assert!(starts_with("window_1", "window_"));
    assert!(!starts_with("window", "window_"));
    assert!(contains_char("a_b", '_'));
    assert!(!contains_char("ab", '_'));
    assert_eq!(joined("ab", "cd"), "abcd");
    assert_eq!(join_path("/a", "b"), "/a/b");
}
