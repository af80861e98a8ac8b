use hhh::paths::join;
use hhh::text::{chars_of, concat_text, contains, split, starts_with, string_of, to_lowercase};

#[test]
fn split_takes_leftmost_separators() {
    assert_eq!(split("a__b__c", "__"), vec!["a", "b", "c"]);
    assert_eq!(split("a___b", "__"), vec!["a", "_b"]);
    assert_eq!(split("", "__"), vec![""]);
    assert_eq!(split("__", "__"), vec!["", ""]);
    assert_eq!(split("abc", "/"), vec!["abc"]);
}

#[test]
fn contains_and_starts_with() {
    assert!(contains("working tree clean", "tree"));
    assert!(contains("abc", ""));
    assert!(!contains("ab", "abc"));
    assert!(starts_with("prefix_rest", "prefix_"));
    assert!(!starts_with("pre", "prefix"));
}

#[test]
fn join_follows_unix_rules() {
    assert_eq!(join("/etc", "npm"), "/etc/npm");
    assert_eq!(join("/etc/", "npm"), "/etc/npm");
    assert_eq!(join("", "npm"), "npm");
    assert_eq!(join("/home/u", "/abs"), "/abs");
}

#[test]
fn text_helpers() {
    assert_eq!(to_lowercase("ÀBC_déF"), "àbc_déf");
    assert_eq!(concat_text("ab", "cd"), "abcd");
    assert_eq!(string_of(&chars_of("héllo")), "héllo");
}
