use markdown_rendering::find_from;
use markdown_rendering::matches_at;
use markdown_rendering::replace_all;

#[test]
fn replaces_every_occurrence() {
    assert_eq!(replace_all("abcabc", "abc", "z"), "zz");
    assert_eq!(replace_all("xabcx", "abc", "yy"), "xyyx");
    assert_eq!(replace_all("hello", "x", "y"), "hello");
}

#[test]
fn replacement_is_non_overlapping() {
    assert_eq!(replace_all("aaa", "aa", "b"), "ba");
    assert_eq!(replace_all("aaaa", "aa", "a"), "aa");
}

#[test]
fn empty_pattern_changes_nothing() {
    assert_eq!(replace_all("abc", "", "z"), "abc");
}

#[test]
fn finds_first_occurrence() {
    assert_eq!(find_from("abcabc", "ca", 0), Some(2));
    assert_eq!(find_from("abcabc", "ca", 3), None);
    assert_eq!(find_from("abcabc", "abc", 1), Some(3));
    assert_eq!(find_from("abcabc", "zz", 0), None);
}

#[test]
fn matches_at_positions() {
    assert!(matches_at("abcabc", "abc", 3));
    assert!(!matches_at("abcabc", "abc", 2));
    assert!(!matches_at("abc", "abcd", 0));
}
