use treescan::path::{is_under, join_path, split_path};
use treescan::text::{
    chars_of, concatenate, contains, decimal_string, owned, parse_usize, same_text, string_of,
};

#[test]
fn characters_round_trip_through_a_string() {
    let chars = chars_of("a\u{e9}z");
    assert_eq!(chars, vec!['a', '\u{e9}', 'z']);
    assert_eq!(string_of(&chars), "a\u{e9}z");
    assert_eq!(string_of(&vec![]), "");
}

#[test]
fn owned_and_concat_keep_every_character() {
    assert_eq!(owned("abc"), "abc");
    assert_eq!(concatenate("ab", "cd"), "abcd");
    assert_eq!(concatenate("", "x"), "x");
}

#[test]
fn same_text_tells_equal_from_different() {
    assert!(same_text("-H", "-H"));
    assert!(!same_text("-H", "-h"));
    assert!(!same_text("-H", "-H "));
    assert!(same_text("", ""));
}

#[test]
fn contains_is_literal_and_case_sensitive() {
    assert!(contains("b.log", "log"));
    assert!(contains("b.log", ""));
    assert!(contains("b.log", "b.log"));
    assert!(!contains("b.log", "LOG"));
    assert!(!contains("b.log", "b.logs"));
    assert!(!contains("", "x"));
    assert!(contains("a.b", "."));
    assert!(!contains("axb", "."));
}

#[test]
fn decimal_strings_are_exact() {
    assert_eq!(decimal_string(0), "0");
    assert_eq!(decimal_string(7), "7");
    assert_eq!(decimal_string(10), "10");
    assert_eq!(decimal_string(12345), "12345");
    assert_eq!(decimal_string(u64::MAX), "18446744073709551615");
}

#[test]
fn numerals_are_read_with_an_optional_plus() {
    assert_eq!(parse_usize("0"), Some(0));
    assert_eq!(parse_usize("42"), Some(42));
    assert_eq!(parse_usize("+5"), Some(5));
    assert_eq!(parse_usize("007"), Some(7));
    assert_eq!(parse_usize(&usize::MAX.to_string()), Some(usize::MAX));
}

#[test]
fn what_is_no_numeral_is_refused() {
    assert_eq!(parse_usize(""), None);
    assert_eq!(parse_usize("+"), None);
    assert_eq!(parse_usize("-1"), None);
    assert_eq!(parse_usize("12a"), None);
    assert_eq!(parse_usize(" 1"), None);
    assert_eq!(parse_usize("1+"), None);
    assert_eq!(parse_usize("99999999999999999999999999"), None);
    assert_eq!(parse_usize("18446744073709551616"), None);
}

#[test]
fn joining_puts_one_separator_between() {
    assert_eq!(join_path("root", "a.txt"), "root/a.txt");
    assert_eq!(join_path("root/sub", "b.log"), "root/sub/b.log");
    assert_eq!(join_path("/", "etc"), "/etc");
    assert_eq!(join_path("dir/", "x"), "dir/x");
    assert_eq!(join_path("", "x"), "x");
    assert_eq!(join_path(".", "x"), "./x");
}

#[test]
fn a_path_is_under_a_base_only_at_a_segment_boundary() {
    assert!(is_under("/proc", "/proc"));
    assert!(is_under("/proc/1/status", "/proc"));
    assert!(!is_under("/process", "/proc"));
    assert!(!is_under("/pro", "/proc"));
    assert!(is_under("/var/run/x", "/var/run"));
    assert!(!is_under("/var/running", "/var/run"));
    assert!(is_under("a/b", "a/"));
    assert!(is_under("anything", ""));
    assert!(!is_under("proc/1", "/proc"));
}

#[test]
fn splitting_cuts_at_the_last_separator() {
    assert_eq!(split_path("root/sub/b.log"), ("root/sub".to_string(), "b.log".to_string()));
    assert_eq!(split_path("b.log"), ("".to_string(), "b.log".to_string()));
    assert_eq!(split_path("/b.log"), ("".to_string(), "b.log".to_string()));
    assert_eq!(split_path("dir/"), ("dir".to_string(), "".to_string()));
    assert_eq!(split_path(""), ("".to_string(), "".to_string()));
}

#[test]
fn splitting_undoes_joining() {
    let joined = join_path("root/sub", "b.log");
    assert_eq!(split_path(&joined), ("root/sub".to_string(), "b.log".to_string()));
}
