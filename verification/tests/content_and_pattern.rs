use treescan::content::{scan_lines, FileScan};
use treescan::model::MatchResult;
use treescan::pattern::{build_pattern, Matcher, PatternError};

fn header(path: &str) -> MatchResult {
    MatchResult::FileHeader { path: path.to_string() }
}

fn line(path: &str, line_number: usize, text: &str) -> MatchResult {
    MatchResult::LineMatch { path: path.to_string(), line_number, text: text.to_string() }
}

fn lines(texts: &[&str]) -> Vec<String> {
    texts.iter().map(|t| t.to_string()).collect()
}

#[test]
fn the_case_flag_goes_before_the_pattern() {
    assert_eq!(build_pattern("ERROR", true), "(?i)ERROR");
    assert_eq!(build_pattern("ERROR", false), "ERROR");
    assert_eq!(build_pattern("", true), "(?i)");
}

#[test]
fn a_matcher_remembers_what_it_was_compiled_from() {
    let plain = Matcher::compile("a+b", false).expect("the pattern is valid");
    assert_eq!(plain.source(), "a+b");
    let folded = Matcher::compile("a+b", true).expect("the pattern is valid");
    assert_eq!(folded.source(), "(?i)a+b");
}

#[test]
fn a_matcher_matches_anywhere_in_the_line() {
    let matcher = Matcher::compile("a+b", false).expect("the pattern is valid");
    assert!(matcher.is_match("xxaaab"));
    assert!(matcher.is_match("ab"));
    assert!(!matcher.is_match("AB"));
    assert!(!matcher.is_match("a b"));
    assert!(!matcher.is_match(""));
}

#[test]
fn a_case_insensitive_matcher_ignores_case() {
    let matcher = Matcher::compile("error", true).expect("the pattern is valid");
    assert!(matcher.is_match("An ERROR occurred"));
    assert!(matcher.is_match("Error"));
    assert!(!matcher.is_match("eror"));
}

#[test]
fn an_unclosed_group_is_a_syntax_error() {
    let failed = Matcher::compile("foo(bar", false).expect_err("the pattern is invalid");
    assert!(matches!(failed, PatternError::Syntax(_)));
    assert!(failed.message().contains("unclosed group"));
}

#[test]
fn a_pattern_that_grows_too_big_is_refused_with_the_limit() {
    let failed = Matcher::compile(r"\w{1000}", false).expect_err("the pattern is too big");
    match failed {
        PatternError::TooBig(limit) => {
            assert!(limit > 0);
            assert_eq!(
                failed.message(),
                format!("Compiled regex exceeds size limit of {} bytes.", limit)
            );
        }
        other => panic!("unexpected error {:?}", other),
    }
}

#[test]
fn the_messages_of_pattern_errors_are_exact() {
    assert_eq!(PatternError::Syntax("bad".to_string()).message(), "bad");
    assert_eq!(
        PatternError::TooBig(10485760).message(),
        "Compiled regex exceeds size limit of 10485760 bytes."
    );
    assert_eq!(PatternError::Other.message(), "pattern could not be compiled");
}

#[test]
fn the_first_match_brings_the_header() {
    let mut scan = FileScan::new("f.txt");
    assert_eq!(scan, FileScan { path: "f.txt".to_string(), seen: 0, has_match: false });
    assert_eq!(scan.feed("one", false), vec![]);
    assert_eq!(scan.feed("two", true), vec![header("f.txt"), line("f.txt", 2, "two")]);
    assert_eq!(scan.feed("three", true), vec![line("f.txt", 3, "three")]);
    assert_eq!(scan.feed("four", false), vec![]);
    assert_eq!(scan.feed("five", true), vec![line("f.txt", 5, "five")]);
    assert_eq!(scan, FileScan { path: "f.txt".to_string(), seen: 5, has_match: true });
}

#[test]
fn a_scan_asks_the_matcher_about_each_line() {
    let matcher = Matcher::compile("^b", false).expect("the pattern is valid");
    let mut scan = FileScan::new("f");
    assert_eq!(scan.scan_line(&matcher, "abc"), vec![]);
    assert_eq!(scan.scan_line(&matcher, "bcd"), vec![header("f"), line("f", 2, "bcd")]);
    assert_eq!(scan.seen, 2);
    assert!(scan.has_match);
}

#[test]
fn n_matching_lines_give_one_header_and_n_records_in_rising_order() {
    let matcher = Matcher::compile("x", false).expect("the pattern is valid");
    let records = scan_lines(&matcher, "f", &lines(&["x1", "no", "x2", "x3", "no", "x4"]));
    assert_eq!(
        records,
        vec![
            header("f"),
            line("f", 1, "x1"),
            line("f", 3, "x2"),
            line("f", 4, "x3"),
            line("f", 6, "x4"),
        ]
    );
}

#[test]
fn a_file_without_matches_gives_no_header() {
    let matcher = Matcher::compile("x", false).expect("the pattern is valid");
    assert_eq!(scan_lines(&matcher, "f", &lines(&["a", "b"])), vec![]);
    assert_eq!(scan_lines(&matcher, "f", &lines(&[])), vec![]);
}

#[test]
fn an_empty_line_can_match() {
    let matcher = Matcher::compile("^$", false).expect("the pattern is valid");
    assert_eq!(
        scan_lines(&matcher, "f", &lines(&["a", "", "b"])),
        vec![header("f"), line("f", 2, "")]
    );
}
