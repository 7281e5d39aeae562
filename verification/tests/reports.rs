use treescan::model::MatchResult;
use treescan::report::{
    display_line, format_size, human_format, scaled_chars, ugo_mode, unit_index, Aggregator,
};

fn header(path: &str) -> MatchResult {
    MatchResult::FileHeader { path: path.to_string() }
}

fn line(path: &str, line_number: usize, text: &str) -> MatchResult {
    MatchResult::LineMatch { path: path.to_string(), line_number, text: text.to_string() }
}

#[test]
fn a_found_file_is_shown_as_directory_and_name() {
    assert_eq!(display_line("root/sub/b.log"), "root/sub/b.log");
    assert_eq!(display_line("b.log"), "/b.log");
    assert_eq!(display_line("./b.log"), "./b.log");
}

#[test]
fn matches_are_grouped_under_their_file() {
    let mut aggregator = Aggregator::new();
    assert_eq!(aggregator.current, None);
    assert_eq!(aggregator.accept(&header("a")), vec!["a:"]);
    assert_eq!(aggregator.accept(&line("a", 1, "error: x")), vec!["1: error: x"]);
    assert_eq!(aggregator.accept(&line("a", 3, "Error: y")), vec!["3: Error: y"]);
    assert_eq!(aggregator.current, Some("a".to_string()));
    assert_eq!(aggregator.accept(&header("b")), vec!["b:"]);
    assert_eq!(aggregator.accept(&line("b", 12, "")), vec!["12: "]);
    assert_eq!(aggregator.current, Some("b".to_string()));
}

#[test]
fn a_header_is_repeated_where_another_file_came_between() {
    let mut aggregator = Aggregator::new();
    assert_eq!(aggregator.accept(&header("a")), vec!["a:"]);
    assert_eq!(aggregator.accept(&header("b")), vec!["b:"]);
    assert_eq!(aggregator.accept(&line("a", 1, "x")), vec!["a:", "1: x"]);
    assert_eq!(aggregator.accept(&line("a", 2, "y")), vec!["2: y"]);
    assert_eq!(aggregator.accept(&line("b", 1, "z")), vec!["b:", "1: z"]);
}

#[test]
fn a_line_without_header_gets_one() {
    let mut aggregator = Aggregator::new();
    assert_eq!(aggregator.accept(&line("a", 7, "x")), vec!["a:", "7: x"]);
    assert_eq!(aggregator.current, Some("a".to_string()));
}

#[test]
fn other_results_leave_the_grouping_alone() {
    let mut aggregator = Aggregator::new();
    assert_eq!(aggregator.accept(&header("a")), vec!["a:"]);
    assert_eq!(
        aggregator.accept(&MatchResult::PathMatch { path: "d/f".to_string() }),
        vec!["d/f"]
    );
    let nothing: Vec<String> = vec![];
    assert_eq!(aggregator.accept(&MatchResult::SizeContribution { bytes: 5 }), nothing);
    assert_eq!(aggregator.current, Some("a".to_string()));
    assert_eq!(aggregator.accept(&line("a", 1, "x")), vec!["1: x"]);
}

#[test]
fn small_totals_are_shown_in_bytes() {
    assert_eq!(format_size(0), "Size: 0.0B");
    assert_eq!(format_size(30), "Size: 30.0B");
    assert_eq!(format_size(35), "Size: 35.0B");
    assert_eq!(format_size(1023), "Size: 1023.0B");
    assert_eq!(format_size(1024), "Size: 1024.0B");
}

#[test]
fn a_total_steps_to_the_next_unit_once_it_exceeds_1024() {
    assert_eq!(format_size(1025), "Size: 1.0K");
    assert_eq!(format_size(1536), "Size: 1.5K");
    assert_eq!(format_size(1024 * 1024), "Size: 1024.0K");
    assert_eq!(format_size(1024 * 1024 + 1), "Size: 1.0M");
    assert_eq!(format_size(5 * 1024 * 1024 * 1024), "Size: 5.0G");
    assert_eq!(format_size(3 * (1u64 << 40) + (1u64 << 39)), "Size: 3.5T");
    assert_eq!(format_size(1u64 << 50), "Size: 1024.0T");
    assert_eq!(format_size((1u64 << 50) + 1), "Size: 1.0P");
    assert_eq!(format_size(u64::MAX), "Size: 16.0E");
}

#[test]
fn tenths_are_rounded_to_nearest_and_to_even_on_a_tie() {
    assert_eq!(format_size(1280), "Size: 1.2K");
    assert_eq!(format_size(1408), "Size: 1.4K");
    assert_eq!(format_size(1100), "Size: 1.1K");
    assert_eq!(format_size(1075), "Size: 1.0K");
    assert_eq!(format_size(1076), "Size: 1.1K");
    assert_eq!(format_size(2047), "Size: 2.0K");
    assert_eq!(format_size(1024 * 1024 - 1), "Size: 1024.0K");
}

#[test]
fn a_listing_size_steps_to_the_next_unit_at_1024() {
    assert_eq!(human_format(0), "0.0B ");
    assert_eq!(human_format(1023), "1023.0B ");
    assert_eq!(human_format(1024), "1.0K ");
    assert_eq!(human_format(1536), "1.5K ");
    assert_eq!(human_format(1024 * 1024), "1.0M ");
    assert_eq!(human_format(u64::MAX), "16.0E ");
}

#[test]
fn unit_indices_follow_the_table() {
    assert_eq!(unit_index(1024, false), 0);
    assert_eq!(unit_index(1024, true), 1);
    assert_eq!(unit_index(1025, false), 1);
    assert_eq!(unit_index(1 << 30, false), 2);
    assert_eq!(unit_index(1 << 30, true), 3);
    assert_eq!(unit_index(u64::MAX, false), 6);
    let shown: String = scaled_chars(1536, 1).into_iter().collect();
    assert_eq!(shown, "1.5K");
    let tiny: String = scaled_chars(1, 7).into_iter().collect();
    assert_eq!(tiny, "0.0Z");
}

#[test]
fn permission_flags_follow_the_bits() {
    assert_eq!(ugo_mode(0o755), "rwxr-xr-x");
    assert_eq!(ugo_mode(0o644), "rw-r--r--");
    assert_eq!(ugo_mode(0o000), "---------");
    assert_eq!(ugo_mode(0o777), "rwxrwxrwx");
    assert_eq!(ugo_mode(0o100644), "rw-r--r--");
    assert_eq!(ugo_mode(0o421), "r---w---x");
}
