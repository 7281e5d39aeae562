use treescan::content::scan_lines;
use treescan::model::{Event, MatchResult, Predicate};
use treescan::outcome::{disk_usage, find_names, results, search, total_bytes};
use treescan::pattern::Matcher;
use treescan::policy::Options;
use treescan::schedule::walk_in_order;
use treescan::tree::{walk, Node};

fn sample_tree() -> Node {
    Node::dir(
        "root",
        vec![
            Node::file("a.txt", 10),
            Node::dir(
                "sub",
                vec![
                    Node::file("b.log", 20),
                    Node::dir(".hidden", vec![Node::file("c.txt", 5)]),
                ],
            ),
        ],
    )
}

fn hidden(allowed: bool) -> Options {
    let mut options = Options::unrestricted();
    options.hidden_folders = allowed;
    options
}

#[test]
fn usage_without_hidden_directories_is_30() {
    assert_eq!(disk_usage(&hidden(false), "root", "/w/root", &sample_tree()), Ok(30));
}

#[test]
fn usage_with_hidden_directories_is_35() {
    assert_eq!(disk_usage(&hidden(true), "root", "/w/root", &sample_tree()), Ok(35));
}

#[test]
fn name_search_for_log_finds_one_file() {
    let found = find_names(&Options::new(false, None), "root", "/w/root", &sample_tree(), "log");
    assert_eq!(found, Ok(vec!["root/sub/b.log".to_string()]));
}

#[test]
fn case_insensitive_search_matches_lines_one_and_three() {
    let matcher = Matcher::compile("ERROR", true).expect("the pattern is valid");
    let lines = vec!["error: x".to_string(), "ok".to_string(), "Error: y".to_string()];
    let records = scan_lines(&matcher, "log.txt", &lines);
    assert_eq!(
        records,
        vec![
            MatchResult::FileHeader { path: "log.txt".to_string() },
            MatchResult::LineMatch {
                path: "log.txt".to_string(),
                line_number: 1,
                text: "error: x".to_string(),
            },
            MatchResult::LineMatch {
                path: "log.txt".to_string(),
                line_number: 3,
                text: "Error: y".to_string(),
            },
        ]
    );
}

#[test]
fn case_sensitive_search_matches_nothing_in_lower_case() {
    let matcher = Matcher::compile("ERROR", false).expect("the pattern is valid");
    let lines = vec!["error: x".to_string(), "ok".to_string(), "Error: y".to_string()];
    assert_eq!(scan_lines(&matcher, "log.txt", &lines), vec![]);
}

#[test]
fn search_below_a_directory_reports_each_file_under_its_own_header() {
    let tree = Node::dir(
        "logs",
        vec![
            Node::text("a.log", 0, vec!["fine".to_string(), "error 1".to_string()]),
            Node::text("b.log", 0, vec!["error 2".to_string()]),
            Node::text("c.log", 0, vec!["nothing".to_string()]),
        ],
    );
    let matcher = Matcher::compile("error", false).expect("the pattern is valid");
    let found = search(&Options::unrestricted(), matcher, "logs", "/w/logs", &tree).expect("a directory");
    assert_eq!(
        found,
        vec![
            MatchResult::FileHeader { path: "logs/a.log".to_string() },
            MatchResult::LineMatch {
                path: "logs/a.log".to_string(),
                line_number: 2,
                text: "error 1".to_string(),
            },
            MatchResult::FileHeader { path: "logs/b.log".to_string() },
            MatchResult::LineMatch {
                path: "logs/b.log".to_string(),
                line_number: 1,
                text: "error 2".to_string(),
            },
        ]
    );
}

fn sorted_debug(events: &Vec<Event>) -> Vec<String> {
    let mut lines: Vec<String> = events.iter().map(|e| format!("{:?}", e)).collect();
    lines.sort();
    lines
}

#[test]
fn any_order_of_scans_gives_the_same_events() {
    let tree = sample_tree();
    let options = hidden(true);
    let predicate = Predicate::NameSubstring { needle: "t".to_string() };
    let reference = walk(&options, &predicate, "root", "/w/root", &tree).expect("a directory");
    for picks in [vec![0, 0, 0, 0], vec![0, 1, 0, 0, 0], vec![7, 5, 3, 1], vec![2, 2, 2, 2, 2]] {
        let (events, drained) =
            walk_in_order(&options, &predicate, "root", "/w/root", &tree, &picks).expect("a directory");
        assert!(drained);
        assert_eq!(sorted_debug(&events), sorted_debug(&reference));
    }
}

#[test]
fn any_order_of_scans_gives_the_same_total() {
    let tree = sample_tree();
    let options = hidden(true);
    let predicate = Predicate::SizeAccumulate;
    let reference = walk(&options, &predicate, "root", "/w/root", &tree).expect("a directory");
    assert_eq!(total_bytes(&reference), Some(35));
    for picks in [vec![0, 0, 0], vec![1, 1, 1, 1], vec![9, 4, 2]] {
        let (events, drained) =
            walk_in_order(&options, &predicate, "root", "/w/root", &tree, &picks).expect("a directory");
        assert!(drained);
        assert_eq!(total_bytes(&events), Some(35));
        assert_eq!(results(&events).len(), 3);
    }
}

#[test]
fn too_few_picks_leave_scans_pending() {
    let tree = sample_tree();
    let (events, drained) = walk_in_order(
        &hidden(true),
        &Predicate::SizeAccumulate,
        "root",
        "/w/root",
        &tree,
        &vec![0],
    )
    .expect("a directory");
    assert!(!drained);
    assert_eq!(total_bytes(&events), Some(10));
}
