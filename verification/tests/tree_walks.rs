use treescan::model::{EntryError, ErrorKind, Event, MatchResult, Predicate};
use treescan::outcome::{
    copy_result, disk_usage, failures, find_names, matched_paths, results, search, total_bytes,
    Accumulator, UsageError,
};
use treescan::pattern::Matcher;
use treescan::policy::Options;
use treescan::schedule::walk_in_order;
use treescan::tree::{start_at, walk, Body, Node, PathError, Start};
use treescan::model::{Entry, EntryKind};

fn name(needle: &str) -> Predicate {
    Predicate::NameSubstring { needle: needle.to_string() }
}

fn path_match(path: &str) -> Event {
    Event::Found(MatchResult::PathMatch { path: path.to_string() })
}

fn failed(path: &str, kind: ErrorKind) -> Event {
    Event::Failed(EntryError { path: path.to_string(), kind })
}

fn deep_tree() -> Node {
    Node::dir(
        "r",
        vec![
            Node::file("f0", 1),
            Node::dir(
                "d1",
                vec![
                    Node::file("f1", 2),
                    Node::dir(
                        "d2",
                        vec![Node::file("f2", 4), Node::dir("d3", vec![Node::file("f3", 8)])],
                    ),
                ],
            ),
        ],
    )
}

#[test]
fn constructors_make_readable_writable_nodes() {
    assert_eq!(
        Node::file("a", 3),
        Node {
            name: "a".to_string(),
            accessible: true,
            readonly: false,
            body: Body::File { len: 3, lines: None },
        }
    );
    assert_eq!(
        Node::text("a", 3, vec!["x".to_string()]),
        Node {
            name: "a".to_string(),
            accessible: true,
            readonly: false,
            body: Body::File { len: 3, lines: Some(vec!["x".to_string()]) },
        }
    );
    assert_eq!(
        Node::dir("d", vec![]),
        Node {
            name: "d".to_string(),
            accessible: true,
            readonly: false,
            body: Body::Dir { listable: true, children: vec![] },
        }
    );
}

#[test]
fn a_node_shows_as_its_entry() {
    assert_eq!(
        Node::file("a", 3).entry(),
        Entry { name: "a".to_string(), kind: EntryKind::File, accessible: true, readonly: false, len: 3 }
    );
    assert_eq!(
        Node::dir("d", vec![Node::file("a", 3)]).entry(),
        Entry { name: "d".to_string(), kind: EntryKind::Dir, accessible: true, readonly: false, len: 0 }
    );
    let other = Node { name: "s".to_string(), accessible: false, readonly: true, body: Body::Other };
    assert_eq!(
        other.entry(),
        Entry { name: "s".to_string(), kind: EntryKind::Other, accessible: false, readonly: true, len: 0 }
    );
}

#[test]
fn the_walk_goes_through_the_tree_in_listing_order() {
    let events = walk(&Options::unrestricted(), &name("f"), "r", "/w/r", &deep_tree()).expect("a directory");
    assert_eq!(
        events,
        vec![
            path_match("r/f0"),
            path_match("r/d1/f1"),
            path_match("r/d1/d2/f2"),
            path_match("r/d1/d2/d3/f3"),
        ]
    );
}

#[test]
fn no_result_lies_deeper_than_the_limit() {
    let tree = deep_tree();
    let at = |limit: usize| {
        let mut options = Options::unrestricted();
        options.max_depth = Some(limit);
        find_names(&options, "r", "/w/r", &tree, "f").expect("a directory")
    };
    assert_eq!(at(0), vec!["r/f0"]);
    assert_eq!(at(1), vec!["r/f0", "r/d1/f1"]);
    assert_eq!(at(2), vec!["r/f0", "r/d1/f1", "r/d1/d2/f2"]);
    assert_eq!(at(3), vec!["r/f0", "r/d1/f1", "r/d1/d2/f2", "r/d1/d2/d3/f3"]);
    assert_eq!(at(10), vec!["r/f0", "r/d1/f1", "r/d1/d2/f2", "r/d1/d2/d3/f3"]);
}

#[test]
fn hidden_directories_are_skipped_but_a_hidden_root_is_walked() {
    let tree = Node::dir(
        ".root",
        vec![
            Node::file(".dotfile", 1),
            Node::dir(".cache", vec![Node::file("inner", 1)]),
            Node::dir("open", vec![Node::dir(".deep", vec![Node::file("x", 1)]), Node::file("y", 1)]),
        ],
    );
    let mut options = Options::unrestricted();
    options.hidden_folders = false;
    assert_eq!(
        find_names(&options, ".root", "/w/.root", &tree, ""),
        Ok(vec![".root/.dotfile".to_string(), ".root/open/y".to_string()])
    );
    options.hidden_folders = true;
    assert_eq!(
        find_names(&options, ".root", "/w/.root", &tree, ""),
        Ok(vec![
            ".root/.dotfile".to_string(),
            ".root/.cache/inner".to_string(),
            ".root/open/.deep/x".to_string(),
            ".root/open/y".to_string(),
        ])
    );
}

#[test]
fn an_excluded_directory_is_never_entered_however_deep() {
    let tree = Node::dir(
        "/",
        vec![
            Node::dir("proc", vec![Node::file("cpuinfo", 1)]),
            Node::dir(
                "srv",
                vec![Node::dir("data", vec![Node::dir("skip", vec![Node::file("cpuinfo", 1)])])],
            ),
            Node::dir("process", vec![Node::file("cpuinfo", 1)]),
        ],
    );
    let options = Options::unrestricted()
        .with_excluded(vec!["/proc".to_string(), "/srv/data/skip".to_string()]);
    let events = walk(&options, &name("cpu"), "/", "/", &tree).expect("a directory");
    assert_eq!(events, vec![path_match("/process/cpuinfo")]);
    let picks = vec![0, 0, 0, 0, 0, 0];
    let (scheduled, drained) =
        walk_in_order(&options, &name("cpu"), "/", "/", &tree, &picks).expect("a directory");
    assert!(drained);
    assert_eq!(scheduled, vec![path_match("/process/cpuinfo")]);
}

#[test]
fn an_excluded_root_yields_nothing() {
    let tree = Node::dir("proc", vec![Node::file("cpuinfo", 1)]);
    assert_eq!(find_names(&Options::new(true, None), "/proc", "/proc", &tree, "cpu"), Ok(vec![]));
}

#[test]
fn failures_stay_with_their_entry() {
    let tree = Node::dir(
        "r",
        vec![
            Node { name: "gone".to_string(), accessible: false, readonly: false, body: Body::Other },
            Node {
                name: "locked".to_string(),
                accessible: true,
                readonly: false,
                body: Body::Dir { listable: false, children: vec![Node::file("inside", 1)] },
            },
            Node {
                name: "frozen".to_string(),
                accessible: true,
                readonly: true,
                body: Body::File { len: 9, lines: None },
            },
            Node::file("fine", 1),
        ],
    );
    let events = walk(&Options::new(false, None), &name(""), "r", "/w/r", &tree).expect("a directory");
    assert_eq!(
        events,
        vec![
            failed("r/gone", ErrorKind::Unreadable),
            failed("r/locked", ErrorKind::Listing),
            failed("r/frozen", ErrorKind::ReadOnly),
            path_match("r/fine"),
        ]
    );
    assert_eq!(matched_paths(&events), vec!["r/fine"]);
    assert_eq!(
        failures(&events),
        vec![
            EntryError { path: "r/gone".to_string(), kind: ErrorKind::Unreadable },
            EntryError { path: "r/locked".to_string(), kind: ErrorKind::Listing },
            EntryError { path: "r/frozen".to_string(), kind: ErrorKind::ReadOnly },
        ]
    );
    assert_eq!(results(&events), vec![MatchResult::PathMatch { path: "r/fine".to_string() }]);
}

#[test]
fn a_root_that_cannot_be_walked_is_refused() {
    let options = Options::unrestricted();
    let locked = Node {
        name: "r".to_string(),
        accessible: true,
        readonly: false,
        body: Body::Dir { listable: false, children: vec![] },
    };
    assert_eq!(walk(&options, &name(""), "r", "/w/r", &locked), Err(PathError::Unlistable));
    assert_eq!(walk(&options, &name(""), "f", "/w/f", &Node::file("f", 1)), Err(PathError::NotADirectory));
    let other = Node { name: "s".to_string(), accessible: true, readonly: false, body: Body::Other };
    assert_eq!(walk(&options, &name(""), "s", "/w/s", &other), Err(PathError::NotADirectory));
    assert_eq!(find_names(&options, "f", "/w/f", &Node::file("f", 1), "f"), Err(PathError::NotADirectory));
    assert_eq!(
        disk_usage(&options, "r", "/w/r", &locked),
        Err(UsageError::Path(PathError::Unlistable))
    );
    assert_eq!(
        walk_in_order(&options, &name(""), "r", "/w/r", &locked, &vec![0]),
        Err(PathError::Unlistable)
    );
    assert_eq!(
        walk_in_order(&options, &name(""), "f", "/w/f", &Node::file("f", 1), &vec![0]),
        Err(PathError::NotADirectory)
    );
}

#[test]
fn a_content_search_takes_a_file_as_root() {
    let file = Node::text("notes", 0, vec!["alpha".to_string(), "beta".to_string()]);
    let matcher = Matcher::compile("bet", false).expect("the pattern is valid");
    assert_eq!(
        search(&Options::unrestricted(), matcher, "notes", "/w/notes", &file),
        Ok(vec![
            MatchResult::FileHeader { path: "notes".to_string() },
            MatchResult::LineMatch { path: "notes".to_string(), line_number: 2, text: "beta".to_string() },
        ])
    );
    let unreadable = Node::file("notes", 0);
    let matcher = Matcher::compile("bet", false).expect("the pattern is valid");
    assert_eq!(
        search(&Options::unrestricted(), matcher, "notes", "/w/notes", &unreadable),
        Err(PathError::Unreadable)
    );
}

#[test]
fn a_search_without_recursion_stays_in_the_start_directory() {
    let tree = Node::dir(
        "d",
        vec![
            Node::text("top", 0, vec!["hit".to_string()]),
            Node::dir("sub", vec![Node::text("low", 0, vec!["hit".to_string()])]),
            Node::file("unreadable", 0),
        ],
    );
    let mut flat = Options::unrestricted();
    flat.max_depth = Some(0);
    let matcher = Matcher::compile("hit", false).expect("the pattern is valid");
    let events = walk(&flat, &Predicate::ContentRegex { matcher }, "d", "/w/d", &tree).expect("a directory");
    assert_eq!(
        events,
        vec![
            Event::Found(MatchResult::FileHeader { path: "d/top".to_string() }),
            Event::Found(MatchResult::LineMatch {
                path: "d/top".to_string(),
                line_number: 1,
                text: "hit".to_string()
            }),
            failed("d/unreadable", ErrorKind::Content),
        ]
    );
    let matcher = Matcher::compile("hit", false).expect("the pattern is valid");
    let deep = search(&Options::unrestricted(), matcher, "d", "/w/d", &tree).expect("a directory");
    assert_eq!(deep.len(), 4);
}

#[test]
fn totals_add_up_and_overflow_is_told() {
    let tree = deep_tree();
    assert_eq!(disk_usage(&Options::unrestricted(), "r", "/w/r", &tree), Ok(15));
    let huge = Node::dir("r", vec![Node::file("a", u64::MAX), Node::file("b", 1)]);
    assert_eq!(disk_usage(&Options::unrestricted(), "r", "/w/r", &huge), Err(UsageError::Overflow));
    let events = walk(&Options::unrestricted(), &Predicate::SizeAccumulate, "r", "/w/r", &huge)
        .expect("a directory");
    assert_eq!(total_bytes(&events), None);
    let exact = Node::dir("r", vec![Node::file("a", u64::MAX - 1), Node::file("b", 1)]);
    assert_eq!(disk_usage(&Options::unrestricted(), "r", "/w/r", &exact), Ok(u64::MAX));
    assert_eq!(disk_usage(&Options::unrestricted(), "r", "/w/r", &Node::dir("r", vec![])), Ok(0));
}

#[test]
fn directories_and_other_entries_contribute_no_size() {
    let tree = Node::dir(
        "r",
        vec![
            Node::dir("empty", vec![]),
            Node { name: "dev".to_string(), accessible: true, readonly: false, body: Body::Other },
            Node::file("f", 5),
        ],
    );
    let events = walk(&Options::unrestricted(), &Predicate::SizeAccumulate, "r", "/w/r", &tree)
        .expect("a directory");
    assert_eq!(events, vec![Event::Found(MatchResult::SizeContribution { bytes: 5 })]);
}

#[test]
fn a_copy_of_a_result_equals_it() {
    let all = vec![
        MatchResult::PathMatch { path: "p".to_string() },
        MatchResult::FileHeader { path: "p".to_string() },
        MatchResult::LineMatch { path: "p".to_string(), line_number: 3, text: "t".to_string() },
        MatchResult::SizeContribution { bytes: 9 },
    ];
    for r in &all {
        assert_eq!(&copy_result(r), r);
    }
}

#[test]
fn the_accumulator_adds_and_merges_without_wrapping() {
    let mut total = Accumulator::new();
    assert_eq!(total.total, 0);
    assert!(total.add(10));
    assert!(total.absorb(&MatchResult::SizeContribution { bytes: 20 }));
    assert!(total.absorb(&MatchResult::PathMatch { path: "p".to_string() }));
    assert_eq!(total.total, 30);
    let mut other = Accumulator::new();
    assert!(other.add(5));
    assert!(total.merge(&other));
    assert_eq!(total.total, 35);
    assert!(!total.add(u64::MAX));
    assert_eq!(total.total, 35);
    assert!(total.add(u64::MAX - 35));
    assert_eq!(total.total, u64::MAX);
    assert!(!total.merge(&other));
    assert_eq!(total.total, u64::MAX);
}

#[test]
fn a_root_whose_metadata_cannot_be_read_is_missing() {
    let options = Options::unrestricted();
    let gone = Node {
        name: "r".to_string(),
        accessible: false,
        readonly: false,
        body: Body::Dir { listable: true, children: vec![Node::file("a", 4)] },
    };
    assert_eq!(walk(&options, &name("a"), "r", "/w/r", &gone), Err(PathError::Missing));
    assert_eq!(find_names(&options, "r", "/w/r", &gone, "a"), Err(PathError::Missing));
    assert_eq!(disk_usage(&options, "r", "/w/r", &gone), Err(UsageError::Path(PathError::Missing)));
    let matcher = Matcher::compile("a", false).expect("the pattern is valid");
    assert_eq!(search(&options, matcher, "r", "/w/r", &gone), Err(PathError::Missing));
    assert_eq!(
        walk_in_order(&options, &name("a"), "r", "/w/r", &gone, &vec![0]),
        Err(PathError::Missing)
    );
    let gone_file = Node {
        name: "notes".to_string(),
        accessible: false,
        readonly: false,
        body: Body::File { len: 3, lines: Some(vec!["abc".to_string()]) },
    };
    let matcher = Matcher::compile("a", false).expect("the pattern is valid");
    assert_eq!(search(&options, matcher, "notes", "/w/notes", &gone_file), Err(PathError::Missing));
}

#[test]
fn the_start_is_decided_by_the_metadata_of_the_root() {
    let matcher = Matcher::compile("a", false).expect("the pattern is valid");
    let content = Predicate::ContentRegex { matcher };
    let root = |kind: EntryKind, accessible: bool| Entry {
        name: "r".to_string(),
        kind,
        accessible,
        readonly: true,
        len: 0,
    };
    assert_eq!(start_at(&name("a"), &root(EntryKind::Dir, true)), Ok(Start::Directory));
    assert_eq!(start_at(&content, &root(EntryKind::Dir, true)), Ok(Start::Directory));
    assert_eq!(start_at(&Predicate::SizeAccumulate, &root(EntryKind::Dir, true)), Ok(Start::Directory));
    assert_eq!(start_at(&content, &root(EntryKind::File, true)), Ok(Start::File));
    assert_eq!(start_at(&name("a"), &root(EntryKind::File, true)), Err(PathError::NotADirectory));
    assert_eq!(
        start_at(&Predicate::SizeAccumulate, &root(EntryKind::File, true)),
        Err(PathError::NotADirectory)
    );
    assert_eq!(start_at(&content, &root(EntryKind::Other, true)), Err(PathError::NotADirectory));
    assert_eq!(start_at(&name("a"), &root(EntryKind::Dir, false)), Err(PathError::Missing));
    assert_eq!(start_at(&content, &root(EntryKind::File, false)), Err(PathError::Missing));
}

#[test]
fn a_relative_root_does_not_escape_the_excluded_paths() {
    let tree = Node::dir(
        ".",
        vec![
            Node::dir("proc", vec![Node::file("cpuinfo", 9)]),
            Node::dir("home", vec![Node::dir("tmp", vec![Node::file("cpu.txt", 2)])]),
            Node::dir("var", vec![Node::dir("run", vec![Node::file("cpu.pid", 4)])]),
        ],
    );
    let options = Options::new(true, None).with_skip_readonly(false);
    assert_eq!(
        find_names(&options, ".", "/", &tree, "cpu"),
        Ok(vec!["./home/tmp/cpu.txt".to_string()])
    );
    assert_eq!(disk_usage(&options, ".", "/", &tree), Ok(2));
    assert_eq!(
        find_names(&options, ".", "/srv", &tree, "cpu"),
        Ok(vec![
            "./proc/cpuinfo".to_string(),
            "./home/tmp/cpu.txt".to_string(),
            "./var/run/cpu.pid".to_string(),
        ])
    );
    assert_eq!(disk_usage(&options, ".", "/srv", &tree), Ok(15));
    assert_eq!(find_names(&options, "cache", "/tmp/cache", &tree, "cpu"), Ok(vec![]));
    let matcher = Matcher::compile("x", false).expect("the pattern is valid");
    let logs = Node::dir(".", vec![Node::dir("sys", vec![Node::text("a", 1, vec!["x".to_string()])])]);
    assert_eq!(search(&options, matcher, ".", "/", &logs), Ok(vec![]));
}

#[test]
fn a_file_as_root_has_no_scans_to_order() {
    let file = Node::text("notes", 0, vec!["alpha".to_string(), "beta".to_string()]);
    let matcher = Matcher::compile("a$", false).expect("the pattern is valid");
    let content = Predicate::ContentRegex { matcher };
    let reference = walk(&Options::unrestricted(), &content, "notes", "/w/notes", &file);
    assert_eq!(
        reference,
        Ok(vec![
            Event::Found(MatchResult::FileHeader { path: "notes".to_string() }),
            Event::Found(MatchResult::LineMatch {
                path: "notes".to_string(),
                line_number: 1,
                text: "alpha".to_string()
            }),
            Event::Found(MatchResult::LineMatch {
                path: "notes".to_string(),
                line_number: 2,
                text: "beta".to_string()
            }),
        ])
    );
    let ordered =
        walk_in_order(&Options::unrestricted(), &content, "notes", "/w/notes", &file, &vec![3, 1]);
    assert_eq!(ordered, reference.map(|events| (events, true)));
}
