use treescan::model::{
    Action, Entry, EntryError, EntryKind, ErrorKind, MatchResult, Predicate, Task,
};
use treescan::pattern::Matcher;
use treescan::policy::{is_hidden, Options};
use treescan::step::{scan_dir, scan_entry};

fn entry(name: &str, kind: EntryKind) -> Entry {
    Entry { name: name.to_string(), kind, accessible: true, readonly: false, len: 7 }
}

fn at(path: &str) -> String {
    if path.starts_with('/') {
        path.to_string()
    } else {
        format!("/w/{path}")
    }
}

fn task(path: &str, depth: usize) -> Task {
    Task { path: path.to_string(), absolute: at(path), depth }
}

fn name(needle: &str) -> Predicate {
    Predicate::NameSubstring { needle: needle.to_string() }
}

#[test]
fn new_options_skip_read_only_entries_and_pseudo_filesystems() {
    let options = Options::new(true, Some(3));
    assert!(options.hidden_folders);
    assert_eq!(options.max_depth, Some(3));
    assert!(options.skip_readonly);
    assert_eq!(options.excluded, vec!["/proc", "/sys", "/dev", "/run", "/tmp", "/var/run"]);
}

#[test]
fn unrestricted_options_prune_nothing() {
    let options = Options::unrestricted();
    assert!(options.hidden_folders);
    assert_eq!(options.max_depth, None);
    assert!(!options.skip_readonly);
    assert!(options.excluded.is_empty());
}

#[test]
fn builders_change_one_thing() {
    let options = Options::new(false, Some(1))
        .with_excluded(vec!["/data".to_string()])
        .with_skip_readonly(false);
    assert_eq!(
        options,
        Options {
            hidden_folders: false,
            max_depth: Some(1),
            excluded: vec!["/data".to_string()],
            skip_readonly: false,
        }
    );
}

#[test]
fn excluded_paths_and_all_below_them_are_excluded() {
    let options = Options::new(false, None);
    assert!(options.excludes("/proc"));
    assert!(options.excludes("/proc/1/fd"));
    assert!(options.excludes("/var/run/lock"));
    assert!(!options.excludes("/process"));
    assert!(!options.excludes("/var"));
    assert!(!options.excludes("/home/tmp"));
    assert!(!options.excludes("./tmp"));
    assert!(!Options::unrestricted().excludes("/proc"));
}

#[test]
fn hidden_names_begin_with_a_dot() {
    assert!(is_hidden(".git"));
    assert!(is_hidden("."));
    assert!(!is_hidden("git."));
    assert!(!is_hidden(""));
}

#[test]
fn descent_needs_room_below_the_depth_limit() {
    let limited = Options::new(false, Some(2));
    assert!(limited.descends("src", 0));
    assert!(limited.descends("src", 1));
    assert!(!limited.descends("src", 2));
    assert!(!limited.descends("src", 9));
    assert!(!Options::new(false, Some(0)).descends("src", 0));
    assert!(Options::new(false, None).descends("src", 1000));
    assert!(!Options::new(false, None).descends("src", usize::MAX));
}

#[test]
fn descent_into_hidden_directories_needs_permission() {
    assert!(!Options::new(false, None).descends(".git", 0));
    assert!(Options::new(true, None).descends(".git", 0));
    assert!(!Options::new(true, Some(1)).descends(".git", 1));
}

#[test]
fn an_excluded_entry_is_passed_over_in_silence() {
    let options = Options::new(true, None);
    let found = scan_entry(&options, &name(""), &task("/", 0), &entry("proc", EntryKind::Dir));
    assert_eq!(found, None);
    let below = scan_entry(&options, &name(""), &task("/proc", 1), &entry("cpuinfo", EntryKind::File));
    assert_eq!(below, None);
}

#[test]
fn an_unreadable_entry_is_reported() {
    let mut e = entry("secret", EntryKind::File);
    e.accessible = false;
    e.readonly = true;
    let found = scan_entry(&Options::new(false, None), &name("secret"), &task("home", 0), &e);
    assert_eq!(
        found,
        Some(Action::Report(EntryError {
            path: "home/secret".to_string(),
            kind: ErrorKind::Unreadable
        }))
    );
}

#[test]
fn a_read_only_entry_is_reported_where_those_are_skipped() {
    let mut e = entry("frozen.txt", EntryKind::File);
    e.readonly = true;
    let skipped = scan_entry(&Options::new(false, None), &name("frozen"), &task("home", 0), &e);
    assert_eq!(
        skipped,
        Some(Action::Report(EntryError {
            path: "home/frozen.txt".to_string(),
            kind: ErrorKind::ReadOnly
        }))
    );
    let kept = scan_entry(&Options::unrestricted(), &name("frozen"), &task("home", 0), &e);
    assert_eq!(
        kept,
        Some(Action::Emit(MatchResult::PathMatch { path: "home/frozen.txt".to_string() }))
    );
}

#[test]
fn a_directory_is_entered_one_level_deeper() {
    let found = scan_entry(
        &Options::new(false, Some(5)),
        &name("x"),
        &task("root", 4),
        &entry("sub", EntryKind::Dir),
    );
    assert_eq!(found, Some(Action::Spawn(Task { path: "root/sub".to_string(), absolute: at("root/sub"), depth: 5 })));
}

#[test]
fn a_directory_at_the_depth_limit_is_not_entered() {
    let found = scan_entry(
        &Options::new(false, Some(4)),
        &name("sub"),
        &task("root", 4),
        &entry("sub", EntryKind::Dir),
    );
    assert_eq!(found, None);
}

#[test]
fn a_hidden_directory_is_not_entered_by_default() {
    let options = Options::new(false, None);
    let found = scan_entry(&options, &name(""), &task("root", 0), &entry(".git", EntryKind::Dir));
    assert_eq!(found, None);
    let allowed = Options::new(true, None);
    let entered = scan_entry(&allowed, &name(""), &task("root", 0), &entry(".git", EntryKind::Dir));
    assert_eq!(entered, Some(Action::Spawn(Task { path: "root/.git".to_string(), absolute: at("root/.git"), depth: 1 })));
}

#[test]
fn the_name_predicate_looks_at_everything_but_directories() {
    let options = Options::unrestricted();
    let t = task("root", 0);
    assert_eq!(
        scan_entry(&options, &name("log"), &t, &entry("b.log", EntryKind::File)),
        Some(Action::Emit(MatchResult::PathMatch { path: "root/b.log".to_string() }))
    );
    assert_eq!(scan_entry(&options, &name("log"), &t, &entry("a.txt", EntryKind::File)), None);
    assert_eq!(
        scan_entry(&options, &name("sock"), &t, &entry("x.sock", EntryKind::Other)),
        Some(Action::Emit(MatchResult::PathMatch { path: "root/x.sock".to_string() }))
    );
    assert_eq!(
        scan_entry(&options, &name("hidden"), &t, &entry(".hidden.txt", EntryKind::File)),
        Some(Action::Emit(MatchResult::PathMatch { path: "root/.hidden.txt".to_string() }))
    );
}

#[test]
fn the_size_predicate_counts_regular_files_only() {
    let options = Options::unrestricted();
    let t = task("root", 0);
    assert_eq!(
        scan_entry(&options, &Predicate::SizeAccumulate, &t, &entry("a", EntryKind::File)),
        Some(Action::Emit(MatchResult::SizeContribution { bytes: 7 }))
    );
    assert_eq!(
        scan_entry(&options, &Predicate::SizeAccumulate, &t, &entry("a", EntryKind::Other)),
        None
    );
}

#[test]
fn the_content_predicate_asks_for_a_scan_of_regular_files() {
    let matcher = Matcher::compile("x", false).expect("the pattern is valid");
    let predicate = Predicate::ContentRegex { matcher };
    let options = Options::unrestricted();
    let t = task("root", 0);
    assert_eq!(
        scan_entry(&options, &predicate, &t, &entry("a", EntryKind::File)),
        Some(Action::Scan { path: "root/a".to_string() })
    );
    assert_eq!(scan_entry(&options, &predicate, &t, &entry("a", EntryKind::Other)), None);
}

#[test]
fn a_directory_scan_keeps_the_order_of_the_listing() {
    let entries = vec![
        entry("z.log", EntryKind::File),
        entry("sub", EntryKind::Dir),
        entry("a.txt", EntryKind::File),
        entry("a.log", EntryKind::File),
    ];
    let actions = scan_dir(&Options::unrestricted(), &name("log"), &task("root", 0), &entries);
    assert_eq!(
        actions,
        vec![
            Action::Emit(MatchResult::PathMatch { path: "root/z.log".to_string() }),
            Action::Spawn(Task { path: "root/sub".to_string(), absolute: at("root/sub"), depth: 1 }),
            Action::Emit(MatchResult::PathMatch { path: "root/a.log".to_string() }),
        ]
    );
    assert_eq!(scan_dir(&Options::unrestricted(), &name("log"), &task("root", 0), &vec![]), vec![]);
}

#[test]
fn exclusion_goes_by_the_absolute_path_not_by_the_path_shown() {
    let options = Options::new(true, None);
    let shown_elsewhere = Task { path: ".".to_string(), absolute: "/".to_string(), depth: 0 };
    assert_eq!(scan_entry(&options, &name(""), &shown_elsewhere, &entry("proc", EntryKind::Dir)), None);
    assert_eq!(scan_entry(&options, &name(""), &shown_elsewhere, &entry("tmp", EntryKind::File)), None);
    let below = Task { path: "cache".to_string(), absolute: "/tmp/cache".to_string(), depth: 2 };
    assert_eq!(scan_entry(&options, &name("x"), &below, &entry("x.txt", EntryKind::File)), None);
    let spelled_like_excluded =
        Task { path: "/tmp".to_string(), absolute: "/home/tmp".to_string(), depth: 0 };
    assert_eq!(
        scan_entry(&options, &name("x"), &spelled_like_excluded, &entry("x.txt", EntryKind::File)),
        Some(Action::Emit(MatchResult::PathMatch { path: "/tmp/x.txt".to_string() }))
    );
    assert_eq!(
        scan_entry(&options, &name("x"), &shown_elsewhere, &entry("home", EntryKind::Dir)),
        Some(Action::Spawn(Task {
            path: "./home".to_string(),
            absolute: "/home".to_string(),
            depth: 1
        }))
    );
}

#[test]
fn root_task_starts_at_depth_zero_with_both_paths() {
    assert_eq!(
        Task::root("docs", "/home/me/docs"),
        Task { path: "docs".to_string(), absolute: "/home/me/docs".to_string(), depth: 0 }
    );
}
