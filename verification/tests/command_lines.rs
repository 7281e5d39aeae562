use treescan::args::{ArgError, Config, FindArgs};
use treescan::policy::Options;

fn args(words: &[&str]) -> Vec<String> {
    words.iter().map(|w| w.to_string()).collect()
}

fn found(file_name: &str, start_dir: &str, hidden_folders: bool, max_depth: Option<usize>) -> FindArgs {
    FindArgs {
        file_name: file_name.to_string(),
        start_dir: start_dir.to_string(),
        hidden_folders,
        max_depth,
    }
}

#[test]
fn the_finder_needs_an_argument() {
    assert_eq!(FindArgs::parse(&args(&[])), Err(ArgError::Usage));
    assert_eq!(FindArgs::parse(&args(&["qfind"])), Err(ArgError::Usage));
}

#[test]
fn the_finder_takes_a_substring_and_a_start_directory() {
    assert_eq!(FindArgs::parse(&args(&["qfind", "log"])), Ok(found("log", ".", false, None)));
    assert_eq!(
        FindArgs::parse(&args(&["qfind", "log", "/var"])),
        Ok(found("log", "/var", false, None))
    );
    assert_eq!(
        FindArgs::parse(&args(&["qfind", "log", "/var", "/etc"])),
        Ok(found("log", "/etc", false, None))
    );
}

#[test]
fn the_finder_takes_its_flags_anywhere() {
    assert_eq!(
        FindArgs::parse(&args(&["qfind", "-H", "log", "-max-depth", "2", "src"])),
        Ok(found("log", "src", true, Some(2)))
    );
    assert_eq!(
        FindArgs::parse(&args(&["qfind", "log", "src", "-max-depth", "0"])),
        Ok(found("log", "src", false, Some(0)))
    );
    assert_eq!(FindArgs::parse(&args(&["qfind", "-H"])), Ok(found("", ".", true, None)));
}

#[test]
fn an_empty_substring_is_filled_by_the_next_word() {
    assert_eq!(FindArgs::parse(&args(&["qfind", "", "log"])), Ok(found("log", ".", false, None)));
}

#[test]
fn a_depth_limit_needs_a_number() {
    assert_eq!(FindArgs::parse(&args(&["qfind", "log", "-max-depth"])), Err(ArgError::Usage));
    assert_eq!(
        FindArgs::parse(&args(&["qfind", "log", "-max-depth", "deep"])),
        Err(ArgError::InvalidDepth)
    );
    assert_eq!(
        FindArgs::parse(&args(&["qfind", "log", "-max-depth", "-1"])),
        Err(ArgError::InvalidDepth)
    );
    assert_eq!(
        FindArgs::parse(&args(&["qfind", "log", "-max-depth", "99999999999999999999999"])),
        Err(ArgError::InvalidDepth)
    );
    assert_eq!(
        FindArgs::parse(&args(&["qfind", "log", "-max-depth", "-H"])),
        Err(ArgError::InvalidDepth)
    );
}

#[test]
fn the_finder_asks_for_the_default_policy() {
    let parsed = found("log", ".", true, Some(4));
    assert_eq!(parsed.options(), Options::new(true, Some(4)));
}

fn config(pattern: &str, path: &str, recursive: bool, ignore_case: bool) -> Config {
    Config { pattern: pattern.to_string(), path: path.to_string(), recursive, ignore_case }
}

#[test]
fn the_search_needs_three_arguments() {
    assert_eq!(Config::from_args(&args(&[])), Err("Not enough arguments provided"));
    assert_eq!(Config::from_args(&args(&["qgrep"])), Err("Not enough arguments provided"));
    assert_eq!(Config::from_args(&args(&["qgrep", "x"])), Err("Not enough arguments provided"));
}

#[test]
fn the_search_needs_a_pattern_and_a_path() {
    assert_eq!(Config::from_args(&args(&["qgrep", "x", "-r"])), Err("Pattern or path missing"));
    assert_eq!(Config::from_args(&args(&["qgrep", "-i", "-r"])), Err("Pattern or path missing"));
    assert_eq!(Config::from_args(&args(&["qgrep", "", ""])), Err("Pattern or path missing"));
    assert_eq!(Config::from_args(&args(&["qgrep", "x", ""])), Err("Pattern or path missing"));
}

#[test]
fn the_search_takes_pattern_path_and_flags() {
    assert_eq!(Config::from_args(&args(&["qgrep", "x", "dir"])), Ok(config("x", "dir", false, false)));
    assert_eq!(
        Config::from_args(&args(&["qgrep", "-r", "x", "-i", "dir"])),
        Ok(config("x", "dir", true, true))
    );
    assert_eq!(
        Config::from_args(&args(&["qgrep", "x", "dir", "other"])),
        Ok(config("x", "other", false, false))
    );
    assert_eq!(
        Config::from_args(&args(&["qgrep", "x", "dir", "-i"])),
        Ok(config("x", "dir", false, true))
    );
}

#[test]
fn without_recursion_the_search_stays_at_depth_zero() {
    let flat = config("x", "dir", false, false).options();
    assert_eq!(flat.max_depth, Some(0));
    assert!(flat.hidden_folders);
    assert!(!flat.skip_readonly);
    assert!(flat.excluded.is_empty());
    let deep = config("x", "dir", true, false).options();
    assert_eq!(deep, Options::unrestricted());
}
