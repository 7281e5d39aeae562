//! Recursive directory traversal with pluggable matching: the decisions of a
//! file finder, a content search and a disk-usage totalizer, stated over
//! plain values and proved.
//!
//! The library never touches the file system. A caller lists a directory and
//! hands the entries to [`step::scan_dir`], which says what is to be done
//! with each: emit a result, search a file's lines, start a task for a
//! subdirectory, or report a failure. [`tree`] walks a tree held in memory
//! in the same way, one directory after the other; [`schedule`] shows that
//! the events are the same in whatever order the directories are scanned,
//! and [`reach`] that the results are exactly those of the files that the
//! policy reaches.
//!
//! - [`text`], [`path`]: characters, numerals and paths.
//! - [`policy`]: which directories are entered.
//! - [`pattern`], [`content`]: regular expressions and the search of a file.
//! - [`model`]: entries, tasks, results, actions and events.
//! - [`outcome`]: results, failures and totals read off the events.
//! - [`lifecycle`]: the states of a task and the ends of a result channel.
//! - [`args`], [`report`], [`listing`], [`frame`]: command lines and output.

pub mod args;
pub mod content;
pub mod frame;
pub mod lifecycle;
pub mod listing;
pub mod model;
pub mod outcome;
pub mod path;
pub mod pattern;
pub mod policy;
pub mod reach;
pub mod report;
pub mod schedule;
pub mod step;
pub mod text;
pub mod tree;
