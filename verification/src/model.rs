//! The values that a traversal reads and produces, each with its
//! mathematical view.

use crate::pattern::Matcher;
use crate::text::owned;
use vstd::prelude::*;

verus! {

/// What kind of thing a directory entry is.
#[derive(Clone, Copy, Debug, PartialEq, Eq)]
pub enum EntryKind {
    /// A regular file.
    File,
    /// A directory.
    Dir,
    /// Anything else: a socket, a device, a dangling link.
    Other,
}

/// One entry of a directory listing, as plain values.
#[derive(Clone, Debug, PartialEq, Eq)]
pub struct Entry {
    /// The final path component.
    pub name: String,
    /// What kind of thing the entry is.
    pub kind: EntryKind,
    /// Whether the entry's metadata could be read.
    pub accessible: bool,
    /// Whether the entry is marked read-only.
    pub readonly: bool,
    /// The length in bytes that the metadata reports.
    pub len: u64,
}

/// The view of an `Entry`.
pub struct EntryView {
    pub name: Seq<char>,
    pub kind: EntryKind,
    pub accessible: bool,
    pub readonly: bool,
    pub len: nat,
}

impl View for Entry {
    type V = EntryView;

    open spec fn view(&self) -> EntryView {
        EntryView {
            name: self.name@,
            kind: self.kind,
            accessible: self.accessible,
            readonly: self.readonly,
            len: self.len as nat,
        }
    }
}

/// A scan of exactly one directory that is still to be made.
#[derive(Clone, Debug, PartialEq, Eq)]
pub struct Task {
    /// The directory's path as it is shown: the root as the caller spelled
    /// it, and below it the names of the directories entered.
    pub path: String,
    /// The directory's absolute path, by which exclusion is decided.
    pub absolute: String,
    /// The number of directory hops from the root; the root has depth 0.
    pub depth: usize,
}

/// The view of a `Task`.
pub struct TaskView {
    pub path: Seq<char>,
    pub absolute: Seq<char>,
    pub depth: nat,
}

impl View for Task {
    type V = TaskView;

    open spec fn view(&self) -> TaskView {
        TaskView { path: self.path@, absolute: self.absolute@, depth: self.depth as nat }
    }
}

impl Task {
    /// The task of a root directory that is shown as `path` and lies at
    /// `absolute`.
    pub fn root(path: &str, absolute: &str) -> (r: Task)
        ensures
            r@ == (TaskView { path: path@, absolute: absolute@, depth: 0 }),
    {
        Task { path: owned(path), absolute: owned(absolute), depth: 0 }
    }
}

/// One record of what a traversal found.
#[derive(Clone, Debug, PartialEq, Eq)]
pub enum MatchResult {
    /// A file whose name matched.
    PathMatch { path: String },
    /// The first match in a file is about to follow.
    FileHeader { path: String },
    /// A line of a file matched; lines are numbered from 1.
    LineMatch { path: String, line_number: usize, text: String },
    /// A file contributes its length to the total.
    SizeContribution { bytes: u64 },
}

/// The view of a `MatchResult`.
pub enum MatchView {
    PathMatch { path: Seq<char> },
    FileHeader { path: Seq<char> },
    LineMatch { path: Seq<char>, line_number: nat, text: Seq<char> },
    SizeContribution { bytes: nat },
}

impl View for MatchResult {
    type V = MatchView;

    open spec fn view(&self) -> MatchView {
        match *self {
            MatchResult::PathMatch { path } => MatchView::PathMatch { path: path@ },
            MatchResult::FileHeader { path } => MatchView::FileHeader { path: path@ },
            MatchResult::LineMatch { path, line_number, text } => MatchView::LineMatch {
                path: path@,
                line_number: line_number as nat,
                text: text@,
            },
            MatchResult::SizeContribution { bytes } => MatchView::SizeContribution {
                bytes: bytes as nat,
            },
        }
    }
}

/// Which read failed for an entry.
#[derive(Clone, Copy, Debug, PartialEq, Eq)]
pub enum ErrorKind {
    /// The entry's metadata could not be read.
    Unreadable,
    /// The entry is read-only and read-only entries are skipped.
    ReadOnly,
    /// The directory could not be listed.
    Listing,
    /// The file's content could not be read.
    Content,
}

/// A failure that concerns one entry and leaves its siblings untouched.
#[derive(Clone, Debug, PartialEq, Eq)]
pub struct EntryError {
    /// The path of the entry.
    pub path: String,
    /// Which read failed.
    pub kind: ErrorKind,
}

/// The view of an `EntryError`.
pub struct ErrorView {
    pub path: Seq<char>,
    pub kind: ErrorKind,
}

impl View for EntryError {
    type V = ErrorView;

    open spec fn view(&self) -> ErrorView {
        ErrorView { path: self.path@, kind: self.kind }
    }
}

/// What the scan of one entry asks for.
#[derive(Clone, Debug, PartialEq, Eq)]
pub enum Action {
    /// Hand a result to the aggregator.
    Emit(MatchResult),
    /// Read the file at `path` line by line and search its lines.
    Scan { path: String },
    /// Start a task for a subdirectory.
    Spawn(Task),
    /// Hand a failure to the error sink.
    Report(EntryError),
}

/// The view of an `Action`.
pub enum ActionView {
    Emit(MatchView),
    Scan { path: Seq<char> },
    Spawn(TaskView),
    Report(ErrorView),
}

impl View for Action {
    type V = ActionView;

    open spec fn view(&self) -> ActionView {
        match *self {
            Action::Emit(r) => ActionView::Emit(r@),
            Action::Scan { path } => ActionView::Scan { path: path@ },
            Action::Spawn(t) => ActionView::Spawn(t@),
            Action::Report(e) => ActionView::Report(e@),
        }
    }
}

/// What reaches the consumer of a traversal: a result or a contained failure.
#[derive(Clone, Debug, PartialEq, Eq)]
pub enum Event {
    /// A result for the aggregator.
    Found(MatchResult),
    /// A failure for the error sink.
    Failed(EntryError),
}

/// The view of an `Event`.
pub enum EventView {
    Found(MatchView),
    Failed(ErrorView),
}

impl View for Event {
    type V = EventView;

    open spec fn view(&self) -> EventView {
        match *self {
            Event::Found(r) => EventView::Found(r@),
            Event::Failed(e) => EventView::Failed(e@),
        }
    }
}

/// How a file qualifies as a match.
#[derive(Debug)]
pub enum Predicate {
    /// The name holds `needle` as a literal substring.
    NameSubstring { needle: String },
    /// Some line of the content matches the compiled expression.
    ContentRegex { matcher: Matcher },
    /// Every regular file counts with its length.
    SizeAccumulate,
}

/// The view of a `Predicate`.
pub enum PredicateView {
    NameSubstring { needle: Seq<char> },
    ContentRegex { pattern: Seq<char> },
    SizeAccumulate,
}

impl View for Predicate {
    type V = PredicateView;

    open spec fn view(&self) -> PredicateView {
        match *self {
            Predicate::NameSubstring { needle } => PredicateView::NameSubstring { needle: needle@ },
            Predicate::ContentRegex { matcher } => PredicateView::ContentRegex {
                pattern: matcher.pattern(),
            },
            Predicate::SizeAccumulate => PredicateView::SizeAccumulate,
        }
    }
}

/// The views of a sequence of values, element by element.
pub open spec fn views<T: View>(s: Seq<T>) -> Seq<T::V> {
    s.map_values(|x: T| x@)
}

/// The views of the texts of a sequence of strings.
pub open spec fn texts(s: Seq<String>) -> Seq<Seq<char>> {
    s.map_values(|x: String| x@)
}

/// Pushing a value pushes its view.
pub proof fn lemma_views_push<T: View>(s: Seq<T>, x: T)
    ensures
        views(s.push(x)) == views(s).push(x@),
{
    assert(views(s.push(x)) =~= views(s).push(x@));
}

/// The views of a concatenation are the concatenation of the views.
pub proof fn lemma_views_add<T: View>(a: Seq<T>, b: Seq<T>)
    ensures
        views(a + b) == views(a) + views(b),
{
    assert(views(a + b) =~= views(a) + views(b));
}

} // verus!
