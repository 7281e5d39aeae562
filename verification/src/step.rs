//! The scan of one directory: what is done with each entry of its listing.

use crate::model::{
    views, Action, ActionView, Entry, EntryError, EntryKind, EntryView, ErrorKind, ErrorView,
    MatchResult, MatchView, Predicate, PredicateView, Task, TaskView,
};
use crate::path::{join, join_path};
use crate::policy::{is_excluded, may_descend, Options, OptionsView};
use crate::text::{contains, is_substring};
use vstd::prelude::*;

verus! {

/// What a file of the given kind, name and length yields under a predicate.
/// A name search looks at every entry that is no directory; a content search
/// and a size total look at regular files only.
pub open spec fn file_action(p: PredicateView, path: Seq<char>, e: EntryView) -> Option<
    ActionView,
> {
    match p {
        PredicateView::NameSubstring { needle } => if is_substring(needle, e.name) {
            Some(ActionView::Emit(MatchView::PathMatch { path }))
        } else {
            None
        },
        PredicateView::ContentRegex { pattern } => if e.kind == EntryKind::File {
            Some(ActionView::Scan { path })
        } else {
            None
        },
        PredicateView::SizeAccumulate => if e.kind == EntryKind::File {
            Some(ActionView::Emit(MatchView::SizeContribution { bytes: e.len }))
        } else {
            None
        },
    }
}

/// What the task `t` does with the entry `e` of its directory:
/// an entry whose absolute path is excluded is passed over in silence; one
/// whose metadata cannot be read, or a read-only one where those are skipped,
/// is reported; a directory is entered where the policy allows it; anything
/// else goes to the predicate.
pub open spec fn entry_action(o: OptionsView, p: PredicateView, t: TaskView, e: EntryView) -> Option<
    ActionView,
> {
    let path = join(t.path, e.name);
    let absolute = join(t.absolute, e.name);
    if is_excluded(o, absolute) {
        None
    } else if !e.accessible {
        Some(ActionView::Report(ErrorView { path, kind: ErrorKind::Unreadable }))
    } else if o.skip_readonly && e.readonly {
        Some(ActionView::Report(ErrorView { path, kind: ErrorKind::ReadOnly }))
    } else if e.kind == EntryKind::Dir {
        if may_descend(o, e.name, t.depth) {
            Some(ActionView::Spawn(TaskView { path, absolute, depth: t.depth + 1 }))
        } else {
            None
        }
    } else {
        file_action(p, path, e)
    }
}

/// The actions of a whole listing, in the order of its entries.
pub open spec fn dir_actions(o: OptionsView, p: PredicateView, t: TaskView, entries: Seq<EntryView>) -> Seq<
    ActionView,
>
    decreases entries.len(),
{
    if entries.len() == 0 {
        Seq::empty()
    } else {
        let head = dir_actions(o, p, t, entries.drop_last());
        match entry_action(o, p, t, entries.last()) {
            Some(a) => head.push(a),
            None => head,
        }
    }
}

/// The view of an optional action.
pub open spec fn action_view(a: Option<Action>) -> Option<ActionView> {
    match a {
        Some(x) => Some(x@),
        None => None,
    }
}

/// What a file yields under the predicate.
fn scan_file(predicate: &Predicate, path: String, entry: &Entry) -> (r: Option<Action>)
    ensures
        action_view(r) == file_action(predicate@, path@, entry@),
{
    match predicate {
        Predicate::NameSubstring { needle } => {
            if contains(entry.name.as_str(), needle.as_str()) {
                Some(Action::Emit(MatchResult::PathMatch { path }))
            } else {
                None
            }
        },
        Predicate::ContentRegex { matcher } => {
            match entry.kind {
                EntryKind::File => Some(Action::Scan { path }),
                _ => None,
            }
        },
        Predicate::SizeAccumulate => {
            match entry.kind {
                EntryKind::File => Some(
                    Action::Emit(MatchResult::SizeContribution { bytes: entry.len }),
                ),
                _ => None,
            }
        },
    }
}

/// Decides what the task does with one entry of its directory.
pub fn scan_entry(options: &Options, predicate: &Predicate, task: &Task, entry: &Entry) -> (r:
    Option<Action>)
    ensures
        action_view(r) == entry_action(options@, predicate@, task@, entry@),
{
    let path = join_path(task.path.as_str(), entry.name.as_str());
    let absolute = join_path(task.absolute.as_str(), entry.name.as_str());
    if options.excludes(absolute.as_str()) {
        return None;
    }
    if !entry.accessible {
        return Some(Action::Report(EntryError { path, kind: ErrorKind::Unreadable }));
    }
    if options.skip_readonly && entry.readonly {
        return Some(Action::Report(EntryError { path, kind: ErrorKind::ReadOnly }));
    }
    match entry.kind {
        EntryKind::Dir => {
            if options.descends(entry.name.as_str(), task.depth) {
                Some(Action::Spawn(Task { path, absolute, depth: task.depth + 1 }))
            } else {
                None
            }
        },
        _ => scan_file(predicate, path, entry),
    }
}

/// Scans one directory: decides for each entry of its listing, in order, what
/// is to be done with it.
pub fn scan_dir(options: &Options, predicate: &Predicate, task: &Task, entries: &Vec<Entry>) -> (r:
    Vec<Action>)
    ensures
        views(r@) == dir_actions(options@, predicate@, task@, views(entries@)),
{
    let mut out: Vec<Action> = Vec::new();
    let mut i: usize = 0;
    assert(views(out@) =~= Seq::<ActionView>::empty());
    while i < entries.len()
        invariant
            i <= entries.len(),
            views(out@) == dir_actions(
                options@,
                predicate@,
                task@,
                views(entries@).take(i as int),
            ),
        decreases entries.len() - i,
    {
        let ghost before = views(entries@).take(i as int);
        let ghost after = views(entries@).take(i + 1);
        proof {
            assert(after.drop_last() == before);
            assert(after.last() == entries@[i as int]@);
        }
        match scan_entry(options, predicate, task, &entries[i]) {
            Some(a) => {
                proof {
                    crate::model::lemma_views_push(out@, a);
                }
                out.push(a);
            },
            None => {},
        }
        i += 1;
    }
    assert(views(entries@).take(i as int) == views(entries@));
    out
}

} // verus!
