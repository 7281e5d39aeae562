//! What a consumer reads off a run of events: the results, the failures, the
//! matched paths and the total of the size contributions; and the three
//! searches over a tree in memory.

use crate::model::{
    lemma_views_push, texts, views, EntryError, ErrorView, Event, EventView, MatchResult,
    MatchView, Predicate, PredicateView,
};
use crate::pattern::Matcher;
use crate::policy::Options;
use crate::text::owned;
use crate::tree::{walk, walk_outcome, Node, PathError};
use vstd::prelude::*;

verus! {

/// The results among the events, in their order.
pub open spec fn results_of(events: Seq<EventView>) -> Seq<MatchView>
    decreases events.len(),
{
    if events.len() == 0 {
        Seq::empty()
    } else {
        match events.last() {
            EventView::Found(r) => results_of(events.drop_last()).push(r),
            EventView::Failed(_) => results_of(events.drop_last()),
        }
    }
}

/// The failures among the events, in their order.
pub open spec fn failures_of(events: Seq<EventView>) -> Seq<ErrorView>
    decreases events.len(),
{
    if events.len() == 0 {
        Seq::empty()
    } else {
        match events.last() {
            EventView::Failed(e) => failures_of(events.drop_last()).push(e),
            EventView::Found(_) => failures_of(events.drop_last()),
        }
    }
}

/// The paths of the files whose name matched, in the order of the events.
pub open spec fn paths_of(events: Seq<EventView>) -> Seq<Seq<char>>
    decreases events.len(),
{
    if events.len() == 0 {
        Seq::empty()
    } else {
        match events.last() {
            EventView::Found(MatchView::PathMatch { path }) => paths_of(events.drop_last()).push(
                path,
            ),
            _ => paths_of(events.drop_last()),
        }
    }
}

/// The bytes that one event contributes to the total.
pub open spec fn bytes_of(e: EventView) -> nat {
    match e {
        EventView::Found(MatchView::SizeContribution { bytes }) => bytes,
        _ => 0,
    }
}

/// The sum of the size contributions among the events.
pub open spec fn total_size(events: Seq<EventView>) -> nat
    decreases events.len(),
{
    if events.len() == 0 {
        0
    } else {
        total_size(events.drop_last()) + bytes_of(events.last())
    }
}

/// The total of a part of the events is no more than the total of all.
pub proof fn lemma_total_size_grows(events: Seq<EventView>, n: int)
    requires
        0 <= n <= events.len(),
    ensures
        total_size(events.take(n)) <= total_size(events),
    decreases events.len() - n,
{
    if n < events.len() {
        assert(events.take(n + 1).drop_last() == events.take(n));
        lemma_total_size_grows(events, n + 1);
    } else {
        assert(events.take(n) == events);
    }
}

/// Why a disk-usage total could not be given.
#[derive(Clone, Copy, Debug, PartialEq, Eq)]
pub enum UsageError {
    /// The traversal could not start.
    Path(PathError),
    /// The total does not fit into 64 bits.
    Overflow,
}

/// A copy of a result.
pub fn copy_result(r: &MatchResult) -> (c: MatchResult)
    ensures
        c@ == r@,
{
    match r {
        MatchResult::PathMatch { path } => MatchResult::PathMatch { path: path.clone() },
        MatchResult::FileHeader { path } => MatchResult::FileHeader { path: path.clone() },
        MatchResult::LineMatch { path, line_number, text } => MatchResult::LineMatch {
            path: path.clone(),
            line_number: *line_number,
            text: text.clone(),
        },
        MatchResult::SizeContribution { bytes } => MatchResult::SizeContribution { bytes: *bytes },
    }
}

/// The results among the events, in their order.
pub fn results(events: &Vec<Event>) -> (r: Vec<MatchResult>)
    ensures
        views(r@) == results_of(views(events@)),
{
    let mut out: Vec<MatchResult> = Vec::new();
    let mut i: usize = 0;
    assert(views(out@) =~= Seq::<MatchView>::empty());
    while i < events.len()
        invariant
            i <= events.len(),
            views(out@) == results_of(views(events@).take(i as int)),
        decreases events.len() - i,
    {
        proof {
            let after = views(events@).take(i + 1);
            assert(after.drop_last() == views(events@).take(i as int));
            assert(after.last() == events@[i as int]@);
        }
        match &events[i] {
            Event::Found(r) => {
                let c = copy_result(r);
                proof {
                    lemma_views_push(out@, c);
                }
                out.push(c);
            },
            Event::Failed(_) => {},
        }
        i += 1;
    }
    assert(views(events@).take(i as int) == views(events@));
    out
}

/// The failures among the events, in their order.
pub fn failures(events: &Vec<Event>) -> (r: Vec<EntryError>)
    ensures
        views(r@) == failures_of(views(events@)),
{
    let mut out: Vec<EntryError> = Vec::new();
    let mut i: usize = 0;
    assert(views(out@) =~= Seq::<ErrorView>::empty());
    while i < events.len()
        invariant
            i <= events.len(),
            views(out@) == failures_of(views(events@).take(i as int)),
        decreases events.len() - i,
    {
        proof {
            let after = views(events@).take(i + 1);
            assert(after.drop_last() == views(events@).take(i as int));
            assert(after.last() == events@[i as int]@);
        }
        match &events[i] {
            Event::Failed(e) => {
                let c = EntryError { path: e.path.clone(), kind: e.kind };
                proof {
                    lemma_views_push(out@, c);
                }
                out.push(c);
            },
            Event::Found(_) => {},
        }
        i += 1;
    }
    assert(views(events@).take(i as int) == views(events@));
    out
}

/// The paths of the files whose name matched, in the order of the events.
pub fn matched_paths(events: &Vec<Event>) -> (r: Vec<String>)
    ensures
        texts(r@) == paths_of(views(events@)),
{
    let mut out: Vec<String> = Vec::new();
    let mut i: usize = 0;
    assert(texts(out@) =~= Seq::<Seq<char>>::empty());
    while i < events.len()
        invariant
            i <= events.len(),
            texts(out@) == paths_of(views(events@).take(i as int)),
        decreases events.len() - i,
    {
        proof {
            let after = views(events@).take(i + 1);
            assert(after.drop_last() == views(events@).take(i as int));
            assert(after.last() == events@[i as int]@);
        }
        match &events[i] {
            Event::Found(MatchResult::PathMatch { path }) => {
                let c = path.clone();
                assert(texts(out@.push(c)) =~= texts(out@).push(c@));
                out.push(c);
            },
            _ => {},
        }
        i += 1;
    }
    assert(views(events@).take(i as int) == views(events@));
    out
}

/// The sum of the size contributions among the events, or `None` where it
/// does not fit into 64 bits.
pub fn total_bytes(events: &Vec<Event>) -> (r: Option<u64>)
    ensures
        r is Some <==> total_size(views(events@)) <= u64::MAX,
        r is Some ==> r->Some_0 == total_size(views(events@)),
{
    let mut total: u64 = 0;
    let mut i: usize = 0;
    while i < events.len()
        invariant
            i <= events.len(),
            total == total_size(views(events@).take(i as int)),
        decreases events.len() - i,
    {
        proof {
            let after = views(events@).take(i + 1);
            assert(after.drop_last() == views(events@).take(i as int));
            assert(after.last() == events@[i as int]@);
            lemma_total_size_grows(views(events@), i + 1);
        }
        match &events[i] {
            Event::Found(MatchResult::SizeContribution { bytes }) => {
                if *bytes > u64::MAX - total {
                    return None;
                }
                total = total + *bytes;
            },
            _ => {},
        }
        i += 1;
    }
    assert(views(events@).take(i as int) == views(events@));
    Some(total)
}

/// The paths of the files below `root` whose name holds `needle`, as the
/// reference walk meets them.
pub fn find_names(options: &Options, root_path: &str, root_absolute: &str, root: &Node, needle: &str) -> (r: Result<
    Vec<String>,
    PathError,
>)
    ensures
        match walk_outcome(
            options@,
            PredicateView::NameSubstring { needle: needle@ },
            root_path@,
            root_absolute@,
            root@,
        ) {
            Ok(events) => r is Ok && texts(r->Ok_0@) == paths_of(events),
            Err(e) => r == Err::<Vec<String>, PathError>(e),
        },
{
    let predicate = Predicate::NameSubstring { needle: owned(needle) };
    match walk(options, &predicate, root_path, root_absolute, root) {
        Ok(events) => Ok(matched_paths(&events)),
        Err(e) => Err(e),
    }
}

/// The records of a content search below `root`, as the reference walk meets
/// them.
pub fn search(options: &Options, matcher: Matcher, root_path: &str, root_absolute: &str, root: &Node) -> (r: Result<
    Vec<MatchResult>,
    PathError,
>)
    ensures
        match walk_outcome(
            options@,
            PredicateView::ContentRegex { pattern: matcher.pattern() },
            root_path@,
            root_absolute@,
            root@,
        ) {
            Ok(events) => r is Ok && views(r->Ok_0@) == results_of(events),
            Err(e) => r == Err::<Vec<MatchResult>, PathError>(e),
        },
{
    let predicate = Predicate::ContentRegex { matcher };
    match walk(options, &predicate, root_path, root_absolute, root) {
        Ok(events) => Ok(results(&events)),
        Err(e) => Err(e),
    }
}

/// The total length of the regular files below `root` that the policy
/// reaches.
pub fn disk_usage(options: &Options, root_path: &str, root_absolute: &str, root: &Node) -> (r: Result<u64, UsageError>)
    ensures
        match walk_outcome(options@, PredicateView::SizeAccumulate, root_path@, root_absolute@, root@) {
            Ok(events) => if total_size(events) <= u64::MAX {
                r == Ok::<u64, UsageError>(total_size(events) as u64)
            } else {
                r == Err::<u64, UsageError>(UsageError::Overflow)
            },
            Err(e) => r == Err::<u64, UsageError>(UsageError::Path(e)),
        },
{
    let predicate = Predicate::SizeAccumulate;
    match walk(options, &predicate, root_path, root_absolute, root) {
        Ok(events) => match total_bytes(&events) {
            Some(total) => Ok(total),
            None => Err(UsageError::Overflow),
        },
        Err(e) => Err(UsageError::Path(e)),
    }
}

/// The running total of a disk-usage traversal: the single place where size
/// contributions are added up, or one task's partial sum that is merged into
/// another.
#[derive(Clone, Copy, Debug, PartialEq, Eq)]
pub struct Accumulator {
    /// The bytes counted so far.
    pub total: u64,
}

impl Accumulator {
    /// A total of nothing.
    pub fn new() -> (r: Accumulator)
        ensures
            r.total == 0,
    {
        Accumulator { total: 0 }
    }

    /// Adds `bytes` to the total. Gives `false`, and leaves the total as it
    /// is, where the sum does not fit into 64 bits.
    pub fn add(&mut self, bytes: u64) -> (fits: bool)
        ensures
            fits == (old(self).total + bytes <= u64::MAX),
            fits ==> final(self).total == old(self).total + bytes,
            !fits ==> final(self).total == old(self).total,
    {
        if bytes > u64::MAX - self.total {
            false
        } else {
            self.total = self.total + bytes;
            true
        }
    }

    /// Adds what a result contributes: the bytes of a size contribution,
    /// nothing for any other result.
    pub fn absorb(&mut self, result: &MatchResult) -> (fits: bool)
        ensures
            fits == (old(self).total + bytes_of(EventView::Found(result@)) <= u64::MAX),
            fits ==> final(self).total == old(self).total + bytes_of(EventView::Found(result@)),
            !fits ==> final(self).total == old(self).total,
    {
        match result {
            MatchResult::SizeContribution { bytes } => self.add(*bytes),
            _ => true,
        }
    }

    /// Merges another total into this one.
    pub fn merge(&mut self, other: &Accumulator) -> (fits: bool)
        ensures
            fits == (old(self).total + other.total <= u64::MAX),
            fits ==> final(self).total == old(self).total + other.total,
            !fits ==> final(self).total == old(self).total,
    {
        self.add(other.total)
    }
}

} // verus!
