//! Concurrent traversal as a model: pending directory scans that are taken
//! up in any order. Whatever the order, the events are those of the
//! reference walk, each as often.

use crate::content::scan_lines;
use crate::model::{
    lemma_views_push, views, Action, EntryError, ErrorKind, Event, EventView,
    Predicate, PredicateView, Task, TaskView,
};
use crate::outcome::{bytes_of, paths_of, total_size};
use crate::policy::{Options, OptionsView};
use crate::step::scan_entry;
use crate::tree::{
    below_events, child_task, children_events, enters, lemma_nodes_view, local_events,
    node_events, push_found, root_task, walk, walk_outcome, Body, BodyView, Node, NodeView,
    PathError,
};
use vstd::multiset::Multiset;
use vstd::prelude::*;
use vstd::seq_lib::{lemma_multiset_commutative, to_multiset_contains, to_multiset_remove};

verus! {

/// A directory scan that is still to be made: the task and the entries that
/// its listing will show.
pub struct Job {
    pub task: TaskView,
    pub children: Seq<NodeView>,
}

/// What the scan of one directory itself emits, entry by entry.
pub open spec fn job_local(o: OptionsView, p: PredicateView, t: TaskView, children: Seq<NodeView>) -> Seq<
    EventView,
>
    decreases children.len(),
{
    if children.len() == 0 {
        Seq::empty()
    } else {
        job_local(o, p, t, children.drop_last()) + local_events(o, p, t, children.last())
    }
}

/// The scans that the scan of one directory starts: one for each
/// subdirectory that it enters.
pub open spec fn job_spawned(o: OptionsView, p: PredicateView, t: TaskView, children: Seq<NodeView>) -> Seq<
    Job,
>
    decreases children.len(),
{
    if children.len() == 0 {
        Seq::empty()
    } else {
        let head = job_spawned(o, p, t, children.drop_last());
        let n = children.last();
        match n.body {
            BodyView::Dir { children: below, .. } => if enters(o, p, t, n) {
                head.push(Job { task: child_task(t, n), children: below })
            } else {
                head
            },
            _ => head,
        }
    }
}

/// All the events that lie ahead where the given scans are pending, each as
/// often as the reference walk of the scans' subtrees yields it.
pub open spec fn jobs_events(o: OptionsView, p: PredicateView, jobs: Seq<Job>) -> Multiset<
    EventView,
>
    decreases jobs.len(),
{
    if jobs.len() == 0 {
        Multiset::empty()
    } else {
        jobs_events(o, p, jobs.drop_last()).add(
            children_events(o, p, jobs.last().task, jobs.last().children).to_multiset(),
        )
    }
}

/// Which of the pending scans a pick takes up.
pub open spec fn picked(pending: Seq<Job>, pick: nat) -> int {
    (pick % pending.len()) as int
}

/// The pending scans after one of them has been made: it is gone, and the
/// scans that it started have joined.
pub open spec fn after_step(o: OptionsView, p: PredicateView, pending: Seq<Job>, pick: nat) -> Seq<
    Job,
> {
    let k = picked(pending, pick);
    pending.remove(k) + job_spawned(o, p, pending[k].task, pending[k].children)
}

/// The events in the order in which they arrive where the pending scans are
/// taken up as `picks` says, one scan for each pick.
pub open spec fn run(o: OptionsView, p: PredicateView, pending: Seq<Job>, picks: Seq<nat>) -> Seq<
    EventView,
>
    decreases picks.len(),
{
    if picks.len() == 0 || pending.len() == 0 {
        Seq::empty()
    } else {
        let k = picked(pending, picks[0]);
        job_local(o, p, pending[k].task, pending[k].children) + run(
            o,
            p,
            after_step(o, p, pending, picks[0]),
            picks.drop_first(),
        )
    }
}

/// Whether the picks suffice to leave no scan pending.
pub open spec fn drains(o: OptionsView, p: PredicateView, pending: Seq<Job>, picks: Seq<nat>) -> bool
    decreases picks.len(),
{
    if pending.len() == 0 {
        true
    } else if picks.len() == 0 {
        false
    } else {
        drains(o, p, after_step(o, p, pending, picks[0]), picks.drop_first())
    }
}

/// No events, counted: nothing.
proof fn lemma_no_events()
    ensures
        Seq::<EventView>::empty().to_multiset() == Multiset::<EventView>::empty(),
{
    let e = Seq::<EventView>::empty();
    lemma_multiset_commutative(e, e);
    assert(e + e == e);
    assert(e.to_multiset() =~= Multiset::<EventView>::empty());
}

/// The events of a directory are what its own scan emits together with the
/// events of the scans that it starts.
pub proof fn lemma_scan_splits(o: OptionsView, p: PredicateView, t: TaskView, children: Seq<NodeView>)
    ensures
        children_events(o, p, t, children).to_multiset() == job_local(
            o,
            p,
            t,
            children,
        ).to_multiset().add(jobs_events(o, p, job_spawned(o, p, t, children))),
    decreases children.len(),
{
    lemma_no_events();
    if children.len() == 0 {
        assert(children_events(o, p, t, children).to_multiset() =~= Multiset::empty().add(
            Multiset::empty(),
        ));
    } else {
        let rest = children.drop_last();
        let n = children.last();
        lemma_scan_splits(o, p, t, rest);
        let local = local_events(o, p, t, n);
        let below = below_events(o, p, t, n);
        assert(node_events(o, p, t, n) == local + below);
        lemma_multiset_commutative(children_events(o, p, t, rest), node_events(o, p, t, n));
        lemma_multiset_commutative(local, below);
        lemma_multiset_commutative(job_local(o, p, t, rest), local);
        let spawned = job_spawned(o, p, t, children);
        let spawned_rest = job_spawned(o, p, t, rest);
        if enters(o, p, t, n) {
            assert(spawned.drop_last() == spawned_rest);
            assert(jobs_events(o, p, spawned) == jobs_events(o, p, spawned_rest).add(
                below.to_multiset(),
            ));
        } else {
            assert(spawned == spawned_rest);
            assert(below == Seq::<EventView>::empty());
        }
        assert(children_events(o, p, t, children).to_multiset() =~= job_local(
            o,
            p,
            t,
            children,
        ).to_multiset().add(jobs_events(o, p, spawned)));
    }
}

/// The events ahead of two runs of pending scans are those of the one
/// together with those of the other.
pub proof fn lemma_jobs_events_add(o: OptionsView, p: PredicateView, a: Seq<Job>, b: Seq<Job>)
    ensures
        jobs_events(o, p, a + b) == jobs_events(o, p, a).add(jobs_events(o, p, b)),
    decreases b.len(),
{
    if b.len() == 0 {
        assert(a + b == a);
        assert(jobs_events(o, p, a) =~= jobs_events(o, p, a).add(Multiset::empty()));
    } else {
        assert((a + b).drop_last() == a + b.drop_last());
        assert((a + b).last() == b.last());
        lemma_jobs_events_add(o, p, a, b.drop_last());
        assert(jobs_events(o, p, a + b) =~= jobs_events(o, p, a).add(jobs_events(o, p, b)));
    }
}

/// The events ahead of the pending scans are those of any one of them
/// together with those of the others.
pub proof fn lemma_jobs_events_remove(o: OptionsView, p: PredicateView, jobs: Seq<Job>, k: int)
    requires
        0 <= k < jobs.len(),
    ensures
        jobs_events(o, p, jobs) == jobs_events(o, p, jobs.remove(k)).add(
            children_events(o, p, jobs[k].task, jobs[k].children).to_multiset(),
        ),
    decreases jobs.len(),
{
    if k == jobs.len() - 1 {
        assert(jobs.remove(k) == jobs.drop_last());
    } else {
        assert(jobs.remove(k).drop_last() == jobs.drop_last().remove(k));
        assert(jobs.remove(k).last() == jobs.last());
        lemma_jobs_events_remove(o, p, jobs.drop_last(), k);
        assert(jobs_events(o, p, jobs) =~= jobs_events(o, p, jobs.remove(k)).add(
            children_events(o, p, jobs[k].task, jobs[k].children).to_multiset(),
        ));
    }
}

/// In whatever order the pending scans are taken up, a run that leaves none
/// pending yields exactly the events that lay ahead, each as often.
pub proof fn lemma_run_yields_all(
    o: OptionsView,
    p: PredicateView,
    pending: Seq<Job>,
    picks: Seq<nat>,
)
    requires
        drains(o, p, pending, picks),
    ensures
        run(o, p, pending, picks).to_multiset() == jobs_events(o, p, pending),
    decreases picks.len(),
{
    lemma_no_events();
    if pending.len() == 0 {
        assert(run(o, p, pending, picks) == Seq::<EventView>::empty());
    } else {
        let k = picked(pending, picks[0]);
        let job = pending[k];
        let local = job_local(o, p, job.task, job.children);
        let spawned = job_spawned(o, p, job.task, job.children);
        let next = after_step(o, p, pending, picks[0]);
        let rest = run(o, p, next, picks.drop_first());
        lemma_run_yields_all(o, p, next, picks.drop_first());
        lemma_multiset_commutative(local, rest);
        lemma_jobs_events_add(o, p, pending.remove(k), spawned);
        lemma_jobs_events_remove(o, p, pending, k);
        lemma_scan_splits(o, p, job.task, job.children);
        assert(run(o, p, pending, picks).to_multiset() =~= jobs_events(o, p, pending));
    }
}

/// The traversal of a tree yields the same events, each as often, in whatever
/// order its directories are scanned: any run that starts with the root scan
/// and leaves no scan pending agrees with the reference walk.
pub proof fn lemma_order_of_scans_is_immaterial(
    o: OptionsView,
    p: PredicateView,
    root_path: Seq<char>,
    root_absolute: Seq<char>,
    children: Seq<NodeView>,
    picks: Seq<nat>,
)
    requires
        drains(o, p, seq![Job { task: root_task(root_path, root_absolute), children }], picks),
    ensures
        run(o, p, seq![Job { task: root_task(root_path, root_absolute), children }], picks).to_multiset()
            == children_events(o, p, root_task(root_path, root_absolute), children).to_multiset(),
{
    let start = seq![Job { task: root_task(root_path, root_absolute), children }];
    lemma_run_yields_all(o, p, start, picks);
    assert(start.drop_last() == Seq::<Job>::empty());
    assert(jobs_events(o, p, start.drop_last()) == Multiset::<EventView>::empty());
    assert(jobs_events(o, p, start) =~= children_events(
        o,
        p,
        root_task(root_path, root_absolute),
        children,
    ).to_multiset());
}

/// The total without one event is the total less that event's bytes.
pub proof fn lemma_total_size_remove(events: Seq<EventView>, k: int)
    requires
        0 <= k < events.len(),
    ensures
        total_size(events) == total_size(events.remove(k)) + bytes_of(events[k]),
    decreases events.len(),
{
    if k == events.len() - 1 {
        assert(events.remove(k) == events.drop_last());
    } else {
        assert(events.remove(k).drop_last() == events.drop_last().remove(k));
        assert(events.remove(k).last() == events.last());
        lemma_total_size_remove(events.drop_last(), k);
    }
}

/// Two runs of events that hold the same events, each as often, have the same
/// total.
pub proof fn lemma_total_size_ignores_order(a: Seq<EventView>, b: Seq<EventView>)
    requires
        a.to_multiset() == b.to_multiset(),
    ensures
        total_size(a) == total_size(b),
    decreases a.len(),
{
    vstd::seq_lib::to_multiset_len(a);
    vstd::seq_lib::to_multiset_len(b);
    if a.len() > 0 {
        let x = a.last();
        to_multiset_contains(a, x);
        to_multiset_contains(b, x);
        assert(a[a.len() - 1] == x);
        assert(a.contains(x));
        let k = choose|k: int| 0 <= k < b.len() && b[k] == x;
        to_multiset_remove(a, a.len() - 1);
        to_multiset_remove(b, k);
        assert(a.remove(a.len() - 1) == a.drop_last());
        lemma_total_size_ignores_order(a.drop_last(), b.remove(k));
        lemma_total_size_remove(b, k);
    }
}

/// The disk-usage total of a concurrent traversal equals the total of the
/// reference walk, in whatever order the directories are scanned.
pub proof fn lemma_total_is_schedule_independent(
    o: OptionsView,
    p: PredicateView,
    root_path: Seq<char>,
    root_absolute: Seq<char>,
    children: Seq<NodeView>,
    picks: Seq<nat>,
)
    requires
        drains(o, p, seq![Job { task: root_task(root_path, root_absolute), children }], picks),
    ensures
        total_size(run(o, p, seq![Job { task: root_task(root_path, root_absolute), children }], picks))
            == total_size(children_events(o, p, root_task(root_path, root_absolute), children)),
{
    lemma_order_of_scans_is_immaterial(o, p, root_path, root_absolute, children, picks);
    lemma_total_size_ignores_order(
        run(o, p, seq![Job { task: root_task(root_path, root_absolute), children }], picks),
        children_events(o, p, root_task(root_path, root_absolute), children),
    );
}

/// The matched path that one event carries, as a run of at most one path.
pub open spec fn path_of(e: EventView) -> Seq<Seq<char>> {
    match e {
        EventView::Found(crate::model::MatchView::PathMatch { path }) => seq![path],
        _ => Seq::empty(),
    }
}

/// The matched paths without one event are the matched paths less that
/// event's path, each counted as often as it occurs.
pub proof fn lemma_paths_of_remove(events: Seq<EventView>, k: int)
    requires
        0 <= k < events.len(),
    ensures
        paths_of(events).to_multiset() == paths_of(events.remove(k)).to_multiset().add(
            path_of(events[k]).to_multiset(),
        ),
    decreases events.len(),
{
    let last = events.last();
    let head = events.drop_last();
    assert(paths_of(events) == paths_of(head) + path_of(last)) by {
        assert(paths_of(head).push(last->Found_0->PathMatch_path) == paths_of(head) + seq![
            last->Found_0->PathMatch_path,
        ]);
        assert(paths_of(head) + Seq::<Seq<char>>::empty() == paths_of(head));
    }
    lemma_multiset_commutative(paths_of(head), path_of(last));
    if k == events.len() - 1 {
        assert(events.remove(k) == head);
    } else {
        let rest = events.remove(k);
        assert(rest.drop_last() == head.remove(k));
        assert(rest.last() == last);
        lemma_paths_of_remove(head, k);
        assert(paths_of(rest) == paths_of(head.remove(k)) + path_of(last)) by {
            assert(paths_of(head.remove(k)).push(last->Found_0->PathMatch_path) == paths_of(
                head.remove(k),
            ) + seq![last->Found_0->PathMatch_path]);
            assert(paths_of(head.remove(k)) + Seq::<Seq<char>>::empty() == paths_of(
                head.remove(k),
            ));
        }
        lemma_multiset_commutative(paths_of(head.remove(k)), path_of(last));
        assert(paths_of(events).to_multiset() =~= paths_of(rest).to_multiset().add(
            path_of(events[k]).to_multiset(),
        ));
    }
}

/// Two runs of events that hold the same events, each as often, name the
/// same matched paths, each as often.
pub proof fn lemma_paths_ignore_order(a: Seq<EventView>, b: Seq<EventView>)
    requires
        a.to_multiset() == b.to_multiset(),
    ensures
        paths_of(a).to_multiset() == paths_of(b).to_multiset(),
    decreases a.len(),
{
    vstd::seq_lib::to_multiset_len(a);
    vstd::seq_lib::to_multiset_len(b);
    if a.len() > 0 {
        let x = a.last();
        to_multiset_contains(a, x);
        to_multiset_contains(b, x);
        assert(a[a.len() - 1] == x);
        assert(a.contains(x));
        let k = choose|k: int| 0 <= k < b.len() && b[k] == x;
        to_multiset_remove(a, a.len() - 1);
        to_multiset_remove(b, k);
        assert(a.remove(a.len() - 1) == a.drop_last());
        lemma_paths_ignore_order(a.drop_last(), b.remove(k));
        lemma_paths_of_remove(b, k);
        lemma_paths_of_remove(a, a.len() - 1);
    } else {
        assert(b.len() == 0);
    }
}

/// The name finder returns the same paths, each as often, in whatever order
/// the directories are scanned.
pub proof fn lemma_found_paths_are_schedule_independent(
    o: OptionsView,
    p: PredicateView,
    root_path: Seq<char>,
    root_absolute: Seq<char>,
    children: Seq<NodeView>,
    picks: Seq<nat>,
)
    requires
        drains(o, p, seq![Job { task: root_task(root_path, root_absolute), children }], picks),
    ensures
        paths_of(
            run(o, p, seq![Job { task: root_task(root_path, root_absolute), children }], picks),
        ).to_multiset() == paths_of(
            children_events(o, p, root_task(root_path, root_absolute), children),
        ).to_multiset(),
{
    lemma_order_of_scans_is_immaterial(o, p, root_path, root_absolute, children, picks);
    lemma_paths_ignore_order(
        run(o, p, seq![Job { task: root_task(root_path, root_absolute), children }], picks),
        children_events(o, p, root_task(root_path, root_absolute), children),
    );
}

/// A directory scan that is still to be made, with the entries that its
/// listing will show.
pub struct PendingScan<'a> {
    /// The task.
    pub task: Task,
    /// The entries of its directory.
    pub children: &'a Vec<Node>,
}

impl<'a> View for PendingScan<'a> {
    type V = Job;

    open spec fn view(&self) -> Job {
        Job { task: self.task@, children: views(self.children@) }
    }
}

/// The picks as numbers.
pub open spec fn picks_view(picks: Seq<usize>) -> Seq<nat> {
    picks.map_values(|x: usize| x as nat)
}

/// Makes one scan: appends what it emits to `out` and the scans that it
/// starts to `pending`.
fn scan_one<'a>(
    options: &Options,
    predicate: &Predicate,
    task: &Task,
    children: &'a Vec<Node>,
    out: &mut Vec<Event>,
    pending: &mut Vec<PendingScan<'a>>,
)
    ensures
        views(final(out)@) == views(old(out)@) + job_local(
            options@,
            predicate@,
            task@,
            views(children@),
        ),
        views(final(pending)@) == views(old(pending)@) + job_spawned(
            options@,
            predicate@,
            task@,
            views(children@),
        ),
{
    let ghost out_start = views(out@);
    let ghost pending_start = views(pending@);
    let ghost all = views(children@);
    let mut i: usize = 0;
    proof {
        assert(out_start + Seq::<EventView>::empty() == out_start);
        assert(pending_start + Seq::<Job>::empty() == pending_start);
    }
    while i < children.len()
        invariant
            i <= children.len(),
            all == views(children@),
            views(out@) == out_start + job_local(options@, predicate@, task@, all.take(i as int)),
            views(pending@) == pending_start + job_spawned(
                options@,
                predicate@,
                task@,
                all.take(i as int),
            ),
        decreases children.len() - i,
    {
        let node = &children[i];
        let ghost out_before = views(out@);
        let ghost pending_before = views(pending@);
        let ghost local_head = job_local(options@, predicate@, task@, all.take(i as int));
        let ghost spawned_head = job_spawned(options@, predicate@, task@, all.take(i as int));
        proof {
            assert(all.take(i + 1).drop_last() == all.take(i as int));
            assert(all.take(i + 1).last() == node@);
        }
        let entry = node.entry();
        match scan_entry(options, predicate, task, &entry) {
            None => {},
            Some(Action::Report(e)) => {
                proof {
                    lemma_views_push(out@, Event::Failed(e));
                }
                out.push(Event::Failed(e));
            },
            Some(Action::Emit(r)) => {
                proof {
                    lemma_views_push(out@, Event::Found(r));
                }
                out.push(Event::Found(r));
            },
            Some(Action::Scan { path }) => {
                match (predicate, &node.body) {
                    (Predicate::ContentRegex { matcher }, Body::File { lines: Some(ls), .. }) => {
                        let results = scan_lines(matcher, path.as_str(), ls);
                        push_found(out, results);
                    },
                    _ => {
                        let e = EntryError { path, kind: ErrorKind::Content };
                        proof {
                            lemma_views_push(out@, Event::Failed(e));
                        }
                        out.push(Event::Failed(e));
                    },
                }
            },
            Some(Action::Spawn(child)) => {
                match &node.body {
                    Body::Dir { listable, children: below } => {
                        if *listable {
                            let scan = PendingScan { task: child, children: below };
                            proof {
                                lemma_nodes_view(below@);
                                assert(enters(options@, predicate@, task@, node@));
                                assert(scan@.task == child_task(task@, node@));
                                lemma_views_push(pending@, scan);
                            }
                            pending.push(scan);
                        } else {
                            let e = EntryError { path: child.path, kind: ErrorKind::Listing };
                            proof {
                                lemma_views_push(out@, Event::Failed(e));
                            }
                            out.push(Event::Failed(e));
                        }
                    },
                    _ => {
                        // Only a directory is entered.
                        assert(false);
                    },
                }
            },
        }
        proof {
            let local = local_events(options@, predicate@, task@, node@);
            assert(views(out@) == out_before + local) by {
                assert(out_before + Seq::<EventView>::empty() == out_before);
                assert forall|x: EventView| out_before.push(x) == out_before + seq![x] by {
                    assert(out_before.push(x) =~= out_before + seq![x]);
                }
            }
            assert(out_start + local_head + local == out_start + (local_head + local));
            let spawned = job_spawned(options@, predicate@, task@, all.take(i + 1));
            assert(views(pending@) == pending_start + spawned) by {
                if enters(options@, predicate@, task@, node@) {
                    assert((pending_start + spawned_head).push(spawned.last()) == pending_start
                        + spawned_head.push(spawned.last()));
                }
            }
        }
        i += 1;
    }
    assert(all.take(i as int) == all);
}

/// Walks the tree below `root` with its scans taken up as `picks` says, one
/// scan for each pick: a pick names the pending scan at its value modulo the
/// number of pending scans. Gives the events in the order of their arrival,
/// and whether no scan was left pending. A root that is no directory has no
/// scans to order: it is read or refused as by the reference walk.
pub fn walk_in_order<'a>(
    options: &Options,
    predicate: &Predicate,
    root_path: &str,
    root_absolute: &str,
    root: &'a Node,
    picks: &Vec<usize>,
) -> (r: Result<(Vec<Event>, bool), PathError>)
    ensures
        match root@.body {
            BodyView::Dir { listable: true, children } if root@.accessible => {
                let start = seq![Job { task: root_task(root_path@, root_absolute@), children }];
                &&& r is Ok
                &&& views(r->Ok_0.0@) == run(options@, predicate@, start, picks_view(picks@))
                &&& r->Ok_0.1 == drains(options@, predicate@, start, picks_view(picks@))
            },
            _ => match walk_outcome(options@, predicate@, root_path@, root_absolute@, root@) {
                Ok(events) => r is Ok && views(r->Ok_0.0@) == events && r->Ok_0.1,
                Err(e) => r == Err::<(Vec<Event>, bool), PathError>(e),
            },
        },
{
    let listed: Option<&'a Vec<Node>> = match &root.body {
        Body::Dir { listable, children } => if root.accessible && *listable {
            Some(children)
        } else {
            None
        },
        _ => None,
    };
    let children = match listed {
        Some(children) => children,
        None => {
            return match walk(options, predicate, root_path, root_absolute, root) {
                Ok(events) => Ok((events, true)),
                Err(e) => Err(e),
            };
        },
    };
    let mut out: Vec<Event> = Vec::new();
    let mut pending: Vec<PendingScan<'a>> = Vec::new();
    let first = PendingScan { task: Task::root(root_path, root_absolute), children };
    let ghost start = seq![first@];
    proof {
        lemma_nodes_view(children@);
    }
    let ghost all = picks_view(picks@);
    proof {
        lemma_views_push(pending@, first);
        assert(views(pending@) =~= Seq::<Job>::empty());
        assert(Seq::<Job>::empty().push(first@) == start);
        assert(views(out@) =~= Seq::<EventView>::empty());
    }
    pending.push(first);
    let mut j: usize = 0;
    proof {
        assert(all.skip(0) == all);
        assert(Seq::<EventView>::empty() + run(options@, predicate@, start, all) == run(
            options@,
            predicate@,
            start,
            all,
        ));
    }
    while j < picks.len()
        invariant
            j <= picks.len(),
            all == picks_view(picks@),
            views(out@) + run(options@, predicate@, views(pending@), all.skip(j as int)) == run(
                options@,
                predicate@,
                start,
                all,
            ),
            drains(options@, predicate@, views(pending@), all.skip(j as int)) == drains(
                options@,
                predicate@,
                start,
                all,
            ),
        decreases picks.len() - j,
    {
        let ghost before = views(pending@);
        let ghost out_before = views(out@);
        let ghost rest = all.skip(j as int);
        proof {
            assert(rest.len() > 0);
            assert(rest[0] == picks@[j as int] as nat);
            assert(rest.drop_first() == all.skip(j + 1));
        }
        if pending.len() > 0 {
            let k = picks[j] % pending.len();
            let scan = pending.remove(k);
            proof {
                assert(k as int == picked(before, rest[0]));
                assert(scan@ == before[k as int]);
                assert(views(pending@) =~= before.remove(k as int));
            }
            scan_one(options, predicate, &scan.task, scan.children, &mut out, &mut pending);
            proof {
                let local = job_local(options@, predicate@, scan@.task, scan@.children);
                let tail = run(options@, predicate@, views(pending@), all.skip(j + 1));
                assert(views(pending@) == after_step(options@, predicate@, before, rest[0]));
                assert(run(options@, predicate@, before, rest) == local + tail);
                assert(out_before + local + tail == out_before + (local + tail));
            }
        } else {
            proof {
                assert(run(options@, predicate@, before, rest) == Seq::<EventView>::empty());
                assert(run(options@, predicate@, before, all.skip(j + 1)) == Seq::<
                    EventView,
                >::empty());
            }
        }
        j += 1;
    }
    proof {
        assert(all.skip(j as int).len() == 0);
        assert(views(out@) + Seq::<EventView>::empty() == views(out@));
    }
    let drained = pending.len() == 0;
    Ok((out, drained))
}

} // verus!
