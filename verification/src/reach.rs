//! Where a traversal gets to. Every file of a tree has a place: the
//! directories that lead to it from the root, and the entry itself. The
//! policy says of each place whether it is reached, and a traversal yields
//! exactly what the predicate yields for the files at the places reached.

use crate::content::line_records;
use crate::model::{ActionView, EventView, MatchView, PredicateView, TaskView};
use crate::outcome::{bytes_of, paths_of, results_of, total_size};
use crate::path::join;
use crate::policy::{is_excluded, is_hidden_name, may_descend, OptionsView};
use crate::step::entry_action;
use crate::text::is_substring;
use crate::tree::{
    below_events, child_task, children_events, enters, entry_of, found, local_events,
    node_events, root_task, BodyView, NodeView,
};
use vstd::prelude::*;

verus! {

/// Where an entry lies in a tree: the directories that lead to it from the
/// root, one below the other, and the entry itself.
pub struct Place {
    pub dirs: Seq<NodeView>,
    pub node: NodeView,
}

/// The path of the directory at the end of `dirs`, below `base`.
pub open spec fn dir_path(base: Seq<char>, dirs: Seq<NodeView>) -> Seq<char>
    decreases dirs.len(),
{
    if dirs.len() == 0 {
        base
    } else {
        join(dir_path(base, dirs.drop_last()), dirs.last().name)
    }
}

/// The path of the entry at a place, below `base`.
pub open spec fn place_path(base: Seq<char>, pl: Place) -> Seq<char> {
    join(dir_path(base, pl.dirs), pl.node.name)
}

/// The places of all entries that are no directories, in and below the
/// entries `children` of the directory at the end of `dirs`: entry by entry,
/// each subdirectory's content in its place. No policy is looked at.
pub open spec fn places(dirs: Seq<NodeView>, children: Seq<NodeView>) -> Seq<Place>
    decreases children,
{
    if children.len() == 0 {
        Seq::empty()
    } else {
        places(dirs, children.drop_last()) + places_of(dirs, children.last())
    }
}

/// The places in and below one entry.
pub open spec fn places_of(dirs: Seq<NodeView>, n: NodeView) -> Seq<Place>
    decreases n,
{
    match n.body {
        BodyView::Dir { children, .. } => places(dirs.push(n), children),
        _ => seq![Place { dirs, node: n }],
    }
}

/// The task that scans the directory at the end of `dirs`.
pub open spec fn task_below(
    root_path: Seq<char>,
    root_absolute: Seq<char>,
    dirs: Seq<NodeView>,
) -> TaskView {
    TaskView {
        path: dir_path(root_path, dirs),
        absolute: dir_path(root_absolute, dirs),
        depth: dirs.len(),
    }
}

/// The entry `n` of the directory at `absolute_dir` is looked at: its
/// absolute path is not excluded, its metadata can be read, and it is not
/// skipped as read-only.
pub open spec fn entry_passes(o: OptionsView, absolute_dir: Seq<char>, n: NodeView) -> bool {
    &&& !is_excluded(o, join(absolute_dir, n.name))
    &&& n.accessible
    &&& !(o.skip_readonly && n.readonly)
}

/// The directory `dirs[i]` is entered from the one above it: it is looked
/// at, the policy descends into it `i` hops below the root, and it can be
/// listed.
pub open spec fn dir_entered(
    o: OptionsView,
    root_absolute: Seq<char>,
    dirs: Seq<NodeView>,
    i: int,
) -> bool {
    &&& entry_passes(o, dir_path(root_absolute, dirs.take(i)), dirs[i])
    &&& may_descend(o, dirs[i].name, i as nat)
    &&& dirs[i].body matches BodyView::Dir { listable, .. } && listable
}

/// Every directory of `dirs` is entered from the one above it.
pub open spec fn all_entered(o: OptionsView, root_absolute: Seq<char>, dirs: Seq<NodeView>) -> bool {
    forall|i: int| 0 <= i < dirs.len() ==> #[trigger] dir_entered(o, root_absolute, dirs, i)
}

/// The place is reached: every directory on the way is entered, and the
/// entry itself is looked at.
pub open spec fn reached(o: OptionsView, root_absolute: Seq<char>, pl: Place) -> bool {
    &&& all_entered(o, root_absolute, pl.dirs)
    &&& entry_passes(o, dir_path(root_absolute, pl.dirs), pl.node)
}

/// What the predicate yields for the entry `n` at `path`: the path where the
/// name holds the needle; the records of a regular file that can be read; the
/// length of a regular file.
pub open spec fn file_results(p: PredicateView, path: Seq<char>, n: NodeView) -> Seq<MatchView> {
    match p {
        PredicateView::NameSubstring { needle } => if is_substring(needle, n.name) {
            seq![MatchView::PathMatch { path }]
        } else {
            Seq::empty()
        },
        PredicateView::ContentRegex { pattern } => match n.body {
            BodyView::File { lines: Some(ls), .. } => line_records(path, pattern, ls),
            _ => Seq::empty(),
        },
        PredicateView::SizeAccumulate => match n.body {
            BodyView::File { len, .. } => seq![MatchView::SizeContribution { bytes: len }],
            _ => Seq::empty(),
        },
    }
}

/// What one place yields: the predicate's results where it is reached,
/// nothing where it is not.
pub open spec fn place_results(
    o: OptionsView,
    p: PredicateView,
    root_path: Seq<char>,
    root_absolute: Seq<char>,
    pl: Place,
) -> Seq<MatchView> {
    if reached(o, root_absolute, pl) {
        file_results(p, place_path(root_path, pl), pl.node)
    } else {
        Seq::empty()
    }
}

/// What the places yield, one after the other.
pub open spec fn reached_results(
    o: OptionsView,
    p: PredicateView,
    root_path: Seq<char>,
    root_absolute: Seq<char>,
    pls: Seq<Place>,
) -> Seq<MatchView>
    decreases pls.len(),
{
    if pls.len() == 0 {
        Seq::empty()
    } else {
        reached_results(o, p, root_path, root_absolute, pls.drop_last()) + place_results(
            o,
            p,
            root_path,
            root_absolute,
            pls.last(),
        )
    }
}

/// The paths of the places that are reached and whose name holds `needle`.
pub open spec fn reached_matches(
    o: OptionsView,
    needle: Seq<char>,
    root_path: Seq<char>,
    root_absolute: Seq<char>,
    pls: Seq<Place>,
) -> Seq<Seq<char>>
    decreases pls.len(),
{
    if pls.len() == 0 {
        Seq::empty()
    } else {
        let head = reached_matches(o, needle, root_path, root_absolute, pls.drop_last());
        if reached(o, root_absolute, pls.last()) && is_substring(needle, pls.last().node.name) {
            head.push(place_path(root_path, pls.last()))
        } else {
            head
        }
    }
}

/// The length of the entry where it is a regular file, else 0.
pub open spec fn file_len(n: NodeView) -> nat {
    match n.body {
        BodyView::File { len, .. } => len,
        _ => 0,
    }
}

/// The sum of the lengths of the regular files at the places reached.
pub open spec fn reached_bytes(o: OptionsView, root_absolute: Seq<char>, pls: Seq<Place>) -> nat
    decreases pls.len(),
{
    if pls.len() == 0 {
        0
    } else {
        reached_bytes(o, root_absolute, pls.drop_last()) + if reached(
            o,
            root_absolute,
            pls.last(),
        ) {
            file_len(pls.last().node)
        } else {
            0
        }
    }
}

/// No task is ever started for an excluded directory: a task is started only
/// for a directory whose absolute path is neither excluded nor below an
/// excluded path, and only where the policy descends.
pub proof fn lemma_no_task_for_excluded(o: OptionsView, p: PredicateView, t: TaskView, n: NodeView)
    ensures
        entry_action(o, p, t, entry_of(n)) matches Some(ActionView::Spawn(c)) ==> c == child_task(
            t,
            n,
        ) && !is_excluded(o, c.absolute) && may_descend(o, n.name, t.depth),
{
}

/// The results among two runs of events, one after the other.
pub proof fn lemma_results_of_add(a: Seq<EventView>, b: Seq<EventView>)
    ensures
        results_of(a + b) == results_of(a) + results_of(b),
    decreases b.len(),
{
    if b.len() == 0 {
        assert(a + b == a);
        assert(results_of(a) + results_of(b) == results_of(a));
    } else {
        assert((a + b).drop_last() == a + b.drop_last());
        assert((a + b).last() == b.last());
        lemma_results_of_add(a, b.drop_last());
        match b.last() {
            EventView::Found(r) => {
                assert(results_of(a) + results_of(b.drop_last()).push(r) == (results_of(a)
                    + results_of(b.drop_last())).push(r));
            },
            _ => {},
        }
    }
}

/// The results among a single event.
proof fn lemma_results_of_one(e: EventView)
    ensures
        results_of(seq![e]) == match e {
            EventView::Found(r) => seq![r],
            EventView::Failed(_) => Seq::<MatchView>::empty(),
        },
{
    let s = seq![e];
    assert(s.drop_last() == Seq::<EventView>::empty());
    assert(s.last() == e);
    assert(results_of(s.drop_last()) == Seq::<MatchView>::empty());
    match e {
        EventView::Found(r) => {
            assert(Seq::<MatchView>::empty().push(r) == seq![r]);
        },
        _ => {},
    }
}

/// The results among a run of results are that run.
proof fn lemma_results_of_found(rs: Seq<MatchView>)
    ensures
        results_of(found(rs)) == rs,
    decreases rs.len(),
{
    if rs.len() == 0 {
        assert(found(rs) =~= Seq::<EventView>::empty());
        assert(rs =~= Seq::<MatchView>::empty());
    } else {
        lemma_results_of_found(rs.drop_last());
        assert(found(rs).drop_last() =~= found(rs.drop_last()));
        assert(found(rs).last() == EventView::Found(rs.last()));
        assert(rs.drop_last().push(rs.last()) =~= rs);
    }
}

/// What two runs of places yield, one after the other.
proof fn lemma_reached_results_add(
    o: OptionsView,
    p: PredicateView,
    root_path: Seq<char>,
    root_absolute: Seq<char>,
    a: Seq<Place>,
    b: Seq<Place>,
)
    ensures
        reached_results(o, p, root_path, root_absolute, a + b) == reached_results(
            o,
            p,
            root_path,
            root_absolute,
            a,
        ) + reached_results(o, p, root_path, root_absolute, b),
    decreases b.len(),
{
    let ra = reached_results(o, p, root_path, root_absolute, a);
    if b.len() == 0 {
        assert(a + b == a);
        assert(ra + Seq::<MatchView>::empty() == ra);
    } else {
        assert((a + b).drop_last() == a + b.drop_last());
        assert((a + b).last() == b.last());
        lemma_reached_results_add(o, p, root_path, root_absolute, a, b.drop_last());
        let rb = reached_results(o, p, root_path, root_absolute, b.drop_last());
        let last = place_results(o, p, root_path, root_absolute, b.last());
        assert((ra + rb) + last == ra + (rb + last));
    }
}

/// What a single place yields.
proof fn lemma_reached_results_one(
    o: OptionsView,
    p: PredicateView,
    root_path: Seq<char>,
    root_absolute: Seq<char>,
    pl: Place,
)
    ensures
        reached_results(o, p, root_path, root_absolute, seq![pl]) == place_results(
            o,
            p,
            root_path,
            root_absolute,
            pl,
        ),
{
    let s = seq![pl];
    assert(s.drop_last() == Seq::<Place>::empty());
    assert(s.last() == pl);
    let last = place_results(o, p, root_path, root_absolute, pl);
    assert(reached_results(o, p, root_path, root_absolute, s.drop_last()) == Seq::<
        MatchView,
    >::empty());
    assert(Seq::<MatchView>::empty() + last == last);
}

/// Below a directory that is not entered nothing is reached, however deep.
proof fn lemma_nothing_below_unentered(
    o: OptionsView,
    p: PredicateView,
    root_path: Seq<char>,
    root_absolute: Seq<char>,
    dirs: Seq<NodeView>,
    k: int,
    children: Seq<NodeView>,
)
    requires
        0 <= k < dirs.len(),
        !dir_entered(o, root_absolute, dirs, k),
    ensures
        reached_results(o, p, root_path, root_absolute, places(dirs, children)) == Seq::<
            MatchView,
        >::empty(),
    decreases children,
{
    if children.len() > 0 {
        lemma_nothing_below_unentered(
            o,
            p,
            root_path,
            root_absolute,
            dirs,
            k,
            children.drop_last(),
        );
        lemma_nothing_in_unentered(o, p, root_path, root_absolute, dirs, k, children.last());
        lemma_reached_results_add(
            o,
            p,
            root_path,
            root_absolute,
            places(dirs, children.drop_last()),
            places_of(dirs, children.last()),
        );
        assert(Seq::<MatchView>::empty() + Seq::<MatchView>::empty() == Seq::<MatchView>::empty());
    }
}

/// In and below an entry of a directory that is not entered nothing is
/// reached.
proof fn lemma_nothing_in_unentered(
    o: OptionsView,
    p: PredicateView,
    root_path: Seq<char>,
    root_absolute: Seq<char>,
    dirs: Seq<NodeView>,
    k: int,
    n: NodeView,
)
    requires
        0 <= k < dirs.len(),
        !dir_entered(o, root_absolute, dirs, k),
    ensures
        reached_results(o, p, root_path, root_absolute, places_of(dirs, n)) == Seq::<
            MatchView,
        >::empty(),
    decreases n,
{
    match n.body {
        BodyView::Dir { children, .. } => {
            let longer = dirs.push(n);
            assert(longer.take(k) == dirs.take(k));
            assert(longer[k] == dirs[k]);
            lemma_nothing_below_unentered(o, p, root_path, root_absolute, longer, k, children);
        },
        _ => {
            let pl = Place { dirs, node: n };
            assert(!reached(o, root_absolute, pl));
            lemma_reached_results_one(o, p, root_path, root_absolute, pl);
        },
    }
}

/// The directories down to an entered directory are all entered.
proof fn lemma_longer_entered(o: OptionsView, root_absolute: Seq<char>, dirs: Seq<NodeView>, n: NodeView)
    requires
        all_entered(o, root_absolute, dirs),
        entry_passes(o, dir_path(root_absolute, dirs), n),
        may_descend(o, n.name, dirs.len()),
        n.body matches BodyView::Dir { listable, .. } && listable,
    ensures
        all_entered(o, root_absolute, dirs.push(n)),
{
    let longer = dirs.push(n);
    assert forall|i: int| 0 <= i < longer.len() implies #[trigger] dir_entered(
        o,
        root_absolute,
        longer,
        i,
    ) by {
        if i < dirs.len() {
            assert(longer.take(i) == dirs.take(i));
            assert(longer[i] == dirs[i]);
            assert(dir_entered(o, root_absolute, dirs, i));
        } else {
            assert(longer.take(i) == dirs);
        }
    }
}

/// The results that an entry of an entered directory brings forth are what
/// the places in and below it yield.
proof fn lemma_node_results(
    o: OptionsView,
    p: PredicateView,
    root_path: Seq<char>,
    root_absolute: Seq<char>,
    dirs: Seq<NodeView>,
    n: NodeView,
)
    requires
        all_entered(o, root_absolute, dirs),
    ensures
        results_of(node_events(o, p, task_below(root_path, root_absolute, dirs), n))
            == reached_results(o, p, root_path, root_absolute, places_of(dirs, n)),
    decreases n,
{
    let t = task_below(root_path, root_absolute, dirs);
    let local = local_events(o, p, t, n);
    let below = below_events(o, p, t, n);
    let none = Seq::<MatchView>::empty();
    let nothing = Seq::<EventView>::empty();
    lemma_results_of_add(local, below);
    assert(results_of(nothing) == none);
    match n.body {
        BodyView::Dir { listable, children } => {
            let longer = dirs.push(n);
            if local.len() > 0 {
                assert(local == seq![local[0]]);
                lemma_results_of_one(local[0]);
            }
            assert(results_of(local) == none);
            assert(longer.drop_last() == dirs);
            if enters(o, p, t, n) {
                lemma_longer_entered(o, root_absolute, dirs, n);
                assert(child_task(t, n) == task_below(root_path, root_absolute, longer));
                lemma_children_results(o, p, root_path, root_absolute, longer, children);
            } else {
                assert(longer.take(dirs.len() as int) == dirs);
                assert(!dir_entered(o, root_absolute, longer, dirs.len() as int));
                lemma_nothing_below_unentered(
                    o,
                    p,
                    root_path,
                    root_absolute,
                    longer,
                    dirs.len() as int,
                    children,
                );
            }
            assert(none + results_of(below) == results_of(below));
        },
        _ => {
            let pl = Place { dirs, node: n };
            lemma_reached_results_one(o, p, root_path, root_absolute, pl);
            assert(below == nothing);
            assert(results_of(local) + none == results_of(local));
            match entry_action(o, p, t, entry_of(n)) {
                None => {},
                Some(ActionView::Report(e)) => {
                    lemma_results_of_one(EventView::Failed(e));
                },
                Some(ActionView::Emit(r)) => {
                    lemma_results_of_one(EventView::Found(r));
                },
                Some(ActionView::Scan { path }) => {
                    match (p, n.body) {
                        (
                            PredicateView::ContentRegex { pattern },
                            BodyView::File { lines: Some(ls), .. },
                        ) => {
                            lemma_results_of_found(line_records(path, pattern, ls));
                        },
                        _ => {
                            lemma_results_of_one(local[0]);
                            assert(local == seq![local[0]]);
                        },
                    }
                },
                Some(ActionView::Spawn(_)) => {},
            }
        },
    }
}

/// The results of the scan of an entered directory, and of everything below
/// it, are what the places in and below it yield.
proof fn lemma_children_results(
    o: OptionsView,
    p: PredicateView,
    root_path: Seq<char>,
    root_absolute: Seq<char>,
    dirs: Seq<NodeView>,
    children: Seq<NodeView>,
)
    requires
        all_entered(o, root_absolute, dirs),
    ensures
        results_of(children_events(o, p, task_below(root_path, root_absolute, dirs), children))
            == reached_results(o, p, root_path, root_absolute, places(dirs, children)),
    decreases children,
{
    let t = task_below(root_path, root_absolute, dirs);
    if children.len() > 0 {
        lemma_children_results(o, p, root_path, root_absolute, dirs, children.drop_last());
        lemma_node_results(o, p, root_path, root_absolute, dirs, children.last());
        lemma_results_of_add(
            children_events(o, p, t, children.drop_last()),
            node_events(o, p, t, children.last()),
        );
        lemma_reached_results_add(
            o,
            p,
            root_path,
            root_absolute,
            places(dirs, children.drop_last()),
            places_of(dirs, children.last()),
        );
    }
}

/// A traversal yields exactly what the predicate yields for the files at the
/// places that the policy reaches, place by place: nothing of a reached file
/// is lost, and nothing comes from a file that is excluded, that cannot be
/// looked at, or that lies below a directory that is not entered.
pub proof fn lemma_results_are_those_reached(
    o: OptionsView,
    p: PredicateView,
    root_path: Seq<char>,
    root_absolute: Seq<char>,
    children: Seq<NodeView>,
)
    ensures
        results_of(children_events(o, p, root_task(root_path, root_absolute), children))
            == reached_results(
            o,
            p,
            root_path,
            root_absolute,
            places(Seq::empty(), children),
        ),
{
    let dirs = Seq::<NodeView>::empty();
    assert(task_below(root_path, root_absolute, dirs) == root_task(root_path, root_absolute));
    lemma_children_results(o, p, root_path, root_absolute, dirs, children);
}

/// A result among what a run of places yields comes from one of them.
proof fn lemma_result_among_places(
    o: OptionsView,
    p: PredicateView,
    root_path: Seq<char>,
    root_absolute: Seq<char>,
    pls: Seq<Place>,
    r: MatchView,
) -> (i: int)
    requires
        reached_results(o, p, root_path, root_absolute, pls).contains(r),
    ensures
        0 <= i < pls.len(),
        reached(o, root_absolute, pls[i]),
        file_results(p, place_path(root_path, pls[i]), pls[i].node).contains(r),
    decreases pls.len(),
{
    let all = reached_results(o, p, root_path, root_absolute, pls);
    let k = choose|k: int| 0 <= k < all.len() && all[k] == r;
    assert(pls.len() > 0);
    let head = reached_results(o, p, root_path, root_absolute, pls.drop_last());
    let last = place_results(o, p, root_path, root_absolute, pls.last());
    if k < head.len() {
        assert(head[k] == r);
        let i = lemma_result_among_places(o, p, root_path, root_absolute, pls.drop_last(), r);
        assert(pls.drop_last()[i] == pls[i]);
        i
    } else {
        assert(last[k - head.len()] == r);
        pls.len() - 1
    }
}

/// Whatever the predicate, every result of a traversal comes from a file of
/// the tree that the policy reaches: a path match, a record of a content
/// search or a size contribution is among what the predicate yields for that
/// file, and nothing comes from a file in or below a directory that is
/// excluded or not entered.
pub proof fn lemma_every_result_comes_from_a_reached_file(
    o: OptionsView,
    p: PredicateView,
    root_path: Seq<char>,
    root_absolute: Seq<char>,
    children: Seq<NodeView>,
    r: MatchView,
) -> (pl: Place)
    requires
        results_of(children_events(o, p, root_task(root_path, root_absolute), children)).contains(
            r,
        ),
    ensures
        places(Seq::empty(), children).contains(pl),
        reached(o, root_absolute, pl),
        file_results(p, place_path(root_path, pl), pl.node).contains(r),
{
    lemma_results_are_those_reached(o, p, root_path, root_absolute, children);
    let pls = places(Seq::empty(), children);
    let i = lemma_result_among_places(o, p, root_path, root_absolute, pls, r);
    pls[i]
}

/// The paths of the files whose name matched, among a run of results.
pub open spec fn paths_in(results: Seq<MatchView>) -> Seq<Seq<char>>
    decreases results.len(),
{
    if results.len() == 0 {
        Seq::empty()
    } else {
        match results.last() {
            MatchView::PathMatch { path } => paths_in(results.drop_last()).push(path),
            _ => paths_in(results.drop_last()),
        }
    }
}

/// The sum of the size contributions among a run of results.
pub open spec fn bytes_in(results: Seq<MatchView>) -> nat
    decreases results.len(),
{
    if results.len() == 0 {
        0
    } else {
        bytes_in(results.drop_last()) + bytes_of(EventView::Found(results.last()))
    }
}

/// The matched paths and the total of a run of events are those of its
/// results.
proof fn lemma_read_off_results(events: Seq<EventView>)
    ensures
        paths_of(events) == paths_in(results_of(events)),
        total_size(events) == bytes_in(results_of(events)),
    decreases events.len(),
{
    if events.len() > 0 {
        lemma_read_off_results(events.drop_last());
        match events.last() {
            EventView::Found(r) => {
                let rs = results_of(events.drop_last()).push(r);
                assert(rs.drop_last() == results_of(events.drop_last()));
                assert(rs.last() == r);
            },
            _ => {},
        }
    }
}

/// The matched paths and the total of two runs of results, one after the
/// other.
proof fn lemma_read_off_add(a: Seq<MatchView>, b: Seq<MatchView>)
    ensures
        paths_in(a + b) == paths_in(a) + paths_in(b),
        bytes_in(a + b) == bytes_in(a) + bytes_in(b),
    decreases b.len(),
{
    if b.len() == 0 {
        assert(a + b == a);
        assert(paths_in(a) + paths_in(b) == paths_in(a));
    } else {
        assert((a + b).drop_last() == a + b.drop_last());
        assert((a + b).last() == b.last());
        lemma_read_off_add(a, b.drop_last());
        match b.last() {
            MatchView::PathMatch { path } => {
                assert(paths_in(a) + paths_in(b.drop_last()).push(path) == (paths_in(a)
                    + paths_in(b.drop_last())).push(path));
            },
            _ => {},
        }
    }
}

/// The matched paths and the total of a single result.
proof fn lemma_read_off_one(r: MatchView)
    ensures
        paths_in(seq![r]) == match r {
            MatchView::PathMatch { path } => seq![path],
            _ => Seq::<Seq<char>>::empty(),
        },
        bytes_in(seq![r]) == bytes_of(EventView::Found(r)),
{
    let s = seq![r];
    assert(s.drop_last() == Seq::<MatchView>::empty());
    assert(s.last() == r);
    assert(paths_in(s.drop_last()) == Seq::<Seq<char>>::empty());
    assert(bytes_in(s.drop_last()) == 0);
    match r {
        MatchView::PathMatch { path } => {
            assert(Seq::<Seq<char>>::empty().push(path) == seq![path]);
        },
        _ => {},
    }
}

/// What a name search yields for a run of places are the paths of those that
/// are reached and match.
proof fn lemma_matches_of_places(
    o: OptionsView,
    needle: Seq<char>,
    root_path: Seq<char>,
    root_absolute: Seq<char>,
    pls: Seq<Place>,
)
    ensures
        paths_in(
            reached_results(
                o,
                PredicateView::NameSubstring { needle },
                root_path,
                root_absolute,
                pls,
            ),
        ) == reached_matches(o, needle, root_path, root_absolute, pls),
    decreases pls.len(),
{
    let p = PredicateView::NameSubstring { needle };
    if pls.len() > 0 {
        lemma_matches_of_places(o, needle, root_path, root_absolute, pls.drop_last());
        let head = reached_results(o, p, root_path, root_absolute, pls.drop_last());
        let last = place_results(o, p, root_path, root_absolute, pls.last());
        lemma_read_off_add(head, last);
        if last.len() > 0 {
            assert(last == seq![last[0]]);
            lemma_read_off_one(last[0]);
            assert(paths_in(head) + seq![place_path(root_path, pls.last())] == paths_in(head).push(
                place_path(root_path, pls.last()),
            ));
        } else {
            assert(last == Seq::<MatchView>::empty());
            assert(paths_in(head) + Seq::<Seq<char>>::empty() == paths_in(head));
        }
    }
}

/// What a size total yields for a run of places is the sum of the lengths of
/// the regular files reached.
proof fn lemma_bytes_of_places(
    o: OptionsView,
    root_path: Seq<char>,
    root_absolute: Seq<char>,
    pls: Seq<Place>,
)
    ensures
        bytes_in(
            reached_results(o, PredicateView::SizeAccumulate, root_path, root_absolute, pls),
        ) == reached_bytes(o, root_absolute, pls),
    decreases pls.len(),
{
    let p = PredicateView::SizeAccumulate;
    if pls.len() > 0 {
        lemma_bytes_of_places(o, root_path, root_absolute, pls.drop_last());
        let head = reached_results(o, p, root_path, root_absolute, pls.drop_last());
        let last = place_results(o, p, root_path, root_absolute, pls.last());
        lemma_read_off_add(head, last);
        if last.len() > 0 {
            assert(last == seq![last[0]]);
            lemma_read_off_one(last[0]);
        } else {
            assert(last == Seq::<MatchView>::empty());
        }
    }
}

/// The name search returns exactly the paths of the files that the policy
/// reaches and whose final path component holds the substring, in the order
/// of their places: every such file is found, and nothing else is.
pub proof fn lemma_name_search_exact(
    o: OptionsView,
    needle: Seq<char>,
    root_path: Seq<char>,
    root_absolute: Seq<char>,
    children: Seq<NodeView>,
)
    ensures
        paths_of(
            children_events(
                o,
                PredicateView::NameSubstring { needle },
                root_task(root_path, root_absolute),
                children,
            ),
        ) == reached_matches(o, needle, root_path, root_absolute, places(Seq::empty(), children)),
{
    let p = PredicateView::NameSubstring { needle };
    lemma_results_are_those_reached(o, p, root_path, root_absolute, children);
    lemma_read_off_results(children_events(o, p, root_task(root_path, root_absolute), children));
    lemma_matches_of_places(o, needle, root_path, root_absolute, places(Seq::empty(), children));
}

/// The disk-usage total is the sum of the lengths of the regular files that
/// the policy reaches: a file below an excluded directory, or below one that
/// is not entered, contributes nothing, and every file reached contributes
/// its length once.
pub proof fn lemma_usage_is_sum_of_reached(
    o: OptionsView,
    root_path: Seq<char>,
    root_absolute: Seq<char>,
    children: Seq<NodeView>,
)
    ensures
        total_size(
            children_events(
                o,
                PredicateView::SizeAccumulate,
                root_task(root_path, root_absolute),
                children,
            ),
        ) == reached_bytes(o, root_absolute, places(Seq::empty(), children)),
{
    let p = PredicateView::SizeAccumulate;
    lemma_results_are_those_reached(o, p, root_path, root_absolute, children);
    lemma_read_off_results(children_events(o, p, root_task(root_path, root_absolute), children));
    lemma_bytes_of_places(o, root_path, root_absolute, places(Seq::empty(), children));
}

/// The paths of the places whose name holds `needle`, whatever the policy.
pub open spec fn matching_paths(needle: Seq<char>, root_path: Seq<char>, pls: Seq<Place>) -> Seq<
    Seq<char>,
>
    decreases pls.len(),
{
    if pls.len() == 0 {
        Seq::empty()
    } else {
        let head = matching_paths(needle, root_path, pls.drop_last());
        if is_substring(needle, pls.last().node.name) {
            head.push(place_path(root_path, pls.last()))
        } else {
            head
        }
    }
}

/// Where every place is reached, those that are reached and match are those
/// that match.
proof fn lemma_all_reached(
    o: OptionsView,
    needle: Seq<char>,
    root_path: Seq<char>,
    root_absolute: Seq<char>,
    pls: Seq<Place>,
)
    requires
        forall|i: int| 0 <= i < pls.len() ==> reached(o, root_absolute, #[trigger] pls[i]),
    ensures
        reached_matches(o, needle, root_path, root_absolute, pls) == matching_paths(
            needle,
            root_path,
            pls,
        ),
    decreases pls.len(),
{
    if pls.len() > 0 {
        let head = pls.drop_last();
        assert forall|i: int| 0 <= i < head.len() implies reached(
            o,
            root_absolute,
            #[trigger] head[i],
        ) by {
            assert(head[i] == pls[i]);
        }
        lemma_all_reached(o, needle, root_path, root_absolute, head);
        assert(reached(o, root_absolute, pls[pls.len() - 1]));
    }
}

/// Where the policy reaches every file of the tree, the name search returns
/// exactly the paths of the files in the tree whose final path component
/// holds the substring.
pub proof fn lemma_name_search_complete(
    o: OptionsView,
    needle: Seq<char>,
    root_path: Seq<char>,
    root_absolute: Seq<char>,
    children: Seq<NodeView>,
)
    requires
        forall|i: int|
            0 <= i < places(Seq::empty(), children).len() ==> reached(
                o,
                root_absolute,
                #[trigger] places(Seq::empty(), children)[i],
            ),
    ensures
        paths_of(
            children_events(
                o,
                PredicateView::NameSubstring { needle },
                root_task(root_path, root_absolute),
                children,
            ),
        ) == matching_paths(needle, root_path, places(Seq::empty(), children)),
{
    lemma_name_search_exact(o, needle, root_path, root_absolute, children);
    lemma_all_reached(o, needle, root_path, root_absolute, places(Seq::empty(), children));
}

/// A path among those reached and matching is the path of a place that is
/// reached and matches.
proof fn lemma_match_has_a_place(
    o: OptionsView,
    needle: Seq<char>,
    root_path: Seq<char>,
    root_absolute: Seq<char>,
    pls: Seq<Place>,
    path: Seq<char>,
) -> (i: int)
    requires
        reached_matches(o, needle, root_path, root_absolute, pls).contains(path),
    ensures
        0 <= i < pls.len(),
        reached(o, root_absolute, pls[i]),
        is_substring(needle, pls[i].node.name),
        place_path(root_path, pls[i]) == path,
    decreases pls.len(),
{
    let all = reached_matches(o, needle, root_path, root_absolute, pls);
    let k = choose|k: int| 0 <= k < all.len() && all[k] == path;
    assert(pls.len() > 0);
    let head = reached_matches(o, needle, root_path, root_absolute, pls.drop_last());
    if k < head.len() {
        assert(head[k] == path);
        let i = lemma_match_has_a_place(
            o,
            needle,
            root_path,
            root_absolute,
            pls.drop_last(),
            path,
        );
        assert(pls.drop_last()[i] == pls[i]);
        i
    } else {
        pls.len() - 1
    }
}

/// The file that a name search found lies at a place of the tree that the
/// policy reaches, and its name holds the substring.
pub proof fn lemma_found_file_is_reached(
    o: OptionsView,
    needle: Seq<char>,
    root_path: Seq<char>,
    root_absolute: Seq<char>,
    children: Seq<NodeView>,
    path: Seq<char>,
) -> (pl: Place)
    requires
        paths_of(
            children_events(
                o,
                PredicateView::NameSubstring { needle },
                root_task(root_path, root_absolute),
                children,
            ),
        ).contains(path),
    ensures
        places(Seq::empty(), children).contains(pl),
        place_path(root_path, pl) == path,
        reached(o, root_absolute, pl),
        is_substring(needle, pl.node.name),
{
    lemma_name_search_exact(o, needle, root_path, root_absolute, children);
    let pls = places(Seq::empty(), children);
    let i = lemma_match_has_a_place(o, needle, root_path, root_absolute, pls, path);
    pls[i]
}

/// With a depth limit of `max`, no returned path lies more than `max`
/// directory hops below the root: it is the path of a file of the tree with
/// at most `max` directories between the root and the file.
pub proof fn lemma_depth_limit_holds(
    o: OptionsView,
    needle: Seq<char>,
    root_path: Seq<char>,
    root_absolute: Seq<char>,
    children: Seq<NodeView>,
    max: nat,
    path: Seq<char>,
) -> (pl: Place)
    requires
        o.max_depth == Some(max),
        paths_of(
            children_events(
                o,
                PredicateView::NameSubstring { needle },
                root_task(root_path, root_absolute),
                children,
            ),
        ).contains(path),
    ensures
        places(Seq::empty(), children).contains(pl),
        place_path(root_path, pl) == path,
        pl.dirs.len() <= max,
{
    let pl = lemma_found_file_is_reached(o, needle, root_path, root_absolute, children, path);
    if pl.dirs.len() > 0 {
        assert(dir_entered(o, root_absolute, pl.dirs, pl.dirs.len() - 1));
    }
    pl
}

/// With hidden directories not allowed, no returned path passes through a
/// directory below the root whose name begins with the hidden marker: it is
/// the path of a file of the tree with no such directory between the root
/// and the file.
pub proof fn lemma_hidden_directories_are_skipped(
    o: OptionsView,
    needle: Seq<char>,
    root_path: Seq<char>,
    root_absolute: Seq<char>,
    children: Seq<NodeView>,
    path: Seq<char>,
) -> (pl: Place)
    requires
        !o.hidden_folders,
        paths_of(
            children_events(
                o,
                PredicateView::NameSubstring { needle },
                root_task(root_path, root_absolute),
                children,
            ),
        ).contains(path),
    ensures
        places(Seq::empty(), children).contains(pl),
        place_path(root_path, pl) == path,
        forall|i: int| 0 <= i < pl.dirs.len() ==> !is_hidden_name(#[trigger] pl.dirs[i].name),
{
    let pl = lemma_found_file_is_reached(o, needle, root_path, root_absolute, children, path);
    assert forall|i: int| 0 <= i < pl.dirs.len() implies !is_hidden_name(
        #[trigger] pl.dirs[i].name,
    ) by {
        assert(dir_entered(o, root_absolute, pl.dirs, i));
    }
    pl
}

/// Nothing that is reached lies in or below an excluded directory: neither
/// the entry's absolute path nor that of any directory on the way to it,
/// however deep, is an excluded path or lies below one.
pub proof fn lemma_reached_is_not_excluded(o: OptionsView, root_absolute: Seq<char>, pl: Place)
    requires
        reached(o, root_absolute, pl),
    ensures
        !is_excluded(o, place_path(root_absolute, pl)),
        forall|i: int|
            0 <= i < pl.dirs.len() ==> !is_excluded(
                o,
                #[trigger] dir_path(root_absolute, pl.dirs.take(i + 1)),
            ),
{
    assert forall|i: int| 0 <= i < pl.dirs.len() implies !is_excluded(
        o,
        #[trigger] dir_path(root_absolute, pl.dirs.take(i + 1)),
    ) by {
        assert(dir_entered(o, root_absolute, pl.dirs, i));
        let upto = pl.dirs.take(i + 1);
        assert(upto.drop_last() == pl.dirs.take(i));
        assert(upto.last() == pl.dirs[i]);
    }
}

/// No returned path lies in or below an excluded directory, however deep the
/// excluded directory is nested: it is the path of a file of the tree whose
/// absolute path, and that of every directory between the root and the file,
/// is outside every excluded path.
pub proof fn lemma_excluded_directories_are_never_entered(
    o: OptionsView,
    needle: Seq<char>,
    root_path: Seq<char>,
    root_absolute: Seq<char>,
    children: Seq<NodeView>,
    path: Seq<char>,
) -> (pl: Place)
    requires
        paths_of(
            children_events(
                o,
                PredicateView::NameSubstring { needle },
                root_task(root_path, root_absolute),
                children,
            ),
        ).contains(path),
    ensures
        places(Seq::empty(), children).contains(pl),
        place_path(root_path, pl) == path,
        !is_excluded(o, place_path(root_absolute, pl)),
        forall|i: int|
            0 <= i < pl.dirs.len() ==> !is_excluded(
                o,
                #[trigger] dir_path(root_absolute, pl.dirs.take(i + 1)),
            ),
{
    let pl = lemma_found_file_is_reached(o, needle, root_path, root_absolute, children, path);
    lemma_reached_is_not_excluded(o, root_absolute, pl);
    pl
}

} // verus!
