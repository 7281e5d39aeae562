//! A directory tree held in memory, and the reference walk over it: one
//! directory after the other, each entry in the order of its listing.

use crate::content::{line_records, scan_lines};
use crate::model::{
    lemma_views_push, texts, views, Action, ActionView, Entry, EntryError,
    EntryKind, EntryView, ErrorKind, ErrorView, Event, EventView, MatchResult, MatchView,
    Predicate, PredicateView, Task, TaskView,
};
use crate::path::join;
use crate::policy::{Options, OptionsView};
use crate::step::{entry_action, scan_entry};
use crate::text::owned;
use vstd::prelude::*;

verus! {

/// What a node of the tree is.
#[derive(Debug, PartialEq, Eq)]
pub enum Body {
    /// A regular file of `len` bytes; `lines` holds its content line by line,
    /// or is `None` where the content cannot be read.
    File { len: u64, lines: Option<Vec<String>> },
    /// A directory with its entries in listing order; `listable` says whether
    /// it can be listed.
    Dir { listable: bool, children: Vec<Node> },
    /// Anything else.
    Other,
}

/// One entry of the tree.
#[derive(Debug, PartialEq, Eq)]
pub struct Node {
    /// The final path component.
    pub name: String,
    /// Whether the entry's metadata can be read.
    pub accessible: bool,
    /// Whether the entry is marked read-only.
    pub readonly: bool,
    /// What the entry is.
    pub body: Body,
}

/// Why a traversal could not start.
#[derive(Clone, Copy, Debug, PartialEq, Eq)]
pub enum PathError {
    /// The root does not exist, or its metadata cannot be read.
    Missing,
    /// The root is neither a directory nor, for a content search, a file.
    NotADirectory,
    /// The root directory cannot be listed.
    Unlistable,
    /// The root file cannot be read.
    Unreadable,
}

/// The view of a `Node`: a tree of names, flags and contents.
pub struct NodeView {
    pub name: Seq<char>,
    pub accessible: bool,
    pub readonly: bool,
    pub body: BodyView,
}

/// The view of a `Body`.
pub enum BodyView {
    File { len: nat, lines: Option<Seq<Seq<char>>> },
    Dir { listable: bool, children: Seq<NodeView> },
    Other,
}

/// The view of a node.
pub open spec fn node_view(n: Node) -> NodeView
    decreases n,
{
    NodeView {
        name: n.name@,
        accessible: n.accessible,
        readonly: n.readonly,
        body: match n.body {
            Body::File { len, lines } => BodyView::File {
                len: len as nat,
                lines: match lines {
                    Some(ls) => Some(texts(ls@)),
                    None => None,
                },
            },
            Body::Dir { listable, children } => BodyView::Dir {
                listable,
                children: nodes_view(children@),
            },
            Body::Other => BodyView::Other,
        },
    }
}

/// The views of a run of nodes.
pub open spec fn nodes_view(nodes: Seq<Node>) -> Seq<NodeView>
    decreases nodes,
{
    if nodes.len() == 0 {
        Seq::empty()
    } else {
        nodes_view(nodes.drop_last()).push(node_view(nodes.last()))
    }
}

impl View for Node {
    type V = NodeView;

    open spec fn view(&self) -> NodeView {
        node_view(*self)
    }
}

/// The views of a run of nodes are the views of its nodes, one by one.
pub proof fn lemma_nodes_view(nodes: Seq<Node>)
    ensures
        nodes_view(nodes) == views(nodes),
    decreases nodes.len(),
{
    if nodes.len() == 0 {
        assert(nodes_view(nodes) =~= views(nodes));
    } else {
        lemma_nodes_view(nodes.drop_last());
        assert(nodes_view(nodes) =~= views(nodes));
    }
}

/// The directory entry that a listing shows for a node.
pub open spec fn entry_of(n: NodeView) -> EntryView {
    EntryView {
        name: n.name,
        kind: match n.body {
            BodyView::File { .. } => EntryKind::File,
            BodyView::Dir { .. } => EntryKind::Dir,
            BodyView::Other => EntryKind::Other,
        },
        accessible: n.accessible,
        readonly: n.readonly,
        len: match n.body {
            BodyView::File { len, .. } => len,
            _ => 0,
        },
    }
}

/// A run of results as events.
pub open spec fn found(rs: Seq<MatchView>) -> Seq<EventView> {
    rs.map_values(|r: MatchView| EventView::Found(r))
}

/// The task that scans the subdirectory `n` of the directory of `t`.
pub open spec fn child_task(t: TaskView, n: NodeView) -> TaskView {
    TaskView { path: join(t.path, n.name), absolute: join(t.absolute, n.name), depth: t.depth + 1 }
}

/// Whether the task `t` starts a task for its entry `n` that can go to work:
/// the entry is a directory that the policy enters and that can be listed.
pub open spec fn enters(o: OptionsView, p: PredicateView, t: TaskView, n: NodeView) -> bool {
    &&& entry_action(o, p, t, entry_of(n)) is Some
    &&& entry_action(o, p, t, entry_of(n))->Some_0 is Spawn
    &&& n.body matches BodyView::Dir { listable, .. } && listable
}

/// What the task `t` itself emits for its entry `n`: a result, the records of
/// a searched file, or a failure; nothing for a directory that it enters.
pub open spec fn local_events(o: OptionsView, p: PredicateView, t: TaskView, n: NodeView) -> Seq<
    EventView,
> {
    match entry_action(o, p, t, entry_of(n)) {
        None => Seq::empty(),
        Some(ActionView::Report(e)) => seq![EventView::Failed(e)],
        Some(ActionView::Emit(r)) => seq![EventView::Found(r)],
        Some(ActionView::Scan { path }) => match (p, n.body) {
            (PredicateView::ContentRegex { pattern }, BodyView::File { lines: Some(ls), .. }) => found(
                line_records(path, pattern, ls),
            ),
            _ => seq![EventView::Failed(ErrorView { path, kind: ErrorKind::Content })],
        },
        Some(ActionView::Spawn(child)) => if enters(o, p, t, n) {
            Seq::empty()
        } else {
            seq![EventView::Failed(ErrorView { path: child.path, kind: ErrorKind::Listing })]
        },
    }
}

/// The events of the subtree below the entry `n`, where the task enters it.
pub open spec fn below_events(o: OptionsView, p: PredicateView, t: TaskView, n: NodeView) -> Seq<
    EventView,
>
    decreases n, 0nat,
{
    match n.body {
        BodyView::Dir { listable, children } => if enters(o, p, t, n) {
            children_events(o, p, child_task(t, n), children)
        } else {
            Seq::empty()
        },
        _ => Seq::empty(),
    }
}

/// Everything that the entry `n` of the directory of `t` brings forth: what
/// the task emits for it, then the events of the subtree below it.
pub open spec fn node_events(o: OptionsView, p: PredicateView, t: TaskView, n: NodeView) -> Seq<
    EventView,
>
    decreases n, 1nat,
{
    local_events(o, p, t, n) + below_events(o, p, t, n)
}

/// The events of a directory whose entries are `children`, entry by entry.
pub open spec fn children_events(
    o: OptionsView,
    p: PredicateView,
    t: TaskView,
    children: Seq<NodeView>,
) -> Seq<EventView>
    decreases children, 2nat,
{
    if children.len() == 0 {
        Seq::empty()
    } else {
        children_events(o, p, t, children.drop_last()) + node_events(o, p, t, children.last())
    }
}

/// The task of the root directory, which is shown as `root_path` and lies at
/// `root_absolute`.
pub open spec fn root_task(root_path: Seq<char>, root_absolute: Seq<char>) -> TaskView {
    TaskView { path: root_path, absolute: root_absolute, depth: 0 }
}

/// How a traversal starts at its root.
#[derive(Clone, Copy, Debug, PartialEq, Eq)]
pub enum Start {
    /// The root is a directory: its listing is scanned.
    Directory,
    /// The root is a file that a content search reads.
    File,
}

/// What becomes of the root, by what its metadata says: a root whose
/// metadata cannot be read is missing; a directory is scanned; a file is read
/// by a content search and refused by the others; anything else is refused.
pub open spec fn root_start(p: PredicateView, e: EntryView) -> Result<Start, PathError> {
    if !e.accessible {
        Err(PathError::Missing)
    } else {
        match e.kind {
            EntryKind::Dir => Ok(Start::Directory),
            EntryKind::File => match p {
                PredicateView::ContentRegex { .. } => Ok(Start::File),
                _ => Err(PathError::NotADirectory),
            },
            EntryKind::Other => Err(PathError::NotADirectory),
        }
    }
}

/// Decides how a traversal starts at a root with the given metadata, or why
/// it cannot start.
pub fn start_at(predicate: &Predicate, root: &Entry) -> (r: Result<Start, PathError>)
    ensures
        r == root_start(predicate@, root@),
{
    if !root.accessible {
        return Err(PathError::Missing);
    }
    match root.kind {
        EntryKind::Dir => Ok(Start::Directory),
        EntryKind::File => match predicate {
            Predicate::ContentRegex { .. } => Ok(Start::File),
            _ => Err(PathError::NotADirectory),
        },
        EntryKind::Other => Err(PathError::NotADirectory),
    }
}

/// What a traversal that starts at `root` yields: the events of the whole
/// tree, or the reason why it could not start. The root's metadata decides
/// how it starts; a directory that cannot be listed and a file that cannot
/// be read are refused.
pub open spec fn walk_outcome(
    o: OptionsView,
    p: PredicateView,
    root_path: Seq<char>,
    root_absolute: Seq<char>,
    root: NodeView,
) -> Result<Seq<EventView>, PathError> {
    match root_start(p, entry_of(root)) {
        Err(e) => Err(e),
        Ok(_) => match (p, root.body) {
            (_, BodyView::Dir { listable, children }) => if listable {
                Ok(children_events(o, p, root_task(root_path, root_absolute), children))
            } else {
                Err(PathError::Unlistable)
            },
            (PredicateView::ContentRegex { pattern }, BodyView::File { lines: Some(ls), .. }) => Ok(
                found(line_records(root_path, pattern, ls)),
            ),
            _ => Err(PathError::Unreadable),
        },
    }
}

/// The same results in the opposite order.
fn reversed(results: Vec<MatchResult>) -> (r: Vec<MatchResult>)
    ensures
        r@.len() == results@.len(),
        forall|k: int| 0 <= k < r@.len() ==> #[trigger] r@[k] == results@[results@.len() - 1 - k],
{
    let mut rest = results;
    let mut r: Vec<MatchResult> = Vec::new();
    while rest.len() > 0
        invariant
            rest@ == results@.take(rest@.len() as int),
            r@.len() + rest@.len() == results@.len(),
            forall|k: int| 0 <= k < r@.len() ==> #[trigger] r@[k] == results@[results@.len() - 1 - k],
        decreases rest@.len(),
    {
        let ghost before = rest@;
        let x = rest.pop().unwrap();
        assert(x == results@[before.len() - 1]);
        assert(rest@ == results@.take(rest@.len() as int));
        r.push(x);
    }
    r
}

/// Appends a run of results to a run of events.
pub(crate) fn push_found(out: &mut Vec<Event>, results: Vec<MatchResult>)
    ensures
        views(final(out)@) == views(old(out)@) + found(views(results@)),
{
    let ghost all = views(results@);
    let ghost start = views(out@);
    let mut i: usize = 0;
    let n = results.len();
    let mut results = reversed(results);
    assert(views(out@) == start + found(all.take(0))) by {
        assert(found(all.take(0)) =~= Seq::<EventView>::empty());
        assert(start + Seq::<EventView>::empty() == start);
    }
    while i < n
        invariant
            i <= n,
            n == all.len(),
            results@.len() == n - i,
            forall|k: int| 0 <= k < n - i ==> (#[trigger] results@[k])@ == all[n - 1 - k],
            views(out@) == start + found(all.take(i as int)),
        decreases n - i,
    {
        let r = results.pop().unwrap();
        proof {
            lemma_views_push(out@, Event::Found(r));
            assert(r@ == all[i as int]);
            assert(found(all.take(i + 1)) =~= found(all.take(i as int)).push(
                EventView::Found(all[i as int]),
            ));
            assert((start + found(all.take(i as int))).push(EventView::Found(all[i as int]))
                == start + found(all.take(i as int)).push(EventView::Found(all[i as int])));
        }
        out.push(Event::Found(r));
        i += 1;
    }
    assert(all.take(n as int) == all);
}

impl Node {
    /// A regular file of `len` bytes whose content is not looked at.
    pub fn file(name: &str, len: u64) -> (r: Node)
        ensures
            r@ == (NodeView {
                name: name@,
                accessible: true,
                readonly: false,
                body: BodyView::File { len: len as nat, lines: None },
            }),
    {
        Node {
            name: owned(name),
            accessible: true,
            readonly: false,
            body: Body::File { len, lines: None },
        }
    }

    /// A regular file of `len` bytes with the given lines.
    pub fn text(name: &str, len: u64, lines: Vec<String>) -> (r: Node)
        ensures
            r@ == (NodeView {
                name: name@,
                accessible: true,
                readonly: false,
                body: BodyView::File { len: len as nat, lines: Some(texts(lines@)) },
            }),
    {
        Node {
            name: owned(name),
            accessible: true,
            readonly: false,
            body: Body::File { len, lines: Some(lines) },
        }
    }

    /// A directory that can be listed, with the given entries.
    pub fn dir(name: &str, children: Vec<Node>) -> (r: Node)
        ensures
            r@ == (NodeView {
                name: name@,
                accessible: true,
                readonly: false,
                body: BodyView::Dir { listable: true, children: views(children@) },
            }),
    {
        proof {
            lemma_nodes_view(children@);
        }
        Node {
            name: owned(name),
            accessible: true,
            readonly: false,
            body: Body::Dir { listable: true, children },
        }
    }

    /// The directory entry that a listing shows for this node.
    pub fn entry(&self) -> (r: Entry)
        ensures
            r@ == entry_of(self@),
    {
        let (kind, len) = match &self.body {
            Body::File { len, .. } => (EntryKind::File, *len),
            Body::Dir { .. } => (EntryKind::Dir, 0),
            Body::Other => (EntryKind::Other, 0),
        };
        Entry {
            name: self.name.clone(),
            kind,
            accessible: self.accessible,
            readonly: self.readonly,
            len,
        }
    }
}

/// Walks the entries of one directory in listing order and below each entered
/// subdirectory, and appends what they bring forth to `out`.
pub fn walk_children(
    options: &Options,
    predicate: &Predicate,
    task: &Task,
    children: &Vec<Node>,
    out: &mut Vec<Event>,
)
    ensures
        views(final(out)@) == views(old(out)@) + children_events(
            options@,
            predicate@,
            task@,
            views(children@),
        ),
    decreases children,
{
    let ghost start = views(out@);
    let ghost all = views(children@);
    let mut i: usize = 0;
    assert(views(out@) == start + children_events(options@, predicate@, task@, all.take(0))) by {
        assert(start + Seq::<EventView>::empty() == start);
    }
    while i < children.len()
        invariant
            i <= children.len(),
            all == views(children@),
            views(out@) == start + children_events(
                options@,
                predicate@,
                task@,
                all.take(i as int),
            ),
        decreases children.len() - i,
    {
        let node = &children[i];
        let ghost before = views(out@);
        let ghost head = children_events(options@, predicate@, task@, all.take(i as int));
        proof {
            assert(all.take(i + 1).drop_last() == all.take(i as int));
            assert(all.take(i + 1).last() == node@);
        }
        let entry = node.entry();
        match scan_entry(options, predicate, task, &entry) {
            None => {},
            Some(Action::Report(e)) => {
                proof {
                    lemma_views_push(out@, Event::Failed(e));
                }
                out.push(Event::Failed(e));
            },
            Some(Action::Emit(r)) => {
                proof {
                    lemma_views_push(out@, Event::Found(r));
                }
                out.push(Event::Found(r));
            },
            Some(Action::Scan { path }) => {
                match (predicate, &node.body) {
                    (Predicate::ContentRegex { matcher }, Body::File { lines: Some(ls), .. }) => {
                        let results = scan_lines(matcher, path.as_str(), ls);
                        push_found(out, results);
                    },
                    _ => {
                        let e = EntryError { path, kind: ErrorKind::Content };
                        proof {
                            lemma_views_push(out@, Event::Failed(e));
                        }
                        out.push(Event::Failed(e));
                    },
                }
            },
            Some(Action::Spawn(child)) => {
                match &node.body {
                    Body::Dir { listable, children: below } => {
                        if *listable {
                            proof {
                                lemma_nodes_view(below@);
                                assert(enters(options@, predicate@, task@, node@));
                                assert(child@ == child_task(task@, node@));
                            }
                            walk_children(options, predicate, &child, below, out);
                        } else {
                            let e = EntryError { path: child.path, kind: ErrorKind::Listing };
                            proof {
                                lemma_views_push(out@, Event::Failed(e));
                            }
                            out.push(Event::Failed(e));
                        }
                    },
                    _ => {
                        // Only a directory is entered.
                        assert(false);
                    },
                }
            },
        }
        proof {
            let step = node_events(options@, predicate@, task@, node@);
            assert(views(out@) == before + step) by {
                let local = local_events(options@, predicate@, task@, node@);
                assert(before + Seq::<EventView>::empty() == before);
                assert(local + Seq::<EventView>::empty() == local);
                assert(Seq::<EventView>::empty() + step == step);
                assert forall|x: EventView| before.push(x) == before + seq![x] by {
                    assert(before.push(x) =~= before + seq![x]);
                }
            }
            assert(start + head + step == start + (head + step));
        }
        i += 1;
    }
    assert(all.take(i as int) == all);
}

/// Walks the tree below `root`: every entry of every entered directory, in
/// listing order. A root that cannot be walked is refused.
pub fn walk(
    options: &Options,
    predicate: &Predicate,
    root_path: &str,
    root_absolute: &str,
    root: &Node,
) -> (r: Result<Vec<Event>, PathError>)
    ensures
        match walk_outcome(options@, predicate@, root_path@, root_absolute@, root@) {
            Ok(events) => r is Ok && views(r->Ok_0@) == events,
            Err(e) => r == Err::<Vec<Event>, PathError>(e),
        },
{
    let mut out: Vec<Event> = Vec::new();
    assert(views(out@) =~= Seq::<EventView>::empty());
    let entry = root.entry();
    match start_at(predicate, &entry) {
        Err(e) => {
            return Err(e);
        },
        Ok(_) => {},
    }
    match (predicate, &root.body) {
        (_, Body::Dir { listable, children }) => {
            if !*listable {
                return Err(PathError::Unlistable);
            }
            let task = Task::root(root_path, root_absolute);
            walk_children(options, predicate, &task, children, &mut out);
            proof {
                lemma_nodes_view(children@);
                assert(Seq::<EventView>::empty() + children_events(
                    options@,
                    predicate@,
                    task@,
                    views(children@),
                ) == children_events(options@, predicate@, task@, views(children@)));
            }
            Ok(out)
        },
        (Predicate::ContentRegex { matcher }, Body::File { lines: Some(ls), .. }) => {
            let results = scan_lines(matcher, root_path, ls);
            push_found(&mut out, results);
            assert(Seq::<EventView>::empty() + found(views(results@)) == found(views(results@)));
            Ok(out)
        },
        _ => Err(PathError::Unreadable),
    }
}

} // verus!
