//! The search of one file's lines: a header before the first match, then one
//! record for each matching line.

use crate::model::{lemma_views_add, texts, views, MatchResult, MatchView};
use crate::pattern::{regex_matches, Matcher};
use crate::text::owned;
use vstd::prelude::*;

verus! {

/// Whether any of the flags is set.
pub open spec fn any_hit(hits: Seq<bool>) -> bool {
    exists|i: int| 0 <= i < hits.len() && #[trigger] hits[i]
}

/// How many of the flags are set.
pub open spec fn hit_count(hits: Seq<bool>) -> nat
    decreases hits.len(),
{
    if hits.len() == 0 {
        0
    } else {
        hit_count(hits.drop_last()) + if hits.last() {
            1nat
        } else {
            0nat
        }
    }
}

/// The 1-based positions of the flags that are set, in ascending order.
pub open spec fn hit_numbers(hits: Seq<bool>) -> Seq<nat>
    decreases hits.len(),
{
    if hits.len() == 0 {
        Seq::empty()
    } else if hits.last() {
        hit_numbers(hits.drop_last()).push(hits.len())
    } else {
        hit_numbers(hits.drop_last())
    }
}

/// What one line adds to the records of its file: nothing where it does not
/// match; otherwise its own record, behind a header where it is the first
/// match. `seen` lines came before it, `has_match` says whether one of them
/// matched.
pub open spec fn line_step(
    path: Seq<char>,
    seen: nat,
    has_match: bool,
    line: Seq<char>,
    matched: bool,
) -> Seq<MatchView> {
    let record = MatchView::LineMatch { path, line_number: seen + 1, text: line };
    if !matched {
        Seq::empty()
    } else if has_match {
        seq![record]
    } else {
        seq![MatchView::FileHeader { path }, record]
    }
}

/// The records of a file whose lines are `lines`, where `hits` says of each
/// line whether it matched.
pub open spec fn records(path: Seq<char>, lines: Seq<Seq<char>>, hits: Seq<bool>) -> Seq<MatchView>
    decreases lines.len(),
{
    if lines.len() == 0 || hits.len() != lines.len() {
        Seq::empty()
    } else {
        records(path, lines.drop_last(), hits.drop_last()) + line_step(
            path,
            (lines.len() - 1) as nat,
            any_hit(hits.drop_last()),
            lines.last(),
            hits.last(),
        )
    }
}

/// Which lines the expression compiled from `pattern` matches.
pub open spec fn hits_of(pattern: Seq<char>, lines: Seq<Seq<char>>) -> Seq<bool> {
    Seq::new(lines.len(), |i: int| regex_matches(pattern, lines[i]))
}

/// The records of a file under the expression compiled from `pattern`.
pub open spec fn line_records(path: Seq<char>, pattern: Seq<char>, lines: Seq<Seq<char>>) -> Seq<
    MatchView,
> {
    records(path, lines, hits_of(pattern, lines))
}

/// How many headers a run of records holds.
pub open spec fn header_count(rs: Seq<MatchView>) -> nat
    decreases rs.len(),
{
    if rs.len() == 0 {
        0
    } else {
        header_count(rs.drop_last()) + if rs.last() is FileHeader {
            1nat
        } else {
            0nat
        }
    }
}

/// The line numbers of the line records of a run of records, in their order.
pub open spec fn line_numbers(rs: Seq<MatchView>) -> Seq<nat>
    decreases rs.len(),
{
    if rs.len() == 0 {
        Seq::empty()
    } else {
        match rs.last() {
            MatchView::LineMatch { line_number, .. } => line_numbers(rs.drop_last()).push(
                line_number,
            ),
            _ => line_numbers(rs.drop_last()),
        }
    }
}

/// A sequence of numbers that grows strictly.
pub open spec fn strictly_increasing(s: Seq<nat>) -> bool {
    forall|i: int, j: int| 0 <= i < j < s.len() ==> s[i] < s[j]
}

/// The headers of two runs are counted one run after the other.
proof fn lemma_header_count_add(a: Seq<MatchView>, b: Seq<MatchView>)
    ensures
        header_count(a + b) == header_count(a) + header_count(b),
    decreases b.len(),
{
    if b.len() == 0 {
        assert(a + b == a);
    } else {
        assert((a + b).drop_last() == a + b.drop_last());
        assert((a + b).last() == b.last());
        lemma_header_count_add(a, b.drop_last());
    }
}

/// The line numbers of two runs come one run after the other.
proof fn lemma_line_numbers_add(a: Seq<MatchView>, b: Seq<MatchView>)
    ensures
        line_numbers(a + b) == line_numbers(a) + line_numbers(b),
    decreases b.len(),
{
    if b.len() == 0 {
        assert(a + b == a);
        assert(line_numbers(a) + line_numbers(b) == line_numbers(a));
    } else {
        assert((a + b).drop_last() == a + b.drop_last());
        assert((a + b).last() == b.last());
        lemma_line_numbers_add(a, b.drop_last());
        match b.last() {
            MatchView::LineMatch { line_number, .. } => {
                assert(line_numbers(a) + line_numbers(b.drop_last()).push(line_number) == (
                line_numbers(a) + line_numbers(b.drop_last())).push(line_number));
            },
            _ => {},
        }
    }
}

/// The count and the line numbers of a single record.
proof fn lemma_single_record(x: MatchView)
    ensures
        header_count(seq![x]) == if x is FileHeader {
            1nat
        } else {
            0nat
        },
        line_numbers(seq![x]) == match x {
            MatchView::LineMatch { line_number, .. } => seq![line_number],
            _ => Seq::<nat>::empty(),
        },
{
    let s = seq![x];
    assert(s.drop_last() == Seq::<MatchView>::empty());
    assert(s.last() == x);
    assert(header_count(s.drop_last()) == 0);
    assert(line_numbers(s.drop_last()) == Seq::<nat>::empty());
    match x {
        MatchView::LineMatch { line_number, .. } => {
            assert(Seq::<nat>::empty().push(line_number) == seq![line_number]);
        },
        _ => {},
    }
}

/// A flag is set exactly where the count of set flags is not 0.
proof fn lemma_any_hit_count(hits: Seq<bool>)
    ensures
        any_hit(hits) <==> hit_count(hits) > 0,
    decreases hits.len(),
{
    if hits.len() > 0 {
        let head = hits.drop_last();
        lemma_any_hit_count(head);
        if hits.last() {
            assert(hits[hits.len() - 1]);
        } else if any_hit(hits) {
            let i = choose|i: int| 0 <= i < hits.len() && #[trigger] hits[i];
            assert(head[i]);
        } else if any_hit(head) {
            let i = choose|i: int| 0 <= i < head.len() && #[trigger] head[i];
            assert(hits[i]);
        }
    }
}

/// The positions of the set flags are as many as the set flags, grow
/// strictly, and each names a set flag.
pub proof fn lemma_hit_numbers(hits: Seq<bool>)
    ensures
        hit_numbers(hits).len() == hit_count(hits),
        strictly_increasing(hit_numbers(hits)),
        forall|k: int|
            0 <= k < hit_numbers(hits).len() ==> 1 <= #[trigger] hit_numbers(hits)[k] <= hits.len()
                && hits[hit_numbers(hits)[k] - 1],
    decreases hits.len(),
{
    if hits.len() > 0 {
        lemma_hit_numbers(hits.drop_last());
        let head = hit_numbers(hits.drop_last());
        assert forall|k: int| 0 <= k < hit_numbers(hits).len() implies 1 <= #[trigger] hit_numbers(
            hits,
        )[k] <= hits.len() && hits[hit_numbers(hits)[k] - 1] by {
            if k < head.len() {
                assert(hit_numbers(hits)[k] == head[k]);
                assert(hits.drop_last()[head[k] - 1] == hits[head[k] - 1]);
            }
        }
        assert forall|i: int, j: int| 0 <= i < j < hit_numbers(hits).len() implies hit_numbers(
            hits,
        )[i] < hit_numbers(hits)[j] by {
            assert(hit_numbers(hits)[i] == head[i]);
            if j < head.len() {
                assert(hit_numbers(hits)[j] == head[j]);
            }
        }
    }
}

/// The records of one file hold exactly one header where a line matched and
/// none otherwise, and one line record for each matching line, numbered by
/// the line's position.
pub proof fn lemma_records_shape(path: Seq<char>, lines: Seq<Seq<char>>, hits: Seq<bool>)
    requires
        hits.len() == lines.len(),
    ensures
        header_count(records(path, lines, hits)) == if hit_count(hits) > 0 {
            1nat
        } else {
            0nat
        },
        line_numbers(records(path, lines, hits)) == hit_numbers(hits),
    decreases lines.len(),
{
    if lines.len() > 0 {
        let head = records(path, lines.drop_last(), hits.drop_last());
        let step = line_step(
            path,
            (lines.len() - 1) as nat,
            any_hit(hits.drop_last()),
            lines.last(),
            hits.last(),
        );
        lemma_records_shape(path, lines.drop_last(), hits.drop_last());
        lemma_any_hit_count(hits.drop_last());
        lemma_header_count_add(head, step);
        lemma_line_numbers_add(head, step);
        let record = MatchView::LineMatch {
            path,
            line_number: lines.len(),
            text: lines.last(),
        };
        lemma_single_record(record);
        if !hits.last() {
            assert(line_numbers(head) + line_numbers(step) == line_numbers(head));
        } else if any_hit(hits.drop_last()) {
            assert(step == seq![record]);
            assert(line_numbers(head) + seq![lines.len()] == line_numbers(head).push(lines.len()));
        } else {
            let header = MatchView::FileHeader { path };
            lemma_single_record(header);
            assert(step == seq![header] + seq![record]);
            lemma_header_count_add(seq![header], seq![record]);
            lemma_line_numbers_add(seq![header], seq![record]);
            assert(Seq::<nat>::empty() + seq![lines.len()] == seq![lines.len()]);
            assert(line_numbers(head) + seq![lines.len()] == line_numbers(head).push(lines.len()));
        }
    }
}

/// The content search of a file with N matching lines emits exactly one
/// header, or none where N is 0, and exactly N line records whose line
/// numbers grow strictly.
pub proof fn lemma_line_records_shape(path: Seq<char>, pattern: Seq<char>, lines: Seq<Seq<char>>)
    ensures
        header_count(line_records(path, pattern, lines)) == if hit_count(hits_of(pattern, lines))
            > 0 {
            1nat
        } else {
            0nat
        },
        line_numbers(line_records(path, pattern, lines)).len() == hit_count(
            hits_of(pattern, lines),
        ),
        strictly_increasing(line_numbers(line_records(path, pattern, lines))),
{
    lemma_records_shape(path, lines, hits_of(pattern, lines));
    lemma_hit_numbers(hits_of(pattern, lines));
}

/// The progress of the search through one file.
#[derive(Clone, Debug, PartialEq, Eq)]
pub struct FileScan {
    /// The file's path.
    pub path: String,
    /// How many lines have been read.
    pub seen: usize,
    /// Whether one of them matched.
    pub has_match: bool,
}

/// The view of a `FileScan`.
pub struct FileScanView {
    pub path: Seq<char>,
    pub seen: nat,
    pub has_match: bool,
}

impl View for FileScan {
    type V = FileScanView;

    open spec fn view(&self) -> FileScanView {
        FileScanView { path: self.path@, seen: self.seen as nat, has_match: self.has_match }
    }
}

/// The search after one more line, of which `matched` says whether it
/// matched.
pub open spec fn scan_after(s: FileScanView, matched: bool) -> FileScanView {
    FileScanView { path: s.path, seen: s.seen + 1, has_match: s.has_match || matched }
}

/// What the search emits for one more line.
pub open spec fn scan_emits(s: FileScanView, line: Seq<char>, matched: bool) -> Seq<MatchView> {
    line_step(s.path, s.seen, s.has_match, line, matched)
}

impl FileScan {
    /// The search of the file at `path`, before its first line.
    pub fn new(path: &str) -> (r: FileScan)
        ensures
            r@ == (FileScanView { path: path@, seen: 0, has_match: false }),
    {
        FileScan { path: owned(path), seen: 0, has_match: false }
    }

    /// Takes in the next line together with the answer whether it matched,
    /// and gives what is to be emitted for it.
    pub fn feed(&mut self, line: &str, matched: bool) -> (out: Vec<MatchResult>)
        requires
            old(self).seen < usize::MAX,
        ensures
            final(self)@ == scan_after(old(self)@, matched),
            views(out@) == scan_emits(old(self)@, line@, matched),
    {
        let mut out: Vec<MatchResult> = Vec::new();
        self.seen = self.seen + 1;
        if matched {
            if !self.has_match {
                out.push(MatchResult::FileHeader { path: self.path.clone() });
                self.has_match = true;
            }
            out.push(
                MatchResult::LineMatch {
                    path: self.path.clone(),
                    line_number: self.seen,
                    text: owned(line),
                },
            );
        }
        assert(views(out@) =~= scan_emits(old(self)@, line@, matched));
        out
    }

    /// Takes in the next line, asks the matcher about it, and gives what is
    /// to be emitted for it.
    pub fn scan_line(&mut self, matcher: &Matcher, line: &str) -> (out: Vec<MatchResult>)
        requires
            old(self).seen < usize::MAX,
        ensures
            final(self)@ == scan_after(old(self)@, matcher.accepts(line@)),
            views(out@) == scan_emits(old(self)@, line@, matcher.accepts(line@)),
    {
        let matched = matcher.is_match(line);
        self.feed(line, matched)
    }
}

/// Searches the lines of one file and gives its records: a header before the
/// first match, then one record for each matching line, numbered from 1.
pub fn scan_lines(matcher: &Matcher, path: &str, lines: &Vec<String>) -> (out: Vec<MatchResult>)
    ensures
        views(out@) == line_records(path@, matcher.pattern(), texts(lines@)),
{
    let mut scan = FileScan::new(path);
    let mut out: Vec<MatchResult> = Vec::new();
    let mut i: usize = 0;
    let ghost all = texts(lines@);
    let ghost hits = hits_of(matcher.pattern(), all);
    assert(views(out@) =~= Seq::<MatchView>::empty());
    while i < lines.len()
        invariant
            i <= lines.len(),
            all == texts(lines@),
            hits == hits_of(matcher.pattern(), all),
            scan.path@ == path@,
            scan.seen == i,
            scan.has_match == any_hit(hits.take(i as int)),
            views(out@) == records(path@, all.take(i as int), hits.take(i as int)),
        decreases lines.len() - i,
    {
        let ghost before = out@;
        let mut more = scan.scan_line(matcher, lines[i].as_str());
        proof {
            let l = all.take(i + 1);
            let h = hits.take(i + 1);
            assert(l.drop_last() == all.take(i as int));
            assert(h.drop_last() == hits.take(i as int));
            assert(l.last() == lines@[i as int]@);
            assert(h.last() == matcher.accepts(lines@[i as int]@));
            lemma_views_add(before, more@);
            if any_hit(h) {
                let k = choose|k: int| 0 <= k < h.len() && #[trigger] h[k];
                if k < i {
                    assert(h.drop_last()[k]);
                }
            }
            if any_hit(h.drop_last()) {
                let k = choose|k: int| 0 <= k < h.drop_last().len() && #[trigger] h.drop_last()[k];
                assert(h[k]);
            }
            if h.last() {
                assert(h[i as int]);
            }
        }
        out.append(&mut more);
        i += 1;
    }
    assert(all.take(i as int) == all);
    assert(hits.take(i as int) == hits);
    out
}

} // verus!
