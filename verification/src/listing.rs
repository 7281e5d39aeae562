//! A directory listing: its command line, which entries it shows and in what
//! order, and the shape of its lines.

use crate::model::{lemma_views_push, texts, views};
use crate::policy::{is_hidden, is_hidden_name};
use crate::text::{
    chars_of, chars_start_with, decimal, decimal_chars, has_char_prefix, owned, same_text,
    string_of,
};
use std::collections::HashMap;
use vstd::prelude::*;

verus! {

/// What a listing was asked for.
#[derive(Clone, Debug, PartialEq, Eq)]
pub struct ListConfig {
    /// The directory to list, or `None` for the current one.
    pub directory: Option<String>,
    /// Whether hidden entries are shown.
    pub show_all: bool,
    /// Whether each entry gets a line with its details.
    pub long_format: bool,
    /// Whether the newest entry comes first.
    pub sort_by_time: bool,
    /// Whether sizes are scaled to units.
    pub human_readable: bool,
    /// Whether the owning group is shown.
    pub show_group: bool,
    /// Whether directories come before everything else.
    pub group_directory: bool,
}

/// The view of a `ListConfig`, together with the options that were not
/// understood.
pub struct ListState {
    pub directory: Option<Seq<char>>,
    pub show_all: bool,
    pub long_format: bool,
    pub sort_by_time: bool,
    pub human_readable: bool,
    pub show_group: bool,
    pub group_directory: bool,
    pub unknown: Seq<Seq<char>>,
}

/// The state of a configuration and the unknown options met so far.
pub open spec fn list_state(c: ListConfig, unknown: Seq<String>) -> ListState {
    ListState {
        directory: match c.directory {
            Some(d) => Some(d@),
            None => None,
        },
        show_all: c.show_all,
        long_format: c.long_format,
        sort_by_time: c.sort_by_time,
        human_readable: c.human_readable,
        show_group: c.show_group,
        group_directory: c.group_directory,
        unknown: texts(unknown),
    }
}

/// Nothing asked for, nothing unknown.
pub open spec fn list_defaults() -> ListState {
    ListState {
        directory: None,
        show_all: false,
        long_format: false,
        sort_by_time: false,
        human_readable: false,
        show_group: false,
        group_directory: false,
        unknown: Seq::empty(),
    }
}

/// What one letter of a bundle of short options asks for.
pub open spec fn short_option(s: ListState, c: char) -> ListState {
    if c == 'a' {
        ListState { show_all: true, ..s }
    } else if c == 'l' {
        ListState { long_format: true, ..s }
    } else if c == 't' {
        ListState { sort_by_time: true, ..s }
    } else if c == 'h' {
        ListState { human_readable: true, ..s }
    } else if c == 'g' {
        ListState { show_group: true, ..s }
    } else {
        ListState { unknown: s.unknown.push(seq![c]), ..s }
    }
}

/// What the letters of a bundle ask for, from position `i` on.
pub open spec fn short_options(s: ListState, letters: Seq<char>, i: int) -> ListState
    decreases letters.len() - i,
{
    if i < 0 || i >= letters.len() {
        s
    } else {
        short_options(short_option(s, letters[i]), letters, i + 1)
    }
}

/// What a long option asks for.
pub open spec fn long_option(s: ListState, arg: Seq<char>) -> ListState {
    if arg == "--long"@ {
        ListState { long_format: true, ..s }
    } else if arg == "--all"@ {
        ListState { show_all: true, ..s }
    } else if arg == "--human-readable"@ {
        ListState { human_readable: true, ..s }
    } else if arg == "--group-directories-first"@ {
        ListState { group_directory: true, ..s }
    } else {
        ListState { unknown: s.unknown.push(arg), ..s }
    }
}

/// What one argument asks for: a long option behind two dashes, a bundle of
/// short options behind one, or else the directory to list.
pub open spec fn list_argument(s: ListState, arg: Seq<char>) -> ListState {
    if has_char_prefix(arg, seq!['-', '-']) {
        long_option(s, arg)
    } else if has_char_prefix(arg, seq!['-']) {
        short_options(s, arg, 1)
    } else {
        ListState { directory: Some(arg), ..s }
    }
}

/// What the arguments ask for, from position `i` on.
pub open spec fn list_from(s: ListState, args: Seq<Seq<char>>, i: int) -> ListState
    decreases args.len() - i,
{
    if i < 0 || i >= args.len() {
        s
    } else {
        list_from(list_argument(s, args[i]), args, i + 1)
    }
}

/// What a command line asks for; its first argument is the program's name.
pub open spec fn list_args(args: Seq<Seq<char>>) -> ListState {
    list_from(list_defaults(), args, 1)
}

/// The text of one character.
fn one_char(c: char) -> (r: String)
    ensures
        r@ == seq![c],
{
    let mut v: Vec<char> = Vec::new();
    v.push(c);
    string_of(&v)
}

impl ListConfig {
    /// The listing of the current directory with nothing asked for.
    pub fn new() -> (r: ListConfig)
        ensures
            list_state(r, Seq::<String>::empty()) == list_defaults(),
    {
        let c = ListConfig {
            directory: None,
            show_all: false,
            long_format: false,
            sort_by_time: false,
            human_readable: false,
            show_group: false,
            group_directory: false,
        };
        assert(texts(Seq::<String>::empty()) =~= Seq::<Seq<char>>::empty());
        c
    }

    /// Reads a listing's command line, and gives along with what it asks for
    /// the options that were not understood, in their order.
    pub fn parse_args(args: &Vec<String>) -> (r: (ListConfig, Vec<String>))
        ensures
            list_state(r.0, r.1@) == list_args(texts(args@)),
    {
        let mut config = ListConfig::new();
        let mut unknown: Vec<String> = Vec::new();
        let ghost all = texts(args@);
        if args.len() < 1 {
            return (config, unknown);
        }
        let mut i: usize = 1;
        while i < args.len()
            invariant
                1 <= i <= args.len(),
                all == texts(args@),
                list_from(list_state(config, unknown@), all, i as int) == list_args(all),
            decreases args.len() - i,
        {
            let arg = args[i].as_str();
            let letters = chars_of(arg);
            assert(all[i as int] == arg@);
            let ghost before = list_state(config, unknown@);
            let mut two: Vec<char> = Vec::new();
            two.push('-');
            two.push('-');
            let mut one: Vec<char> = Vec::new();
            one.push('-');
            assert(two@ == seq!['-', '-']);
            assert(one@ == seq!['-']);
            if chars_start_with(&letters, &two) {
                if same_text(arg, "--long") {
                    config.long_format = true;
                } else if same_text(arg, "--all") {
                    config.show_all = true;
                } else if same_text(arg, "--human-readable") {
                    config.human_readable = true;
                } else if same_text(arg, "--group-directories-first") {
                    config.group_directory = true;
                } else {
                    let a = owned(arg);
                    assert(texts(unknown@.push(a)) =~= texts(unknown@).push(a@));
                    unknown.push(a);
                }
            } else if chars_start_with(&letters, &one) {
                let mut j: usize = 1;
                while j < letters.len()
                    invariant
                        1 <= j <= letters.len(),
                        letters@ == arg@,
                        short_options(list_state(config, unknown@), letters@, j as int)
                            == short_options(before, letters@, 1),
                    decreases letters.len() - j,
                {
                    let c = letters[j];
                    if c == 'a' {
                        config.show_all = true;
                    } else if c == 'l' {
                        config.long_format = true;
                    } else if c == 't' {
                        config.sort_by_time = true;
                    } else if c == 'h' {
                        config.human_readable = true;
                    } else if c == 'g' {
                        config.show_group = true;
                    } else {
                        let a = one_char(c);
                        assert(texts(unknown@.push(a)) =~= texts(unknown@).push(a@));
                        unknown.push(a);
                    }
                    j += 1;
                }
            } else {
                config.directory = Some(owned(arg));
            }
            i += 1;
        }
        (config, unknown)
    }
}

/// What a listing knows of one entry.
#[derive(Clone, Debug, PartialEq, Eq)]
pub struct ListEntry {
    /// The entry's name.
    pub name: String,
    /// Whether it is a directory.
    pub is_dir: bool,
    /// The entry's place in the listing as it was read.
    pub index: usize,
    /// When the entry was last modified, in nanoseconds since the epoch.
    pub modified: u128,
}

/// The view of a `ListEntry`.
pub struct ListEntryView {
    pub name: Seq<char>,
    pub is_dir: bool,
    pub index: nat,
    pub modified: nat,
}

impl View for ListEntry {
    type V = ListEntryView;

    open spec fn view(&self) -> ListEntryView {
        ListEntryView {
            name: self.name@,
            is_dir: self.is_dir,
            index: self.index as nat,
            modified: self.modified as nat,
        }
    }
}

/// The entries with the given directory flag, in their order.
pub open spec fn of_kind(entries: Seq<ListEntryView>, dirs: bool) -> Seq<ListEntryView>
    decreases entries.len(),
{
    if entries.len() == 0 {
        Seq::empty()
    } else if entries.last().is_dir == dirs {
        of_kind(entries.drop_last(), dirs).push(entries.last())
    } else {
        of_kind(entries.drop_last(), dirs)
    }
}

/// The entries that a listing shows: all of them, or those that are not
/// hidden.
pub open spec fn shown(entries: Seq<ListEntryView>, show_all: bool) -> Seq<ListEntryView>
    decreases entries.len(),
{
    if entries.len() == 0 {
        Seq::empty()
    } else if show_all || !is_hidden_name(entries.last().name) {
        shown(entries.drop_last(), show_all).push(entries.last())
    } else {
        shown(entries.drop_last(), show_all)
    }
}

/// A copy of an entry.
fn copy_entry(e: &ListEntry) -> (c: ListEntry)
    ensures
        c@ == e@,
{
    ListEntry { name: e.name.clone(), is_dir: e.is_dir, index: e.index, modified: e.modified }
}

/// Keeps the entries that the listing shows, in their order.
pub fn visible(entries: &Vec<ListEntry>, show_all: bool) -> (r: Vec<ListEntry>)
    ensures
        views(r@) == shown(views(entries@), show_all),
{
    let mut out: Vec<ListEntry> = Vec::new();
    let mut i: usize = 0;
    let ghost all = views(entries@);
    assert(views(out@) =~= Seq::<ListEntryView>::empty());
    while i < entries.len()
        invariant
            i <= entries.len(),
            all == views(entries@),
            views(out@) == shown(all.take(i as int), show_all),
        decreases entries.len() - i,
    {
        proof {
            assert(all.take(i + 1).drop_last() == all.take(i as int));
            assert(all.take(i + 1).last() == entries@[i as int]@);
        }
        if show_all || !is_hidden(entries[i].name.as_str()) {
            let c = copy_entry(&entries[i]);
            proof {
                lemma_views_push(out@, c);
            }
            out.push(c);
        }
        i += 1;
    }
    assert(all.take(i as int) == all);
    out
}

/// Appends the entries with the given directory flag, in their order.
fn push_of_kind(out: &mut Vec<ListEntry>, entries: &Vec<ListEntry>, dirs: bool)
    ensures
        views(final(out)@) == views(old(out)@) + of_kind(views(entries@), dirs),
{
    let ghost start = views(out@);
    let ghost all = views(entries@);
    let mut i: usize = 0;
    assert(start + Seq::<ListEntryView>::empty() == start);
    while i < entries.len()
        invariant
            i <= entries.len(),
            all == views(entries@),
            views(out@) == start + of_kind(all.take(i as int), dirs),
        decreases entries.len() - i,
    {
        let ghost head = of_kind(all.take(i as int), dirs);
        proof {
            assert(all.take(i + 1).drop_last() == all.take(i as int));
            assert(all.take(i + 1).last() == entries@[i as int]@);
        }
        if entries[i].is_dir == dirs {
            let c = copy_entry(&entries[i]);
            proof {
                lemma_views_push(out@, c);
                assert((start + head).push(c@) == start + head.push(c@));
            }
            out.push(c);
        }
        i += 1;
    }
    assert(all.take(i as int) == all);
}

/// Puts the directories before everything else and keeps the order
/// otherwise.
pub fn directories_first(entries: &Vec<ListEntry>) -> (r: Vec<ListEntry>)
    ensures
        views(r@) == of_kind(views(entries@), true) + of_kind(views(entries@), false),
{
    let mut out: Vec<ListEntry> = Vec::new();
    assert(views(out@) =~= Seq::<ListEntryView>::empty());
    push_of_kind(&mut out, entries, true);
    assert(Seq::<ListEntryView>::empty() + of_kind(views(entries@), true) == of_kind(
        views(entries@),
        true,
    ));
    push_of_kind(&mut out, entries, false);
    out
}

/// The entries `sorted` with `e` put in its place by time: behind every
/// entry that is at least as new, before all that are older.
pub open spec fn placed(sorted: Seq<ListEntryView>, e: ListEntryView) -> Seq<ListEntryView>
    decreases sorted.len(),
{
    if sorted.len() == 0 {
        seq![e]
    } else if sorted.last().modified >= e.modified {
        sorted.push(e)
    } else {
        placed(sorted.drop_last(), e).push(sorted.last())
    }
}

/// The entries with the newest first; entries of the same time keep their
/// order.
pub open spec fn newest_first(entries: Seq<ListEntryView>) -> Seq<ListEntryView>
    decreases entries.len(),
{
    if entries.len() == 0 {
        Seq::empty()
    } else {
        placed(newest_first(entries.drop_last()), entries.last())
    }
}

/// No entry comes before a newer one.
pub open spec fn by_time(entries: Seq<ListEntryView>) -> bool {
    forall|i: int, j: int|
        0 <= i < j < entries.len() ==> (#[trigger] entries[i]).modified >= (
        #[trigger] entries[j]).modified
}

/// Where `e` is put: at `at`, where everything from `at` on is older than
/// `e` and the entry before `at` is not.
proof fn lemma_placed_at(sorted: Seq<ListEntryView>, e: ListEntryView, at: int)
    requires
        0 <= at <= sorted.len(),
        forall|k: int| at <= k < sorted.len() ==> (#[trigger] sorted[k]).modified < e.modified,
        at > 0 ==> sorted[at - 1].modified >= e.modified,
    ensures
        placed(sorted, e) == sorted.insert(at, e),
    decreases sorted.len(),
{
    if sorted.len() == 0 {
        assert(seq![e] =~= sorted.insert(at, e));
    } else if at == sorted.len() {
        assert(sorted.push(e) =~= sorted.insert(at, e));
    } else {
        let head = sorted.drop_last();
        assert(sorted[sorted.len() - 1].modified < e.modified);
        assert forall|k: int| at <= k < head.len() implies (#[trigger] head[k]).modified
            < e.modified by {
            assert(head[k] == sorted[k]);
        }
        lemma_placed_at(head, e, at);
        assert(head.insert(at, e).push(sorted.last()) =~= sorted.insert(at, e));
    }
}

/// Putting an entry in its place keeps the order by time and adds that entry
/// and nothing else.
pub proof fn lemma_placed_keeps_order(sorted: Seq<ListEntryView>, e: ListEntryView)
    requires
        by_time(sorted),
    ensures
        by_time(placed(sorted, e)),
        placed(sorted, e).to_multiset() == sorted.to_multiset().insert(e),
    decreases sorted.len(),
{
    broadcast use vstd::seq_lib::group_to_multiset_ensures;

    if sorted.len() == 0 {
        assert(seq![e] =~= sorted.push(e));
    } else if sorted.last().modified >= e.modified {
        let all = sorted.push(e);
        assert forall|i: int, j: int| 0 <= i < j < all.len() implies (#[trigger] all[i]).modified
            >= (#[trigger] all[j]).modified by {
            if j == sorted.len() {
                if i < sorted.len() - 1 {
                    assert(sorted[i].modified >= sorted[sorted.len() - 1].modified);
                }
            } else {
                assert(sorted[i].modified >= sorted[j].modified);
            }
        }
    } else {
        let head = sorted.drop_last();
        let last = sorted.last();
        assert forall|i: int, j: int| 0 <= i < j < head.len() implies (#[trigger] head[i]).modified
            >= (#[trigger] head[j]).modified by {
            assert(sorted[i].modified >= sorted[j].modified);
        }
        lemma_placed_keeps_order(head, e);
        let inner = placed(head, e);
        let all = inner.push(last);
        assert(head.push(last) =~= sorted);
        assert forall|i: int, j: int| 0 <= i < j < all.len() implies (#[trigger] all[i]).modified
            >= (#[trigger] all[j]).modified by {
            if j == inner.len() {
                assert(inner.to_multiset().count(inner[i]) > 0);
                if inner[i] != e {
                    assert(head.to_multiset().count(inner[i]) > 0);
                    let k = choose|k: int| 0 <= k < head.len() && head[k] == inner[i];
                    assert(sorted[k].modified >= sorted[sorted.len() - 1].modified);
                }
            } else {
                assert(inner[i].modified >= inner[j].modified);
            }
        }
        assert(all.to_multiset() =~= sorted.to_multiset().insert(e));
    }
}

/// The entries with the newest first are in order by time, and are the same
/// entries, each as often as before.
pub proof fn lemma_newest_first_is_ordered(entries: Seq<ListEntryView>)
    ensures
        by_time(newest_first(entries)),
        newest_first(entries).to_multiset() == entries.to_multiset(),
    decreases entries.len(),
{
    broadcast use vstd::seq_lib::group_to_multiset_ensures;

    if entries.len() > 0 {
        lemma_newest_first_is_ordered(entries.drop_last());
        lemma_placed_keeps_order(newest_first(entries.drop_last()), entries.last());
        assert(entries.drop_last().push(entries.last()) =~= entries);
    } else {
        assert(entries =~= Seq::<ListEntryView>::empty());
    }
}

/// Puts the newest entry first and keeps the order of entries of the same
/// time.
pub fn sort_by_time(entries: &Vec<ListEntry>) -> (r: Vec<ListEntry>)
    ensures
        views(r@) == newest_first(views(entries@)),
{
    let mut out: Vec<ListEntry> = Vec::new();
    let mut i: usize = 0;
    let ghost all = views(entries@);
    assert(views(out@) =~= Seq::<ListEntryView>::empty());
    while i < entries.len()
        invariant
            i <= entries.len(),
            all == views(entries@),
            out@.len() == i,
            views(out@) == newest_first(all.take(i as int)),
        decreases entries.len() - i,
    {
        proof {
            assert(all.take(i + 1).drop_last() == all.take(i as int));
            assert(all.take(i + 1).last() == entries@[i as int]@);
        }
        let c = copy_entry(&entries[i]);
        let mut at: usize = out.len();
        while at > 0 && out[at - 1].modified < c.modified
            invariant
                at <= out@.len(),
                forall|k: int| at <= k < out@.len() ==> (#[trigger] out@[k]).modified < c.modified,
            decreases at,
        {
            at -= 1;
        }
        proof {
            let before = views(out@);
            assert forall|k: int| at <= k < before.len() implies (#[trigger] before[k]).modified
                < c@.modified by {
                assert(before[k] == out@[k]@);
            }
            if at > 0 {
                assert(before[at - 1] == out@[at - 1]@);
            }
            lemma_placed_at(before, c@, at as int);
            assert(views(out@.insert(at as int, c)) =~= before.insert(at as int, c@));
        }
        out.insert(at, c);
        i += 1;
    }
    assert(all.take(i as int) == all);
    out
}

/// A run of `n` copies of one character.
pub open spec fn repeated(c: char, n: nat) -> Seq<char> {
    Seq::new(n, |i: int| c)
}

/// A text moved to the right end of a field of `width` characters; a text
/// that is longer than the field stays as it is.
pub open spec fn right_aligned(text: Seq<char>, width: nat, fill: char) -> Seq<char> {
    if text.len() >= width {
        text
    } else {
        repeated(fill, (width - text.len()) as nat) + text
    }
}

/// A text in the middle of a field of `width` characters; where the room
/// cannot be halved, the right side gets the larger part.
pub open spec fn centered(text: Seq<char>, width: nat, fill: char) -> Seq<char> {
    if text.len() >= width {
        text
    } else {
        let room = (width - text.len()) as nat;
        repeated(fill, room / 2) + text + repeated(fill, (room - room / 2) as nat)
    }
}

/// Appends `n` copies of one character.
fn push_repeated(v: &mut Vec<char>, c: char, n: usize)
    ensures
        final(v)@ == old(v)@ + repeated(c, n as nat),
{
    let ghost start = v@;
    let mut i: usize = 0;
    assert(start + repeated(c, 0) =~= start);
    while i < n
        invariant
            i <= n,
            v@ == start + repeated(c, i as nat),
        decreases n - i,
    {
        v.push(c);
        assert(start + repeated(c, (i + 1) as nat) =~= (start + repeated(c, i as nat)).push(c));
        i += 1;
    }
}

/// Moves a text to the right end of a field.
pub fn align_right(text: &str, width: usize, fill: char) -> (r: String)
    ensures
        r@ == right_aligned(text@, width as nat, fill),
{
    let mut t = chars_of(text);
    if t.len() >= width {
        return string_of(&t);
    }
    let mut v: Vec<char> = Vec::new();
    push_repeated(&mut v, fill, width - t.len());
    v.append(&mut t);
    assert(v@ =~= right_aligned(text@, width as nat, fill));
    string_of(&v)
}

/// Puts a text in the middle of a field.
pub fn center(text: &str, width: usize, fill: char) -> (r: String)
    ensures
        r@ == centered(text@, width as nat, fill),
{
    let mut t = chars_of(text);
    if t.len() >= width {
        return string_of(&t);
    }
    let room = width - t.len();
    let mut v: Vec<char> = Vec::new();
    push_repeated(&mut v, fill, room / 2);
    v.append(&mut t);
    push_repeated(&mut v, fill, room - room / 2);
    assert(v@ =~= centered(text@, width as nat, fill));
    string_of(&v)
}

/// The short name of a month, counted from 1; empty for any other number.
pub open spec fn month_name(month: nat) -> Seq<char> {
    if month == 1 {
        "Jan"@
    } else if month == 2 {
        "Feb"@
    } else if month == 3 {
        "Mar"@
    } else if month == 4 {
        "Apr"@
    } else if month == 5 {
        "May"@
    } else if month == 6 {
        "Jun"@
    } else if month == 7 {
        "Jul"@
    } else if month == 8 {
        "Aug"@
    } else if month == 9 {
        "Sep"@
    } else if month == 10 {
        "Oct"@
    } else if month == 11 {
        "Nov"@
    } else if month == 12 {
        "Dec"@
    } else {
        Seq::empty()
    }
}

/// A number with at least two digits.
pub open spec fn two_digits(n: nat) -> Seq<char> {
    right_aligned(decimal(n), 2, '0')
}

/// The time of an entry's last change: day, month, hour and minute.
pub open spec fn date_text(day: nat, month: nat, hour: nat, minute: nat) -> Seq<char> {
    two_digits(day).push(' ') + month_name(month).push(' ') + two_digits(hour).push(':')
        + two_digits(minute)
}

/// The short name of a month.
fn month_chars(month: u32) -> (v: Vec<char>)
    ensures
        v@ == month_name(month as nat),
{
    if month == 1 {
        chars_of("Jan")
    } else if month == 2 {
        chars_of("Feb")
    } else if month == 3 {
        chars_of("Mar")
    } else if month == 4 {
        chars_of("Apr")
    } else if month == 5 {
        chars_of("May")
    } else if month == 6 {
        chars_of("Jun")
    } else if month == 7 {
        chars_of("Jul")
    } else if month == 8 {
        chars_of("Aug")
    } else if month == 9 {
        chars_of("Sep")
    } else if month == 10 {
        chars_of("Oct")
    } else if month == 11 {
        chars_of("Nov")
    } else if month == 12 {
        chars_of("Dec")
    } else {
        Vec::new()
    }
}

/// Appends a number with at least two digits.
fn push_two_digits(v: &mut Vec<char>, n: u32)
    ensures
        final(v)@ == old(v)@ + two_digits(n as nat),
{
    let mut d = decimal_chars(n as u64);
    if d.len() < 2 {
        push_repeated(v, '0', 2 - d.len());
    }
    let ghost mid = v@;
    v.append(&mut d);
    assert(v@ =~= old(v)@ + two_digits(n as nat));
}

/// Writes the time of an entry's last change.
pub fn format_date(day: u32, month: u32, hour: u32, minute: u32) -> (r: String)
    ensures
        r@ == date_text(day as nat, month as nat, hour as nat, minute as nat),
{
    let mut v: Vec<char> = Vec::new();
    push_two_digits(&mut v, day);
    v.push(' ');
    let mut m = month_chars(month);
    v.append(&mut m);
    v.push(' ');
    push_two_digits(&mut v, hour);
    v.push(':');
    push_two_digits(&mut v, minute);
    assert(v@ =~= date_text(day as nat, month as nat, hour as nat, minute as nat));
    string_of(&v)
}

/// The detailed line of one entry: the kind mark and the permission flags,
/// the owner, the group where it is shown, the size at the right end of eight
/// characters, the date and the name.
pub open spec fn long_line(
    mark: Seq<char>,
    mode: Seq<char>,
    user: Seq<char>,
    group: Seq<char>,
    size: Seq<char>,
    date: Seq<char>,
    name: Seq<char>,
) -> Seq<char> {
    (mark + mode).push(' ') + user.push(' ') + group + right_aligned(size, 8, ' ').push(' ')
        + date.push(' ') + name
}

/// Writes the detailed line of one entry. `group` is the group's name with a
/// blank behind it, or empty where the group is not shown.
pub fn long_format(
    mark: &str,
    mode: &str,
    user: &str,
    group: &str,
    size: &str,
    date: &str,
    name: &str,
) -> (r: String)
    ensures
        r@ == long_line(mark@, mode@, user@, group@, size@, date@, name@),
{
    let mut v = chars_of(mark);
    let mut mode_chars = chars_of(mode);
    let mut user_chars = chars_of(user);
    let mut group_chars = chars_of(group);
    let mut size_chars = chars_of(align_right(size, 8, ' ').as_str());
    let mut date_chars = chars_of(date);
    let mut name_chars = chars_of(name);
    v.append(&mut mode_chars);
    v.push(' ');
    v.append(&mut user_chars);
    v.push(' ');
    v.append(&mut group_chars);
    v.append(&mut size_chars);
    v.push(' ');
    v.append(&mut date_chars);
    v.push(' ');
    v.append(&mut name_chars);
    assert(v@ =~= long_line(mark@, mode@, user@, group@, size@, date@, name@));
    string_of(&v)
}

/// The names that a cache holds, by the number of the user or group.
pub open spec fn names_of(cache: Map<u32, String>) -> Map<u32, Seq<char>> {
    cache.map_values(|name: String| name@)
}

/// The text of a name that was looked up; one that was not found is empty.
pub open spec fn found_text(found: Option<String>) -> Seq<char> {
    match found {
        Some(name) => name@,
        None => Seq::empty(),
    }
}

/// The names after `id` was resolved: a name that is held stays, with all
/// the others; one that is not held is taken from what was looked up.
pub open spec fn resolved(names: Map<u32, Seq<char>>, id: u32, found: Seq<char>) -> Map<
    u32,
    Seq<char>,
> {
    if names.contains_key(id) {
        names
    } else {
        names.insert(id, found)
    }
}

/// Whether the name of `id` has yet to be looked up: the cache does not hold
/// it.
pub fn needs_lookup(cache: &HashMap<u32, String>, id: u32) -> (r: bool)
    ensures
        r == !names_of(cache@).contains_key(id),
{
    broadcast use vstd::std_specs::hash::group_hash_axioms;

    !cache.contains_key(&id)
}

/// Gives the name of `id`: the one that the cache holds, or else `found`,
/// which the cache then holds too. Nothing else in the cache changes.
pub fn resolve_name(cache: &mut HashMap<u32, String>, id: u32, found: Option<String>) -> (r: String)
    ensures
        names_of(final(cache)@) == resolved(names_of(old(cache)@), id, found_text(found)),
        r@ == names_of(final(cache)@)[id],
{
    broadcast use vstd::std_specs::hash::group_hash_axioms;

    let held = match cache.get(&id) {
        Some(name) => Some(name.clone()),
        None => None,
    };
    match held {
        Some(name) => name,
        None => {
            let name = match found {
                Some(name) => name,
                None => String::new(),
            };
            let r = name.clone();
            cache.insert(id, name);
            assert(names_of(cache@) =~= names_of(old(cache)@).insert(id, found_text(found)));
            r
        },
    }
}

/// Which names a detailed line still needs from the system: the owner's
/// where the cache of users lacks it, and the group's where the group is
/// shown and the cache of groups lacks it.
pub fn lookups_needed(
    users: &HashMap<u32, String>,
    groups: &HashMap<u32, String>,
    uid: u32,
    gid: u32,
    show_group: bool,
) -> (r: (bool, bool))
    ensures
        r.0 == !names_of(users@).contains_key(uid),
        r.1 == (show_group && !names_of(groups@).contains_key(gid)),
{
    (needs_lookup(users, uid), show_group && needs_lookup(groups, gid))
}

/// The owner and the group as a detailed line shows them, with the caches
/// brought up to date. The owner's name comes from the cache of users, or
/// from `user_found` where the cache lacks it. The group is the group's name
/// with a blank behind it, resolved in the same way, where the group is
/// shown; where it is not, the group is empty and the cache of groups is left
/// as it is.
pub fn owner_texts(
    users: &mut HashMap<u32, String>,
    groups: &mut HashMap<u32, String>,
    uid: u32,
    gid: u32,
    show_group: bool,
    user_found: Option<String>,
    group_found: Option<String>,
) -> (r: (String, String))
    ensures
        names_of(final(users)@) == resolved(names_of(old(users)@), uid, found_text(user_found)),
        r.0@ == names_of(final(users)@)[uid],
        show_group ==> names_of(final(groups)@) == resolved(
            names_of(old(groups)@),
            gid,
            found_text(group_found),
        ) && r.1@ == names_of(final(groups)@)[gid].push(' '),
        !show_group ==> final(groups)@ == old(groups)@ && r.1@ == Seq::<char>::empty(),
{
    let user = resolve_name(users, uid, user_found);
    let group = if show_group {
        let mut name = chars_of(resolve_name(groups, gid, group_found).as_str());
        name.push(' ');
        string_of(&name)
    } else {
        String::new()
    };
    (user, group)
}

} // verus!
