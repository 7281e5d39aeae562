//! What is shown to the user: the line of a found file, the grouped output of
//! a content search, sizes scaled to binary units, and permission flags.

use crate::model::{texts, MatchResult, MatchView};
use crate::path::{file_name_of, parent_of, separator, split_path};
use crate::text::{chars_of, decimal, decimal_chars, digit_char, same_text, string_of};
use vstd::prelude::*;

verus! {

/// The line that shows a found file: its directory, a separator, its name.
pub open spec fn found_line(path: Seq<char>) -> Seq<char> {
    parent_of(path).push(separator()) + file_name_of(path)
}

/// The line that shows a found file.
pub fn display_line(path: &str) -> (r: String)
    ensures
        r@ == found_line(path@),
{
    let (parent, name) = split_path(path);
    let mut v = chars_of(parent.as_str());
    let mut n = chars_of(name.as_str());
    v.push('/');
    v.append(&mut n);
    string_of(&v)
}

/// The header line of a file with matches: its path and a colon.
pub open spec fn header_line(path: Seq<char>) -> Seq<char> {
    path.push(':')
}

/// The line of one match: the line number, a colon, a blank, the text.
pub open spec fn match_line(line_number: nat, text: Seq<char>) -> Seq<char> {
    decimal(line_number).push(':').push(' ') + text
}

/// The path of the file whose matches are being shown, if any.
pub open spec fn shown_after(current: Option<Seq<char>>, r: MatchView) -> Option<Seq<char>> {
    match r {
        MatchView::FileHeader { path } => Some(path),
        MatchView::LineMatch { path, .. } => Some(path),
        _ => current,
    }
}

/// The lines that a record adds to the output where the matches of
/// `current` are being shown: a header opens a file; a line match is shown
/// under its own file's header, which is repeated where another file's
/// matches came between; a found path gets its line; a size adds nothing.
pub open spec fn shown_lines(current: Option<Seq<char>>, r: MatchView) -> Seq<Seq<char>> {
    match r {
        MatchView::FileHeader { path } => seq![header_line(path)],
        MatchView::LineMatch { path, line_number, text } => if current == Some(path) {
            seq![match_line(line_number, text)]
        } else {
            seq![header_line(path), match_line(line_number, text)]
        },
        MatchView::PathMatch { path } => seq![found_line(path)],
        MatchView::SizeContribution { .. } => Seq::empty(),
    }
}

/// The single consumer of a result stream that turns records into lines.
#[derive(Clone, Debug, PartialEq, Eq)]
pub struct Aggregator {
    /// The path of the file whose matches are being shown.
    pub current: Option<String>,
}

impl View for Aggregator {
    type V = Option<Seq<char>>;

    open spec fn view(&self) -> Option<Seq<char>> {
        match self.current {
            Some(p) => Some(p@),
            None => None,
        }
    }
}

/// The header line of a file.
fn header_text(path: &str) -> (r: String)
    ensures
        r@ == header_line(path@),
{
    let mut v = chars_of(path);
    v.push(':');
    string_of(&v)
}

/// The line of one match.
fn match_text(line_number: usize, text: &str) -> (r: String)
    ensures
        r@ == match_line(line_number as nat, text@),
{
    let mut v = decimal_chars(line_number as u64);
    let mut t = chars_of(text);
    v.push(':');
    v.push(' ');
    v.append(&mut t);
    string_of(&v)
}

impl Aggregator {
    /// An aggregator that has shown nothing yet.
    pub fn new() -> (r: Aggregator)
        ensures
            r@ is None,
    {
        Aggregator { current: None }
    }

    /// Takes in the next record and gives the lines to print for it.
    pub fn accept(&mut self, record: &MatchResult) -> (lines: Vec<String>)
        ensures
            final(self)@ == shown_after(old(self)@, record@),
            texts(lines@) == shown_lines(old(self)@, record@),
    {
        let mut lines: Vec<String> = Vec::new();
        match record {
            MatchResult::FileHeader { path } => {
                lines.push(header_text(path.as_str()));
                self.current = Some(path.clone());
            },
            MatchResult::LineMatch { path, line_number, text } => {
                let same = match &self.current {
                    Some(p) => same_text(p.as_str(), path.as_str()),
                    None => false,
                };
                if !same {
                    lines.push(header_text(path.as_str()));
                }
                lines.push(match_text(*line_number, text.as_str()));
                self.current = Some(path.clone());
            },
            MatchResult::PathMatch { path } => {
                lines.push(display_line(path.as_str()));
            },
            MatchResult::SizeContribution { .. } => {},
        }
        assert(texts(lines@) =~= shown_lines(old(self)@, record@));
        lines
    }
}

/// The size of the unit with the given index in bytes: 1024 to its power.
pub open spec fn unit_size(k: nat) -> nat {
    if k == 0 {
        1
    } else if k == 1 {
        1024
    } else if k == 2 {
        1048576
    } else if k == 3 {
        1073741824
    } else if k == 4 {
        1099511627776
    } else if k == 5 {
        1125899906842624
    } else if k == 6 {
        1152921504606846976
    } else {
        1180591620717411303424
    }
}

/// The letter of the unit with the given index.
pub open spec fn unit_letter(k: nat) -> char {
    if k == 0 {
        'B'
    } else if k == 1 {
        'K'
    } else if k == 2 {
        'M'
    } else if k == 3 {
        'G'
    } else if k == 4 {
        'T'
    } else if k == 5 {
        'P'
    } else if k == 6 {
        'E'
    } else {
        'Z'
    }
}

/// Whether a size is too large for the unit below `limit`: it exceeds the
/// limit, or, where `inclusive` is set, reaches it.
pub open spec fn too_large(total: nat, limit: nat, inclusive: bool) -> bool {
    if inclusive {
        total >= limit
    } else {
        total > limit
    }
}

/// The index of the unit in which a size is shown, searched from `k` up: the
/// first unit for which the size is not too large, or the last there is.
pub open spec fn unit_index_from(total: nat, inclusive: bool, k: nat) -> nat
    decreases 7 - k,
{
    if k >= 7 {
        7
    } else if too_large(total, unit_size(k + 1), inclusive) {
        unit_index_from(total, inclusive, k + 1)
    } else {
        k
    }
}

/// The size in tenths of the unit with index `k`, rounded to the nearest
/// tenth, and to the even one where two are equally near.
pub open spec fn rounded_tenths(total: nat, k: nat) -> nat {
    let d = unit_size(k);
    let q = (10 * total) / d;
    let r = (10 * total) % d;
    if 2 * r > d || (2 * r == d && q % 2 == 1) {
        q + 1
    } else {
        q
    }
}

/// A size scaled to the unit with index `k`, with one decimal place and the
/// unit's letter.
pub open spec fn scaled_text(total: nat, k: nat) -> Seq<char> {
    let t = rounded_tenths(total, k);
    decimal(t / 10).push('.').push(digit_char((t % 10) as int)).push(unit_letter(k))
}

/// The line that reports a disk-usage total: the size steps to the next unit
/// once it exceeds 1024 of the present one.
pub open spec fn size_line(total: nat) -> Seq<char> {
    "Size: "@ + scaled_text(total, unit_index_from(total, false, 0))
}

/// A size for a listing: it steps to the next unit once it reaches 1024 of
/// the present one, and a blank follows the unit.
pub open spec fn human_size(total: nat) -> Seq<char> {
    scaled_text(total, unit_index_from(total, true, 0)).push(' ')
}

/// The size of a unit in bytes.
fn unit_size_of(k: usize) -> (d: u128)
    ensures
        d == unit_size(k as nat),
        d >= 1,
{
    if k == 0 {
        1
    } else if k == 1 {
        1024
    } else if k == 2 {
        1048576
    } else if k == 3 {
        1073741824
    } else if k == 4 {
        1099511627776
    } else if k == 5 {
        1125899906842624
    } else if k == 6 {
        1152921504606846976
    } else {
        1180591620717411303424
    }
}

/// The letter of a unit.
fn unit_letter_of(k: usize) -> (c: char)
    ensures
        c == unit_letter(k as nat),
{
    if k == 0 {
        'B'
    } else if k == 1 {
        'K'
    } else if k == 2 {
        'M'
    } else if k == 3 {
        'G'
    } else if k == 4 {
        'T'
    } else if k == 5 {
        'P'
    } else if k == 6 {
        'E'
    } else {
        'Z'
    }
}

/// The index of the unit in which a size is shown.
pub fn unit_index(total: u64, inclusive: bool) -> (k: usize)
    ensures
        k == unit_index_from(total as nat, inclusive, 0),
        k <= 7,
{
    let mut k: usize = 0;
    while k < 7
        invariant
            k <= 7,
            unit_index_from(total as nat, inclusive, k as nat) == unit_index_from(
                total as nat,
                inclusive,
                0,
            ),
        decreases 7 - k,
    {
        let limit = unit_size_of(k + 1);
        let over = if inclusive {
            total as u128 >= limit
        } else {
            total as u128 > limit
        };
        if !over {
            return k;
        }
        k += 1;
    }
    k
}

/// A size scaled to the unit with index `k`, with one decimal place and the
/// unit's letter.
pub fn scaled_chars(total: u64, k: usize) -> (v: Vec<char>)
    ensures
        v@ == scaled_text(total as nat, k as nat),
{
    let d = unit_size_of(k);
    let num: u128 = 10 * (total as u128);
    let q = num / d;
    let r = num % d;
    assert(q <= num) by (nonlinear_arith)
        requires
            q == num / d,
            d >= 1,
            num >= 0,
    ;
    let t: u128 = if 2 * r > d || (2 * r == d && q % 2 == 1) {
        q + 1
    } else {
        q
    };
    let whole = (t / 10) as u64;
    let tenth = (t % 10) as u64;
    let mut v = decimal_chars(whole);
    v.push('.');
    let mut digit = decimal_chars(tenth);
    assert(digit@ == seq![digit_char(tenth as int)]);
    v.append(&mut digit);
    v.push(unit_letter_of(k));
    assert(v@ =~= scaled_text(total as nat, k as nat));
    v
}

/// The line that reports a disk-usage total.
pub fn format_size(total: u64) -> (r: String)
    ensures
        r@ == size_line(total as nat),
{
    let k = unit_index(total, false);
    let mut v = chars_of("Size: ");
    let mut s = scaled_chars(total, k);
    v.append(&mut s);
    string_of(&v)
}

/// A size for a listing.
pub fn human_format(size: u64) -> (r: String)
    ensures
        r@ == human_size(size as nat),
{
    let k = unit_index(size, true);
    let mut v = scaled_chars(size, k);
    v.push(' ');
    string_of(&v)
}

/// One permission flag: the letter where the bit is set, a dash where not.
pub open spec fn flag(mode: u32, bit: u32, letter: char) -> char {
    if mode & bit != 0 {
        letter
    } else {
        '-'
    }
}

/// The nine permission flags of a mode: read, write and execute for the
/// owner, the group and the others.
pub open spec fn permission_flags(mode: u32) -> Seq<char> {
    seq![
        flag(mode, 0o400, 'r'),
        flag(mode, 0o200, 'w'),
        flag(mode, 0o100, 'x'),
        flag(mode, 0o040, 'r'),
        flag(mode, 0o020, 'w'),
        flag(mode, 0o010, 'x'),
        flag(mode, 0o004, 'r'),
        flag(mode, 0o002, 'w'),
        flag(mode, 0o001, 'x'),
    ]
}

/// One permission flag.
fn flag_of(mode: u32, bit: u32, letter: char) -> (c: char)
    ensures
        c == flag(mode, bit, letter),
{
    if mode & bit != 0 {
        letter
    } else {
        '-'
    }
}

/// The nine permission flags of a mode.
pub fn ugo_mode(mode: u32) -> (r: String)
    ensures
        r@ == permission_flags(mode),
{
    let mut v: Vec<char> = Vec::new();
    v.push(flag_of(mode, 0o400, 'r'));
    v.push(flag_of(mode, 0o200, 'w'));
    v.push(flag_of(mode, 0o100, 'x'));
    v.push(flag_of(mode, 0o040, 'r'));
    v.push(flag_of(mode, 0o020, 'w'));
    v.push(flag_of(mode, 0o010, 'x'));
    v.push(flag_of(mode, 0o004, 'r'));
    v.push(flag_of(mode, 0o002, 'w'));
    v.push(flag_of(mode, 0o001, 'x'));
    assert(v@ =~= permission_flags(mode));
    string_of(&v)
}

} // verus!
