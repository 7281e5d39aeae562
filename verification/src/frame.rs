//! A file's content shown in a frame: a title between two rules, then the
//! lines behind their numbers.

use crate::listing::{centered, repeated, right_aligned};
use crate::model::texts;
use crate::text::{chars_of, decimal, decimal_chars, string_of};
use vstd::prelude::*;
use vstd::utf8::encode_utf8;

verus! {

/// The corner that opens the top rule.
pub open spec fn top_left() -> char {
    '\u{250F}'
}

/// The corner that closes the top rule.
pub open spec fn top_right() -> char {
    '\u{2513}'
}

/// The corner that opens a bottom rule.
pub open spec fn bottom_left() -> char {
    '\u{2517}'
}

/// The corner that closes a bottom rule.
pub open spec fn bottom_right() -> char {
    '\u{251B}'
}

/// The stroke of a rule.
pub open spec fn stroke() -> char {
    '\u{2501}'
}

/// The upright that borders a line.
pub open spec fn upright() -> char {
    '\u{2503}'
}

/// A rule: a corner, `width` strokes, a corner.
pub open spec fn rule(left: char, width: nat, right: char) -> Seq<char> {
    seq![left] + repeated(stroke(), width).push(right)
}

/// A line of content behind its number: the number at the right end of four
/// characters between two uprights, then the text.
pub open spec fn numbered_line(number: nat, text: Seq<char>) -> Seq<char> {
    seq![upright(), ' '] + right_aligned(decimal(number), 4, ' ') + seq![' ', upright(), ' ']
        + text
}

/// The lines of a file behind their numbers, counted from 1.
pub open spec fn numbered_lines(lines: Seq<Seq<char>>) -> Seq<Seq<char>> {
    Seq::new(lines.len(), |i: int| numbered_line((i + 1) as nat, lines[i]))
}

/// The title in the middle of its field, between two uprights.
pub open spec fn title_line(title: Seq<char>, width: nat) -> Seq<char> {
    seq![upright(), ' '] + centered(title, width, ' ') + seq![' ', upright()]
}

/// Appends a rule.
fn push_rule(v: &mut Vec<char>, left: char, width: usize, right: char)
    ensures
        final(v)@ == old(v)@ + rule(left, width as nat, right),
{
    let ghost start = v@;
    v.push(left);
    let mut i: usize = 0;
    assert(v@ =~= start + seq![left] + repeated(stroke(), 0));
    while i < width
        invariant
            i <= width,
            v@ == start + seq![left] + repeated(stroke(), i as nat),
        decreases width - i,
    {
        v.push('\u{2501}');
        assert(start + seq![left] + repeated(stroke(), (i + 1) as nat) =~= (start + seq![left]
            + repeated(stroke(), i as nat)).push(stroke()));
        i += 1;
    }
    v.push(right);
    assert(v@ =~= start + rule(left, width as nat, right));
}

/// The rule above the title of a frame that is `width` strokes wide.
pub fn top_rule(width: usize) -> (r: String)
    ensures
        r@ == rule(top_left(), width as nat, top_right()),
{
    let mut v: Vec<char> = Vec::new();
    push_rule(&mut v, '\u{250F}', width, '\u{2513}');
    assert(Seq::<char>::empty() + rule(top_left(), width as nat, top_right()) == rule(
        top_left(),
        width as nat,
        top_right(),
    ));
    string_of(&v)
}

/// The rule below the title or below the content.
pub fn bottom_rule(width: usize) -> (r: String)
    ensures
        r@ == rule(bottom_left(), width as nat, bottom_right()),
{
    let mut v: Vec<char> = Vec::new();
    push_rule(&mut v, '\u{2517}', width, '\u{251B}');
    assert(Seq::<char>::empty() + rule(bottom_left(), width as nat, bottom_right()) == rule(
        bottom_left(),
        width as nat,
        bottom_right(),
    ));
    string_of(&v)
}

/// The rule that ends the content of a frame that is open to the right.
pub fn end_rule(width: usize) -> (r: String)
    ensures
        r@ == rule(bottom_left(), width as nat, stroke()),
{
    let mut v: Vec<char> = Vec::new();
    push_rule(&mut v, '\u{2517}', width, '\u{2501}');
    assert(Seq::<char>::empty() + rule(bottom_left(), width as nat, stroke()) == rule(
        bottom_left(),
        width as nat,
        stroke(),
    ));
    string_of(&v)
}

/// The title in the middle of its field, between two uprights.
pub fn title(text: &str, width: usize) -> (r: String)
    ensures
        r@ == title_line(text@, width as nat),
{
    let mut v: Vec<char> = Vec::new();
    v.push('\u{2503}');
    v.push(' ');
    let mut middle = chars_of(crate::listing::center(text, width, ' ').as_str());
    v.append(&mut middle);
    v.push(' ');
    v.push('\u{2503}');
    assert(v@ =~= title_line(text@, width as nat));
    string_of(&v)
}

/// One line of content behind its number.
pub fn numbered(number: usize, text: &str) -> (r: String)
    ensures
        r@ == numbered_line(number as nat, text@),
{
    let digits = string_of(&decimal_chars(number as u64));
    let mut field = chars_of(crate::listing::align_right(digits.as_str(), 4, ' ').as_str());
    let mut t = chars_of(text);
    let mut v: Vec<char> = Vec::new();
    v.push('\u{2503}');
    v.push(' ');
    v.append(&mut field);
    v.push(' ');
    v.push('\u{2503}');
    v.push(' ');
    v.append(&mut t);
    assert(v@ =~= numbered_line(number as nat, text@));
    string_of(&v)
}

/// The lines of a file behind their numbers, counted from 1.
pub fn boxed_content(lines: &Vec<String>) -> (r: Vec<String>)
    ensures
        texts(r@) == numbered_lines(texts(lines@)),
{
    let mut out: Vec<String> = Vec::new();
    let mut i: usize = 0;
    while i < lines.len()
        invariant
            i <= lines.len(),
            out@.len() == i,
            forall|k: int|
                0 <= k < i ==> (#[trigger] out@[k])@ == numbered_line(
                    (k + 1) as nat,
                    lines@[k]@,
                ),
        decreases lines.len() - i,
    {
        out.push(numbered(i + 1, lines[i].as_str()));
        i += 1;
    }
    assert(texts(out@) =~= numbered_lines(texts(lines@)));
    out
}

/// The length of a text in bytes, as the machine counts it.
pub open spec fn byte_len(text: Seq<char>) -> nat {
    (encode_utf8(text).len() as usize) as nat
}

/// The greatest length in bytes among the lines; 0 where there is none.
pub open spec fn widest_line(lines: Seq<Seq<char>>) -> nat
    decreases lines.len(),
{
    if lines.len() == 0 {
        0
    } else {
        let rest = widest_line(lines.drop_last());
        let last = byte_len(lines.last());
        if last > rest {
            last
        } else {
            rest
        }
    }
}

/// The greatest length in bytes among the lines.
pub fn widest(lines: &Vec<String>) -> (w: usize)
    ensures
        w == widest_line(texts(lines@)),
{
    let mut w: usize = 0;
    let mut i: usize = 0;
    let ghost all = texts(lines@);
    while i < lines.len()
        invariant
            i <= lines.len(),
            all == texts(lines@),
            w == widest_line(all.take(i as int)),
        decreases lines.len() - i,
    {
        proof {
            assert(all.take(i + 1).drop_last() == all.take(i as int));
            assert(all.take(i + 1).last() == lines@[i as int]@);
        }
        let n = lines[i].as_str().len();
        if n > w {
            w = n;
        }
        i += 1;
    }
    assert(all.take(i as int) == all);
    w
}

/// The width of a frame that fits the lines: four more than the widest line,
/// or `None` where that is more than the machine can count.
pub fn fitting_width(lines: &Vec<String>) -> (r: Option<usize>)
    ensures
        r is Some <==> widest_line(texts(lines@)) + 4 <= usize::MAX,
        r is Some ==> r->Some_0 == widest_line(texts(lines@)) + 4,
{
    let w = widest(lines);
    if w > usize::MAX - 4 {
        None
    } else {
        Some(w + 4)
    }
}

/// The widths of a frame that is made for a terminal.
#[derive(Clone, Copy, Debug, PartialEq, Eq)]
pub struct FrameWidths {
    /// The strokes of the rules above and below the title.
    pub rule: usize,
    /// The field in which the title is centered.
    pub title: usize,
    /// The strokes of the rule that ends the content.
    pub end: usize,
}

/// The least terminal width in which a frame has room.
pub open spec fn least_terminal() -> nat {
    17
}

/// The widths of the frame for a terminal of `columns` columns: the title's
/// field is 17 narrower than the terminal, the rules around it 15, and the
/// rule that ends the content 10. A terminal of fewer than 17 columns has no
/// room for a frame.
pub fn frame_widths(columns: usize) -> (r: Option<FrameWidths>)
    ensures
        r is Some <==> columns >= least_terminal(),
        r matches Some(w) ==> w.rule == columns - 15 && w.title == columns - 17 && w.end
            == columns - 10,
{
    if columns < 17 {
        None
    } else {
        Some(FrameWidths { rule: columns - 15, title: columns - 17, end: columns - 10 })
    }
}

} // verus!
