//! Paths as text: joining a directory and an entry name, the prefix rule by
//! which directories are excluded, and the split into parent and file name.

use crate::text::{chars_of, chars_start_with, has_char_prefix, string_of};
use vstd::prelude::*;

verus! {

/// The character that separates the segments of a path.
pub open spec fn separator() -> char {
    '/'
}

/// The path of the entry `name` inside the directory `parent`.
pub open spec fn join(parent: Seq<char>, name: Seq<char>) -> Seq<char> {
    if parent.len() == 0 {
        name
    } else if parent.last() == separator() {
        parent + name
    } else {
        parent.push(separator()) + name
    }
}

/// `path` is `base` itself or lies below it: `base` is an initial run of
/// `path` that ends at a segment boundary. The empty base lies above every
/// path.
pub open spec fn under(path: Seq<char>, base: Seq<char>) -> bool {
    &&& has_char_prefix(path, base)
    &&& (base.len() == 0 || path.len() == base.len() || base.last() == separator()
        || path[base.len() as int] == separator())
}

/// The index of the last separator of `path`, or -1 where it has none.
pub open spec fn last_separator(path: Seq<char>) -> int
    decreases path.len(),
{
    if path.len() == 0 {
        -1
    } else if path.last() == separator() {
        path.len() - 1
    } else {
        last_separator(path.drop_last())
    }
}

/// What stands before the last separator of `path`: the empty text where
/// there is none.
pub open spec fn parent_of(path: Seq<char>) -> Seq<char> {
    if last_separator(path) < 0 {
        Seq::empty()
    } else {
        path.take(last_separator(path))
    }
}

/// What stands after the last separator of `path`: the whole of `path` where
/// there is none.
pub open spec fn file_name_of(path: Seq<char>) -> Seq<char> {
    path.skip(last_separator(path) + 1)
}

/// A name of one segment: it holds no separator.
pub open spec fn is_plain_name(name: Seq<char>) -> bool {
    forall|i: int| 0 <= i < name.len() ==> #[trigger] name[i] != separator()
}

/// The last separator is a separator, and none follows it.
pub proof fn lemma_last_separator(path: Seq<char>)
    ensures
        -1 <= last_separator(path) < path.len(),
        last_separator(path) >= 0 ==> path[last_separator(path)] == separator(),
        forall|i: int| last_separator(path) < i < path.len() ==> #[trigger] path[i] != separator(),
    decreases path.len(),
{
    if path.len() > 0 && path.last() != separator() {
        lemma_last_separator(path.drop_last());
        assert forall|i: int| last_separator(path) < i < path.len() implies #[trigger] path[i]
            != separator() by {
            if i < path.len() - 1 {
                assert(path.drop_last()[i] == path[i]);
            }
        }
    }
}

/// Appending a plain name after a separator leaves that separator the last.
pub proof fn lemma_last_separator_append(head: Seq<char>, name: Seq<char>)
    requires
        is_plain_name(name),
    ensures
        last_separator(head.push(separator()) + name) == head.len(),
    decreases name.len(),
{
    let whole = head.push(separator()) + name;
    if name.len() == 0 {
        assert(whole == head.push(separator()));
    } else {
        assert(whole.last() == name.last());
        assert(whole.drop_last() == head.push(separator()) + name.drop_last());
        lemma_last_separator_append(head, name.drop_last());
    }
}

/// Splitting a joined path gives back the directory and the entry name, where
/// the name is plain and the directory is not empty and does not end with a
/// separator.
pub proof fn lemma_split_join(parent: Seq<char>, name: Seq<char>)
    requires
        is_plain_name(name),
        parent.len() > 0,
        parent.last() != separator(),
    ensures
        parent_of(join(parent, name)) == parent,
        file_name_of(join(parent, name)) == name,
{
    lemma_last_separator_append(parent, name);
    let whole = parent.push(separator()) + name;
    assert(whole.take(parent.len() as int) == parent);
    assert(whole.skip(parent.len() as int + 1) == name);
}

/// What lies under a base stays under it one level further down.
pub proof fn lemma_under_join(path: Seq<char>, name: Seq<char>, base: Seq<char>)
    requires
        under(path, base),
        path.len() > 0,
    ensures
        under(join(path, name), base),
{
    let whole = join(path, name);
    assert(whole.subrange(0, base.len() as int) == path.subrange(0, base.len() as int));
    if base.len() > 0 && path.len() == base.len() {
        assert(path.subrange(0, base.len() as int) == path);
    }
}

/// Joins a directory path and an entry name.
pub fn join_path(parent: &str, name: &str) -> (r: String)
    ensures
        r@ == join(parent@, name@),
{
    let mut p = chars_of(parent);
    let mut n = chars_of(name);
    if p.len() == 0 {
        return string_of(&n);
    }
    if p[p.len() - 1] != '/' {
        p.push('/');
    }
    p.append(&mut n);
    string_of(&p)
}

/// Whether `path` is `base` or lies below it.
pub fn chars_under(path: &Vec<char>, base: &Vec<char>) -> (r: bool)
    ensures
        r == under(path@, base@),
{
    if !chars_start_with(path, base) {
        return false;
    }
    base.len() == 0 || path.len() == base.len() || base[base.len() - 1] == '/' || path[base.len()]
        == '/'
}

/// Whether `path` is `base` or lies below it.
pub fn is_under(path: &str, base: &str) -> (r: bool)
    ensures
        r == under(path@, base@),
{
    let p = chars_of(path);
    let b = chars_of(base);
    chars_under(&p, &b)
}

/// Splits a path at its last separator into what stands before it and what
/// stands after it.
pub fn split_path(path: &str) -> (r: (String, String))
    ensures
        r.0@ == parent_of(path@),
        r.1@ == file_name_of(path@),
{
    let p = chars_of(path);
    let mut cut: usize = p.len();
    assert(p@.take(cut as int) == p@);
    while cut > 0 && p[cut - 1] != '/'
        invariant
            cut <= p.len(),
            last_separator(p@) == last_separator(p@.take(cut as int)),
        decreases cut,
    {
        assert(p@.take(cut as int).drop_last() == p@.take(cut - 1));
        cut -= 1;
    }
    proof {
        assert(p@.take(p.len() as int) == p@);
        if cut > 0 {
            assert(p@.take(cut as int).last() == separator());
        }
    }
    let mut parent: Vec<char> = Vec::new();
    let mut name: Vec<char> = Vec::new();
    let mut i: usize = 0;
    while i < p.len()
        invariant
            i <= p.len(),
            cut <= p.len(),
            i + 1 < cut ==> parent@ == p@.take(i as int) && name@.len() == 0,
            i + 1 >= cut ==> parent@ == p@.take(if cut == 0 {
                0
            } else {
                cut - 1
            }),
            i < cut ==> name@.len() == 0,
            i >= cut ==> name@ == p@.subrange(cut as int, i as int),
        decreases p.len() - i,
    {
        if i + 1 < cut {
            parent.push(p[i]);
        } else if i >= cut {
            name.push(p[i]);
        }
        i += 1;
    }
    assert(name@ == p@.skip(cut as int));
    (string_of(&parent), string_of(&name))
}

} // verus!
