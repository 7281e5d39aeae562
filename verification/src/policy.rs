//! The traversal policy: which directories are entered and which entries are
//! passed over.

use crate::model::texts;
use crate::path::{chars_under, under};
use crate::text::{chars_of, owned};
use vstd::prelude::*;

verus! {

/// The immutable configuration that every task of one traversal shares.
#[derive(Clone, Debug, PartialEq, Eq)]
pub struct Options {
    /// Whether directories whose name begins with the hidden marker are
    /// entered.
    pub hidden_folders: bool,
    /// The greatest depth of a directory whose subdirectories are entered;
    /// `None` sets no limit.
    pub max_depth: Option<usize>,
    /// Paths that are never entered, nor anything below them.
    pub excluded: Vec<String>,
    /// Whether entries marked read-only are passed over.
    pub skip_readonly: bool,
}

/// The view of `Options`.
pub struct OptionsView {
    pub hidden_folders: bool,
    pub max_depth: Option<nat>,
    pub excluded: Seq<Seq<char>>,
    pub skip_readonly: bool,
}

impl View for Options {
    type V = OptionsView;

    open spec fn view(&self) -> OptionsView {
        OptionsView {
            hidden_folders: self.hidden_folders,
            max_depth: match self.max_depth {
                Some(d) => Some(d as nat),
                None => None,
            },
            excluded: texts(self.excluded@),
            skip_readonly: self.skip_readonly,
        }
    }
}

/// The character that marks a name as hidden.
pub open spec fn hidden_marker() -> char {
    '.'
}

/// A name that begins with the hidden marker.
pub open spec fn is_hidden_name(name: Seq<char>) -> bool {
    name.len() > 0 && name[0] == hidden_marker()
}

/// The pseudo-filesystems that are excluded unless the caller says otherwise:
/// they are virtual, huge, or change while they are read.
pub open spec fn default_excluded() -> Seq<Seq<char>> {
    seq!["/proc"@, "/sys"@, "/dev"@, "/run"@, "/tmp"@, "/var/run"@]
}

/// `path` is one of the excluded paths or lies below one.
pub open spec fn is_excluded(o: OptionsView, path: Seq<char>) -> bool {
    exists|i: int| 0 <= i < o.excluded.len() && under(path, #[trigger] o.excluded[i])
}

/// Whether a directory called `name`, found by a task at `depth`, is entered:
/// it is not hidden or hidden directories are allowed, and the depth limit
/// has not been reached. A task's depth is a machine integer and so cannot
/// pass `usize::MAX`.
pub open spec fn may_descend(o: OptionsView, name: Seq<char>, depth: nat) -> bool {
    &&& o.hidden_folders || !is_hidden_name(name)
    &&& match o.max_depth {
        Some(max) => depth < max,
        None => true,
    }
    &&& depth < usize::MAX
}

/// Whether a name begins with the hidden marker.
pub fn is_hidden(name: &str) -> (r: bool)
    ensures
        r == is_hidden_name(name@),
{
    let n = chars_of(name);
    n.len() > 0 && n[0] == '.'
}

impl Options {
    /// The policy of a search that skips read-only entries and the default
    /// pseudo-filesystems.
    pub fn new(hidden_folders: bool, max_depth: Option<usize>) -> (r: Options)
        ensures
            r.hidden_folders == hidden_folders,
            r.max_depth == max_depth,
            r.skip_readonly,
            r@.excluded == default_excluded(),
    {
        let mut excluded: Vec<String> = Vec::new();
        excluded.push(owned("/proc"));
        excluded.push(owned("/sys"));
        excluded.push(owned("/dev"));
        excluded.push(owned("/run"));
        excluded.push(owned("/tmp"));
        excluded.push(owned("/var/run"));
        assert(texts(excluded@) =~= default_excluded());
        Options { hidden_folders, max_depth, excluded, skip_readonly: true }
    }

    /// The policy that prunes nothing: hidden directories are entered, there
    /// is no depth limit, nothing is excluded and read-only entries count.
    pub fn unrestricted() -> (r: Options)
        ensures
            r.hidden_folders,
            r.max_depth is None,
            !r.skip_readonly,
            r@.excluded == Seq::<Seq<char>>::empty(),
    {
        let excluded: Vec<String> = Vec::new();
        assert(texts(excluded@) =~= Seq::<Seq<char>>::empty());
        Options { hidden_folders: true, max_depth: None, excluded, skip_readonly: false }
    }

    /// The same policy with another set of excluded paths.
    pub fn with_excluded(self, excluded: Vec<String>) -> (r: Options)
        ensures
            r.hidden_folders == self.hidden_folders,
            r.max_depth == self.max_depth,
            r.skip_readonly == self.skip_readonly,
            r.excluded == excluded,
    {
        Options {
            hidden_folders: self.hidden_folders,
            max_depth: self.max_depth,
            excluded,
            skip_readonly: self.skip_readonly,
        }
    }

    /// The same policy with the read-only rule switched on or off.
    pub fn with_skip_readonly(self, skip_readonly: bool) -> (r: Options)
        ensures
            r.hidden_folders == self.hidden_folders,
            r.max_depth == self.max_depth,
            r.skip_readonly == skip_readonly,
            r.excluded == self.excluded,
    {
        Options {
            hidden_folders: self.hidden_folders,
            max_depth: self.max_depth,
            excluded: self.excluded,
            skip_readonly,
        }
    }

    /// Whether `path` is one of the excluded paths or lies below one.
    pub fn excludes(&self, path: &str) -> (r: bool)
        ensures
            r == is_excluded(self@, path@),
    {
        let p = chars_of(path);
        let mut i: usize = 0;
        while i < self.excluded.len()
            invariant
                i <= self.excluded.len(),
                p@ == path@,
                forall|k: int| 0 <= k < i ==> !under(path@, #[trigger] self@.excluded[k]),
            decreases self.excluded.len() - i,
        {
            let base = chars_of(self.excluded[i].as_str());
            if chars_under(&p, &base) {
                assert(under(path@, self@.excluded[i as int]));
                return true;
            }
            i += 1;
        }
        false
    }

    /// Whether a directory called `name`, found by a task at `depth`, is
    /// entered.
    pub fn descends(&self, name: &str, depth: usize) -> (r: bool)
        ensures
            r == may_descend(self@, name@, depth as nat),
    {
        if !self.hidden_folders && is_hidden(name) {
            return false;
        }
        if depth == usize::MAX {
            return false;
        }
        match self.max_depth {
            Some(max) => depth < max,
            None => true,
        }
    }
}

} // verus!
