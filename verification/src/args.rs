//! The command lines of the file finder and of the content search.

use crate::policy::{default_excluded, Options};
use crate::text::{numeral_value, owned, parse_usize, same_text};
use vstd::prelude::*;

verus! {

/// Why a command line was refused.
#[derive(Clone, Copy, Debug, PartialEq, Eq)]
pub enum ArgError {
    /// An argument is missing: the usage message is due.
    Usage,
    /// The depth limit is no number that fits the machine.
    InvalidDepth,
}

/// What the file finder was asked for.
#[derive(Clone, Debug, PartialEq, Eq)]
pub struct FindArgs {
    /// The substring that file names are searched for.
    pub file_name: String,
    /// The directory where the search starts.
    pub start_dir: String,
    /// Whether hidden directories are entered.
    pub hidden_folders: bool,
    /// The depth limit, if one was given.
    pub max_depth: Option<usize>,
}

/// The view of `FindArgs`.
pub struct FindArgsView {
    pub file_name: Seq<char>,
    pub start_dir: Seq<char>,
    pub hidden_folders: bool,
    pub max_depth: Option<nat>,
}

impl View for FindArgs {
    type V = FindArgsView;

    open spec fn view(&self) -> FindArgsView {
        FindArgsView {
            file_name: self.file_name@,
            start_dir: self.start_dir@,
            hidden_folders: self.hidden_folders,
            max_depth: match self.max_depth {
                Some(d) => Some(d as nat),
                None => None,
            },
        }
    }
}

/// What the finder starts from: no substring, the current directory, hidden
/// directories skipped, no depth limit.
pub open spec fn find_defaults() -> FindArgsView {
    FindArgsView {
        file_name: Seq::empty(),
        start_dir: "."@,
        hidden_folders: false,
        max_depth: None,
    }
}

/// Reads the finder's arguments from position `i` on. `-H` allows hidden
/// directories; `-max-depth` takes the next argument as the depth limit; any
/// other argument is the substring while that is still empty, and the start
/// directory after that.
pub open spec fn find_from(args: Seq<Seq<char>>, i: int, acc: FindArgsView) -> Result<
    FindArgsView,
    ArgError,
>
    decreases args.len() - i,
{
    if i < 0 || i >= args.len() {
        Ok(acc)
    } else if args[i] == "-H"@ {
        find_from(args, i + 1, FindArgsView { hidden_folders: true, ..acc })
    } else if args[i] == "-max-depth"@ {
        if i + 1 >= args.len() {
            Err(ArgError::Usage)
        } else {
            match numeral_value(args[i + 1]) {
                Some(n) => if n <= usize::MAX {
                    find_from(args, i + 2, FindArgsView { max_depth: Some(n), ..acc })
                } else {
                    Err(ArgError::InvalidDepth)
                },
                None => Err(ArgError::InvalidDepth),
            }
        }
    } else if acc.file_name.len() == 0 {
        find_from(args, i + 1, FindArgsView { file_name: args[i], ..acc })
    } else {
        find_from(args, i + 1, FindArgsView { start_dir: args[i], ..acc })
    }
}

/// What the finder's command line asks for; the first argument is the
/// program's name, and at least one more is needed.
pub open spec fn find_args(args: Seq<Seq<char>>) -> Result<FindArgsView, ArgError> {
    if args.len() < 2 {
        Err(ArgError::Usage)
    } else {
        find_from(args, 1, find_defaults())
    }
}

/// The views of the arguments.
pub open spec fn arg_texts(args: Seq<String>) -> Seq<Seq<char>> {
    args.map_values(|a: String| a@)
}

impl FindArgs {
    /// Reads the finder's command line.
    pub fn parse(args: &Vec<String>) -> (r: Result<FindArgs, ArgError>)
        ensures
            match find_args(arg_texts(args@)) {
                Ok(v) => r is Ok && r->Ok_0@ == v,
                Err(e) => r == Err::<FindArgs, ArgError>(e),
            },
    {
        if args.len() < 2 {
            return Err(ArgError::Usage);
        }
        let mut found = FindArgs {
            file_name: String::new(),
            start_dir: owned("."),
            hidden_folders: false,
            max_depth: None,
        };
        let ghost all = arg_texts(args@);
        let mut i: usize = 1;
        while i < args.len()
            invariant
                1 <= i <= args.len(),
                all == arg_texts(args@),
                find_from(all, i as int, found@) == find_args(all),
            decreases args.len() - i,
        {
            let arg = args[i].as_str();
            assert(all[i as int] == arg@);
            if same_text(arg, "-H") {
                found.hidden_folders = true;
                i += 1;
            } else if same_text(arg, "-max-depth") {
                if i + 1 >= args.len() {
                    return Err(ArgError::Usage);
                }
                assert(all[i + 1] == args@[i + 1]@);
                match parse_usize(args[i + 1].as_str()) {
                    Some(n) => {
                        found.max_depth = Some(n);
                    },
                    None => {
                        return Err(ArgError::InvalidDepth);
                    },
                }
                i += 2;
            } else if found.file_name.as_str().is_empty() {
                found.file_name = owned(arg);
                i += 1;
            } else {
                found.start_dir = owned(arg);
                i += 1;
            }
        }
        Ok(found)
    }

    /// The policy that these arguments ask for: read-only entries and the
    /// default pseudo-filesystems are passed over.
    pub fn options(&self) -> (r: Options)
        ensures
            r.hidden_folders == self.hidden_folders,
            r.max_depth == self.max_depth,
            r.skip_readonly,
            r@.excluded == default_excluded(),
    {
        Options::new(self.hidden_folders, self.max_depth)
    }
}

/// What the content search was asked for.
#[derive(Clone, Debug, PartialEq, Eq)]
pub struct Config {
    /// The regular expression.
    pub pattern: String,
    /// The file or directory to search.
    pub path: String,
    /// Whether subdirectories are entered.
    pub recursive: bool,
    /// Whether the expression is matched without regard to case.
    pub ignore_case: bool,
}

/// The view of `Config`.
pub struct ConfigView {
    pub pattern: Seq<char>,
    pub path: Seq<char>,
    pub recursive: bool,
    pub ignore_case: bool,
}

impl View for Config {
    type V = ConfigView;

    open spec fn view(&self) -> ConfigView {
        ConfigView {
            pattern: self.pattern@,
            path: self.path@,
            recursive: self.recursive,
            ignore_case: self.ignore_case,
        }
    }
}

/// Reads the search's arguments from position `i` on. `-r` and `-i` set
/// their flags; any other argument is the pattern while that is still empty,
/// and the path after that.
pub open spec fn search_from(args: Seq<Seq<char>>, i: int, acc: ConfigView) -> ConfigView
    decreases args.len() - i,
{
    if i < 0 || i >= args.len() {
        acc
    } else if args[i] == "-r"@ {
        search_from(args, i + 1, ConfigView { recursive: true, ..acc })
    } else if args[i] == "-i"@ {
        search_from(args, i + 1, ConfigView { ignore_case: true, ..acc })
    } else if acc.pattern.len() == 0 {
        search_from(args, i + 1, ConfigView { pattern: args[i], ..acc })
    } else {
        search_from(args, i + 1, ConfigView { path: args[i], ..acc })
    }
}

/// What the search starts from: nothing set.
pub open spec fn search_defaults() -> ConfigView {
    ConfigView {
        pattern: Seq::empty(),
        path: Seq::empty(),
        recursive: false,
        ignore_case: false,
    }
}

/// What all the arguments behind the program's name ask for.
pub open spec fn search_args(args: Seq<Seq<char>>) -> ConfigView {
    search_from(args, 1, search_defaults())
}

/// The message for a command line with fewer than three arguments.
pub open spec fn not_enough_arguments() -> Seq<char> {
    "Not enough arguments provided"@
}

/// The message for a command line without a pattern or without a path.
pub open spec fn pattern_or_path_missing() -> Seq<char> {
    "Pattern or path missing"@
}

impl Config {
    /// Reads the search's command line. It is refused where it holds fewer
    /// than three arguments, the program's name counted, and where it names
    /// no pattern or no path.
    pub fn from_args(args: &[String]) -> (r: Result<Config, &'static str>)
        ensures
            args@.len() < 3 ==> r is Err && r->Err_0@ == not_enough_arguments(),
            args@.len() >= 3 && (search_args(arg_texts(args@)).pattern.len() == 0 || search_args(
                arg_texts(args@),
            ).path.len() == 0) ==> r is Err && r->Err_0@ == pattern_or_path_missing(),
            args@.len() >= 3 && search_args(arg_texts(args@)).pattern.len() > 0 && search_args(
                arg_texts(args@),
            ).path.len() > 0 ==> r is Ok && r->Ok_0@ == search_args(arg_texts(args@)),
    {
        if args.len() < 3 {
            return Err("Not enough arguments provided");
        }
        let mut config = Config {
            pattern: String::new(),
            path: String::new(),
            recursive: false,
            ignore_case: false,
        };
        let ghost all = arg_texts(args@);
        let mut i: usize = 1;
        while i < args.len()
            invariant
                1 <= i <= args.len(),
                all == arg_texts(args@),
                search_from(all, i as int, config@) == search_args(all),
            decreases args.len() - i,
        {
            let arg = args[i].as_str();
            assert(all[i as int] == arg@);
            if same_text(arg, "-r") {
                config.recursive = true;
            } else if same_text(arg, "-i") {
                config.ignore_case = true;
            } else if config.pattern.as_str().is_empty() {
                config.pattern = owned(arg);
            } else {
                config.path = owned(arg);
            }
            i += 1;
        }
        if config.pattern.as_str().is_empty() || config.path.as_str().is_empty() {
            return Err("Pattern or path missing");
        }
        Ok(config)
    }

    /// The policy that these arguments ask for: nothing is hidden, excluded
    /// or skipped; without `-r` only the entries of the start directory are
    /// looked at.
    pub fn options(&self) -> (r: Options)
        ensures
            r.hidden_folders,
            r.max_depth == (if self.recursive {
                None::<usize>
            } else {
                Some(0usize)
            }),
            !r.skip_readonly,
            r@.excluded == Seq::<Seq<char>>::empty(),
    {
        let mut options = Options::unrestricted();
        if !self.recursive {
            options.max_depth = Some(0);
        }
        options
    }
}

} // verus!
