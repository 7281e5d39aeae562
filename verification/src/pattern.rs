//! Regular-expression matching of single lines, compiled once per search.

use crate::text::{chars_of, decimal_string, string_of};
use vstd::prelude::*;

verus! {

/// `regex::Regex`, a compiled regular expression: carried as it is, with
/// nothing known of what it holds.
#[verifier::external_type_specification]
#[verifier::external_body]
pub struct ExRegex(regex::Regex);

/// `regex::Error`, the reason why an expression did not compile: carried as
/// it is, with nothing known of what it holds.
#[verifier::external_type_specification]
#[verifier::external_body]
pub struct ExRegexError(regex::Error);

/// Whether `regex::Regex::new` accepts `pattern`: whether it is a valid
/// expression whose compiled form stays within the compiler's default size
/// limit.
pub uninterp spec fn regex_compiles(pattern: Seq<char>) -> bool;

/// Whether the regular expression written as `pattern` has a match anywhere
/// in `text`, as `regex::Regex::is_match` decides it for the expression that
/// `regex::Regex::new` compiles from `pattern`.
pub uninterp spec fn regex_matches(pattern: Seq<char>, text: Seq<char>) -> bool;

/// The flag group that makes an expression case-insensitive.
pub open spec fn ignore_case_prefix() -> Seq<char> {
    seq!['(', '?', 'i', ')']
}

/// The expression that is compiled for a pattern: the pattern itself, or the
/// pattern behind the case-insensitivity flag.
pub open spec fn effective_pattern(pattern: Seq<char>, ignore_case: bool) -> Seq<char> {
    if ignore_case {
        ignore_case_prefix() + pattern
    } else {
        pattern
    }
}

/// Why a pattern could not be compiled.
#[derive(Clone, Debug, PartialEq, Eq)]
pub enum PatternError {
    /// The pattern is not a valid expression; the text describes the fault.
    Syntax(String),
    /// The compiled expression would exceed the given size limit in bytes.
    TooBig(usize),
    /// Any other failure to compile.
    Other,
}

/// A compiled regular expression together with the text it was compiled from.
#[derive(Debug)]
pub struct Matcher {
    source: String,
    regex: regex::Regex,
}

/// Compiles `pattern` by `regex::Regex::new`, which accepts it or not by the
/// text of the pattern alone. A matcher that comes back keeps `pattern` as
/// its source; this is the only place where a `Matcher` is made, so the
/// source of every matcher is the text its expression was compiled from.
#[verifier::external_body]
fn compile_source(pattern: &str) -> (r: Result<Matcher, regex::Error>)
    ensures
        r is Ok <==> regex_compiles(pattern@),
        r matches Ok(m) ==> m.source@ == pattern@,
{
    match regex::Regex::new(pattern) {
        Ok(regex) => Ok(Matcher { source: pattern.to_owned(), regex }),
        Err(e) => Err(e),
    }
}

/// Asks `regex::Regex::is_match` whether the matcher's expression has a match
/// anywhere in `text`. The answer depends on the expression's source and on
/// `text` alone.
#[verifier::external_body]
fn regex_is_match(m: &Matcher, text: &str) -> (b: bool)
    ensures
        b == regex_matches(m.source@, text@),
{
    m.regex.is_match(text)
}

/// Tells the variants of `regex::Error` apart and moves their fields over.
#[verifier::external_body]
fn classify_error(e: regex::Error) -> PatternError {
    match e {
        regex::Error::Syntax(text) => PatternError::Syntax(text),
        regex::Error::CompiledTooBig(limit) => PatternError::TooBig(limit),
        _ => PatternError::Other,
    }
}

/// The text that is handed to the compiler for `pattern`.
pub fn build_pattern(pattern: &str, ignore_case: bool) -> (r: String)
    ensures
        r@ == effective_pattern(pattern@, ignore_case),
{
    let mut p = chars_of(pattern);
    if ignore_case {
        let mut v: Vec<char> = Vec::new();
        v.push('(');
        v.push('?');
        v.push('i');
        v.push(')');
        assert(v@ == ignore_case_prefix());
        v.append(&mut p);
        string_of(&v)
    } else {
        string_of(&p)
    }
}

/// What becomes of a compilation: the matcher, or the reason it failed.
pub fn finish_compile(compiled: Result<Matcher, regex::Error>) -> (r: Result<
    Matcher,
    PatternError,
>)
    ensures
        r is Ok <==> compiled is Ok,
        r is Ok ==> r->Ok_0 == compiled->Ok_0,
{
    match compiled {
        Ok(m) => Ok(m),
        Err(e) => Err(classify_error(e)),
    }
}

impl Matcher {
    /// The expression this matcher was compiled from.
    pub closed spec fn pattern(&self) -> Seq<char> {
        self.source@
    }

    /// Whether this matcher accepts a line.
    pub open spec fn accepts(&self, line: Seq<char>) -> bool {
        regex_matches(self.pattern(), line)
    }

    /// Compiles `pattern`, case-insensitively where `ignore_case` is set.
    /// A matcher comes back exactly where the regex compiler accepts the
    /// effective pattern, and was compiled from it.
    pub fn compile(pattern: &str, ignore_case: bool) -> (r: Result<Matcher, PatternError>)
        ensures
            r is Ok <==> regex_compiles(effective_pattern(pattern@, ignore_case)),
            r matches Ok(m) ==> m.pattern() == effective_pattern(pattern@, ignore_case),
    {
        let effective = build_pattern(pattern, ignore_case);
        finish_compile(compile_source(effective.as_str()))
    }

    /// The text this matcher was compiled from.
    pub fn source(&self) -> (s: &str)
        ensures
            s@ == self.pattern(),
    {
        self.source.as_str()
    }

    /// Whether the expression has a match anywhere in `line`.
    pub fn is_match(&self, line: &str) -> (b: bool)
        ensures
            b == self.accepts(line@),
    {
        regex_is_match(self, line)
    }
}

/// The message of a size-limit failure up to the limit.
pub open spec fn too_big_head() -> Seq<char> {
    "Compiled regex exceeds size limit of "@
}

/// The message of a size-limit failure after the limit.
pub open spec fn too_big_tail() -> Seq<char> {
    " bytes."@
}

/// The message that describes a pattern error.
pub open spec fn pattern_error_message(e: PatternError) -> Seq<char> {
    match e {
        PatternError::Syntax(text) => text@,
        PatternError::TooBig(limit) => too_big_head() + crate::text::decimal(limit as nat)
            + too_big_tail(),
        PatternError::Other => "pattern could not be compiled"@,
    }
}

impl PatternError {
    /// The message that describes this error.
    pub fn message(&self) -> (s: String)
        ensures
            s@ == pattern_error_message(*self),
    {
        match self {
            PatternError::Syntax(text) => text.clone(),
            PatternError::TooBig(limit) => {
                let mut v = chars_of("Compiled regex exceeds size limit of ");
                let mut d = chars_of(decimal_string(*limit as u64).as_str());
                let mut t = chars_of(" bytes.");
                v.append(&mut d);
                v.append(&mut t);
                string_of(&v)
            },
            PatternError::Other => string_of(&chars_of("pattern could not be compiled")),
        }
    }
}

} // verus!
