//! Regular expressions, as the `regex` crate provides them. The contracts of
//! the four private functions that call the crate are believed, not proved:
//! they say what the crate is trusted to do.

use vstd::prelude::*;
use regex::Regex;

verus! {

/// `regex::Regex`, a compiled expression: carried about, never looked into.
#[verifier::external_type_specification]
#[verifier::external_body]
pub struct ExRegex(Regex);

/// `regex::Error`, why a pattern did not compile: carried about, never looked
/// into.
#[verifier::external_type_specification]
#[verifier::external_body]
pub struct ExRegexError(regex::Error);

/// The text that a compiled expression was built from: what `Regex::as_str`
/// returns.
pub uninterp spec fn regex_source(re: Regex) -> Seq<char>;

/// What `Regex::captures` finds for a pattern in a text: `None` where the
/// pattern matches nowhere; otherwise the groups of the leftmost match, the
/// whole match first, each with the text it took, or `None` where it took
/// no part in the match.
pub uninterp spec fn pattern_captures(pattern: Seq<char>, text: Seq<char>) -> Option<
    Seq<Option<Seq<char>>>,
>;

/// The texts of the groups of a match.
pub open spec fn group_views(found: Seq<Option<String>>) -> Seq<Option<Seq<char>>> {
    Seq::new(
        found.len(),
        |i: int|
            match found[i] {
                None => None,
                Some(text) => Some(text@),
            },
    )
}

/// The mathematical value of what a search for a match returns.
pub open spec fn groups_view(groups: Option<Vec<Option<String>>>) -> Option<
    Seq<Option<Seq<char>>>,
> {
    match groups {
        None => None,
        Some(found) => Some(group_views(found@)),
    }
}

/// `Regex::new`. A compiled expression keeps the text it was built from.
/// Which patterns compile is not claimed: the crate's size limit counts bytes
/// of the machine's own structures, and so is not the same everywhere.
#[verifier::external_body]
fn regex_new(pattern: &str) -> (r: Result<Regex, regex::Error>)
    ensures
        r matches Ok(re) ==> regex_source(re) == pattern@,
{
    Regex::new(pattern)
}

/// `Regex::as_str`: the text that the expression was built from.
#[verifier::external_body]
fn regex_as_str(re: &Regex) -> (r: &str)
    ensures
        r@ == regex_source(*re),
{
    re.as_str()
}

/// `Regex::captures`, with every group of the match copied out through
/// `Captures::iter` and `Match::as_str`. The result depends on the text and on
/// the pattern that the expression was built from, and on nothing else: the
/// expressions that reach this function all come from `regex_new`, which
/// builds them with the crate's default options.
#[verifier::external_body]
fn regex_captures(re: &Regex, text: &str) -> (r: Option<Vec<Option<String>>>)
    ensures
        groups_view(r) == pattern_captures(regex_source(*re), text@),
{
    re.captures(text).map(|found| found.iter().map(|m| m.map(|m| m.as_str().to_string())).collect())
}

/// The message of a `regex::Error`, as its `Display` writes it. Nothing is
/// claimed of the text.
#[verifier::external_body]
fn regex_error_text(error: &regex::Error) -> (r: String) {
    error.to_string()
}

/// Why a pattern could not be compiled.
#[derive(Debug, PartialEq, Eq)]
pub struct PatternError {
    pub message: String,
}

/// A compiled pattern to match lines against.
pub struct LinePattern {
    regex: Regex,
}

impl View for LinePattern {
    type V = Seq<char>;

    /// The text of the pattern.
    closed spec fn view(&self) -> Seq<char> {
        regex_source(self.regex)
    }
}

impl LinePattern {
    /// Compiles `pattern`. Whether that succeeds is for the `regex` crate to
    /// say; what is compiled is the pattern given.
    pub fn compile(pattern: &str) -> (r: Result<LinePattern, PatternError>)
        ensures
            r matches Ok(compiled) ==> compiled@ == pattern@,
    {
        LinePattern::from_compiled(regex_new(pattern))
    }

    /// The text of the pattern.
    pub fn as_str(&self) -> (r: &str)
        ensures
            r@ == self@,
    {
        regex_as_str(&self.regex)
    }

    /// The groups of the leftmost match of the pattern in `line`, or `None`
    /// where it matches nowhere in the line.
    pub fn groups(&self, line: &str) -> (r: Option<Vec<Option<String>>>)
        ensures
            groups_view(r) == pattern_captures(self@, line@),
    {
        regex_captures(&self.regex, line)
    }

    /// What an attempt to compile comes to: the compiled pattern where there
    /// is an expression, and an error with the crate's message where there is
    /// none.
    fn from_compiled(compiled: Result<Regex, regex::Error>) -> (r: Result<
        LinePattern,
        PatternError,
    >)
        ensures
            r.is_ok() == compiled.is_ok(),
            compiled matches Ok(regex) ==> r matches Ok(pattern) && pattern@ == regex_source(regex),
    {
        match compiled {
            Ok(regex) => Ok(LinePattern { regex }),
            Err(error) => Err(PatternError { message: regex_error_text(&error) }),
        }
    }
}

} // verus!
