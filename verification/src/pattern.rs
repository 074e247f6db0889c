//! Regular expressions, compiled and run by the `regex` crate.
//!
//! What a regular expression accepts is the `regex` crate's business: it is
//! named here, as a function of the pattern's text and the searched text,
//! and the logic around it is stated over those names.

use vstd::prelude::*;
use crate::text::copy_str;
use regex::Regex as CompiledRegex;
use regex::Error as RegexError;

verus! {

#[verifier::external_type_specification]
#[verifier::external_body]
pub struct ExRegex(CompiledRegex);

#[verifier::external_type_specification]
#[verifier::external_body]
pub struct ExRegexError(RegexError);

/// Whether `regex::Regex::new` accepts the pattern.
pub uninterp spec fn regex_compiles(pattern: Seq<char>) -> bool;

/// Whether the compiled pattern finds a match anywhere in `text`.
pub uninterp spec fn regex_finds(pattern: Seq<char>, text: Seq<char>) -> bool;

/// The names of the capture groups of the pattern, in the order of their
/// opening parentheses; `None` for a group without a name.
pub uninterp spec fn regex_group_names(pattern: Seq<char>) -> Seq<Option<Seq<char>>>;

/// What the group called `name` matched in the first match of the pattern in
/// `text`: `None` when there is no match or the group took no part in it.
pub uninterp spec fn regex_group_match(pattern: Seq<char>, text: Seq<char>, name: Seq<char>) -> Option<Seq<char>>;

/// A pattern that `regex` accepted, kept with its text.
#[derive(Debug)]
pub struct Pattern {
    source: String,
    compiled: CompiledRegex,
}

/// A pattern that `regex` refused.
#[derive(Debug, PartialEq, Eq)]
pub struct PatternError {
    pub pattern: String,
}

impl View for Pattern {
    type V = Seq<char>;

    closed spec fn view(&self) -> Seq<char> {
        self.source@
    }
}

/// `regex::Regex::new`: compiles a pattern; it fails exactly on the patterns
/// that `regex_compiles` leaves out.
#[verifier::external_body]
fn compile(pattern: &str) -> (r: Result<CompiledRegex, RegexError>)
    ensures
        r is Ok <==> regex_compiles(pattern@),
{
    CompiledRegex::new(pattern)
}

/// `regex::Regex::is_match`: whether the pattern matches somewhere in `text`.
#[verifier::external_body]
fn is_match(p: &Pattern, text: &str) -> (r: bool)
    ensures
        r == regex_finds(p@, text@),
{
    p.compiled.is_match(text)
}

/// `regex::Regex::capture_names`: the group names of the pattern. The first
/// group is the whole match, which has no name, as the crate documents.
#[verifier::external_body]
fn capture_names(p: &Pattern) -> (r: Vec<Option<String>>)
    ensures
        r@.len() == regex_group_names(p@).len(),
        forall|i: int| 0 <= i < r@.len() ==>
            (#[trigger] r@[i] matches Some(s) ==> regex_group_names(p@)[i] == Some(s@))
            && (r@[i] is None ==> regex_group_names(p@)[i] is None),
{
    p.compiled.capture_names().map(|n| n.map(|s| s.to_string())).collect()
}

/// `regex::Regex::captures` followed by `regex::Captures::name`: what the
/// named group matched in the first match.
#[verifier::external_body]
fn group_match(p: &Pattern, text: &str, name: &str) -> (r: Option<String>)
    ensures
        r matches Some(s) ==> regex_group_match(p@, text@, name@) == Some(s@),
        r is None ==> regex_group_match(p@, text@, name@) is None,
{
    p.compiled.captures(text).and_then(|c| c.name(name).map(|m| m.as_str().to_string()))
}

impl Pattern {
    /// Compiles `pattern`; fails exactly when `regex` refuses it.
    pub fn new(pattern: &str) -> (r: Result<Pattern, PatternError>)
        ensures
            r is Ok <==> regex_compiles(pattern@),
            r matches Ok(p) ==> p@ == pattern@,
            r matches Err(e) ==> e.pattern@ == pattern@,
    {
        match compile(pattern) {
            Ok(compiled) => Ok(Pattern { source: copy_str(pattern), compiled }),
            Err(_) => Err(PatternError { pattern: copy_str(pattern) }),
        }
    }

    /// The text of the pattern.
    pub fn as_str(&self) -> (s: &str)
        ensures
            s@ == self@,
    {
        self.source.as_str()
    }

    /// Whether the pattern matches somewhere in `text`.
    pub fn is_match(&self, text: &str) -> (r: bool)
        ensures
            r == regex_finds(self@, text@),
    {
        is_match(self, text)
    }

    /// The names of the capture groups, `None` for an unnamed group.
    pub fn capture_names(&self) -> (r: Vec<Option<String>>)
        ensures
            r@.len() == regex_group_names(self@).len(),
            forall|i: int| 0 <= i < r@.len() ==>
                (#[trigger] r@[i] matches Some(s) ==> regex_group_names(self@)[i] == Some(s@))
                && (r@[i] is None ==> regex_group_names(self@)[i] is None),
    {
        capture_names(self)
    }

    /// What the group `name` matched in the first match in `text`.
    pub fn group_match(&self, text: &str, name: &str) -> (r: Option<String>)
        ensures
            r matches Some(s) ==> regex_group_match(self@, text@, name@) == Some(s@),
            r is None ==> regex_group_match(self@, text@, name@) is None,
    {
        group_match(self, text, name)
    }
}

} // verus!
