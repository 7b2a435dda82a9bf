//! Patterns: what log lines are searched for.
use crate::text;
use vstd::prelude::*;

verus! {

/// The type `regex::Regex`.
#[verifier::external_type_specification]
#[verifier::external_body]
pub struct ExRegex(regex::Regex);

/// What a `regex::Regex` was built of: a pattern, and whether case is ignored.
pub uninterp spec fn source(x: regex::Regex) -> (Seq<char>, bool);

/// What `regex::RegexBuilder::build` finds wrong with a pattern, by name.
pub uninterp spec fn fault(pattern: Seq<char>, ignore_case: bool) -> Option<Seq<char>>;

/// Calls `regex::RegexBuilder::new`, `case_insensitive` and `build`: whether a
/// pattern can be built, and the message where it cannot, depends on the pattern
/// and on whether case is ignored alone.
#[verifier::external_body]
fn build(pattern: &str, ignore_case: bool) -> (r: Result<regex::Regex, String>)
    ensures
        match r {
            Ok(x) => fault(pattern@, ignore_case) is None && source(x) == (pattern@, ignore_case),
            Err(e) => fault(pattern@, ignore_case) == Some(e@),
        },
{
    match regex::RegexBuilder::new(pattern).case_insensitive(ignore_case).build() {
        Ok(x) => Ok(x),
        Err(e) => Err(e.to_string()),
    }
}

/// Whether `regex::Regex::is_match` finds a pattern anywhere in a text, by name.
pub uninterp spec fn found(pattern: Seq<char>, ignore_case: bool, s: Seq<char>) -> bool;

/// Calls `regex::Regex::is_match`: the result depends on what the `regex::Regex`
/// was built of and on the text alone.
#[verifier::external_body]
fn is_match(x: &regex::Regex, s: &str) -> (r: bool)
    ensures
        r == found(source(*x).0, source(*x).1, s@),
{
    x.is_match(s)
}

/// The text of an optional pattern.
pub open spec fn given(grep: Option<&str>) -> Option<Seq<char>> {
    match grep {
        Some(p) => Some(p@),
        None => None,
    }
}

/// Whether a text holds what is searched for, whatever the case. Every text holds
/// nothing at all, and none holds a pattern that cannot be read.
pub open spec fn holds(grep: Option<Seq<char>>, s: Seq<char>) -> bool {
    match grep {
        Some(p) => fault(p, true) is None && found(p, true, s),
        None => true,
    }
}

/// A search of texts.
#[derive(Debug)]
pub enum Search {
    /// Nothing is searched for.
    Any,
    /// The pattern cannot be read.
    Nowhere,
    For(regex::Regex),
}

impl Search {
    /// Whether a text is one of those searched for.
    pub open spec fn finds(self, s: Seq<char>) -> bool {
        match self {
            Search::Any => true,
            Search::Nowhere => false,
            Search::For(x) => found(source(x).0, source(x).1, s),
        }
    }

    /// The search for a pattern, whatever the case.
    pub fn new(grep: Option<&str>) -> (r: Search)
        ensures
            forall|s: Seq<char>| #[trigger] r.finds(s) == holds(given(grep), s),
    {
        match grep {
            None => Search::Any,
            Some(p) => match build(p, true) {
                Ok(x) => Search::For(x),
                Err(_) => Search::Nowhere,
            },
        }
    }

    /// Tests whether a text is one of those searched for.
    pub fn matches(&self, s: &str) -> (r: bool)
        ensures
            r == self.finds(s@),
    {
        match self {
            Search::Any => true,
            Search::Nowhere => false,
            Search::For(x) => is_match(x, s),
        }
    }
}

/// What is wrong with an optional pattern.
pub open spec fn complaint(grep: Option<Seq<char>>) -> Option<Seq<char>> {
    match grep {
        Some(p) => match fault(p, true) {
            Some(e) => Some("invalid grep pattern: "@ + e),
            None => None,
        },
        None => None,
    }
}

/// The text of an optional pattern.
pub fn pattern_of(grep: &Option<String>) -> (r: Option<&str>)
    ensures
        given(r) == text::opt_text(*grep),
{
    match grep {
        Some(s) => Some(s.as_str()),
        None => None,
    }
}

/// Checks an optional pattern.
pub fn check(grep: &Option<String>) -> (r: Result<(), String>)
    ensures
        match r {
            Ok(_) => complaint(text::opt_text(*grep)) is None,
            Err(e) => complaint(text::opt_text(*grep)) == Some(e@),
        },
{
    match grep {
        Some(p) => match build(p.as_str(), true) {
            Ok(_) => Ok(()),
            Err(e) => Err(text::concat2("invalid grep pattern: ", e.as_str())),
        },
        None => Ok(()),
    }
}

} // verus!
