//! Regular-expression searches, as the `regex` crate performs them. The
//! searches themselves are not verified: each is named by a specification
//! function, and the parsers are verified against those names. A pattern is
//! compiled once and then searched with as often as needed.
use regex::Regex;
use vstd::prelude::*;

verus! {

/// One capture group of a match, as found: the byte offsets at which it
/// starts and ends in the searched text, and the characters it holds.
#[derive(Debug, Clone, PartialEq, Eq)]
pub struct Group {
    pub start: usize,
    pub end: usize,
    pub text: Vec<char>,
}

/// The mathematical content of a [`Group`].
pub struct Found {
    pub start: usize,
    pub end: usize,
    pub text: Seq<char>,
}

impl View for Group {
    type V = Found;

    open spec fn view(&self) -> Found {
        Found { start: self.start, end: self.end, text: self.text@ }
    }
}

/// The groups of one match, by group index: index 0 is the whole match, and a
/// group that took no part in the match is `None`.
pub open spec fn groups_view(groups: Seq<Option<Group>>) -> Seq<Option<Found>> {
    groups.map_values(
        |g: Option<Group>|
            match g {
                Some(g) => Some(g@),
                None => None,
            },
    )
}

/// The groups of each of a sequence of matches.
pub open spec fn matches_view(found: Seq<Vec<Option<Group>>>) -> Seq<Seq<Option<Found>>> {
    found.map_values(|m: Vec<Option<Group>>| groups_view(m@))
}

/// The type of a compiled pattern of the `regex` crate.
#[verifier::external_type_specification]
#[verifier::external_body]
pub struct ExRegex(Regex);

/// A pattern, compiled once and searched with as often as needed. It can
/// only be made by [`compile`], which keeps the text it was compiled from
/// beside it: the view of a pattern is that text.
pub struct Pattern {
    source: String,
    compiled: Regex,
}

impl View for Pattern {
    type V = Seq<char>;

    closed spec fn view(&self) -> Seq<char> {
        self.source@
    }
}

impl Pattern {
    /// Compiles `text`, if it is accepted as a pattern.
    pub fn new(text: &str) -> (r: Option<Pattern>)
        ensures
            r is Some == regex_accepts(text@),
            r matches Some(p) ==> p@ == text@,
    {
        compile(text)
    }
}

/// Whether `regex::Regex::new` accepts `pattern`.
pub uninterp spec fn regex_accepts(pattern: Seq<char>) -> bool;

/// What `regex::Regex::captures` returns for an accepted `pattern` on `text`:
/// the groups of the leftmost match, or `None` where nothing matches.
pub uninterp spec fn regex_captures(pattern: Seq<char>, text: Seq<char>) -> Option<
    Seq<Option<Found>>,
>;

/// What `regex::Regex::captures_iter` yields for an accepted `pattern` on
/// `text`: the groups of each of the successive non-overlapping matches.
pub uninterp spec fn regex_captures_iter(pattern: Seq<char>, text: Seq<char>) -> Seq<
    Seq<Option<Found>>,
>;

/// Compiles `pattern` with `regex::Regex::new`. The result is `None`
/// exactly when the pattern is not accepted; otherwise it holds the
/// compiled pattern and a copy of `pattern`.
#[verifier::external_body]
fn compile(pattern: &str) -> (r: Option<Pattern>)
    ensures
        r is Some == regex_accepts(pattern@),
        r matches Some(p) ==> p@ == pattern@,
{
    match Regex::new(pattern) {
        Ok(compiled) => Some(Pattern { source: pattern.to_string(), compiled }),
        Err(_) => None,
    }
}

/// Searches `text` with `regex::Regex::captures`. The result is what the
/// search returned for the pattern that `pattern` was compiled from, each
/// group of the match given by its offsets (`Match::start`, `Match::end`)
/// and its text (`Match::as_str`). Nothing is claimed about which text
/// matches.
#[verifier::external_body]
pub(crate) fn captures(pattern: &Pattern, text: &str) -> (r: Option<Vec<Option<Group>>>)
    ensures
        r matches Some(groups) ==> regex_captures(pattern@, text@) == Some(groups_view(groups@)),
        r is None ==> regex_captures(pattern@, text@) is None,
{
    let group = |m: regex::Match| Group {
        start: m.start(),
        end: m.end(),
        text: m.as_str().chars().collect(),
    };
    pattern.compiled.captures(text).map(|c| c.iter().map(|g| g.map(group)).collect())
}

/// Collects what `regex::Regex::captures_iter` yields on `text`: the groups
/// of every match of the pattern that `pattern` was compiled from, in the
/// order found. Nothing is claimed about which text matches.
#[verifier::external_body]
pub(crate) fn captures_iter(pattern: &Pattern, text: &str) -> (r: Vec<Vec<Option<Group>>>)
    ensures
        regex_captures_iter(pattern@, text@) == matches_view(r@),
{
    let group = |m: regex::Match| Group {
        start: m.start(),
        end: m.end(),
        text: m.as_str().chars().collect(),
    };
    pattern.compiled.captures_iter(text).map(|c| c.iter().map(|g| g.map(group)).collect()).collect()
}

/// A string holding the characters `chars`, built by `String::from_iter`.
#[verifier::external_body]
pub(crate) fn string_of(chars: &Vec<char>) -> (s: String)
    ensures
        s@ == chars@,
{
    chars.iter().collect()
}

} // verus!
