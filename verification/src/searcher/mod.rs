//! What a search returns, and how its failures read.

use crate::index::v1::structs::Fields;
use vstd::prelude::*;

verus! {

/// The answer to a query.
#[derive(Debug, Default)]
pub struct SearchOutput {
    pub results: Vec<OutputResult>,
    pub total_hit_count: usize,
    pub url_prefix: String,
}

/// An entry with the excerpts that matched. Represents a single document
/// that contains search results.
#[derive(Clone, Debug)]
pub struct OutputResult {
    pub entry: OutputEntry,
    pub excerpts: Vec<Excerpt>,
    pub title_highlight_ranges: Vec<HighlightRange>,
    pub score: usize,
}

/// What a result shows of its entry.
#[derive(Clone, Debug)]
pub struct OutputEntry {
    pub url: String,
    pub title: String,
    pub fields: Fields,
}

/// A piece of an entry's text around a match.
#[derive(Clone, Debug)]
pub struct Excerpt {
    pub text: String,
    pub highlight_ranges: Vec<HighlightRange>,
    pub score: usize,
    pub fields: Fields,
}

/// The characters to highlight, from `beginning` up to `end`.
#[derive(Clone, Copy, Debug, PartialEq, Eq, Structural)]
pub struct HighlightRange {
    pub beginning: usize,
    pub end: usize,
}

/// Why a search failed.
#[derive(Clone, Debug)]
pub enum SearchError {
    /// The version of the index could not be parsed; holds the parser's
    /// description of the problem.
    VersionParseError(String),
    /// The index could not be deserialized.
    IndexParseError,
    /// The search output could not be serialized to JSON.
    JSONSerializationError,
}

impl SearchError {
    /// How the error reads.
    pub open spec fn description(self) -> Seq<char> {
        match self {
            SearchError::VersionParseError(e) => e@,
            SearchError::IndexParseError => "Could not parse index file."@,
            SearchError::JSONSerializationError => "Could not format search results."@,
        }
    }

    /// Renders the error for a reader.
    pub fn message(&self) -> (s: String)
        ensures
            s@ == self.description(),
    {
        match self {
            SearchError::VersionParseError(e) => e.clone(),
            SearchError::IndexParseError => String::from_str("Could not parse index file."),
            SearchError::JSONSerializationError => String::from_str(
                "Could not format search results.",
            ),
        }
    }
}

/// The reply that the search front end gives for a failed search.
pub open spec fn error_reply(e: SearchError) -> Seq<char> {
    "{error: '"@ + e.description() + "'}"@
}

/// Renders the reply for a failed search: the error's description inside
/// `{error: '...'}`.
pub fn error_response(e: &SearchError) -> (s: String)
    ensures
        s@ == error_reply(*e),
{
    let mut s = String::from_str("{error: '");
    s.append(e.message().as_str());
    s.append("'}");
    proof {
        reveal_strlit("{error: '");
        reveal_strlit("'}");
    }
    s
}

/// The reply to a failed search is the error's description inside
/// `{error: '` and `'}`, and each error reads as its variant says: the
/// parser's own words for a version that cannot be parsed, and fixed
/// sentences for an index that cannot be parsed or results that cannot be
/// formatted.
pub proof fn error_reply_wraps_the_description(e: SearchError)
    ensures
        error_reply(e).len() == e.description().len() + 11,
        error_reply(e).subrange(0, 9) == "{error: '"@,
        error_reply(e).subrange(9, 9 + e.description().len() as int) == e.description(),
        error_reply(e).subrange(9 + e.description().len() as int, 11 + e.description().len() as int)
            == "'}"@,
        e matches SearchError::VersionParseError(m) ==> e.description() == m@,
        e is IndexParseError ==> e.description() == "Could not parse index file."@,
        e is JSONSerializationError ==> e.description() == "Could not format search results."@,
{
    reveal_strlit("{error: '");
    reveal_strlit("'}");
    let d = e.description();
    let r = error_reply(e);
    assert(r.subrange(0, 9) =~= "{error: '"@);
    assert(r.subrange(9, 9 + d.len() as int) =~= d);
    assert(r.subrange(9 + d.len() as int, 11 + d.len() as int) =~= "'}"@);
}

} // verus!
