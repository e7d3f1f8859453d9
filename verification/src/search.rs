//! Matching a search query against the text of documents not yet stored.

use vstd::prelude::*;
use crate::text::{chars_of, contains, contains_exec, trim, trim_chars};

verus! {

/// What `str::to_lowercase` gives for `s`: the Unicode lower case mapping,
/// a character at a time, some characters mapping to several.
pub uninterp spec fn lowercase(s: Seq<char>) -> Seq<char>;

/// Calls `str::to_lowercase`. Its result is named by [`lowercase`]; the
/// mapping follows the Unicode tables of the standard library, which this
/// contract does not restate.
#[verifier::external_body]
fn to_lowercase(s: &str) -> (out: String)
    ensures
        out@ == lowercase(s@),
{
    s.to_lowercase()
}

/// Whether a document's text matches the query: an empty query matches
/// everything, else the trimmed query must occur in the text, ignoring case.
pub open spec fn matches_query(query: Seq<char>, blob: Seq<char>) -> bool {
    trim(query).len() == 0 || contains(lowercase(blob), lowercase(trim(query)))
}

/// Whether `blob` matches the search `query`, ignoring case.
pub fn text_matches(query: &str, blob: &str) -> (b: bool)
    ensures
        b == matches_query(query@, blob@),
{
    let qc = chars_of(query);
    let q = trim_chars(&qc);
    if q.len() == 0 {
        return true;
    }
    let qs = crate::text::string_of(&q);
    let lq = to_lowercase(qs.as_str());
    let lb = to_lowercase(blob);
    lowered_contains(lb.as_str(), lq.as_str())
}

/// Whether the lower-cased text holds the lower-cased query: the step of
/// [`text_matches`] after both are lower-cased.
pub fn lowered_contains(lowered_blob: &str, lowered_query: &str) -> (b: bool)
    ensures
        b == contains(lowered_blob@, lowered_query@),
{
    let q = chars_of(lowered_query);
    let t = chars_of(lowered_blob);
    contains_exec(&t, &q)
}

} // verus!
