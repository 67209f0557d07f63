//! The matching engine behind the parser: the regex crate, behind
//! trusted declarations.
//!
//! What a pattern matches is named, not restated: matching is a
//! function of the pattern text and the input text alone, and the
//! library's own logic works on the captured substrings these calls
//! hand back.

use vstd::prelude::*;

verus! {

/// Whether `pattern` is a valid regex that compiles.
pub uninterp spec fn rx_compiles(pattern: Seq<char>) -> bool;

/// The capture groups of the leftmost match of `pattern` in `text`:
/// group `0` is the whole match, and each further entry is the matched
/// text of that capture group, or `None` for a group that did not
/// participate; `None` overall when nothing matches.
pub uninterp spec fn rx_first_caps(pattern: Seq<char>, text: Seq<char>) -> Option<
    Seq<Option<Seq<char>>>,
>;

/// The capture groups of every non-overlapping match of `pattern` in
/// `text`, leftmost first.
pub uninterp spec fn rx_all_caps(pattern: Seq<char>, text: Seq<char>) -> Seq<
    Seq<Option<Seq<char>>>,
>;

/// Relies on `regex::Regex::new`: whether a pattern compiles depends on
/// the pattern text alone.
#[verifier::external_body]
pub fn rx_try_compile(pattern: &str) -> (r: bool)
    ensures
        r == rx_compiles(pattern@),
{
    regex::Regex::new(pattern).is_ok()
}

/// Relies on `regex::Regex::new` and `regex::Regex::captures`: the
/// leftmost match's groups are a function of the pattern and the
/// haystack alone; a pattern that does not compile yields nothing.
#[verifier::external_body]
pub fn rx_captures(pattern: &str, text: &str) -> (r: Option<Vec<Option<String>>>)
    ensures
        rx_compiles(pattern@) ==> r.deep_view() == rx_first_caps(pattern@, text@),
        !rx_compiles(pattern@) ==> r is None,
{
    let re = match regex::Regex::new(pattern) {
        Ok(re) => re,
        Err(_) => return None,
    };
    re.captures(text).map(|c| c.iter().map(|m| m.map(|g| g.as_str().to_string())).collect())
}

/// Relies on `regex::Regex::new` and `regex::Regex::captures_iter`: the
/// groups of all non-overlapping matches, leftmost first, are a
/// function of the pattern and the haystack alone; a pattern that does
/// not compile yields nothing.
#[verifier::external_body]
pub fn rx_captures_all(pattern: &str, text: &str) -> (r: Vec<Vec<Option<String>>>)
    ensures
        rx_compiles(pattern@) ==> r.deep_view() == rx_all_caps(pattern@, text@),
        !rx_compiles(pattern@) ==> r@.len() == 0,
{
    let re = match regex::Regex::new(pattern) {
        Ok(re) => re,
        Err(_) => return Vec::new(),
    };
    re.captures_iter(text).map(
        |c| c.iter().map(|m| m.map(|g| g.as_str().to_string())).collect(),
    ).collect()
}

} // verus!
