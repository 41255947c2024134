//! Regular expressions, as the `regex` crate reads and runs them.
//!
//! A pattern is kept as text. What the crate decides about a pattern and a
//! text is a function of the two alone, so each decision has a name that the
//! rules' contracts can speak of. A pattern is compiled once for all the
//! texts that one call looks at.

use vstd::prelude::*;

verus! {

/// Whether `regex::Regex::new` accepts `pattern`.
pub uninterp spec fn compiles(pattern: Seq<char>) -> bool;

/// Whether `regex::Regex::is_match` finds the pattern somewhere in `text`.
pub uninterp spec fn pattern_matches(pattern: Seq<char>, text: Seq<char>) -> bool;

/// The first piece that `regex::Regex::split` cuts from `text`: what stands
/// before the first match of the pattern, the whole text where there is none.
pub uninterp spec fn head_before_match(pattern: Seq<char>, text: Seq<char>) -> Seq<char>;

/// Calls `regex::Regex::new` and reports whether it returned a compiled
/// expression; the answer is named `compiles`.
#[verifier::external_body]
pub(crate) fn regex_compiles(pattern: &str) -> (ok: bool)
    ensures
        ok == compiles(pattern@),
{
    regex::Regex::new(pattern).is_ok()
}

/// Compiles `pattern` with `regex::Regex::new` and calls
/// `regex::Regex::is_match` on each of the texts; each answer is named
/// `pattern_matches`. A pattern that does not compile is left out.
#[verifier::external_body]
pub(crate) fn regex_is_match_each(pattern: &str, texts: &Vec<String>) -> (found: Vec<bool>)
    requires
        compiles(pattern@),
    ensures
        found@.len() == texts@.len(),
        forall|i: int|
            0 <= i < texts@.len() ==> found@[i] == pattern_matches(pattern@, #[trigger] texts@[i]@),
{
    let compiled = regex::Regex::new(pattern).unwrap();
    texts.iter().map(|text| compiled.is_match(text)).collect()
}

/// Compiles `pattern` with `regex::Regex::new`, calls `regex::Regex::split`
/// on each of the texts and returns the first piece of each, which the split
/// always yields; it is named `head_before_match`. A pattern that does not
/// compile is left out.
#[verifier::external_body]
pub(crate) fn regex_split_heads(pattern: &str, texts: &Vec<String>) -> (heads: Vec<String>)
    requires
        compiles(pattern@),
    ensures
        heads@.len() == texts@.len(),
        forall|i: int|
            0 <= i < texts@.len() ==> heads@[i]@ == head_before_match(
                pattern@,
                #[trigger] texts@[i]@,
            ),
{
    let compiled = regex::Regex::new(pattern).unwrap();
    texts.iter().map(|text| compiled.split(text).take(1).collect::<String>()).collect()
}

} // verus!
