//! Scoring a candidate against the word being typed.

use vstd::prelude::*;

verus! {

/// The score that the skim fuzzy matcher gives `choice` against `pattern`:
/// `None` rejects the candidate, a higher score is a better match.
pub uninterp spec fn fuzzy_score(choice: Seq<char>, pattern: Seq<char>) -> Option<i64>;

/// Relies on fuzzy_matcher::skim::fuzzy_match: its result depends on the two
/// strings alone, and an empty pattern scores 0.
#[verifier::external_body]
pub(crate) fn fuzzy_match(choice: &str, pattern: &str) -> (r: Option<i64>)
    ensures
        r == fuzzy_score(choice@, pattern@),
        pattern@.len() == 0 ==> r == Some(0i64),
{
    #[allow(deprecated)]
    fuzzy_matcher::skim::fuzzy_match(choice, pattern)
}

} // verus!
