//! What holds of the two searches together, proved from their contracts.

use vstd::prelude::*;
use vstd::std_specs::cmp::PartialEqSpec;
use crate::collapse::collapse_candidate;
use crate::count::{finds_majority, is_majority, lemma_occurrences_disjoint};
use crate::equality::eq_is_equivalence;
use crate::vote::vote_candidate;

verus! {

/// Two results are the same: both `None`, or both an element, and the two
/// elements equal.
pub open spec fn same_outcome<T: PartialEq>(a: Option<&T>, b: Option<&T>) -> bool {
    match (a, b) {
        (None, None) => true,
        (Some(x), Some(y)) => x.eq_spec(y),
        _ => false,
    }
}

/// Any two elements that hold a majority of `s` are equal.
pub proof fn lemma_majorities_equal<T: PartialEq>(s: Seq<T>, v: T, w: T)
    requires
        eq_is_equivalence::<T>(),
        is_majority(s, v),
        is_majority(s, w),
    ensures
        v.eq_spec(&w),
{
    if !v.eq_spec(&w) {
        lemma_occurrences_disjoint(s, v, w);
    }
}

/// Where an element holds more than half of the stream's positions, either
/// search returns an element equal to it, however the rest is arranged.
pub proof fn lemma_majority_is_found<T: PartialEq>(s: Seq<T>, v: T, result: Option<&T>)
    requires
        eq_is_equivalence::<T>(),
        is_majority(s, v),
        finds_majority(s, result),
    ensures
        result matches Some(found) && found.eq_spec(&v),
{
    lemma_majorities_equal(s, *result->0, v);
}

/// Where no element holds more than half of the stream's positions, be it
/// exactly half, either search returns `None`.
pub proof fn lemma_none_without_majority<T: PartialEq>(s: Seq<T>, result: Option<&T>)
    requires
        forall|v: T| !is_majority(s, v),
        finds_majority(s, result),
    ensures
        result is None,
{
}

/// The two searches return the same for every stream: both `None`, or equal
/// elements.
pub proof fn lemma_searches_agree<T: PartialEq>(
    s: Seq<T>,
    vote: Option<&T>,
    collapse: Option<&T>,
)
    requires
        eq_is_equivalence::<T>(),
        finds_majority(s, vote),
        finds_majority(s, collapse),
    ensures
        same_outcome(vote, collapse),
{
    if vote is Some && collapse is Some {
        lemma_majorities_equal(s, *vote->0, *collapse->0);
    }
}

/// Calling the vote again on the same stream returns the same again: its
/// contract admits one result for each stream.
pub proof fn lemma_vote_is_determined<T: PartialEq>(
    s: Seq<T>,
    first: Option<&T>,
    second: Option<&T>,
)
    requires
        finds_majority(s, first),
        first matches Some(found) ==> *found == s[vote_candidate(s)],
        finds_majority(s, second),
        second matches Some(found) ==> *found == s[vote_candidate(s)],
    ensures
        first == second,
{
}

/// Calling the run-collapsing search again on the same stream returns the
/// same again: its contract admits one result for each stream.
pub proof fn lemma_collapse_is_determined<T: PartialEq>(
    s: Seq<T>,
    first: Option<&T>,
    second: Option<&T>,
)
    requires
        finds_majority(s, first),
        first matches Some(found) ==> *found == collapse_candidate(s),
        finds_majority(s, second),
        second matches Some(found) ==> *found == collapse_candidate(s),
    ensures
        first == second,
{
}

} // verus!
