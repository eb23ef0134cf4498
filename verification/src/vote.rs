//! The Boyer-Moore majority vote.

use vstd::prelude::*;
use vstd::std_specs::cmp::PartialEqSpec;
use crate::count::{
    finds_majority, is_majority, lemma_occurrences_equal, lemma_occurrences_prefix,
    lemma_occurrences_take_next, lemma_single_is_majority, occurrences,
};
use crate::equality::eq_is_equivalence;

verus! {

/// What the vote has established of the first `k` positions of `s`, with
/// `candidate` standing and `count` votes for it not yet cancelled: an element
/// equal to the candidate holds at most half of `k + count` positions, any
/// other at most half of `k - count`.
spec fn vote_bound<T: PartialEq>(s: Seq<T>, k: int, candidate: T, count: int) -> bool {
    forall|v: T|
        2 * #[trigger] occurrences(s.take(k), v) <= k + if v.eq_spec(&candidate) {
            count
        } else {
            -count
        }
}

/// The bound survives a restart of the vote at position `k`.
proof fn lemma_vote_restart<T: PartialEq>(s: Seq<T>, k: int, candidate: T)
    requires
        eq_is_equivalence::<T>(),
        0 <= k < s.len(),
        vote_bound(s, k, candidate, 0),
    ensures
        vote_bound(s, k + 1, s[k], 1),
{
    assert forall|v: T|
        2 * #[trigger] occurrences(s.take(k + 1), v) <= k + 1 + if v.eq_spec(&s[k]) {
            1int
        } else {
            -1int
        } by {
        lemma_occurrences_take_next(s, k, v);
    }
}

/// The bound survives a vote for or against the candidate at position `k`.
proof fn lemma_vote_step<T: PartialEq>(s: Seq<T>, k: int, candidate: T, count: int)
    requires
        eq_is_equivalence::<T>(),
        0 <= k < s.len(),
        count > 0,
        vote_bound(s, k, candidate, count),
    ensures
        vote_bound(
            s,
            k + 1,
            candidate,
            if s[k].eq_spec(&candidate) {
                count + 1
            } else {
                count - 1
            },
        ),
{
    let next = if s[k].eq_spec(&candidate) {
        count + 1
    } else {
        count - 1
    };
    assert forall|v: T|
        2 * #[trigger] occurrences(s.take(k + 1), v) <= k + 1 + if v.eq_spec(&candidate) {
            next
        } else {
            -next
        } by {
        lemma_occurrences_take_next(s, k, v);
    }
}

/// Once the vote has run over all of `s`, only an element equal to the
/// candidate can hold a majority, and none can if no vote is left.
proof fn lemma_vote_end<T: PartialEq>(s: Seq<T>, candidate: T, count: int)
    requires
        eq_is_equivalence::<T>(),
        count >= 0,
        vote_bound(s, s.len() as int, candidate, count),
    ensures
        forall|v: T| #[trigger] is_majority(s, v) ==> count > 0 && v.eq_spec(&candidate),
        forall|v: T| #[trigger] is_majority(s, v) ==> is_majority(s, candidate),
{
    assert(s.take(s.len() as int) =~= s);
    assert forall|v: T| #[trigger] is_majority(s, v) implies count > 0 && v.eq_spec(&candidate)
        && is_majority(s, candidate) by {
        lemma_occurrences_equal(s, v, candidate);
    }
}

/// The vote after the first `k` positions of `s`, for `k` of 1 or more: the
/// position of the candidate and the number of votes for it that no other
/// element has cancelled. A position that finds no vote left becomes the
/// candidate with one vote; any other adds a vote where its element equals
/// the candidate and cancels one where it does not.
pub open spec fn vote_after<T: PartialEq>(s: Seq<T>, k: int) -> (int, nat)
    decreases k,
{
    if k <= 1 {
        (0, 1)
    } else {
        let (at, votes) = vote_after(s, k - 1);
        if votes == 0 {
            (k - 1, 1)
        } else if s[k - 1].eq_spec(&s[at]) {
            (at, votes + 1)
        } else {
            (at, (votes - 1) as nat)
        }
    }
}

/// The position of the candidate once the vote has run over all of `s`.
pub open spec fn vote_candidate<T: PartialEq>(s: Seq<T>) -> int {
    vote_after(s, s.len() as int).0
}

/// The Boyer-Moore majority vote: a pass that keeps one candidate and a count
/// of the votes for it that no other element has cancelled, then a pass that
/// counts the candidate.
///
/// Returns an element of `stream` that holds more than half of its positions,
/// or `None` where no element does. Half of the positions is not a majority.
/// Of several equal elements it returns the vote's last candidate.
pub fn boyer_moore<T: Eq>(stream: &[T]) -> (result: Option<&T>)
    requires
        eq_is_equivalence::<T>(),
    ensures
        finds_majority(stream@, result),
        result matches Some(found) ==> *found == stream@[vote_candidate(stream@)],
        stream@.len() == 0 ==> result is None,
        stream@.len() == 1 ==> result == Some(&stream@[0]),
{
    let n = stream.len();
    if n == 0 {
        return None;
    }
    proof {
        if n == 1 {
            lemma_single_is_majority(stream@);
        }
    }
    let mut candidate = &stream[0];
    let mut count: usize = 1;
    let mut k: usize = 1;
    let ghost mut at: int = 0;
    proof {
        assert forall|v: T|
            2 * #[trigger] occurrences(stream@.take(1), v) <= 1 + if v.eq_spec(candidate) {
                1int
            } else {
                -1int
            } by {
            lemma_occurrences_take_next(stream@, 0, v);
        }
    }
    while k < n
        invariant
            eq_is_equivalence::<T>(),
            n == stream.len(),
            1 <= k <= n,
            count <= k,
            0 <= at < k,
            *candidate == stream@[at],
            vote_after(stream@, k as int) == (at, count as nat),
            vote_bound(stream@, k as int, *candidate, count as int),
        decreases n - k,
    {
        let current = &stream[k];
        if count == 0 {
            proof {
                lemma_vote_restart(stream@, k as int, *candidate);
                at = k as int;
            }
            candidate = current;
            count += 1;
        } else {
            proof {
                lemma_vote_step(stream@, k as int, *candidate, count as int);
            }
            if current == candidate {
                count += 1;
            } else {
                count -= 1;
            }
        }
        k += 1;
    }
    proof {
        lemma_vote_end(stream@, *candidate, count as int);
    }
    if count == 0 {
        return None;
    }
    let mut total: usize = 0;
    let mut i: usize = 0;
    while i < n
        invariant
            eq_is_equivalence::<T>(),
            n == stream.len(),
            i <= n,
            total <= i,
            total <= n / 2,
            total == occurrences(stream@.take(i as int), *candidate),
            *candidate == stream@[vote_candidate(stream@)],
            0 <= vote_candidate(stream@) < n,
            forall|v: T| #[trigger] is_majority(stream@, v) ==> is_majority(stream@, *candidate),
            n == 1 ==> is_majority(stream@, stream@[0]),
        decreases n - i,
    {
        proof {
            lemma_occurrences_take_next(stream@, i as int, *candidate);
            lemma_occurrences_prefix(stream@, i + 1, *candidate);
        }
        if &stream[i] == candidate {
            total += 1;
            if total > n / 2 {
                return Some(candidate);
            }
        } else if total + (n - i - 1) <= n / 2 {
            return None;
        }
        i += 1;
    }
    proof {
        assert(stream@.take(n as int) =~= stream@);
    }
    None
}

} // verus!
