//! The Fischer-Salzberg search by collapsing runs.

use vstd::prelude::*;
use vstd::std_specs::cmp::PartialEqSpec;
use crate::bucket::Bucket;
use crate::count::{
    finds_majority, is_majority, lemma_occurrences_equal, lemma_occurrences_push,
    lemma_occurrences_spread, lemma_occurrences_take_next, lemma_single_is_majority,
    no_adjacent_equal, occurrences,
};
use crate::equality::eq_is_equivalence;

verus! {

/// The forward pass after the first `k` positions of `s`: the list that it
/// has built, the element whose copies are pending, and their number. An
/// element that equals the list's last becomes a pending copy. Any other is
/// appended to the list, and one pending copy, if there is any, behind it.
pub open spec fn collapse_after<T: PartialEq>(s: Seq<T>, k: int) -> (Seq<T>, Option<T>, nat)
    decreases k,
{
    if k <= 0 {
        (Seq::empty(), None, 0)
    } else {
        let (list, held, pending) = collapse_after(s, k - 1);
        let x = s[k - 1];
        if list.len() > 0 && x.eq_spec(&list.last()) {
            match held {
                Some(e) => (list, Some(e), pending + 1),
                None => (list, Some(x), 1),
            }
        } else {
            match held {
                Some(e) => (
                    list.push(x).push(e),
                    if pending == 1 {
                        None
                    } else {
                        Some(e)
                    },
                    (pending - 1) as nat,
                ),
                None => (list.push(x), None, 0),
            }
        }
    }
}

/// The candidate of the run-collapsing search: the last element of the list
/// that the forward pass builds of all of `s`.
pub open spec fn collapse_candidate<T: PartialEq>(s: Seq<T>) -> T {
    collapse_after(s, s.len() as int).0.last()
}

/// The elements that a list of borrowed elements refers to.
spec fn referents<T>(list: Seq<&T>) -> Seq<T> {
    Seq::new(list.len(), |i: int| *list[i])
}

/// The number of pending copies that equal `v`.
spec fn share<T: PartialEq>(held: Option<T>, pending: nat, v: T) -> nat {
    match held {
        Some(e) => if e.eq_spec(&v) {
            pending
        } else {
            0
        },
        None => 0,
    }
}

/// What holds of the forward pass after the first `k` positions of `s`: the
/// list and the pending copies together hold those positions' elements, the
/// list has no position followed by an equal element, and what is pending
/// equals the list's last element.
spec fn collapsed<T: PartialEq>(s: Seq<T>, k: int) -> bool {
    let (list, held, pending) = collapse_after(s, k);
    &&& list.len() + pending == k
    &&& held is None <==> pending == 0
    &&& k > 0 ==> list.len() > 0
    &&& no_adjacent_equal(list)
    &&& held matches Some(e) ==> list.len() > 0 && e.eq_spec(&list.last()) && s.contains(e)
    &&& forall|i: int| 0 <= i < list.len() ==> s.contains(#[trigger] list[i])
    &&& forall|v: T|
        #![trigger occurrences(list, v)]
        occurrences(list, v) + share(held, pending, v) == occurrences(s.take(k), v)
}

/// The forward pass keeps its state as described, position by position.
proof fn lemma_collapse_next<T: PartialEq>(s: Seq<T>, k: int)
    requires
        eq_is_equivalence::<T>(),
        0 <= k < s.len(),
        collapsed(s, k),
    ensures
        collapsed(s, k + 1),
{
    let (list, held, pending) = collapse_after(s, k);
    let (next_list, next_held, next_pending) = collapse_after(s, k + 1);
    let x = s[k];
    assert forall|v: T|
        #![trigger occurrences(next_list, v)]
        occurrences(next_list, v) + share(next_held, next_pending, v) == occurrences(
            s.take(k + 1),
            v,
        ) by {
        lemma_occurrences_take_next(s, k, v);
        lemma_occurrences_push(list, x, v);
        if held is Some {
            lemma_occurrences_push(list.push(x), held->0, v);
        }
    }
}

/// The state of the backward pass over the list `l` with the positions from
/// `j` on visited, `spent` pending copies taken out of the bucket, and `skip`
/// set if the position before `j` is to be passed over. Every visited element
/// that differs from the candidate, the list's last element, is matched with
/// a visited candidate or with a copy taken out of the bucket.
spec fn confirming<T: PartialEq>(l: Seq<T>, j: int, skip: bool, spent: int) -> bool {
    &&& 0 <= j <= l.len()
    &&& skip ==> j < l.len() && l[j].eq_spec(&l.last())
    &&& 2 * (occurrences(l, l.last()) - occurrences(l.take(j), l.last())) + spent - (if skip {
        1int
    } else {
        0int
    }) == l.len() - j
}

/// One position of the backward pass that does not end it.
proof fn lemma_confirm_next<T: PartialEq>(l: Seq<T>, j: int, skip: bool, spent: int)
    requires
        eq_is_equivalence::<T>(),
        no_adjacent_equal(l),
        0 < j,
        confirming(l, j, skip, spent),
    ensures
        skip ==> confirming(l, j - 1, false, spent),
        !skip && l[j - 1].eq_spec(&l.last()) ==> confirming(l, j - 1, true, spent),
        !skip && !l[j - 1].eq_spec(&l.last()) ==> confirming(l, j - 1, false, spent + 1),
{
    lemma_occurrences_take_next(l, j - 1, l.last());
}

/// What the forward pass leaves of the whole of `s`: the occurrences of an
/// element that equals the candidate are those in the list and all that is
/// pending, and any other element's are those in the list.
proof fn lemma_collapse_whole<T: PartialEq>(s: Seq<T>, v: T)
    requires
        eq_is_equivalence::<T>(),
        s.len() > 0,
        collapsed(s, s.len() as int),
    ensures
        ({
            let (list, held, pending) = collapse_after(s, s.len() as int);
            occurrences(s, v) == occurrences(list, v) + if v.eq_spec(&list.last()) {
                pending
            } else {
                0
            }
        }),
{
    assert(s.take(s.len() as int) =~= s);
}

/// An element that differs from the candidate holds no majority, however
/// the backward pass ends.
proof fn lemma_collapse_other<T: PartialEq>(s: Seq<T>, v: T)
    requires
        eq_is_equivalence::<T>(),
        s.len() > 0,
        collapsed(s, s.len() as int),
        !v.eq_spec(&collapse_candidate(s)),
    ensures
        !is_majority(s, v),
{
    lemma_collapse_whole(s, v);
    lemma_occurrences_spread(collapse_after(s, s.len() as int).0, v);
}

/// If the candidate holds no majority, no element does.
proof fn lemma_collapse_none<T: PartialEq>(s: Seq<T>)
    requires
        eq_is_equivalence::<T>(),
        s.len() > 0,
        collapsed(s, s.len() as int),
        !is_majority(s, collapse_candidate(s)),
    ensures
        forall|v: T| !is_majority(s, v),
{
    let candidate = collapse_candidate(s);
    assert forall|v: T| !is_majority(s, v) by {
        if v.eq_spec(&candidate) {
            lemma_occurrences_equal(s, v, candidate);
        } else {
            lemma_collapse_other(s, v);
        }
    }
}

/// The backward pass came through with `left` copies pending. The
/// candidate's occurrences exceed those of all other elements together by
/// `left`, and by one more if the list's first element is a candidate that
/// found nothing to pass over. So the candidate holds a majority if there is
/// such an excess, and no element does if there is none.
proof fn lemma_collapse_through<T: PartialEq>(s: Seq<T>, skip: bool, left: nat)
    requires
        eq_is_equivalence::<T>(),
        s.len() > 0,
        collapsed(s, s.len() as int),
        left <= collapse_after(s, s.len() as int).2,
        confirming(
            collapse_after(s, s.len() as int).0,
            0,
            skip,
            collapse_after(s, s.len() as int).2 - left,
        ),
    ensures
        skip || left > 0 ==> is_majority(s, collapse_candidate(s)),
        !skip && left == 0 ==> forall|v: T| !is_majority(s, v),
{
    lemma_collapse_whole(s, collapse_candidate(s));
    if !skip && left == 0 {
        lemma_collapse_none(s);
    }
}

/// The backward pass met, before position `j`, an element that differs from
/// the candidate with nothing pending to match it: no element holds a
/// majority.
proof fn lemma_collapse_reject<T: PartialEq>(s: Seq<T>, j: int)
    requires
        eq_is_equivalence::<T>(),
        s.len() > 0,
        collapsed(s, s.len() as int),
        0 < j,
        confirming(
            collapse_after(s, s.len() as int).0,
            j,
            false,
            collapse_after(s, s.len() as int).2 as int,
        ),
        !collapse_after(s, s.len() as int).0[j - 1].eq_spec(&collapse_candidate(s)),
    ensures
        forall|v: T| !is_majority(s, v),
{
    let candidate = collapse_candidate(s);
    lemma_collapse_whole(s, candidate);
    lemma_occurrences_spread(collapse_after(s, s.len() as int).0.take(j), candidate);
    lemma_collapse_none(s);
}

/// The Fischer-Salzberg search: a forward pass that copies the stream into a
/// list in which no element is followed by an equal one, holding repeated
/// elements back in a bucket, then a backward pass over the list that matches
/// each element other than the candidate, the list's last element, with a
/// candidate from the list or the bucket. The candidate holds a majority if
/// every such element finds its match and a candidate is left over.
///
/// Returns an element of `stream` that holds more than half of its positions,
/// or `None` where no element does. Half of the positions is not a majority.
/// Of several equal elements it returns the candidate.
pub fn fischer_salzberg<T: Eq>(stream: &[T]) -> (result: Option<&T>)
    requires
        eq_is_equivalence::<T>(),
    ensures
        finds_majority(stream@, result),
        result matches Some(found) ==> *found == collapse_candidate(stream@),
        stream@.len() == 0 ==> result is None,
        stream@.len() == 1 ==> result == Some(&stream@[0]),
{
    let n = stream.len();
    if n == 0 {
        return None;
    }
    proof {
        if n == 1 {
            lemma_single_is_majority(stream@);
        }
    }
    let mut list: Vec<&T> = Vec::with_capacity(n);
    let mut bucket: Bucket<T> = Bucket::new();
    let mut k: usize = 0;
    while k < n
        invariant
            eq_is_equivalence::<T>(),
            n == stream.len(),
            k <= n,
            bucket.wf(),
            collapse_after(stream@, k as int) == (
                referents(list@),
                bucket.held(),
                bucket.pending(),
            ),
            collapsed(stream@, k as int),
        decreases n - k,
    {
        let current = &stream[k];
        let ghost before = referents(list@);
        proof {
            lemma_collapse_next(stream@, k as int);
        }
        let repeated = match list.last() {
            Some(last) => current == *last,
            None => false,
        };
        if repeated {
            bucket.push(current);
        } else {
            list.push(current);
            assert(referents(list@) =~= before.push(*current));
            if !bucket.empty() {
                let deferred = bucket.pop();
                list.push(deferred);
                assert(referents(list@) =~= before.push(*current).push(*deferred));
            }
        }
        k += 1;
    }
    let ghost pending = bucket.pending();
    let candidate = list[list.len() - 1];
    let mut skip_next = false;
    let mut j: usize = list.len();
    proof {
        assert(referents(list@).take(j as int) =~= referents(list@));
    }
    while j > 0
        invariant
            eq_is_equivalence::<T>(),
            n == stream.len(),
            n > 0,
            collapsed(stream@, n as int),
            collapse_after(stream@, n as int).0 == referents(list@),
            collapse_after(stream@, n as int).2 == pending,
            *candidate == collapse_candidate(stream@),
            bucket.wf(),
            bucket.pending() <= pending,
            j <= list.len(),
            confirming(referents(list@), j as int, skip_next, pending - bucket.pending()),
            n == 1 ==> is_majority(stream@, stream@[0]),
        decreases j,
    {
        proof {
            lemma_confirm_next(referents(list@), j as int, skip_next, pending - bucket.pending());
        }
        j -= 1;
        let current = list[j];
        if skip_next {
            skip_next = false;
        } else if current == candidate {
            skip_next = true;
        } else if bucket.empty() {
            proof {
                lemma_collapse_reject(stream@, j + 1);
            }
            return None;
        } else {
            bucket.pop();
        }
    }
    proof {
        lemma_collapse_through(stream@, skip_next, bucket.pending());
    }
    if skip_next || !bucket.empty() {
        Some(candidate)
    } else {
        None
    }
}

} // verus!
