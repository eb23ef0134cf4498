//! Counting the positions of a sequence that hold a given element, and the
//! facts about such counts that the searches rest on.

use vstd::prelude::*;
use vstd::std_specs::cmp::PartialEqSpec;
use crate::equality::eq_is_equivalence;

verus! {

/// 1 if `x` equals `v`, else 0.
pub open spec fn hit<T: PartialEq>(x: T, v: T) -> nat {
    if x.eq_spec(&v) {
        1
    } else {
        0
    }
}

/// The number of positions of `s` whose element equals `v`.
pub open spec fn occurrences<T: PartialEq>(s: Seq<T>, v: T) -> nat
    decreases s.len(),
{
    if s.len() == 0 {
        0
    } else {
        occurrences(s.drop_last(), v) + hit(s.last(), v)
    }
}

/// `v` holds more than half of the positions of `s`.
pub open spec fn is_majority<T: PartialEq>(s: Seq<T>, v: T) -> bool {
    2 * occurrences(s, v) > s.len()
}

/// What a search for the majority of `s` may return: an element of `s` that
/// holds more than half of its positions, or `None` where no element does.
pub open spec fn finds_majority<T: PartialEq>(s: Seq<T>, result: Option<&T>) -> bool {
    match result {
        Some(found) => s.contains(*found) && is_majority(s, *found),
        None => forall|v: T| !is_majority(s, v),
    }
}

/// No position is followed by an equal element.
pub open spec fn no_adjacent_equal<T: PartialEq>(s: Seq<T>) -> bool {
    forall|i: int| 0 <= i < s.len() - 1 ==> !(#[trigger] s[i]).eq_spec(&s[i + 1])
}

/// Appending `x` adds one occurrence of `v` exactly when `x` equals `v`.
pub proof fn lemma_occurrences_push<T: PartialEq>(s: Seq<T>, x: T, v: T)
    ensures
        occurrences(s.push(x), v) == occurrences(s, v) + hit(x, v),
{
    assert(s.push(x).drop_last() =~= s);
}

/// Extending a prefix by one position adds that position's hit.
pub proof fn lemma_occurrences_take_next<T: PartialEq>(s: Seq<T>, k: int, v: T)
    requires
        0 <= k < s.len(),
    ensures
        occurrences(s.take(k + 1), v) == occurrences(s.take(k), v) + hit(s[k], v),
{
    assert(s.take(k + 1).drop_last() =~= s.take(k));
}

/// No element occurs more often than there are positions.
pub proof fn lemma_occurrences_length<T: PartialEq>(s: Seq<T>, v: T)
    ensures
        occurrences(s, v) <= s.len(),
    decreases s.len(),
{
    if s.len() > 0 {
        lemma_occurrences_length(s.drop_last(), v);
    }
}

/// A prefix holds no more occurrences than the whole, and the whole no more
/// than the prefix and the positions behind it together.
pub proof fn lemma_occurrences_prefix<T: PartialEq>(s: Seq<T>, k: int, v: T)
    requires
        0 <= k <= s.len(),
    ensures
        occurrences(s.take(k), v) <= k,
        occurrences(s.take(k), v) <= occurrences(s, v),
        occurrences(s, v) <= occurrences(s.take(k), v) + (s.len() - k),
    decreases s.len() - k,
{
    lemma_occurrences_length(s.take(k), v);
    if k == s.len() {
        assert(s.take(k) =~= s);
    } else {
        lemma_occurrences_take_next(s, k, v);
        lemma_occurrences_prefix(s, k + 1, v);
    }
}

/// Equal elements occur equally often.
pub proof fn lemma_occurrences_equal<T: PartialEq>(s: Seq<T>, v: T, w: T)
    requires
        eq_is_equivalence::<T>(),
        v.eq_spec(&w),
    ensures
        occurrences(s, v) == occurrences(s, w),
    decreases s.len(),
{
    if s.len() > 0 {
        lemma_occurrences_equal(s.drop_last(), v, w);
    }
}

/// Two elements that are not equal share no position.
pub proof fn lemma_occurrences_disjoint<T: PartialEq>(s: Seq<T>, v: T, w: T)
    requires
        eq_is_equivalence::<T>(),
        !v.eq_spec(&w),
    ensures
        occurrences(s, v) + occurrences(s, w) <= s.len(),
    decreases s.len(),
{
    if s.len() > 0 {
        lemma_occurrences_disjoint(s.drop_last(), v, w);
    }
}

/// The element of a sequence of one holds its majority.
pub proof fn lemma_single_is_majority<T: PartialEq>(s: Seq<T>)
    requires
        eq_is_equivalence::<T>(),
        s.len() == 1,
    ensures
        is_majority(s, s[0]),
{
}

/// Where no position is followed by an equal element, an element can hold
/// every second position at most: its occurrences, doubled, exceed the length
/// by one only if it holds both ends, and reach it only if it holds one.
pub proof fn lemma_occurrences_spread<T: PartialEq>(s: Seq<T>, v: T)
    requires
        eq_is_equivalence::<T>(),
        no_adjacent_equal(s),
        s.len() > 0,
    ensures
        2 * occurrences(s, v) + 1 <= s.len() + hit(s[0], v) + hit(s.last(), v),
    decreases s.len(),
{
    let front = s.drop_last();
    if s.len() == 1 {
        assert(occurrences(front, v) == 0);
    } else {
        lemma_occurrences_spread(front, v);
    }
}

} // verus!
