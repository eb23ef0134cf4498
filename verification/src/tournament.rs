//! The place of the tournament search.

use vstd::prelude::*;

verus! {

/// Two borrowed elements and a count.
#[derive(Debug)]
pub struct Tuple<'a, T> {
    pub first: &'a T,
    pub second: &'a T,
    pub count: usize,
}

impl<'a, T> Tuple<'a, T> {
    /// The tuple of `first`, `second` and `count`.
    pub fn new(first: &'a T, second: &'a T, count: usize) -> (tuple: Tuple<'a, T>)
        ensures
            tuple.first == first,
            tuple.second == second,
            tuple.count == count,
    {
        Tuple { first, second, count }
    }
}

/// Stands in for the Matula tournament search, and finds nothing: the result
/// is `None` for every stream.
pub fn matula_tournament<T: Eq>(stream: &[T]) -> (result: Option<&T>)
    ensures
        result is None,
{
    None
}

} // verus!
