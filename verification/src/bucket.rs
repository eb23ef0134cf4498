//! A slot for copies of one element that wait to be placed.

use vstd::prelude::*;
use vstd::std_specs::cmp::PartialEqSpec;

verus! {

/// Holds one borrowed element and the number of its copies that are pending.
/// The element is there exactly while that number is not zero.
#[derive(Debug)]
pub struct Bucket<'a, T: Eq> {
    element: Option<&'a T>,
    count: usize,
}

impl<'a, T: Eq> Bucket<'a, T> {
    /// The element whose copies are pending, if any are.
    pub closed spec fn held(&self) -> Option<T> {
        match self.element {
            Some(e) => Some(*e),
            None => None,
        }
    }

    /// The number of pending copies.
    pub closed spec fn pending(&self) -> nat {
        self.count as nat
    }

    /// An element is held exactly while copies are pending.
    pub closed spec fn wf(&self) -> bool {
        self.element is None <==> self.count == 0
    }

    /// `v` may be pushed: nothing is pending, or what is pending equals `v`,
    /// and the count has room for one more.
    pub open spec fn admits(&self, v: T) -> bool {
        &&& self.pending() < usize::MAX
        &&& match self.held() {
            Some(e) => e.eq_spec(&v),
            None => true,
        }
    }

    /// A bucket with nothing pending.
    pub fn new() -> (bucket: Bucket<'a, T>)
        ensures
            bucket.wf(),
            bucket.held() is None,
            bucket.pending() == 0,
    {
        Bucket { element: None, count: 0 }
    }

    /// Adds one pending copy. The first copy pushed into an empty bucket is
    /// the one that the bucket holds until it is empty again.
    pub fn push(&mut self, other: &'a T)
        requires
            old(self).wf(),
            old(self).admits(*other),
        ensures
            final(self).wf(),
            final(self).pending() == old(self).pending() + 1,
            final(self).held() == match old(self).held() {
                Some(e) => Some(e),
                None => Some(*other),
            },
    {
        match self.element {
            Some(_) => {
                self.count += 1;
            },
            None => {
                self.element = Some(other);
                self.count = 1;
            },
        }
    }

    /// Takes one pending copy out and returns the held element.
    pub fn pop(&mut self) -> (out: &'a T)
        requires
            old(self).wf(),
            old(self).pending() > 0,
        ensures
            final(self).wf(),
            old(self).held() == Some(*out),
            final(self).pending() == old(self).pending() - 1,
            final(self).held() == if old(self).pending() == 1 {
                None
            } else {
                old(self).held()
            },
    {
        let e = self.element.unwrap();
        self.count -= 1;
        if self.count == 0 {
            self.element = None;
        }
        e
    }

    /// Whether nothing is pending.
    pub fn empty(&self) -> (none: bool)
        requires
            self.wf(),
        ensures
            none == (self.pending() == 0),
            none == (self.held() is None),
    {
        match self.element {
            Some(_) => false,
            None => true,
        }
    }
}

} // verus!
