//! What the searches ask of the element type's `==`.

use vstd::prelude::*;
use vstd::std_specs::cmp::PartialEqSpec;

verus! {

/// Executable `==` on `T` computes `eq_spec`, and `eq_spec` is an equivalence
/// relation: reflexive, symmetric and transitive.
///
/// Verus sees this of the integer types and of `bool` by itself, and of
/// tuples and `Option`s of them.
pub open spec fn eq_is_equivalence<T: PartialEq>() -> bool {
    &&& T::obeys_eq_spec()
    &&& forall|x: T| #[trigger] x.eq_spec(&x)
    &&& forall|x: T, y: T| #[trigger] x.eq_spec(&y) ==> y.eq_spec(&x)
    &&& forall|x: T, y: T, z: T|
        #[trigger] x.eq_spec(&y) && #[trigger] y.eq_spec(&z) ==> x.eq_spec(&z)
}

} // verus!
