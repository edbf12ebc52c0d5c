//! Comparing two values of a type, which may be unsized.
use vstd::prelude::*;
use vstd::std_specs::cmp::PartialEqSpec;

verus! {

/// Whether two values are equal, as the type's `==` has it.
pub fn eq<T: Eq + ?Sized>(s: &T, v: &T) -> (r: bool)
    ensures
        T::obeys_eq_spec() ==> r == s.eq_spec(v),
{
    s == v
}

} // verus!
