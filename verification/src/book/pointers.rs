//! A box of one's own, and a slice split in two.
use vstd::prelude::*;

verus! {

/// A box holding one value.
pub struct MyBox<T>(pub T);

impl<T> MyBox<T> {
    /// A box holding `value`.
    pub fn new(value: T) -> (b: MyBox<T>)
        ensures
            b.0 == value,
    {
        MyBox(value)
    }
}

impl<T> std::ops::Deref for MyBox<T> {
    type Target = T;

    fn deref(&self) -> (r: &T)
        ensures
            *r == self.0,
    {
        &self.0
    }
}

/// The slice split at `mid` into its first `mid` elements and the rest, both
/// borrowed mutably; `mid` must not pass the end of the slice.
pub fn split_at_mut(v: &mut [i32], mid: usize) -> (r: (&mut [i32], &mut [i32]))
    requires
        mid <= old(v)@.len(),
    ensures
        r.0@ == old(v)@.subrange(0, mid as int),
        r.1@ == old(v)@.subrange(mid as int, old(v)@.len() as int),
        final(v)@ == final(r.0)@ + final(r.1)@,
{
    v.split_at_mut(mid)
}

} // verus!
