//! Functions as values: calling one twice, and returning one.
use vstd::prelude::*;

verus! {

/// One more than `x`, which must be below the largest `i32`.
pub fn add_one(x: i32) -> (r: i32)
    requires
        x < i32::MAX,
    ensures
        r == x + 1,
{
    x + 1
}

/// The sum of two calls of `f` on `x`; both calls must be allowed, and any
/// two results must add up to an `i32`.
pub fn do_twice(f: impl Fn(i32) -> i32, x: i32) -> (r: i32)
    requires
        f.requires((x,)),
        forall|a: i32, b: i32|
            f.ensures((x,), a) && f.ensures((x,), b) ==> i32::MIN <= a + b <= i32::MAX,
    ensures
        exists|a: i32, b: i32| f.ensures((x,), a) && f.ensures((x,), b) && r == a + b,
{
    let a = f(x);
    let b = f(x);
    a + b
}

/// A function that maps every number to 10.
pub fn get_func() -> (f: impl Fn(i32) -> i32)
    ensures
        forall|x: i32| f.requires((x,)),
        forall|x: i32, y: i32| f.ensures((x,), y) ==> y == 10,
{
    |x: i32| -> (y: i32)
        ensures
            y == 10,
        { 10 }
}

} // verus!
