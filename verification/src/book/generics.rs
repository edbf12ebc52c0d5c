//! Generic types and functions: a point of two coordinates of any types, and
//! the largest element of a list.
use vstd::prelude::*;
use vstd::std_specs::cmp::PartialOrdSpec;

verus! {

/// A point whose coordinates may be of different types.
pub struct Point<T, U> {
    pub x: T,
    pub y: U,
}

impl<T, U> Point<T, U> {
    /// The first coordinate.
    pub fn get_x(&self) -> (r: &T)
        ensures
            *r == self.x,
    {
        &self.x
    }

    /// The second coordinate.
    pub fn get_y(&self) -> (r: &U)
        ensures
            *r == self.y,
    {
        &self.y
    }
}

impl Point<i32, i32> {
    /// The first coordinate, by value.
    pub fn get_x_i32(&self) -> (r: i32)
        ensures
            r == self.x,
    {
        self.x
    }
}

impl<X1, Y1> Point<X1, Y1> {
    /// A point with the first coordinate of this one and the second of
    /// `other`.
    pub fn mixup<X2, Y2>(self, other: Point<X2, Y2>) -> (r: Point<X1, Y2>)
        ensures
            r.x == self.x,
            r.y == other.y,
    {
        Point { x: self.x, y: other.y }
    }
}

/// Whether `a` compares greater than `b`.
pub open spec fn greater<T: PartialOrd>(a: T, b: T) -> bool {
    a.partial_cmp_spec(&b) == Some(core::cmp::Ordering::Greater)
}

/// The running largest over the first `n` elements of `s`, starting from
/// `s[0]`: each element that compares greater than the running largest
/// takes its place.
pub open spec fn largest_of<T: PartialOrd>(s: Seq<T>, n: nat) -> T
    decreases n,
{
    if n == 0 {
        s[0]
    } else {
        let m = largest_of(s, (n - 1) as nat);
        if greater(s[n - 1], m) {
            s[n - 1]
        } else {
            m
        }
    }
}

/// The largest element of a nonempty list: the first that no later one
/// compares greater than, as the comparison of `T` goes.
pub fn get_largest<T: PartialOrd>(vec: &Vec<T>) -> (r: &T)
    requires
        vec@.len() > 0,
    ensures
        exists|i: int| 0 <= i < vec@.len() && *r == vec@[i],
        T::obeys_partial_cmp_spec() ==> *r == largest_of(vec@, vec@.len()),
{
    let mut largest = &vec[0];
    let mut i: usize = 0;
    let ghost mut seen: nat = 0;
    while i < vec.len()
        invariant
            i <= vec.len(),
            seen == i,
            exists|k: int| 0 <= k < vec@.len() && *largest == vec@[k],
            T::obeys_partial_cmp_spec() ==> *largest == largest_of(vec@, seen),
        decreases vec.len() - i,
    {
        let number = &vec[i];
        if number.gt(largest) {
            largest = number;
        }
        i = i + 1;
        proof {
            seen = seen + 1;
        }
    }
    largest
}

} // verus!
