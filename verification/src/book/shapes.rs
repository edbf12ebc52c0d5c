//! Rectangles: their area, and whether one fits inside another.
use vstd::prelude::*;

verus! {

/// A rectangle by its width and height.
pub struct Rectangle {
    pub width: u32,
    pub height: u32,
}

impl Rectangle {
    /// The area of the rectangle, which must fit in a `u32`.
    pub fn area(&self) -> (a: u32)
        requires
            self.width * self.height <= u32::MAX,
        ensures
            a == self.width * self.height,
    {
        assert(self.height * self.width == self.width * self.height) by (nonlinear_arith);
        self.height * self.width
    }

    /// Whether `target` fits strictly inside this rectangle, side by side.
    pub fn can_hold(&self, target: &Rectangle) -> (b: bool)
        ensures
            b == (self.width > target.width && self.height > target.height),
    {
        self.width > target.width && self.height > target.height
    }

    /// A square with sides of the given length.
    pub fn square(dimension: u32) -> (s: Self)
        ensures
            s.width == dimension,
            s.height == dimension,
    {
        Self { width: dimension, height: dimension }
    }
}

} // verus!
