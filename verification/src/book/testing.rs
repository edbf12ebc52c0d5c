//! Small functions with tests: a guess in range, rectangles that hold one
//! another, a sum and a greeting.
use vstd::prelude::*;

use crate::text::{chars_of, extend_chars, string_of};

verus! {

/// A guess, which lies strictly between 1 and 100.
pub struct Guess {
    guess: i32,
}

impl Guess {
    /// The value guessed.
    pub closed spec fn value(&self) -> int {
        self.guess as int
    }

    /// A guess of `guess`, which must lie strictly between 1 and 100.
    pub fn new(guess: i32) -> (g: Guess)
        requires
            1 < guess < 100,
        ensures
            g.value() == guess,
    {
        Guess { guess }
    }
}

/// A rectangle by the lengths of its sides.
pub struct Rectangle {
    pub x: i32,
    pub y: i32,
}

impl Rectangle {
    /// Whether `other` fits strictly inside this rectangle.
    pub fn can_hold(&self, other: &Rectangle) -> (b: bool)
        ensures
            b == (self.x > other.x && self.y > other.y),
    {
        self.x > other.x && self.y > other.y
    }
}

/// The sum of two sizes, which must fit in a `usize`.
pub fn add(left: usize, right: usize) -> (r: usize)
    requires
        left + right <= usize::MAX,
    ensures
        r == left + right,
{
    left + right
}

/// A greeting for `name`.
pub fn greeting(name: &str) -> (s: String)
    ensures
        s@ == "Greetings from "@ + name@,
{
    let mut v = chars_of("Greetings from ");
    let n = chars_of(name);
    extend_chars(&mut v, &n);
    string_of(&v)
}

} // verus!
