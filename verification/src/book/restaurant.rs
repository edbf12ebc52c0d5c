//! A restaurant: the dishes it serves.
use vstd::prelude::*;

verus! {

/// A dish, by the size of its portion; no dish is made of beef.
pub struct Dish {
    pub portion: u32,
    is_beef: bool,
}

impl Dish {
    /// The size of the portion.
    pub closed spec fn portions(&self) -> u32 {
        self.portion
    }

    /// Whether the dish is made of beef.
    pub closed spec fn beef(&self) -> bool {
        self.is_beef
    }

    /// A dish of the given portion, not made of beef.
    pub fn new_dish(portion: u32) -> (d: Self)
        ensures
            d.portions() == portion,
            !d.beef(),
    {
        Dish { portion, is_beef: false }
    }
}

/// What a customer is served on a visit: a dish of three portions.
pub fn eat_at_restaurant() -> (dish: Dish)
    ensures
        dish.portions() == 3,
        !dish.beef(),
{
    Dish::new_dish(3)
}

} // verus!
