//! Filtering a list of shoes by their size.
use vstd::prelude::*;

verus! {

/// A shoe, by its size.
#[derive(PartialEq, Debug)]
pub struct Shoe {
    pub size: u32,
}

/// The shoes of `s` larger than `size`, in order.
pub open spec fn larger_than(s: Seq<Shoe>, size: u32) -> Seq<Shoe>
    decreases s.len(),
{
    if s.len() == 0 {
        Seq::empty()
    } else {
        let rest = larger_than(s.drop_last(), size);
        if s.last().size > size {
            rest.push(s.last())
        } else {
            rest
        }
    }
}

/// The shoes larger than `size`, in the order of the list.
pub fn filter_shoes_size<'a>(shoes: &'a Vec<Shoe>, size: u32) -> (r: Vec<&'a Shoe>)
    ensures
        r@.map_values(|s: &Shoe| *s) == larger_than(shoes@, size),
{
    let mut r: Vec<&'a Shoe> = Vec::new();
    let mut i: usize = 0;
    while i < shoes.len()
        invariant
            i <= shoes@.len(),
            r@.map_values(|s: &Shoe| *s) == larger_than(shoes@.take(i as int), size),
        decreases shoes.len() - i,
    {
        let shoe = &shoes[i];
        proof {
            assert(shoes@.take(i + 1).drop_last() == shoes@.take(i as int));
        }
        if shoe.size > size {
            r.push(shoe);
        }
        i = i + 1;
    }
    assert(shoes@.take(i as int) == shoes@);
    r
}

} // verus!
