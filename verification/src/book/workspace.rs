//! Adding a random positive amount to a number.
use vstd::prelude::*;

verus! {

/// A random byte from `low` to `high`, both included, drawn from the
/// thread-local generator of `rand`.
///
/// Calls `rand::random_range(low..=high)`, which panics on an empty range
/// (ruled out here) and where the system's source of entropy fails when the
/// generator is first seeded. Which byte of the range comes back is not
/// claimed.
#[verifier::external_body]
fn random_byte_between(low: u8, high: u8) -> (r: u8)
    requires
        low <= high,
    ensures
        low <= r <= high,
{
    rand::random_range(low..=high)
}

/// `x + y`, where the sum fits in a `u8`.
pub open spec fn sum_within_byte(x: u8, y: u8) -> Option<u8> {
    if x + y <= u8::MAX {
        Some((x + y) as u8)
    } else {
        None
    }
}

/// `x + y` where it fits in a `u8`, and `None` where it does not.
pub fn add_amount(x: u8, y: u8) -> (r: Option<u8>)
    ensures
        r == sum_within_byte(x, y),
{
    x.checked_add(y)
}

/// `x` plus a random amount of at least one that still fits in a `u8`, so
/// that the result is always larger than `x`; `None` for the largest `u8`,
/// to which nothing can be added.
pub fn add_one(x: u8) -> (r: Option<u8>)
    ensures
        x == u8::MAX <==> r is None,
        r matches Some(v) ==> x < v,
        exists|y: u8| 1 <= y && r == sum_within_byte(x, y),
{
    if x == u8::MAX {
        assert(sum_within_byte(x, 1) is None);
        return None;
    }
    let y = random_byte_between(1, u8::MAX - x);
    add_amount(x, y)
}

} // verus!
