//! Enums and `match`: coins and their value, optional numbers, dice rolls.
use vstd::prelude::*;

use crate::text::{decimal, decimal_chars, string_of};

verus! {

/// The states whose quarters are collected.
#[derive(Debug, Clone, Copy, PartialEq, Eq, Structural)]
pub enum UsState {
    Alaska,
    NewYork,
    California,
    Colorado,
    Texas,
    Florida,
}

/// A coin of the United States.
#[derive(Debug, Clone, Copy, PartialEq, Eq, Structural)]
pub enum Coin {
    Penny,
    Nickel,
    Dime,
    Quarter(UsState),
}

pub open spec fn cents(coin: Coin) -> u32 {
    match coin {
        Coin::Penny => 1,
        Coin::Nickel => 5,
        Coin::Dime => 10,
        Coin::Quarter(_) => 25,
    }
}

/// The value of a coin, in cents.
pub fn value_in_cents(coin: Coin) -> (c: u32)
    ensures
        c == cents(coin),
{
    match coin {
        Coin::Penny => 1,
        Coin::Nickel => 5,
        Coin::Dime => 10,
        Coin::Quarter(_state) => 25,
    }
}

/// One more than the number held, if there is one; it must be below the
/// largest `u32`.
pub fn add_one(value: Option<u32>) -> (r: Option<u32>)
    requires
        value matches Some(i) ==> i < u32::MAX,
    ensures
        r == (match value {
            Some(i) => Some((i + 1) as u32),
            None => None::<u32>,
        }),
{
    match value {
        None => None,
        Some(i) => Some(i + 1),
    }
}

/// What a roll of the dice says: a re-roll on 3, a skipped turn on 7, and
/// otherwise the number rolled.
pub fn dice_roll_use_catch_all(dice_value: u32) -> (s: String)
    ensures
        s@ == (if dice_value == 3 {
            "re-roll"@
        } else if dice_value == 7 {
            "skip your turn"@
        } else {
            decimal(dice_value as int)
        }),
{
    if dice_value == 3 {
        String::from_str("re-roll")
    } else if dice_value == 7 {
        String::from_str("skip your turn")
    } else {
        let v = decimal_chars(dice_value as i128);
        string_of(&v)
    }
}

/// The roll itself on 3 and 7, and 0 on any other number.
pub fn dice_roll_dont_use_catch_all(dice_value: u32) -> (r: u32)
    ensures
        r == (if dice_value == 3 || dice_value == 7 { dice_value } else { 0 }),
{
    match dice_value {
        3 => 3,
        7 => 7,
        _ => 0,
    }
}

/// What a roll of the dice says, if anything: a re-roll on 3 and a skipped
/// turn on 7.
pub fn dice_roll_dont_use_catch_all_dont_do_nothing(dice_value: u32) -> (s: Option<String>)
    ensures
        dice_value == 3 ==> (s matches Some(t) && t@ == "re-roll"@),
        dice_value == 7 ==> (s matches Some(t) && t@ == "skip your turn"@),
        dice_value != 3 && dice_value != 7 ==> s is None,
{
    match dice_value {
        3 => Some(String::from_str("re-roll")),
        7 => Some(String::from_str("skip your turn")),
        _ => None,
    }
}

} // verus!
