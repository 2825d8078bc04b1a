//! Coin values and option arithmetic from the pattern-matching examples.

use vstd::prelude::*;

verus! {

/// The states a state quarter can commemorate.
#[derive(Clone, Copy, Debug, PartialEq, Eq, Structural)]
pub enum UsState {
    Alabama,
    Alaska,
    Arkansas,
    California,
}

/// A United States coin; quarters carry the state they commemorate.
#[derive(Clone, Copy, Debug, PartialEq, Eq, Structural)]
pub enum Coin {
    Penny,
    Nickel,
    Dime,
    Quarter(UsState),
}

/// A coin's worth in cents.
pub open spec fn spec_coin_value(coin: Coin) -> u8 {
    match coin {
        Coin::Penny => 1,
        Coin::Nickel => 5,
        Coin::Dime => 10,
        Coin::Quarter(_) => 25,
    }
}

/// How many cents the coin is worth.
pub fn value_in_cents(coin: Coin) -> (r: u8)
    ensures
        r == spec_coin_value(coin),
{
    match coin {
        Coin::Penny => 1,
        Coin::Nickel => 5,
        Coin::Dime => 10,
        Coin::Quarter(_state) => 25,
    }
}

/// One more than `x`, where there is an `x`.
pub fn plus_one(x: Option<i32>) -> (r: Option<i32>)
    requires
        x is Some ==> x.unwrap() < i32::MAX,
    ensures
        r == match x {
            Some(i) => Some((i + 1) as i32),
            None => None::<i32>,
        },
{
    match x {
        Some(i) => Some(i + 1),
        None => None,
    }
}

} // verus!
