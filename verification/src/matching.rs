//! Enums and pattern matching: coins with a state-carrying quarter, the
//! optional increment, dice-roll dispatch with a catch-all, and enum shapes
//! with differing payloads.

use vstd::prelude::*;

verus! {

#[derive(Debug, Clone, Copy, PartialEq, Eq, Structural)]
pub enum UsState {
    Alabama,
    Alaska,
}

#[derive(Debug)]
pub enum Coin {
    Penny,
    Nickel,
    Dime,
    Quarter(UsState),
}

/// The face value of each coin, in cents.
pub open spec fn value_in_cents_spec(coin: Coin) -> u8 {
    match coin {
        Coin::Penny => 1,
        Coin::Nickel => 5,
        Coin::Dime => 10,
        Coin::Quarter(_) => 25,
    }
}

pub fn value_in_cents(coin: &Coin) -> (r: u8)
    ensures
        r == value_in_cents_spec(*coin),
{
    match coin {
        Coin::Penny => 1,
        Coin::Nickel => 5,
        Coin::Dime => 10,
        Coin::Quarter(_state) => 25,
    }
}

/// Absent stays absent; a present value is incremented.
pub fn plus_one(x: Option<i32>) -> (r: Option<i32>)
    requires
        x matches Some(i) ==> i < i32::MAX,
    ensures
        x is None ==> r is None,
        x matches Some(i) ==> r == Some((i + 1) as i32),
{
    match x {
        None => None,
        Some(i) => Some(i + 1),
    }
}

/// What a dice roll does to the player.
#[derive(Debug, PartialEq, Eq, Structural)]
pub enum DiceAction {
    AddFancyHat,
    RemoveFancyHat,
    MovePlayer(u8),
}

/// A three wins a hat, a seven loses one, and any other roll moves the
/// player that many spaces — the catch-all arm binds the value it covers.
pub fn dice_move(roll: u8) -> (action: DiceAction)
    ensures
        roll == 3 ==> action == DiceAction::AddFancyHat,
        roll == 7 ==> action == DiceAction::RemoveFancyHat,
        roll != 3 && roll != 7 ==> action == DiceAction::MovePlayer(roll),
{
    match roll {
        3 => DiceAction::AddFancyHat,
        7 => DiceAction::RemoveFancyHat,
        other => DiceAction::MovePlayer(other),
    }
}

/// An IP address is one of two versions, each carrying its own shape of
/// data.
#[derive(Debug)]
pub enum IpAddr {
    V4(u8, u8, u8, u8),
    V6(String),
}

/// Four variants of four different shapes: no payload, named fields, one
/// value, three values.
#[derive(Debug)]
pub enum Message {
    Quit,
    Move { x: i32, y: i32 },
    Write(String),
    ChangeColor(i32, i32, i32),
}

impl Message {
    /// Methods attach to enums through the same mechanism as to structs.
    pub fn call(&self) {
    }
}

} // verus!
