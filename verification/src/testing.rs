//! Test-conventions demonstrator: a private-but-testable adder, a tiny
//! public helper, a fixed greeting, and a range-validated guess type.

use vstd::prelude::*;

verus! {

/// Internal logic stays directly provable and testable even when it is not
/// exported.
pub fn internal_adder(a: i32, b: i32) -> (r: i32)
    requires
        i32::MIN <= a + b <= i32::MAX,
    ensures
        r == a + b,
{
    a + b
}

pub fn add_two(a: i32) -> (r: i32)
    requires
        a + 2 <= i32::MAX,
    ensures
        r == a + 2,
{
    a + 2
}

/// Returns a fixed greeting. The argument is deliberately ignored — the
/// greeting never interpolates the name — and the contract pins exactly
/// that.
pub fn greeting(name: &str) -> (r: String)
    ensures
        r@ == "Hello!"@,
{
    String::from_str("Hello!")
}

/// A number that is known to lie between 1 and 100 inclusive.
pub struct Guess {
    value: i32,
}

impl Guess {
    /// The stored number.
    pub closed spec fn value_spec(&self) -> int {
        self.value as int
    }

    /// Wraps a number between 1 and 100; the bounds are the precondition,
    /// so no value outside them ever becomes a `Guess`.
    pub fn new(value: i32) -> (r: Guess)
        requires
            1 <= value <= 100,
        ensures
            r.value_spec() == value,
    {
        Guess { value }
    }
}

} // verus!
