//! Error-handling walkthrough: the range-validated guess with its getter,
//! the outcome of comparing a guess with the secret, the secret drawn from
//! the random-number crate, and the last character of a text's first line.

use crate::text::{find_char, line_at, split_lines_spec, strip_carriage_return};
use rand::Rng;
use vstd::prelude::*;

verus! {

/// A guessed number known to lie between 1 and 100 inclusive.
pub struct Guess {
    value: i32,
}

impl Guess {
    /// The stored number.
    pub closed spec fn value_spec(&self) -> int {
        self.value as int
    }

    /// Wraps a number between 1 and 100; the bounds are the precondition,
    /// so no value outside them ever becomes a `Guess`.
    pub fn new(value: i32) -> (r: Guess)
        requires
            1 <= value <= 100,
        ensures
            r.value_spec() == value,
    {
        Guess { value }
    }

    pub fn value(&self) -> (r: i32)
        ensures
            r == self.value_spec(),
    {
        self.value
    }
}

/// How a guess compares with the secret number.
#[derive(Debug, PartialEq, Eq, Structural)]
pub enum GuessOutcome {
    TooLow,
    TooHigh,
    Win,
}

/// Compares a guess with the secret: below is too low, above is too high,
/// and only equality wins.
pub fn check_guess(guess: i32, secret: i32) -> (outcome: GuessOutcome)
    ensures
        guess < secret ==> outcome == GuessOutcome::TooLow,
        guess > secret ==> outcome == GuessOutcome::TooHigh,
        guess == secret ==> outcome == GuessOutcome::Win,
{
    if guess < secret {
        GuessOutcome::TooLow
    } else if guess > secret {
        GuessOutcome::TooHigh
    } else {
        GuessOutcome::Win
    }
}

/// Relies on `rand::thread_rng` and `Rng::gen_range`: a sample from the
/// non-empty range 1..=10 lies within it, whatever was drawn.
#[verifier::external_body]
pub fn secret_number() -> (n: i32)
    ensures
        1 <= n <= 10,
{
    rand::thread_rng().gen_range(1..=10)
}

/// The last character of a text's first line: nothing for an empty text or
/// an empty first line.
pub open spec fn last_char_of_first_line_spec(t: Seq<char>) -> Option<char> {
    if t.len() == 0 {
        None
    } else {
        let first = split_lines_spec(t)[0];
        if first.len() == 0 {
            None
        } else {
            Some(first.last())
        }
    }
}

pub fn last_char_of_first_line(text: &str) -> (r: Option<char>)
    ensures
        r == last_char_of_first_line_spec(text@),
{
    let n = text.unicode_len();
    if n == 0 {
        return None;
    }
    let i = find_char(text, 0, '\n');
    let line = if i < n {
        line_at(text, 0, i)
    } else {
        text.to_owned()
    };
    proof {
        crate::text::lemma_find_char_from(text@, 0, '\n');
        if i < n {
            assert(split_lines_spec(text@)[0] == strip_carriage_return(
                text@.subrange(0, i as int),
            ));
            assert(line@ == split_lines_spec(text@)[0]);
        } else {
            assert(text@.subrange(0, n as int) =~= text@);
            assert(split_lines_spec(text@) == seq![text@]);
            assert(line@ == split_lines_spec(text@)[0]);
        }
    }
    let m = line.as_str().unicode_len();
    if m == 0 {
        None
    } else {
        Some(line.as_str().get_char(m - 1))
    }
}

} // verus!
