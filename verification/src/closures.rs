//! Iterators-and-closures walkthrough: a shirt inventory whose giveaway
//! falls back to the most stocked colour when no preference is given.

use vstd::prelude::*;

verus! {

#[derive(Debug, PartialEq, Eq, Structural, Copy, Clone)]
pub enum ShirtColor {
    Red,
    Blue,
}

/// How many shirts of a colour the stock holds.
pub open spec fn count_color(s: Seq<ShirtColor>, c: ShirtColor) -> nat
    decreases s.len(),
{
    if s.len() == 0 {
        0
    } else {
        count_color(s.drop_last(), c) + if s.last() == c {
            1nat
        } else {
            0nat
        }
    }
}

/// The colour with strictly more shirts in stock; a tie goes to blue, since
/// the comparison asks for strictly more red.
pub open spec fn most_stocked_spec(s: Seq<ShirtColor>) -> ShirtColor {
    if count_color(s, ShirtColor::Red) > count_color(s, ShirtColor::Blue) {
        ShirtColor::Red
    } else {
        ShirtColor::Blue
    }
}

pub struct Inventory {
    pub shirts: Vec<ShirtColor>,
}

impl Inventory {
    /// The explicit preference when there is one, and otherwise whichever
    /// colour is most stocked.
    pub fn giveaway(&self, user_preferences: Option<ShirtColor>) -> (r: ShirtColor)
        ensures
            user_preferences matches Some(c) ==> r == c,
            user_preferences is None ==> r == most_stocked_spec(self.shirts@),
    {
        match user_preferences {
            Some(c) => c,
            None => self.most_stocked(),
        }
    }

    /// Counts the stock of each colour and hands back the strictly more
    /// common one, blue on a tie.
    pub fn most_stocked(&self) -> (r: ShirtColor)
        ensures
            r == most_stocked_spec(self.shirts@),
    {
        let mut num_red: usize = 0;
        let mut num_blue: usize = 0;
        let n = self.shirts.len();
        let mut j: usize = 0;
        proof {
            assert(self.shirts@.take(0) =~= Seq::<ShirtColor>::empty());
        }
        while j < n
            invariant
                n == self.shirts@.len(),
                j <= n,
                num_red == count_color(self.shirts@.take(j as int), ShirtColor::Red),
                num_blue == count_color(
                    self.shirts@.take(j as int),
                    ShirtColor::Blue,
                ),
                num_red + num_blue <= j,
            decreases n - j,
        {
            proof {
                assert(self.shirts@.take(j + 1).drop_last() =~= self.shirts@.take(
                    j as int,
                ));
                assert(self.shirts@.take(j + 1).last() == self.shirts@[j as int]);
            }
            match self.shirts[j] {
                ShirtColor::Red => {
                    num_red += 1;
                },
                ShirtColor::Blue => {
                    num_blue += 1;
                },
            }
            j += 1;
        }
        proof {
            assert(self.shirts@.take(n as int) =~= self.shirts@);
        }
        if num_red > num_blue {
            ShirtColor::Red
        } else {
            ShirtColor::Blue
        }
    }
}

} // verus!
