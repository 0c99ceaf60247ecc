//! Ownership walkthrough: handing values through calls and returns,
//! borrowing a length without taking ownership, appending through an
//! exclusive borrow, and the first-word slice.

use crate::text::{find_char, find_char_from};
use vstd::prelude::*;
use vstd::utf8::encode_utf8;

verus! {

/// Ownership of the returned text moves out to the caller.
pub fn gives_ownership() -> (r: String)
    ensures
        r@ == "yours"@,
{
    let some_string = String::from_str("yours");
    some_string
}

/// Takes ownership of a value and hands the very same value back.
pub fn takes_and_gives_back(a_string: String) -> (r: String)
    ensures
        r == a_string,
{
    a_string
}

/// Returns the text together with its length, handing ownership back to the
/// caller alongside the answer.
pub fn tedious_calculate_length(s: String) -> (r: (String, usize))
    ensures
        r.0 == s,
        r.1 == encode_utf8(s@).len() as usize,
{
    let length = s.as_str().len();
    (s, length)
}

/// Borrows the text instead: the caller keeps ownership throughout. The
/// length is the byte length of the encoded text.
pub fn calculate_length(s: &String) -> (r: usize)
    ensures
        r == encode_utf8(s@).len() as usize,
{
    s.as_str().len()
}

/// Appends through an exclusive borrow: the one writer while it lasts.
pub fn change(some_string: &mut String)
    ensures
        final(some_string)@ == old(some_string)@ + ", world"@,
{
    some_string.append(", world");
}

/// The leading word: everything before the first space, or the whole text
/// when it has no space. The result is a slice into the input, equally at
/// home on owned, borrowed, or literal text.
pub fn first_word<'a>(s: &'a str) -> (r: &'a str)
    ensures
        r@ == s@.subrange(0, find_char_from(s@, 0, ' ')),
{
    let i = find_char(s, 0, ' ');
    proof {
        crate::text::lemma_find_char_from(s@, 0, ' ');
    }
    s.substring_char(0, i)
}

} // verus!
