//! Lifetimes walkthrough: the longer of two borrowed texts, whose result
//! lives only as long as both inputs, and a record borrowing an excerpt of
//! a longer-lived text.

use crate::text::{find_char, find_char_from};
use vstd::prelude::*;
use vstd::string::StringSliceAdditionalSpecFns;

verus! {

/// Whichever of the two texts is longer in bytes; ties go to the second.
/// The result borrows from both inputs, so it is valid only while the
/// shorter-lived of the two is.
pub fn longest<'a>(x: &'a str, y: &'a str) -> (r: &'a str)
    ensures
        x.spec_bytes().len() as usize > y.spec_bytes().len() as usize ==> r@ == x@,
        x.spec_bytes().len() as usize <= y.spec_bytes().len() as usize ==> r@ == y@,
{
    if x.len() > y.len() {
        x
    } else {
        y
    }
}

/// A record holding a borrowed excerpt: it cannot outlive the text the
/// excerpt points into.
pub struct ImportantExcerpt<'a> {
    pub part: &'a str,
}

/// The opening sentence: everything before the first period, or the whole
/// text when there is none.
pub fn first_sentence<'a>(novel: &'a str) -> (r: &'a str)
    ensures
        r@ == novel@.subrange(0, find_char_from(novel@, 0, '.')),
{
    let i = find_char(novel, 0, '.');
    proof {
        crate::text::lemma_find_char_from(novel@, 0, '.');
    }
    novel.substring_char(0, i)
}

} // verus!
