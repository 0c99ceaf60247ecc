//! The running rectangle example: area, a width check, strict containment
//! with its law, an associated square constructor, and sorting a list of
//! rectangles by width.

use vstd::multiset::Multiset;
use vstd::prelude::*;

verus! {

broadcast use {
    vstd::seq_lib::to_multiset_build,
    vstd::seq_lib::to_multiset_remove,
    vstd::seq_lib::to_multiset_len,
    vstd::seq_lib::to_multiset_contains,
    vstd::multiset::group_multiset_axioms,
};

#[derive(Clone, Copy, PartialEq, Eq, Structural, Debug)]
pub struct Rectangle {
    pub width: u32,
    pub height: u32,
}

/// One rectangle holds another when it is strictly wider and strictly
/// taller.
pub open spec fn can_hold_spec(outer: Rectangle, inner: Rectangle) -> bool {
    outer.width > inner.width && outer.height > inner.height
}

impl Rectangle {
    pub fn area(&self) -> (r: u32)
        requires
            self.width * self.height <= u32::MAX,
        ensures
            r == self.width * self.height,
    {
        self.width * self.height
    }

    /// Whether the rectangle has a nonzero width; shares its name with the
    /// field, told apart by the call parentheses.
    pub fn width(&self) -> (r: bool)
        ensures
            r == (self.width > 0),
    {
        self.width > 0
    }

    pub fn can_hold(&self, other: &Rectangle) -> (r: bool)
        ensures
            r == can_hold_spec(*self, *other),
    {
        self.width > other.width && self.height > other.height
    }

    /// A square: one size for both dimensions.
    pub fn square(size: u32) -> (r: Self)
        ensures
            r.width == size,
            r.height == size,
    {
        Self { width: size, height: size }
    }
}

/// Containment is strict in both dimensions, so no rectangle can hold
/// itself.
pub proof fn lemma_can_hold_irreflexive(r: Rectangle)
    ensures
        !can_hold_spec(r, r),
{
}

/// Holding is never mutual: two rectangles cannot each hold the other.
pub proof fn lemma_can_hold_asymmetric(a: Rectangle, b: Rectangle)
    ensures
        !(can_hold_spec(a, b) && can_hold_spec(b, a)),
{
}

/// A list of rectangles in non-descending order of width.
pub open spec fn sorted_by_width(s: Seq<Rectangle>) -> bool {
    forall|i: int, j: int| 0 <= i <= j < s.len() ==> s[i].width <= s[j].width
}

/// Index of the first rectangle of minimal width.
fn narrowest_index(list: &Vec<Rectangle>) -> (r: usize)
    requires
        list@.len() > 0,
    ensures
        r < list@.len(),
        forall|i: int| 0 <= i < list@.len() ==> list@[r as int].width <= list@[i].width,
{
    let mut best: usize = 0;
    let mut c: usize = 1;
    while c < list.len()
        invariant
            list@.len() > 0,
            best < list@.len(),
            c <= list@.len(),
            forall|i: int| 0 <= i < c ==> list@[best as int].width <= list@[i].width,
        decreases list@.len() - c,
    {
        if list[c].width < list[best].width {
            best = c;
        }
        c += 1;
    }
    best
}

/// Sorts rectangles by ascending width, as sorting by an extracted width
/// key would; the result holds the same rectangles.
pub fn sort_by_width(list: &Vec<Rectangle>) -> (sorted: Vec<Rectangle>)
    ensures
        sorted_by_width(sorted@),
        sorted@.to_multiset() == list@.to_multiset(),
{
    let mut remaining = list.clone();
    let mut sorted: Vec<Rectangle> = Vec::new();
    proof {
        assert(remaining@ =~= list@);
        assert(sorted@.to_multiset().add(remaining@.to_multiset())
            =~= list@.to_multiset());
    }
    while 0 < remaining.len()
        invariant
            sorted_by_width(sorted@),
            sorted@.to_multiset().add(remaining@.to_multiset())
                == list@.to_multiset(),
            forall|i: int, j: int|
                0 <= i < sorted@.len() && 0 <= j < remaining@.len()
                    ==> sorted@[i].width <= remaining@[j].width,
        decreases remaining@.len(),
    {
        let smallest = narrowest_index(&remaining);
        let ghost pre = remaining@;
        sorted.push(remaining[smallest]);
        remaining.remove(smallest);
        proof {
            assert(remaining@ == pre.remove(smallest as int));
        }
    }
    proof {
        assert(remaining@.to_multiset() =~= Multiset::<Rectangle>::empty());
        assert(sorted@.to_multiset().add(Multiset::<Rectangle>::empty())
            =~= sorted@.to_multiset());
    }
    sorted
}

} // verus!
