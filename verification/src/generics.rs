//! Type-parameterized items: the comparison-bounded largest-element scan
//! and point-like records with one or two independent type parameters.

use vstd::prelude::*;
use vstd::std_specs::cmp::PartialOrdSpec;

verus! {

/// `a` comes no later than `b` under the type's own comparison.
pub open spec fn le_by_cmp<T: PartialOrd>(a: T, b: T) -> bool {
    a.partial_cmp_spec(&b) == Some(core::cmp::Ordering::Less) || a.partial_cmp_spec(
        &b,
    ) == Some(core::cmp::Ordering::Equal)
}

/// A reference to a maximum element, found by a single left-to-right scan
/// keeping the current front-runner. The preconditions ask that the type's
/// comparison is honest, total and transitive — as any ordinary ordering
/// is.
pub fn largest<T: PartialOrd>(list: &Vec<T>) -> (r: &T)
    requires
        list@.len() > 0,
        T::obeys_partial_cmp_spec(),
        forall|a: T, b: T| #[trigger] a.partial_cmp_spec(&b) is Some,
        forall|a: T, b: T| #[trigger] le_by_cmp(a, b) || #[trigger] le_by_cmp(b, a),
        forall|a: T, b: T, c: T|
            #[trigger] le_by_cmp(a, b) && #[trigger] le_by_cmp(b, c) ==> le_by_cmp(
                a,
                c,
            ),
    ensures
        exists|i: int| 0 <= i < list@.len() && *r == list@[i],
        forall|i: int| 0 <= i < list@.len() ==> le_by_cmp(#[trigger] list@[i], *r),
{
    let mut best: usize = 0;
    let mut idx: usize = 1;
    while idx < list.len()
        invariant
            list@.len() > 0,
            T::obeys_partial_cmp_spec(),
            forall|a: T, b: T| #[trigger] a.partial_cmp_spec(&b) is Some,
            forall|a: T, b: T|
                #[trigger] le_by_cmp(a, b) || #[trigger] le_by_cmp(b, a),
            forall|a: T, b: T, c: T|
                #[trigger] le_by_cmp(a, b) && #[trigger] le_by_cmp(b, c)
                    ==> le_by_cmp(a, c),
            best < list@.len(),
            idx <= list@.len(),
            forall|i: int|
                0 <= i < idx ==> le_by_cmp(#[trigger] list@[i], list@[best as int]),
        decreases list@.len() - idx,
    {
        if list[idx].gt(&list[best]) {
            proof {
                assert(!le_by_cmp(list@[idx as int], list@[best as int]));
                assert(le_by_cmp(list@[best as int], list@[idx as int]));
            }
            best = idx;
        } else {
            proof {
                // the comparison came back, and not as Greater, so the
                // candidate is no larger than the front-runner
                match list@[idx as int].partial_cmp_spec(&list@[best as int]) {
                    Some(core::cmp::Ordering::Greater) => {
                        assert(false);
                    },
                    None => {
                        assert(false);
                    },
                    _ => {},
                }
                assert(le_by_cmp(list@[idx as int], list@[best as int]));
            }
        }
        idx += 1;
    }
    &list[best]
}

/// A point whose two coordinates share one type.
#[derive(Debug)]
pub struct Point<T> {
    pub x: T,
    pub y: T,
}

/// A point whose two coordinates may have different types.
#[derive(Debug)]
pub struct Point2<X1, Y1> {
    pub x: X1,
    pub y: Y1,
}

impl<X1, Y1> Point2<X1, Y1> {
    /// Combines this point's first coordinate with another point's second,
    /// whatever the other point's coordinate types.
    pub fn mixup<X2, Y2>(self, other: Point2<X2, Y2>) -> (r: Point2<X1, Y2>)
        ensures
            r.x == self.x,
            r.y == other.y,
    {
        Point2 { x: self.x, y: other.y }
    }
}

} // verus!
