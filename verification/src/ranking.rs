//! Best-first ranking of scalars, NaN last.
use vstd::prelude::*;

use crate::metric::Direction;
use crate::scalar::{Extended, Scalar};

verus! {

/// Does `a` come before `b` in a best-first ranking? A NaN comes after everything else.
pub open spec fn ahead(direction: Direction, a: Extended, b: Extended) -> bool {
    match (a is Nan, b is Nan) {
        (true, _) => false,
        (false, true) => true,
        (false, false) => match direction {
            Direction::Minimize => a.lt(b),
            Direction::Maximize => b.lt(a),
        },
    }
}

/// Does `a` come before `b` in a best-first ranking?
pub fn ranks_ahead(direction: Direction, a: Scalar, b: Scalar) -> (r: bool)
    ensures
        r == ahead(direction, a@, b@),
{
    if a.is_nan() {
        false
    } else if b.is_nan() {
        true
    } else {
        match direction {
            Direction::Minimize => a.below(b),
            Direction::Maximize => b.below(a),
        }
    }
}

/// The ranking is a strict weak order: nothing is ahead of itself, being ahead carries over,
/// and so does being level.
pub proof fn law_ranking_is_a_weak_order(
    direction: Direction,
    a: Extended,
    b: Extended,
    c: Extended,
)
    ensures
        !ahead(direction, a, a),
        ahead(direction, a, b) && ahead(direction, b, c) ==> ahead(direction, a, c),
        !ahead(direction, a, b) && !ahead(direction, b, c) ==> !ahead(direction, a, c),
{
}

/// What is strictly better in the keep-or-revert sense is ahead in the ranking, and the
/// converse.
pub proof fn law_ranking_agrees_with_improvement(direction: Direction, a: Extended, b: Extended)
    ensures
        ahead(direction, a, b) <==> crate::metric::better(direction, b, a) && !(a is Nan && b
            is Nan),
{
}

/// Does entry `i` of `values` precede entry `j`: ahead of it, or level with it and earlier?
pub open spec fn precedes(direction: Direction, values: Seq<Scalar>, i: int, j: int) -> bool {
    ||| ahead(direction, values[i]@, values[j]@)
    ||| !ahead(direction, values[j]@, values[i]@) && i < j
}

/// Is `order` the stable best-first ranking of `values`, by index?
pub open spec fn is_ranking(direction: Direction, values: Seq<Scalar>, order: Seq<usize>) -> bool {
    &&& order.len() == values.len()
    &&& forall|k: int| 0 <= k < order.len() ==> (#[trigger] order[k] as int) < values.len()
    &&& forall|k: int, l: int|
        0 <= k < l < order.len() ==> #[trigger] order[k] != #[trigger] order[l] && precedes(
            direction,
            values,
            order[k] as int,
            order[l] as int,
        )
}

/// The indices of `values`, best first, equal ones in their original order.
pub fn rank(direction: Direction, values: &[Scalar]) -> (order: Vec<usize>)
    ensures
        is_ranking(direction, values@, order@),
{
    let mut order: Vec<usize> = Vec::new();
    let mut n: usize = 0;
    while n < values.len()
        invariant
            n <= values@.len(),
            order@.len() == n,
            forall|k: int| 0 <= k < order@.len() ==> (#[trigger] order@[k] as int) < n,
            forall|k: int, l: int|
                0 <= k < l < order@.len() ==> #[trigger] order@[k] != #[trigger] order@[l]
                    && precedes(direction, values@, order@[k] as int, order@[l] as int),
        decreases values@.len() - n,
    {
        let x = values[n];
        let mut at: usize = n;
        while at > 0 && ranks_ahead(direction, x, values[order[at - 1]])
            invariant
                at <= n,
                n < values@.len(),
                x == values@[n as int],
                order@.len() == n,
                forall|k: int| 0 <= k < order@.len() ==> (#[trigger] order@[k] as int) < n,
                forall|k: int|
                    at <= k < n ==> ahead(
                        direction,
                        x@,
                        values@[#[trigger] order@[k] as int]@,
                    ),
            decreases at,
        {
            at -= 1;
        }
        let ghost before = order@;
        order.insert(at, n);
        proof {
            assert forall|k: int, l: int|
                0 <= k < l < order@.len() implies #[trigger] order@[k] != #[trigger] order@[l]
                && precedes(direction, values@, order@[k] as int, order@[l] as int) by {
                if k == at {
                    assert(order@[l] == before[l - 1]);
                } else if l == at {
                    assert(order@[k] == before[k]);
                    let last = before[at - 1];
                    if k < at - 1 {
                        assert(precedes(direction, values@, before[k] as int, last as int));
                    }
                    law_ranking_is_a_weak_order(
                        direction,
                        x@,
                        values@[before[k] as int]@,
                        values@[last as int]@,
                    );
                } else {
                    let kk = if k < at { k } else { k - 1 };
                    let ll = if l < at { l } else { l - 1 };
                    assert(order@[k] == before[kk] && order@[l] == before[ll]);
                }
            }
            assert forall|k: int| 0 <= k < order@.len() implies (#[trigger] order@[k] as int) < n
                + 1 by {
                if k < at {
                    assert(order@[k] == before[k]);
                } else if k > at {
                    assert(order@[k] == before[k - 1]);
                }
            }
        }
        n += 1;
    }
    order
}

} // verus!
