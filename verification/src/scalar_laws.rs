//! What the operations on single numbers do, and the orders that are built on them.
use vstd::prelude::*;

use crate::metric::{Direction, Metric};
use crate::scalar::Scalar;
use crate::strategy::Heading;

verus! {

/// The bits of a number tell its class: with a full exponent it is infinite where the fraction is
/// zero and no number where it is not, and with any other it is finite.
pub proof fn law_classes(x: Scalar, nan: bool, finite: bool)
    requires
        call_ensures(Scalar::is_nan, (x,), nan),
        call_ensures(Scalar::is_finite, (x,), finite),
    ensures
        ({
            let rest = x.bits as int % 0x8000_0000_0000_0000;
            let exponent = rest / 0x10_0000_0000_0000;
            let fraction = rest % 0x10_0000_0000_0000;
            &&& finite <==> exponent != 2047
            &&& nan <==> exponent == 2047 && fraction != 0
        }),
{
}

/// A number is below another where the real number is; minus infinity is below and plus infinity
/// above every finite one; and what is no number is neither.
pub proof fn law_below(x: Scalar, y: Scalar, less: bool, more: bool)
    requires
        call_ensures(Scalar::below, (x, y), less),
        call_ensures(Scalar::below, (y, x), more),
    ensures
        x@.finite() && y@.finite() ==> (less <==> crate::exact::value(x) < crate::exact::value(y)),
        x@.finite() && y@ is PosInf ==> less && !more,
        x@ is NegInf && y@.finite() ==> less && !more,
        x@ is NegInf && y@ is PosInf ==> less && !more,
        x@ is Nan || y@ is Nan ==> !less && !more,
        x@ == y@ ==> !less && !more,
{
    if x@.finite() && y@.finite() {
        crate::exact::lemma_value_orders(x, y);
    }
}

/// A number is at most another where it is below it or the same number.
pub proof fn law_at_most(x: Scalar, y: Scalar, r: bool, less: bool)
    requires
        call_ensures(Scalar::at_most, (x, y), r),
        call_ensures(Scalar::below, (x, y), less),
    ensures
        r <==> less || (x@ == y@ && !(x@ is Nan)),
        x@.finite() && y@.finite() ==> (r <==> crate::exact::value(x) <= crate::exact::value(y)),
{
    if x@.finite() && y@.finite() {
        crate::exact::lemma_value_orders(x, y);
    }
}

/// The larger of two numbers is one of them and neither is above it; beside what is no number, it
/// is the other.
pub proof fn law_max(x: Scalar, y: Scalar, r: Scalar)
    requires
        call_ensures(Scalar::max, (x, y), r),
    ensures
        r == x || r == y,
        x@ is Nan ==> r == y,
        y@ is Nan && !(x@ is Nan) ==> r == x,
        x@.finite() && y@.finite() ==> crate::exact::value(r) == crate::exact::max(
            crate::exact::value(x),
            crate::exact::value(y),
        ),
        x@ is NegInf && !(y@ is Nan) ==> r == y || r@ == y@,
        x@ is PosInf && !(y@ is Nan) ==> r@ == x@,
{
    if x@.finite() && y@.finite() {
        crate::exact::lemma_value_orders(x, y);
    }
}

/// A number between the bounds stays, one outside becomes the bound that it passed, and what is
/// no number stays.
pub proof fn law_clamp(x: Scalar, lo: Scalar, hi: Scalar, r: Scalar)
    requires
        lo@.finite(),
        hi@.finite(),
        crate::exact::value(lo) <= crate::exact::value(hi),
        call_ensures(Scalar::clamp, (x, lo, hi), r),
    ensures
        x@.finite() ==> r@.finite() && crate::exact::value(r) == crate::exact::clamp(
            crate::exact::value(x),
            crate::exact::value(lo),
            crate::exact::value(hi),
        ),
        x@ is NegInf ==> r == lo,
        x@ is PosInf ==> r == hi,
        x@ is Nan ==> r == x,
{
    if x@.finite() {
        crate::exact::lemma_value_orders(x, lo);
        crate::exact::lemma_value_orders(hi, x);
    }
    crate::exact::lemma_value_orders(lo, hi);
}

/// Changing the sign gives the opposite number, and twice the number itself, bit for bit.
pub proof fn law_negate(x: Scalar, r: Scalar, s: Scalar)
    requires
        call_ensures(Scalar::negate, (x,), r),
        call_ensures(Scalar::negate, (r,), s),
    ensures
        s == x,
        x@.finite() ==> r@.finite() && crate::exact::value(r) == -crate::exact::value(x),
        x@ is PosInf ==> r@ is NegInf,
        x@ is NegInf ==> r@ is PosInf,
        x@ is Nan ==> r@ is Nan,
{
    if x@.finite() {
        crate::exact::lemma_signs(x);
    }
}

/// The absolute value is the distance from zero.
pub proof fn law_abs(x: Scalar, r: Scalar)
    requires
        call_ensures(Scalar::abs, (x,), r),
    ensures
        x@.finite() ==> r@.finite() && crate::exact::value(r) == crate::exact::magnitude(
            crate::exact::value(x),
        ),
        x@ is PosInf || x@ is NegInf ==> r@ is PosInf,
        x@ is Nan ==> r@ is Nan,
{
    if x@.finite() {
        crate::exact::lemma_signs(x);
    }
}

/// The sign of a number is one where it is positive and minus one where it is negative; a zero has
/// the sign that it is written with; and what is no number stays.
pub proof fn law_signum(x: Scalar, r: Scalar)
    requires
        call_ensures(Scalar::signum, (x,), r),
    ensures
        x@.finite() && crate::exact::value(x) > 0real ==> crate::exact::value(r) == 1real,
        x@.finite() && crate::exact::value(x) < 0real ==> crate::exact::value(r) == -1real,
        x@ is PosInf ==> crate::exact::value(r) == 1real,
        x@ is NegInf ==> crate::exact::value(r) == -1real,
        x.bits == 0 ==> crate::exact::value(r) == 1real,
        x.bits == 0x8000_0000_0000_0000 ==> crate::exact::value(r) == -1real,
        x@ is Nan ==> r == x,
{
    crate::exact::lemma_constants();
    if x@.finite() {
        crate::exact::lemma_signs(x);
        crate::scalar::lemma_place_orders(x, Scalar { bits: 0 });
        crate::scalar::lemma_place_orders(Scalar { bits: 0 }, x);
    }
}

/// A step goes up where it ends above its start, down where it ends below, and is flat where it
/// ends at it; it has no direction where one end is no number or both are the same infinity. As a
/// number, up is one, down minus one, flat zero, and no direction no number.
pub proof fn law_headings(a: Scalar, b: Scalar, h: Heading, r: Scalar)
    requires
        call_ensures(Heading::of, (a, b), h),
        call_ensures(Heading::value, (h,), r),
    ensures
        a@.finite() && b@.finite() ==> {
            &&& h is Up <==> crate::exact::value(a) < crate::exact::value(b)
            &&& h is Down <==> crate::exact::value(b) < crate::exact::value(a)
            &&& h is Flat <==> crate::exact::value(a) == crate::exact::value(b)
        },
        h is Unknown <==> a@ is Nan || b@ is Nan || (a@ == b@ && !a@.finite()),
        h is Up ==> crate::exact::value(r) == 1real,
        h is Down ==> crate::exact::value(r) == -1real,
        h is Flat ==> r@.finite() && crate::exact::value(r) == 0real,
        h is Unknown ==> r@ is Nan,
{
    crate::exact::lemma_constants();
    if a@.finite() && b@.finite() {
        crate::exact::lemma_value_orders(a, b);
        crate::exact::lemma_value_orders(b, a);
    }
}

/// One value comes before another where it is better, and every number before what is none.
pub proof fn law_ranks_ahead(direction: Direction, a: Scalar, b: Scalar, r: bool)
    requires
        call_ensures(crate::ranking::ranks_ahead, (direction, a, b), r),
    ensures
        a@ is Nan ==> !r,
        !(a@ is Nan) && b@ is Nan ==> r,
        a@.finite() && b@.finite() ==> (r <==> match direction {
            Direction::Minimize => crate::exact::value(a) < crate::exact::value(b),
            Direction::Maximize => crate::exact::value(b) < crate::exact::value(a),
        }),
{
    if a@.finite() && b@.finite() {
        crate::exact::lemma_value_orders(a, b);
        crate::exact::lemma_value_orders(b, a);
    }
}

/// A ranking names every entry once, a better one before a worse, equal ones in their order, and
/// what is no number at the end.
pub proof fn law_rank(
    direction: Direction,
    values: &[Scalar],
    order: Vec<usize>,
    k: int,
    l: int,
)
    requires
        call_ensures(crate::ranking::rank, (direction, values), order),
        0 <= k < l < order@.len(),
    ensures
        order@.len() == values@.len(),
        order@[k] < values@.len(),
        order@[k] != order@[l],
        ({
            let a = values@[order@[k] as int];
            let b = values@[order@[l] as int];
            &&& a@ is Nan ==> b@ is Nan
            &&& a@ == b@ ==> order@[k] < order@[l]
            &&& a@.finite() && b@.finite() ==> match direction {
                Direction::Minimize => crate::exact::value(a) <= crate::exact::value(b),
                Direction::Maximize => crate::exact::value(b) <= crate::exact::value(a),
            }
        }),
{
    let a = values@[order@[k] as int];
    let b = values@[order@[l] as int];
    assert(crate::ranking::precedes(direction, values@, order@[k] as int, order@[l] as int));
    if a@.finite() && b@.finite() {
        crate::exact::lemma_value_orders(a, b);
        crate::exact::lemma_value_orders(b, a);
    }
}

/// A value is at least as good as another where it is no worse, and every number is where the
/// other is none.
pub proof fn law_at_least_as_good(metric: Metric, a: Scalar, b: Scalar, r: bool)
    requires
        call_ensures(Metric::at_least_as_good, (&metric, a, b), r),
    ensures
        a@ is Nan ==> !r,
        !(a@ is Nan) && b@ is Nan ==> r,
        a@.finite() && b@.finite() ==> (r <==> match metric.direction {
            Direction::Minimize => crate::exact::value(a) <= crate::exact::value(b),
            Direction::Maximize => crate::exact::value(b) <= crate::exact::value(a),
        }),
{
    if a@.finite() && b@.finite() {
        crate::exact::lemma_value_orders(a, b);
        crate::exact::lemma_value_orders(b, a);
    }
}

/// Every finite value improves on the worst, and no value that is not better improves.
pub proof fn law_worst(metric: Metric, worst: Scalar, x: Scalar, gained: bool, lost: bool)
    requires
        call_ensures(Metric::worst, (&metric,), worst),
        x@.finite(),
        call_ensures(Metric::improved, (&metric, worst, x), gained),
        call_ensures(Metric::improved, (&metric, x, worst), lost),
    ensures
        gained,
        !lost,
        metric.direction is Minimize ==> worst@ is PosInf,
        metric.direction is Maximize ==> worst@ is NegInf,
{
}

/// What improves is what a decision keeps.
pub proof fn law_improvement_is_kept(
    metric: Metric,
    prev: Scalar,
    new: Scalar,
    r: bool,
    decided: crate::metric::KeepOrRevert,
    kept: bool,
)
    requires
        call_ensures(Metric::improved, (&metric, prev, new), r),
        call_ensures(Metric::decide, (&metric, prev, new), decided),
        call_ensures(crate::metric::KeepOrRevert::is_keep, (&decided,), kept),
    ensures
        r == kept,
        kept == (decided is Keep),
{
}

} // verus!
