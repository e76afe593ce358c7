//! Arithmetic on scalars.
//!
//! Sums, products and roots of binary64 numbers round, and the machine knows how. What is
//! computed from them does not depend on that: every function of this crate that computes takes
//! its arithmetic as an argument, and its contract says which operations it applies to what.
//! The contracts hold for any arithmetic whatever, for one that rounds otherwise as well.
use vstd::prelude::*;

use crate::scalar::{Extended, Scalar};

verus! {

/// The operations that computations are made of.
pub trait Arithmetic: Send + Sync {
    /// The sum of two numbers.
    fn plus(&self, a: Scalar, b: Scalar) -> Scalar;

    /// The difference of two numbers.
    fn minus(&self, a: Scalar, b: Scalar) -> Scalar;

    /// The product of two numbers.
    fn times(&self, a: Scalar, b: Scalar) -> Scalar;

    /// The quotient of two numbers.
    fn over(&self, a: Scalar, b: Scalar) -> Scalar;

    /// The square root.
    fn root(&self, a: Scalar) -> Scalar;

    /// The natural logarithm.
    fn log(&self, a: Scalar) -> Scalar;

    /// The cosine of an angle in radians.
    fn cosine(&self, a: Scalar) -> Scalar;

    /// The nearest whole number, halves away from zero.
    fn nearest(&self, a: Scalar) -> Scalar;

    /// A whole number.
    fn whole(&self, n: u64) -> Scalar;

    /// A number in decimal, to three places.
    fn three_places(&self, a: Scalar) -> String;
}

/// Can `a + b` come out as `r`?
pub open spec fn adds<A: Arithmetic>(ops: &A, a: Scalar, b: Scalar, r: Scalar) -> bool {
    call_ensures(A::plus, (ops, a, b), r)
}

/// Can `a - b` come out as `r`?
pub open spec fn subtracts<A: Arithmetic>(ops: &A, a: Scalar, b: Scalar, r: Scalar) -> bool {
    call_ensures(A::minus, (ops, a, b), r)
}

/// Can `a * b` come out as `r`?
pub open spec fn multiplies<A: Arithmetic>(ops: &A, a: Scalar, b: Scalar, r: Scalar) -> bool {
    call_ensures(A::times, (ops, a, b), r)
}

/// Can `a / b` come out as `r`?
pub open spec fn divides<A: Arithmetic>(ops: &A, a: Scalar, b: Scalar, r: Scalar) -> bool {
    call_ensures(A::over, (ops, a, b), r)
}

/// Can the square root of `a` come out as `r`?
pub open spec fn extracts<A: Arithmetic>(ops: &A, a: Scalar, r: Scalar) -> bool {
    call_ensures(A::root, (ops, a), r)
}

/// Can the logarithm of `a` come out as `r`?
pub open spec fn takes_log<A: Arithmetic>(ops: &A, a: Scalar, r: Scalar) -> bool {
    call_ensures(A::log, (ops, a), r)
}

/// Can the cosine of `a` come out as `r`?
pub open spec fn takes_cosine<A: Arithmetic>(ops: &A, a: Scalar, r: Scalar) -> bool {
    call_ensures(A::cosine, (ops, a), r)
}

/// Can `a`, rounded to a whole number, come out as `r`?
pub open spec fn rounds<A: Arithmetic>(ops: &A, a: Scalar, r: Scalar) -> bool {
    call_ensures(A::nearest, (ops, a), r)
}

/// Can the whole number `n` come out as `r`?
pub open spec fn counts<A: Arithmetic>(ops: &A, n: nat, r: Scalar) -> bool {
    n <= u64::MAX && call_ensures(A::whole, (ops, n as u64), r)
}

/// Can `a` in decimal come out as `r`?
pub open spec fn shows<A: Arithmetic>(ops: &A, a: Scalar, r: String) -> bool {
    call_ensures(A::three_places, (ops, a), r)
}

/// Does every operation give one result for given operands, and one text?
pub open spec fn reproducible<A: Arithmetic>(ops: &A) -> bool {
    &&& forall|a: Scalar, b: Scalar, r: Scalar, s: Scalar| #[trigger]
        adds(ops, a, b, r) && #[trigger] adds(ops, a, b, s) ==> r == s
    &&& forall|a: Scalar, b: Scalar, r: Scalar, s: Scalar| #[trigger]
        subtracts(ops, a, b, r) && #[trigger] subtracts(ops, a, b, s) ==> r == s
    &&& forall|a: Scalar, b: Scalar, r: Scalar, s: Scalar| #[trigger]
        multiplies(ops, a, b, r) && #[trigger] multiplies(ops, a, b, s) ==> r == s
    &&& forall|a: Scalar, b: Scalar, r: Scalar, s: Scalar| #[trigger]
        divides(ops, a, b, r) && #[trigger] divides(ops, a, b, s) ==> r == s
    &&& forall|a: Scalar, r: Scalar, s: Scalar| #[trigger]
        extracts(ops, a, r) && #[trigger] extracts(ops, a, s) ==> r == s
    &&& forall|a: Scalar, r: Scalar, s: Scalar| #[trigger]
        takes_log(ops, a, r) && #[trigger] takes_log(ops, a, s) ==> r == s
    &&& forall|a: Scalar, r: Scalar, s: Scalar| #[trigger]
        takes_cosine(ops, a, r) && #[trigger] takes_cosine(ops, a, s) ==> r == s
    &&& forall|a: Scalar, r: Scalar, s: Scalar| #[trigger]
        rounds(ops, a, r) && #[trigger] rounds(ops, a, s) ==> r == s
    &&& forall|n: nat, r: Scalar, s: Scalar| #[trigger]
        counts(ops, n, r) && #[trigger] counts(ops, n, s) ==> r == s
    &&& forall|a: Scalar, r: String, s: String| #[trigger]
        shows(ops, a, r) && #[trigger] shows(ops, a, s) ==> r@ == s@
}

/// Does the arithmetic respect the order of numbers: differences and sums of finite numbers are
/// numbers, taking away or adding what is not negative does not raise or lower a finite number,
/// and a product of what is not negative with a positive finite number is not negative?
pub open spec fn orderly<A: Arithmetic>(ops: &A) -> bool {
    &&& forall|a: Scalar, b: Scalar, r: Scalar| #[trigger]
        subtracts(ops, a, b, r) && a@.finite() && b@.finite() ==> !(r@ is Nan)
    &&& forall|a: Scalar, b: Scalar, r: Scalar| #[trigger]
        subtracts(ops, a, b, r) && a@.finite() && crate::scalar::zero().le(b@) ==> r@.le(a@)
    &&& forall|a: Scalar, b: Scalar, r: Scalar| #[trigger]
        adds(ops, a, b, r) && a@.finite() && crate::scalar::zero().le(b@) ==> a@.le(r@)
    &&& forall|a: Scalar, b: Scalar, r: Scalar| #[trigger]
        multiplies(ops, a, b, r) && crate::scalar::zero().le(a@) && crate::scalar::zero().lt(b@)
            && b@.finite() ==> crate::scalar::zero().le(r@)
}

/// Does the arithmetic respect the signs of numbers, infinite ones included: a finite number less
/// any number is a number, squares of numbers and sums of numbers that are not negative are
/// numbers that are not negative, and whole numbers are finite?
pub open spec fn respects_signs<A: Arithmetic>(ops: &A) -> bool {
    &&& forall|a: Scalar, b: Scalar, r: Scalar| #[trigger]
        subtracts(ops, a, b, r) && a@.finite() && !(b@ is Nan) ==> !(r@ is Nan)
    &&& forall|a: Scalar, r: Scalar| #[trigger]
        multiplies(ops, a, a, r) && !(a@ is Nan) ==> crate::scalar::zero().le(r@)
    &&& forall|a: Scalar, b: Scalar, r: Scalar| #[trigger]
        adds(ops, a, b, r) && crate::scalar::zero().le(a@) && crate::scalar::zero().le(b@)
            ==> crate::scalar::zero().le(r@)
    &&& forall|n: nat, r: Scalar| #[trigger] counts(ops, n, r) ==> r@.finite()
}

/// Can `num / den` units be rounded to `r`: is no number that lies at or below them above `r`, and
/// none that lies at or above them below `r`?
pub open spec fn rounding(num: int, den: int, r: Extended) -> bool {
    &&& !(r is Nan)
    &&& forall|x: Scalar|
        #![trigger x@]
        x@.finite() && x@->Finite_0 * den <= num ==> x@.le(r)
    &&& forall|x: Scalar|
        #![trigger x@]
        x@.finite() && num <= x@->Finite_0 * den ==> r.le(x@)
}

/// Does the arithmetic round as IEEE 754 has it: a result never lies beyond a number that the
/// exact one does not lie beyond, sums and differences keep the order of the exact ones, and
/// whole numbers up to two to the power of 53 are exact?
pub open spec fn faithful<A: Arithmetic>(ops: &A) -> bool {
    &&& forall|a: Scalar, b: Scalar, r: Scalar| #[trigger]
        adds(ops, a, b, r) && a@.finite() && b@.finite() ==> rounding(
            a@->Finite_0 + b@->Finite_0,
            1,
            r@,
        )
    &&& forall|a: Scalar, b: Scalar, r: Scalar| #[trigger]
        subtracts(ops, a, b, r) && a@.finite() && b@.finite() ==> rounding(
            a@->Finite_0 - b@->Finite_0,
            1,
            r@,
        )
    &&& forall|a: Scalar, b: Scalar, r: Scalar| #[trigger]
        multiplies(ops, a, b, r) && a@.finite() && b@.finite() ==> rounding(
            a@->Finite_0 * b@->Finite_0,
            crate::scalar::one(),
            r@,
        )
    &&& forall|a: Scalar, b: Scalar, r: Scalar| #[trigger]
        divides(ops, a, b, r) && a@.finite() && b@.finite() && b@->Finite_0 > 0 ==> rounding(
            a@->Finite_0 * crate::scalar::one(),
            b@->Finite_0,
            r@,
        )
    &&& forall|a: Scalar, b: Scalar, r: Scalar, c: Scalar, d: Scalar, s: Scalar| #[trigger]
        adds(ops, a, b, r) && #[trigger] adds(ops, c, d, s) && a@.finite() && b@.finite()
            && c@.finite() && d@.finite() && a@->Finite_0 + b@->Finite_0 <= c@->Finite_0
            + d@->Finite_0 ==> r@.le(s@)
    &&& forall|a: Scalar, b: Scalar, r: Scalar, c: Scalar, d: Scalar, s: Scalar| #[trigger]
        subtracts(ops, a, b, r) && #[trigger] adds(ops, c, d, s) && a@.finite() && b@.finite()
            && c@.finite() && d@.finite() && a@->Finite_0 - b@->Finite_0 <= c@->Finite_0
            + d@->Finite_0 ==> r@.le(s@)
    &&& forall|n: nat, r: Scalar| #[trigger]
        counts(ops, n, r) && n <= 0x20_0000_0000_0000 ==> r@ == Extended::Finite(
            n * crate::scalar::one(),
        )
}

/// Can the sum of `xs`, added up from the first on, come out as `r`?
pub open spec fn is_sum<A: Arithmetic>(ops: &A, xs: Seq<Scalar>, r: Scalar) -> bool
    decreases xs.len(),
{
    if xs.len() == 0 {
        r == (Scalar { bits: 0 })
    } else {
        exists|before: Scalar|
            is_sum(ops, xs.drop_last(), before) && #[trigger] adds(ops, before, xs.last(), r)
    }
}

/// Can the mean of `xs` come out as `r`? That of nothing is zero.
pub open spec fn is_mean<A: Arithmetic>(ops: &A, xs: Seq<Scalar>, r: Scalar) -> bool {
    if xs.len() == 0 {
        r == (Scalar { bits: 0 })
    } else {
        exists|total: Scalar, n: Scalar|
            is_sum(ops, xs, total) && counts(ops, xs.len(), n) && #[trigger] divides(
                ops,
                total,
                n,
                r,
            )
    }
}

/// The sum of `xs`, added up from the first on.
pub fn sum<A: Arithmetic>(ops: &A, xs: &[Scalar]) -> (r: Scalar)
    ensures
        is_sum(ops, xs@, r),
{
    let mut total = Scalar::from_bits(0);
    let mut i: usize = 0;
    while i < xs.len()
        invariant
            i <= xs@.len(),
            is_sum(ops, xs@.take(i as int), total),
        decreases xs@.len() - i,
    {
        let ghost before = total;
        total = ops.plus(total, xs[i]);
        proof {
            assert(xs@.take(i + 1).drop_last() == xs@.take(i as int));
            assert(adds(ops, before, xs@.take(i + 1).last(), total));
        }
        i += 1;
    }
    assert(xs@.take(i as int) == xs@);
    total
}

/// The mean of `xs`, zero where there is nothing.
pub fn mean<A: Arithmetic>(ops: &A, xs: &[Scalar]) -> (r: Scalar)
    ensures
        is_mean(ops, xs@, r),
{
    if xs.len() == 0 {
        return Scalar::from_bits(0);
    }
    let total = sum(ops, xs);
    let n = ops.whole(xs.len() as u64);
    let r = ops.over(total, n);
    assert(counts(ops, xs@.len(), n));
    assert(divides(ops, total, n, r));
    r
}

pub proof fn lemma_sum_is_unique<A: Arithmetic>(ops: &A, xs: Seq<Scalar>, r: Scalar, s: Scalar)
    requires
        reproducible(ops),
        is_sum(ops, xs, r),
        is_sum(ops, xs, s),
    ensures
        r == s,
    decreases xs.len(),
{
    if xs.len() > 0 {
        let a = choose|before: Scalar|
            is_sum(ops, xs.drop_last(), before) && #[trigger] adds(ops, before, xs.last(), r);
        let b = choose|before: Scalar|
            is_sum(ops, xs.drop_last(), before) && #[trigger] adds(ops, before, xs.last(), s);
        lemma_sum_is_unique(ops, xs.drop_last(), a, b);
    }
}

pub proof fn lemma_sum_is_not_negative<A: Arithmetic>(ops: &A, xs: Seq<Scalar>, r: Scalar)
    requires
        respects_signs(ops),
        is_sum(ops, xs, r),
        forall|i: int| 0 <= i < xs.len() ==> crate::scalar::zero().le((#[trigger] xs[i])@),
    ensures
        crate::scalar::zero().le(r@),
    decreases xs.len(),
{
    if xs.len() > 0 {
        let before = choose|before: Scalar|
            is_sum(ops, xs.drop_last(), before) && #[trigger] adds(ops, before, xs.last(), r);
        lemma_sum_is_not_negative(ops, xs.drop_last(), before);
    } else {
        assert(crate::scalar::units(0) == 0);
    }
}

pub proof fn lemma_mean_is_unique<A: Arithmetic>(ops: &A, xs: Seq<Scalar>, r: Scalar, s: Scalar)
    requires
        reproducible(ops),
        is_mean(ops, xs, r),
        is_mean(ops, xs, s),
    ensures
        r == s,
{
    if xs.len() > 0 {
        let (a, m) = choose|total: Scalar, n: Scalar|
            is_sum(ops, xs, total) && counts(ops, xs.len(), n) && #[trigger] divides(
                ops,
                total,
                n,
                r,
            );
        let (b, n) = choose|total: Scalar, n: Scalar|
            is_sum(ops, xs, total) && counts(ops, xs.len(), n) && #[trigger] divides(
                ops,
                total,
                n,
                s,
            );
        lemma_sum_is_unique(ops, xs, a, b);
    }
}

} // verus!
