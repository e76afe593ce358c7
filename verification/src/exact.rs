//! Numbers as reals, and an arithmetic that rounds nothing.
//!
//! A finite binary64 number is a real number. An arithmetic is exact where every result is the
//! real sum, product, quotient or root of its operands; the machine's is, on all operations
//! whose results need no rounding. What the computations of this crate are for is stated of it:
//! there the result of a call is a formula of its arguments.
use vstd::prelude::*;

use crate::arithmetic::Arithmetic;
use crate::scalar::{Extended, Scalar, HALF, ONE, SIGN, TWO};

verus! {

/// The real number that a finite scalar is.
pub open spec fn value(x: Scalar) -> real {
    (x@->Finite_0 as real) / (crate::scalar::one() as real)
}

/// The real numbers that finite scalars are.
pub open spec fn values(xs: Seq<Scalar>) -> Seq<real> {
    Seq::new(xs.len(), |i: int| value(xs[i]))
}

/// Are these all finite?
pub open spec fn all_finite(xs: Seq<Scalar>) -> bool {
    forall|i: int| 0 <= i < xs.len() ==> (#[trigger] xs[i])@.finite()
}

/// The sum of real numbers.
pub open spec fn total(xs: Seq<real>) -> real
    decreases xs.len(),
{
    if xs.len() == 0 {
        0real
    } else {
        total(xs.drop_last()) + xs.last()
    }
}

/// The product of real numbers.
pub open spec fn product(xs: Seq<real>) -> real
    decreases xs.len(),
{
    if xs.len() == 0 {
        1real
    } else {
        product(xs.drop_last()) * xs.last()
    }
}

/// The larger of two real numbers.
pub open spec fn max(a: real, b: real) -> real {
    if a < b {
        b
    } else {
        a
    }
}

/// `x`, confined to the interval from `lo` to `hi`.
pub open spec fn clamp(x: real, lo: real, hi: real) -> real {
    if x < lo {
        lo
    } else if hi < x {
        hi
    } else {
        x
    }
}

/// The distance from zero.
pub open spec fn magnitude(x: real) -> real {
    if x < 0real {
        -x
    } else {
        x
    }
}

/// Does the arithmetic round nothing: on finite operands every sum, difference, product, quotient
/// by what is not zero and root of what is not negative is finite and exact, and so is every
/// whole number?
pub open spec fn exact<A: Arithmetic>(ops: &A) -> bool {
    &&& forall|a: Scalar, b: Scalar, r: Scalar| #[trigger]
        crate::arithmetic::adds(ops, a, b, r) && a@.finite() && b@.finite() ==> r@.finite()
            && value(r) == value(a) + value(b)
    &&& forall|a: Scalar, b: Scalar, r: Scalar| #[trigger]
        crate::arithmetic::subtracts(ops, a, b, r) && a@.finite() && b@.finite() ==> r@.finite()
            && value(r) == value(a) - value(b)
    &&& forall|a: Scalar, b: Scalar, r: Scalar| #[trigger]
        crate::arithmetic::multiplies(ops, a, b, r) && a@.finite() && b@.finite() ==> r@.finite()
            && value(r) == value(a) * value(b)
    &&& forall|a: Scalar, b: Scalar, r: Scalar| #[trigger]
        crate::arithmetic::divides(ops, a, b, r) && a@.finite() && b@.finite() && value(b) != 0real
            ==> r@.finite() && value(r) * value(b) == value(a)
    &&& forall|a: Scalar, r: Scalar| #[trigger]
        crate::arithmetic::extracts(ops, a, r) && a@.finite() && value(a) >= 0real ==> r@.finite()
            && value(r) >= 0real && value(r) * value(r) == value(a)
    &&& forall|n: nat, r: Scalar| #[trigger]
        crate::arithmetic::counts(ops, n, r) ==> r@.finite() && value(r) == n as real
}

pub proof fn lemma_quotients_order(a: real, b: real, u: real)
    requires
        u > 0real,
    ensures
        a / u < b / u <==> a < b,
        a / u == b / u <==> a == b,
        (a / u) * u == a,
{
    assert(a / u < b / u <==> a < b) by (nonlinear_arith)
        requires
            u > 0real,
    ;
    assert((a / u) * u == a) by (nonlinear_arith)
        requires
            u > 0real,
    ;
    assert((b / u) * u == b) by (nonlinear_arith)
        requires
            u > 0real,
    ;
}

/// The order of finite scalars is that of the real numbers that they are.
pub proof fn lemma_value_orders(a: Scalar, b: Scalar)
    requires
        a@.finite(),
        b@.finite(),
    ensures
        a@.lt(b@) <==> value(a) < value(b),
        a@.le(b@) <==> value(a) <= value(b),
        a@ == b@ <==> value(a) == value(b),
{
    crate::scalar::lemma_powers_of_two();
    lemma_quotients_order(
        a@->Finite_0 as real,
        b@->Finite_0 as real,
        crate::scalar::one() as real,
    );
}

/// The signs of finite scalars.
pub proof fn lemma_signs(x: Scalar)
    requires
        x@.finite(),
    ensures
        crate::scalar::zero().lt(x@) <==> value(x) > 0real,
        x@.lt(crate::scalar::zero()) <==> value(x) < 0real,
        crate::scalar::absolute(x)@.finite(),
        value(crate::scalar::absolute(x)) == magnitude(value(x)),
        crate::scalar::negated(x)@.finite(),
        value(crate::scalar::negated(x)) == -value(x),
{
    let none = Scalar { bits: 0 };
    crate::scalar::lemma_powers_of_two();
    lemma_constants();
    lemma_value_orders(none, x);
    lemma_value_orders(x, none);
    crate::scalar::lemma_negated_is_opposite(x);
    crate::scalar::lemma_absolute_is_not_negative(x);
    let k = x@->Finite_0;
    let one = crate::scalar::one() as real;
    assert((-k) as real == -(k as real));
    assert(-(k as real) / one == -((k as real) / one)) by (nonlinear_arith)
        requires
            one > 0real,
    ;
    let a = crate::scalar::absolute(x);
    assert(a@ == Extended::Finite(k) || a@ == Extended::Finite(-k));
    assert(a@->Finite_0 >= 0);
    assert(a@->Finite_0 == if k < 0 {
        -k
    } else {
        k
    });
}

/// The real numbers that some bits stand for.
pub proof fn lemma_constants()
    ensures
        (Scalar { bits: 0 })@.finite(),
        value(Scalar { bits: 0 }) == 0real,
        (Scalar { bits: ONE })@.finite(),
        value(Scalar { bits: ONE }) == 1real,
        (Scalar { bits: (ONE + SIGN) as u64 })@.finite(),
        value(Scalar { bits: (ONE + SIGN) as u64 }) == -1real,
        (Scalar { bits: TWO })@.finite(),
        value(Scalar { bits: TWO }) == 2real,
        (Scalar { bits: (TWO + SIGN) as u64 })@.finite(),
        value(Scalar { bits: (TWO + SIGN) as u64 }) == -2real,
        (Scalar { bits: HALF })@.finite(),
        2real * value(Scalar { bits: HALF }) == 1real,
{
    crate::scalar::lemma_powers_of_two();
    crate::scalar::lemma_half();
    let u = crate::scalar::one() as real;
    assert(0real / u == 0real && u / u == 1real && (-u) / u == -1real && (2real * u) / u == 2real
        && (-2real * u) / u == -2real) by (nonlinear_arith)
        requires
            u > 0real,
    ;
    let two = Scalar { bits: TWO };
    crate::scalar::lemma_negated_is_opposite(two);
    assert(crate::scalar::negated(two) == (Scalar { bits: (TWO + SIGN) as u64 }));
    assert((-(2 * crate::scalar::one())) as real == -2real * u);
    let h = (Scalar { bits: HALF })@->Finite_0;
    assert(2 * h == crate::scalar::one());
    assert(2real * (h as real) == u);
    assert(2real * ((h as real) / u) == 1real) by (nonlinear_arith)
        requires
            2real * (h as real) == u,
            u > 0real,
    ;
}

proof fn lemma_product_of_whole_numbers(x: int, y: int)
    ensures
        (x * y) as real == (x as real) * (y as real),
{
    assert((x * y) as real == (x as real) * (y as real)) by (nonlinear_arith);
}

/// A number known by its product with a power of two.
proof fn lemma_scaled(v: real, n: nat, scale: real, k: int)
    requires
        v * (n as real) == k as real,
        n as real == scale,
    ensures
        v * scale == k as real,
{
}

/// What the bits of a normal number stand for: `e` is the exponent field and `f` the fraction;
/// times two to the power of `1075 - e` the number is two to the power of 52, plus the fraction.
pub proof fn lemma_normal_number(bits: u64, e: nat, f: nat)
    requires
        1 <= e <= 1075,
        f < 0x10_0000_0000_0000,
        bits == e * 0x10_0000_0000_0000 + f,
    ensures
        (Scalar { bits })@.finite(),
        value(Scalar { bits }) * (vstd::arithmetic::power2::pow2((1075 - e) as nat) as real) == (
        0x10_0000_0000_0000 + f) as real,
{
    let h: int = 0x10_0000_0000_0000;
    assert(bits as int / h == e && bits as int % h == f);
    let low = vstd::arithmetic::power2::pow2((e - 1) as nat) as int;
    let high = vstd::arithmetic::power2::pow2((1075 - e) as nat) as int;
    vstd::arithmetic::power2::lemma_pow2_adds((e - 1) as nat, (1075 - e) as nat);
    vstd::arithmetic::power2::lemma_pow2_pos(1074);
    let one = crate::scalar::one();
    assert(low * high == one);
    let k = h + f;
    assert((Scalar { bits })@ == Extended::Finite(k * low));
    assert((k * low) * high == k * one) by (nonlinear_arith)
        requires
            low * high == one,
    ;
    let a = (k * low) as real;
    let b = high as real;
    let u = one as real;
    let c = k as real;
    lemma_product_of_whole_numbers(k * low, high);
    lemma_product_of_whole_numbers(k, one);
    assert((a / u) * b == c) by (nonlinear_arith)
        requires
            a * b == c * u,
            u > 0real,
    ;
}

/// The numbers that the constants of this crate stand for: exactly a million, a thousand, a
/// thousand million and eight; and a billionth, a millionth, a thousandth and ten to the power of
/// minus twelve to fifteen places.
pub proof fn law_constants()
    ensures
        value(Scalar { bits: 0x412E_8480_0000_0000 }) == 1000000real,
        value(Scalar { bits: 0x408F_4000_0000_0000 }) == 1000real,
        value(Scalar { bits: 0x41CD_CD65_0000_0000 }) == 1000000000real,
        value(Scalar { bits: 0x4020_0000_0000_0000 }) == 8real,
        magnitude(
            value(Scalar { bits: 0x3E11_2E0B_E826_D695 }) * 1000000000real - 1real,
        ) * 1000000000000000real < 1real,
        magnitude(
            value(Scalar { bits: 0x3EB0_C6F7_A0B5_ED8D }) * 1000000real - 1real,
        ) * 1000000000000000real < 1real,
        magnitude(
            value(Scalar { bits: 0x3F50_624D_D2F1_A9FC }) * 1000real - 1real,
        ) * 1000000000000000real < 1real,
        magnitude(
            value(Scalar { bits: 0x3D71_9799_812D_EA11 }) * 1000000000000real - 1real,
        ) * 1000000000000000real < 1real,
{
    vstd::arithmetic::power2::lemma2_to64();
    vstd::arithmetic::power2::lemma2_to64_rest();
    vstd::arithmetic::power2::lemma_pow2_adds(64, 18);
    vstd::arithmetic::power2::lemma_pow2_adds(64, 8);
    vstd::arithmetic::power2::lemma_pow2_adds(64, 28);
    lemma_normal_number(0x412E_8480_0000_0000, 0x412, 0xE_8480_0000_0000);
    lemma_normal_number(0x408F_4000_0000_0000, 0x408, 0xF_4000_0000_0000);
    lemma_normal_number(0x41CD_CD65_0000_0000, 0x41C, 0xD_CD65_0000_0000);
    lemma_normal_number(0x4020_0000_0000_0000, 0x402, 0);
    lemma_normal_number(0x3E11_2E0B_E826_D695, 0x3E1, 0x1_2E0B_E826_D695);
    lemma_normal_number(0x3EB0_C6F7_A0B5_ED8D, 0x3EB, 0x0_C6F7_A0B5_ED8D);
    lemma_normal_number(0x3F50_624D_D2F1_A9FC, 0x3F5, 0x0_624D_D2F1_A9FC);
    lemma_normal_number(0x3D71_9799_812D_EA11, 0x3D7, 0x1_9799_812D_EA11);
    lemma_scaled(
        value(Scalar { bits: 0x412E_8480_0000_0000 }),
        vstd::arithmetic::power2::pow2(33),
        8589934592real,
        8589934592000000,
    );
    lemma_scaled(
        value(Scalar { bits: 0x408F_4000_0000_0000 }),
        vstd::arithmetic::power2::pow2(43),
        8796093022208real,
        8796093022208000,
    );
    lemma_scaled(
        value(Scalar { bits: 0x41CD_CD65_0000_0000 }),
        vstd::arithmetic::power2::pow2(23),
        8388608real,
        8388608000000000,
    );
    lemma_scaled(
        value(Scalar { bits: 0x4020_0000_0000_0000 }),
        vstd::arithmetic::power2::pow2(49),
        562949953421312real,
        4503599627370496,
    );
    lemma_scaled(
        value(Scalar { bits: 0x3E11_2E0B_E826_D695 }),
        vstd::arithmetic::power2::pow2(82),
        4835703278458516698824704real,
        4835703278458517,
    );
    lemma_scaled(
        value(Scalar { bits: 0x3EB0_C6F7_A0B5_ED8D }),
        vstd::arithmetic::power2::pow2(72),
        4722366482869645213696real,
        4722366482869645,
    );
    lemma_scaled(
        value(Scalar { bits: 0x3F50_624D_D2F1_A9FC }),
        vstd::arithmetic::power2::pow2(62),
        4611686018427387904real,
        4611686018427388,
    );
    lemma_scaled(
        value(Scalar { bits: 0x3D71_9799_812D_EA11 }),
        vstd::arithmetic::power2::pow2(92),
        4951760157141521099596496896real,
        4951760157141521,
    );
    let million = value(Scalar { bits: 0x412E_8480_0000_0000 });
    assert(million == 1000000real) by (nonlinear_arith)
        requires
            million * 8589934592real == 8589934592000000real,
    ;
    let thousand = value(Scalar { bits: 0x408F_4000_0000_0000 });
    assert(thousand == 1000real) by (nonlinear_arith)
        requires
            thousand * 8796093022208real == 8796093022208000real,
    ;
    let billion = value(Scalar { bits: 0x41CD_CD65_0000_0000 });
    assert(billion == 1000000000real) by (nonlinear_arith)
        requires
            billion * 8388608real == 8388608000000000real,
    ;
    let eight = value(Scalar { bits: 0x4020_0000_0000_0000 });
    assert(eight == 8real) by (nonlinear_arith)
        requires
            eight * 562949953421312real == 4503599627370496real,
    ;
    let billionth = value(Scalar { bits: 0x3E11_2E0B_E826_D695 });
    assert(-1real < (billionth * 1000000000real - 1real) * 1000000000000000real < 1real) by (nonlinear_arith)
        requires
            billionth * 4835703278458516698824704real == 4835703278458517real,
    ;
    let millionth = value(Scalar { bits: 0x3EB0_C6F7_A0B5_ED8D });
    assert(-1real < (millionth * 1000000real - 1real) * 1000000000000000real < 1real) by (nonlinear_arith)
        requires
            millionth * 4722366482869645213696real == 4722366482869645real,
    ;
    let thousandth = value(Scalar { bits: 0x3F50_624D_D2F1_A9FC });
    assert(-1real < (thousandth * 1000real - 1real) * 1000000000000000real < 1real) by (nonlinear_arith)
        requires
            thousandth * 4611686018427387904real == 4611686018427388real,
    ;
    let tiny = value(Scalar { bits: 0x3D71_9799_812D_EA11 });
    assert(-1real < (tiny * 1000000000000real - 1real) * 1000000000000000real < 1real) by (nonlinear_arith)
        requires
            tiny * 4951760157141521099596496896real == 4951760157141521real,
    ;
}

/// The bits of the number below which a price, a spread or a drawdown counts as none stand for a
/// positive number.
pub proof fn lemma_tiny()
    ensures
        (Scalar { bits: 0x3D71_9799_812D_EA11 })@.finite(),
        value(Scalar { bits: 0x3D71_9799_812D_EA11 }) > 0real,
{
    let none = Scalar { bits: 0 };
    let tiny = Scalar { bits: 0x3D71_9799_812D_EA11 };
    lemma_constants();
    crate::scalar::lemma_place_orders(none, tiny);
    lemma_value_orders(none, tiny);
}

pub proof fn lemma_sum_is_the_total<A: Arithmetic>(ops: &A, xs: Seq<Scalar>, r: Scalar)
    requires
        exact(ops),
        all_finite(xs),
        crate::arithmetic::is_sum(ops, xs, r),
    ensures
        r@.finite(),
        value(r) == total(values(xs)),
    decreases xs.len(),
{
    if xs.len() == 0 {
        lemma_constants();
    } else {
        let before = choose|before: Scalar|
            crate::arithmetic::is_sum(ops, xs.drop_last(), before)
                && #[trigger] crate::arithmetic::adds(ops, before, xs.last(), r);
        lemma_sum_is_the_total(ops, xs.drop_last(), before);
        assert(values(xs).drop_last() =~= values(xs.drop_last()));
    }
}

pub proof fn lemma_mean_is_the_mean<A: Arithmetic>(ops: &A, xs: Seq<Scalar>, r: Scalar)
    requires
        exact(ops),
        all_finite(xs),
        xs.len() > 0,
        crate::arithmetic::is_mean(ops, xs, r),
    ensures
        r@.finite(),
        value(r) * (xs.len() as real) == total(values(xs)),
{
    let (sum, n) = choose|sum: Scalar, n: Scalar|
        crate::arithmetic::is_sum(ops, xs, sum) && crate::arithmetic::counts(ops, xs.len(), n)
            && #[trigger] crate::arithmetic::divides(ops, sum, n, r);
    lemma_sum_is_the_total(ops, xs, sum);
}

/// A mean times the number of its terms is their sum.
pub proof fn law_mean<A: Arithmetic>(ops: &A, xs: &[Scalar], r: Scalar)
    requires
        exact(ops),
        all_finite(xs@),
        call_ensures(crate::arithmetic::mean::<A>, (ops, xs), r),
    ensures
        r@.finite(),
        value(r) * (xs@.len() as real) == total(values(xs@)),
{
    if xs@.len() > 0 {
        lemma_mean_is_the_mean(ops, xs@, r);
    } else {
        lemma_constants();
        assert(value(r) * 0real == 0real) by (nonlinear_arith);
    }
}

} // verus!
