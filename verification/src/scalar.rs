//! Binary64 numbers, held by their bit pattern.
//!
//! The loop never computes with a metric value or a knob: it compares them, selects between
//! them, clamps them and passes them on. A [`Scalar`] carries such a number as the 64 bits of
//! its IEEE 754 encoding, and its view is the exact number that the bits stand for.
use vstd::prelude::*;

verus! {

/// An IEEE 754 binary64 number, by its bit pattern.
#[derive(Debug, Clone, Copy, PartialEq, Eq, Structural)]
pub struct Scalar {
    pub bits: u64,
}

/// What a bit pattern stands for. A finite number is counted in units of two to the power of
/// minus 1074, the smallest positive binary64 number, of which every finite one is a whole
/// multiple.
pub enum Extended {
    Nan,
    NegInf,
    Finite(int),
    PosInf,
}

impl Extended {
    /// The numeric order. A NaN is neither below nor above anything.
    pub open spec fn lt(self, other: Extended) -> bool {
        match (self, other) {
            (Extended::Nan, _) => false,
            (_, Extended::Nan) => false,
            (Extended::Finite(a), Extended::Finite(b)) => a < b,
            (Extended::NegInf, Extended::NegInf) => false,
            (Extended::NegInf, _) => true,
            (_, Extended::PosInf) => !(self is PosInf),
            _ => false,
        }
    }

    pub open spec fn le(self, other: Extended) -> bool {
        self.lt(other) || (self == other && !(self is Nan))
    }

    pub open spec fn finite(self) -> bool {
        self is Finite
    }

    /// The number with its sign changed.
    pub open spec fn opposite(self) -> Extended {
        match self {
            Extended::Nan => Extended::Nan,
            Extended::NegInf => Extended::PosInf,
            Extended::Finite(a) => Extended::Finite(-a),
            Extended::PosInf => Extended::NegInf,
        }
    }
}

/// The number zero.
pub open spec fn zero() -> Extended {
    Extended::Finite(0)
}

/// The sign bit alone.
pub const SIGN: u64 = 0x8000_0000_0000_0000;

/// The bits of positive infinity: the exponent field full, the fraction zero.
pub const EXPONENT: u64 = 0x7FF0_0000_0000_0000;

/// The bits of the number one.
pub const ONE: u64 = 0x3FF0_0000_0000_0000;

/// The bits of the number two.
pub const TWO: u64 = 0x4000_0000_0000_0000;

/// The bits of one half.
pub const HALF: u64 = 0x3FE0_0000_0000_0000;

/// The bits of a NaN.
pub const NAN: u64 = 0x7FF8_0000_0000_0000;

/// The bits below the sign bit.
pub open spec fn magnitude(bits: u64) -> int {
    if bits < SIGN {
        bits as int
    } else {
        bits - SIGN
    }
}

/// The absolute value, in units, of the finite number whose magnitude bits are `m`: a
/// subnormal's fraction counts the units, a normal number's fraction has the hidden bit put in
/// front and is scaled by its exponent.
pub open spec fn units(m: int) -> int {
    let exponent = m / 0x10_0000_0000_0000;
    let fraction = m % 0x10_0000_0000_0000;
    if exponent == 0 {
        fraction
    } else {
        (0x10_0000_0000_0000 + fraction) * vstd::arithmetic::power2::pow2((exponent - 1) as nat)
    }
}

/// The number one, in units.
pub open spec fn one() -> int {
    vstd::arithmetic::power2::pow2(1074) as int
}

impl View for Scalar {
    type V = Extended;

    open spec fn view(&self) -> Extended {
        let m = magnitude(self.bits);
        if m > EXPONENT {
            Extended::Nan
        } else if m == EXPONENT {
            if self.bits < SIGN {
                Extended::PosInf
            } else {
                Extended::NegInf
            }
        } else if self.bits < SIGN {
            Extended::Finite(units(m))
        } else {
            Extended::Finite(-units(m))
        }
    }
}

proof fn lemma_units_increase(a: int, b: int)
    requires
        0 <= a < b < EXPONENT,
    ensures
        0 <= units(a) < units(b),
{
    let h: int = 0x10_0000_0000_0000;
    let ea = a / h;
    let eb = b / h;
    let fa = a % h;
    let fb = b % h;
    assert(a == ea * h + fa && b == eb * h + fb);
    assert(ea <= eb);
    if eb > 0 {
        let pb = vstd::arithmetic::power2::pow2((eb - 1) as nat) as int;
        vstd::arithmetic::power2::lemma_pow2_pos((eb - 1) as nat);
        if ea == 0 {
            assert((h + fb) * pb >= h) by (nonlinear_arith)
                requires
                    pb >= 1,
                    fb >= 0,
                    h > 0,
            ;
        } else {
            let pa = vstd::arithmetic::power2::pow2((ea - 1) as nat) as int;
            vstd::arithmetic::power2::lemma_pow2_pos((ea - 1) as nat);
            if ea == eb {
                assert((h + fa) * pa < (h + fb) * pb) by (nonlinear_arith)
                    requires
                        pa == pb,
                        pb >= 1,
                        fa < fb,
                ;
                assert((h + fa) * pa >= 0) by (nonlinear_arith)
                    requires
                        pa >= 1,
                        h + fa >= 0,
                ;
            } else {
                vstd::arithmetic::power2::lemma_pow2_unfold(ea as nat);
                assert(2 * pa == vstd::arithmetic::power2::pow2(ea as nat));
                if ea < eb - 1 {
                    vstd::arithmetic::power2::lemma_pow2_strictly_increases(
                        ea as nat,
                        (eb - 1) as nat,
                    );
                }
                assert(pb >= 2 * pa);
                assert((h + fa) * pa < (h + fb) * pb) by (nonlinear_arith)
                    requires
                        pa >= 1,
                        pb >= 2 * pa,
                        0 <= fa < h,
                        0 <= fb,
                ;
                assert((h + fa) * pa >= 0) by (nonlinear_arith)
                    requires
                        pa >= 1,
                        h + fa >= 0,
                ;
            }
        }
    }
}

/// The place of a number in the numeric order, as an integer that its bits give directly. Both
/// zeros have place 0.
pub open spec fn place(bits: u64) -> int {
    if bits < SIGN {
        magnitude(bits)
    } else {
        -magnitude(bits)
    }
}

/// Among numbers other than NaN the order of the places is the numeric order.
pub proof fn lemma_place_orders(a: Scalar, b: Scalar)
    requires
        !(a@ is Nan),
        !(b@ is Nan),
    ensures
        a@.lt(b@) <==> place(a.bits) < place(b.bits),
        a@ == b@ <==> place(a.bits) == place(b.bits),
{
    let ma = magnitude(a.bits);
    let mb = magnitude(b.bits);
    if ma < EXPONENT && mb < EXPONENT {
        if ma < mb {
            lemma_units_increase(ma, mb);
        }
        if mb < ma {
            lemma_units_increase(mb, ma);
        }
        if ma > 0 {
            lemma_units_increase(0, ma);
        }
        if mb > 0 {
            lemma_units_increase(0, mb);
        }
        assert(units(0) == 0);
    }
}

impl Scalar {
    pub fn from_bits(bits: u64) -> (s: Scalar)
        ensures
            s == (Scalar { bits }),
    {
        Scalar { bits }
    }

    pub fn to_bits(self) -> (bits: u64)
        ensures
            bits == self.bits,
    {
        self.bits
    }

    pub fn is_nan(self) -> (r: bool)
        ensures
            r == (self@ is Nan),
    {
        let m: u64 = if self.bits < SIGN { self.bits } else { self.bits - SIGN };
        m > EXPONENT
    }

    pub fn is_finite(self) -> (r: bool)
        ensures
            r == self@.finite(),
    {
        let m: u64 = if self.bits < SIGN { self.bits } else { self.bits - SIGN };
        m < EXPONENT
    }

    /// `self < other` as numbers.
    pub fn below(self, other: Scalar) -> (r: bool)
        ensures
            r == self@.lt(other@),
    {
        if self.is_nan() || other.is_nan() {
            return false;
        }
        proof {
            lemma_place_orders(self, other);
        }
        if self.bits < SIGN {
            other.bits < SIGN && self.bits < other.bits
        } else if other.bits < SIGN {
            self.bits > SIGN || other.bits > 0
        } else {
            other.bits < self.bits
        }
    }

    /// `self <= other` as numbers.
    pub fn at_most(self, other: Scalar) -> (r: bool)
        ensures
            r == self@.le(other@),
    {
        if self.is_nan() || other.is_nan() {
            return false;
        }
        proof {
            lemma_place_orders(self, other);
            lemma_place_orders(other, self);
        }
        !other.below(self)
    }

    /// The larger of two numbers; the other one where one is NaN.
    pub fn max(self, other: Scalar) -> (r: Scalar)
        ensures
            r == larger(self, other),
            !(self@ is Nan) ==> self@.le(r@),
            !(other@ is Nan) ==> other@.le(r@),
    {
        if self.is_nan() || self.below(other) {
            other
        } else {
            self
        }
    }

    /// The number itself between the bounds, else the bound that it passed. A NaN stays.
    pub fn clamp(self, lo: Scalar, hi: Scalar) -> (r: Scalar)
        requires
            lo@.le(hi@),
        ensures
            r == clamped(self, lo, hi),
    {
        if self.below(lo) {
            lo
        } else if hi.below(self) {
            hi
        } else {
            self
        }
    }

    /// The number with its sign changed.
    pub fn negate(self) -> (r: Scalar)
        ensures
            r@ == self@.opposite(),
            r == negated(self),
    {
        if self.bits < SIGN {
            Scalar { bits: self.bits + SIGN }
        } else {
            Scalar { bits: self.bits - SIGN }
        }
    }

    /// The absolute value.
    pub fn abs(self) -> (r: Scalar)
        ensures
            r == absolute(self),
            r@ == (if self@.lt(zero()) {
                self@.opposite()
            } else {
                self@
            }),
    {
        proof {
            if self.bits >= SIGN && !(self@ is Nan) {
                lemma_place_orders(self, Scalar { bits: 0 });
            } else if !(self@ is Nan) {
                lemma_place_orders(self, Scalar { bits: 0 });
            }
        }
        if self.bits < SIGN {
            self
        } else {
            Scalar { bits: self.bits - SIGN }
        }
    }

    /// One with the sign of this number, zeros included; a NaN stays.
    pub fn signum(self) -> (r: Scalar)
        ensures
            r == sign_of(self),
    {
        if self.is_nan() {
            self
        } else if self.bits < SIGN {
            Scalar { bits: ONE }
        } else {
            Scalar { bits: ONE + SIGN }
        }
    }
}

/// The larger of two numbers; the other one where one is NaN.
pub open spec fn larger(a: Scalar, b: Scalar) -> Scalar {
    if a@ is Nan || a@.lt(b@) {
        b
    } else {
        a
    }
}

/// The number with its sign changed.
pub open spec fn negated(x: Scalar) -> Scalar {
    if x.bits < SIGN {
        Scalar { bits: (x.bits + SIGN) as u64 }
    } else {
        Scalar { bits: (x.bits - SIGN) as u64 }
    }
}

/// The number with its sign bit cleared.
pub open spec fn absolute(x: Scalar) -> Scalar {
    Scalar { bits: magnitude(x.bits) as u64 }
}

/// One with the sign of `x`, zeros included; a NaN stays.
pub open spec fn sign_of(x: Scalar) -> Scalar {
    if x@ is Nan {
        x
    } else if x.bits < SIGN {
        Scalar { bits: ONE }
    } else {
        Scalar { bits: (ONE + SIGN) as u64 }
    }
}

/// `x` confined to the interval from `lo` to `hi`.
pub open spec fn clamped(x: Scalar, lo: Scalar, hi: Scalar) -> Scalar {
    if x@.lt(lo@) {
        lo
    } else if hi@.lt(x@) {
        hi
    } else {
        x
    }
}

/// A clamped number lies between the bounds, unless it is NaN, and clamping it again changes
/// nothing.
pub proof fn law_clamped_is_bounded(x: Scalar, lo: Scalar, hi: Scalar)
    requires
        lo@.le(hi@),
    ensures
        !(x@ is Nan) ==> lo@.le(clamped(x, lo, hi)@) && clamped(x, lo, hi)@.le(hi@),
        x@ is Nan ==> clamped(x, lo, hi) == x,
        clamped(clamped(x, lo, hi), lo, hi) == clamped(x, lo, hi),
{
}

/// An absolute value is not negative, unless it is NaN.
pub proof fn lemma_absolute_is_not_negative(x: Scalar)
    requires
        !(x@ is Nan),
    ensures
        zero().le(absolute(x)@),
{
    let none = Scalar { bits: 0 };
    assert(none@ == zero());
    lemma_place_orders(none, absolute(x));
}

/// What the bits of a power of two stand for: `k` is the exponent field, and two to the power of
/// `k - 1023` the number.
proof fn lemma_power_of_two(k: int)
    requires
        1 <= k < 0x7FF,
    ensures
        units(k * 0x10_0000_0000_0000) == vstd::arithmetic::power2::pow2((k + 51) as nat),
{
    let h: int = 0x10_0000_0000_0000;
    assert((k * h) / h == k && (k * h) % h == 0);
    vstd::arithmetic::power2::lemma2_to64_rest();
    assert(vstd::arithmetic::power2::pow2(52) == h);
    vstd::arithmetic::power2::lemma_pow2_adds(52, (k - 1) as nat);
}

/// The numbers that the bits of one, minus one, two and two to the power of 53 stand for.
pub proof fn lemma_powers_of_two()
    ensures
        one() >= 1,
        (Scalar { bits: 0 })@ == Extended::Finite(0),
        (Scalar { bits: ONE })@ == Extended::Finite(one()),
        (Scalar { bits: (ONE + SIGN) as u64 })@ == Extended::Finite(-one()),
        (Scalar { bits: TWO })@ == Extended::Finite(2 * one()),
        (Scalar { bits: 0x4340_0000_0000_0000 })@ == Extended::Finite(0x20_0000_0000_0000 * one()),
{
    vstd::arithmetic::power2::lemma_pow2_pos(1074);
    lemma_power_of_two(0x3FF);
    lemma_power_of_two(0x400);
    lemma_power_of_two(0x434);
    vstd::arithmetic::power2::lemma2_to64();
    vstd::arithmetic::power2::lemma2_to64_rest();
    vstd::arithmetic::power2::lemma_pow2_adds(1, 1074);
    vstd::arithmetic::power2::lemma_pow2_adds(53, 1074);
    assert(units(0) == 0);
}

/// The number that the bits of one half stand for.
pub proof fn lemma_half()
    ensures
        (Scalar { bits: HALF })@.finite(),
        2 * (Scalar { bits: HALF })@->Finite_0 == one(),
{
    lemma_power_of_two(0x3FE);
    vstd::arithmetic::power2::lemma_pow2_unfold(1074);
}

/// Changing the sign bit changes the sign.
pub proof fn lemma_negated_is_opposite(x: Scalar)
    ensures
        negated(x)@ == x@.opposite(),
{
}

} // verus!
