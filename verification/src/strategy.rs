//! The strategy that candidates parametrize: from knobs and a market to a series of returns.
use vstd::prelude::*;

use crate::arithmetic::Arithmetic;
use crate::scalar::{Extended, Scalar, HALF, NAN, ONE, SIGN, TWO};

verus! {

/// The bits of the number below which a price, a spread or a drawdown counts as none.
pub const TINY: u64 = 0x3D71_9799_812D_EA11;

/// The direction of a forecast step.
#[derive(Debug, Clone, Copy, PartialEq, Eq, Structural)]
pub enum Heading {
    Down,
    Flat,
    Up,
    /// The forecast gives no direction: it is not a number.
    Unknown,
}

impl Heading {
    /// The direction from `a` to `b`.
    pub open spec fn between(a: Extended, b: Extended) -> Heading {
        if a.lt(b) {
            Heading::Up
        } else if b.lt(a) {
            Heading::Down
        } else if a == b && a.finite() {
            Heading::Flat
        } else {
            Heading::Unknown
        }
    }

    /// The direction as a number: minus one, zero or one, or NaN.
    pub open spec fn number(self) -> Scalar {
        match self {
            Heading::Down => Scalar { bits: (ONE + SIGN) as u64 },
            Heading::Flat => Scalar { bits: 0 },
            Heading::Up => Scalar { bits: ONE },
            Heading::Unknown => Scalar { bits: NAN },
        }
    }

    /// The direction from `a` to `b`. Two infinities of one sign have none.
    pub fn of(a: Scalar, b: Scalar) -> (r: Heading)
        ensures
            r == Heading::between(a@, b@),
    {
        if a.below(b) {
            Heading::Up
        } else if b.below(a) {
            Heading::Down
        } else if a.is_finite() && b.is_finite() {
            proof {
                crate::scalar::lemma_place_orders(a, b);
                crate::scalar::lemma_place_orders(b, a);
            }
            Heading::Flat
        } else {
            Heading::Unknown
        }
    }

    pub fn value(self) -> (r: Scalar)
        ensures
            r == self.number(),
    {
        match self {
            Heading::Down => Scalar::from_bits(ONE + SIGN),
            Heading::Flat => Scalar::from_bits(0),
            Heading::Up => Scalar::from_bits(ONE),
            Heading::Unknown => Scalar::from_bits(NAN),
        }
    }
}

/// Can the return of a step from price `a` to price `b` come out as `r`? It is zero where there
/// is no price to start from.
pub open spec fn is_change<A: Arithmetic>(ops: &A, a: Scalar, b: Scalar, r: Scalar) -> bool {
    if (Scalar { bits: TINY })@.lt(crate::scalar::absolute(a)@) {
        exists|quotient: Scalar|
            #![trigger crate::arithmetic::divides(ops, b, a, quotient)]
            crate::arithmetic::divides(ops, b, a, quotient) && crate::arithmetic::subtracts(
                ops,
                quotient,
                Scalar { bits: ONE },
                r,
            )
    } else {
        r == (Scalar { bits: 0 })
    }
}

/// Can the step returns of a path come out as `changes`? A path of returns has them already;
/// one of prices has one less than it has prices.
pub open spec fn are_changes<A: Arithmetic>(
    ops: &A,
    path: Seq<Scalar>,
    prices: bool,
    changes: Seq<Scalar>,
) -> bool {
    if !prices {
        changes == path
    } else {
        &&& changes.len() == (if path.len() == 0 {
            0
        } else {
            path.len() - 1
        })
        &&& forall|i: int|
            0 <= i < changes.len() ==> is_change(
                ops,
                path[i],
                path[i + 1],
                #[trigger] changes[i],
            )
    }
}

/// The step returns of a path of prices or of returns.
pub fn to_returns<A: Arithmetic>(ops: &A, path: &[Scalar], are_prices: bool) -> (changes: Vec<
    Scalar,
>)
    ensures
        are_changes(ops, path@, are_prices, changes@),
{
    if !are_prices {
        return vstd::slice::slice_to_vec(path);
    }
    let mut changes: Vec<Scalar> = Vec::new();
    if path.len() == 0 {
        return changes;
    }
    let mut i: usize = 0;
    while i < path.len() - 1
        invariant
            i <= path@.len() - 1,
            changes@.len() == i,
            forall|j: int|
                0 <= j < i ==> is_change(ops, path@[j], path@[j + 1], #[trigger] changes@[j]),
        decreases path@.len() - i,
    {
        let change = if Scalar::from_bits(TINY).below(path[i].abs()) {
            let quotient = ops.over(path[i + 1], path[i]);
            assert(crate::arithmetic::divides(ops, path@[i + 1], path@[i as int], quotient));
            ops.minus(quotient, Scalar::from_bits(ONE))
        } else {
            Scalar::from_bits(0)
        };
        changes.push(change);
        i += 1;
    }
    changes
}

/// Knob `i`, zero where it is missing.
pub open spec fn knob(params: Seq<Scalar>, i: int) -> Scalar {
    if i < params.len() {
        params[i]
    } else {
        Scalar { bits: 0 }
    }
}

/// `x` confined to the interval from minus `bits` to `bits`.
pub open spec fn within(x: Scalar, bits: u64) -> Scalar {
    crate::scalar::clamped(x, Scalar { bits: (bits + SIGN) as u64 }, Scalar { bits })
}

fn confine(x: Scalar, bits: u64) -> (r: Scalar)
    requires
        bits < crate::scalar::EXPONENT,
    ensures
        r == within(x, bits),
{
    let lo = Scalar::from_bits(bits + SIGN);
    let hi = Scalar::from_bits(bits);
    proof {
        crate::scalar::lemma_place_orders(lo, hi);
    }
    x.clamp(lo, hi)
}

fn knob_or_zero(params: &[Scalar], i: usize) -> (r: Scalar)
    ensures
        r == knob(params@, i as int),
{
    if i < params.len() {
        params[i]
    } else {
        Scalar::from_bits(0)
    }
}

/// The constant exposure: the first knob, between minus one and one.
pub open spec fn tilt(params: Seq<Scalar>) -> Scalar {
    within(knob(params, 0), ONE)
}

/// The weight of the last move: the second knob, between minus two and two.
pub open spec fn momentum(params: Seq<Scalar>) -> Scalar {
    within(knob(params, 1), TWO)
}

/// The forecast overlay of a strategy: the direction forecast for each step, and its weight.
pub struct Overlay {
    pub headings: Vec<Heading>,
    pub weight: Scalar,
}

/// The direction forecast for step `i`, flat where there is none.
pub open spec fn heading_at(headings: Seq<Heading>, i: int) -> Heading {
    if i < headings.len() {
        headings[i]
    } else {
        Heading::Flat
    }
}

/// Can the strategy's leaning come out as `r` after a move of `prev`: the tilt, plus half the
/// momentum in the direction of the move?
pub open spec fn is_leaning<A: Arithmetic>(
    ops: &A,
    params: Seq<Scalar>,
    prev: Scalar,
    r: Scalar,
) -> bool {
    exists|full: Scalar, half: Scalar|
        {
            &&& #[trigger] crate::arithmetic::multiplies(
                ops,
                momentum(params),
                crate::scalar::sign_of(prev),
                full,
            )
            &&& #[trigger] crate::arithmetic::multiplies(ops, full, Scalar { bits: HALF }, half)
            &&& crate::arithmetic::adds(ops, tilt(params), half, r)
        }
}

/// Can leaning by `base` with forecast `heading` come out as `r`?
pub open spec fn is_overlaid<A: Arithmetic>(
    ops: &A,
    base: Scalar,
    weight: Scalar,
    heading: Heading,
    r: Scalar,
) -> bool {
    exists|pull: Scalar|
        #![trigger crate::arithmetic::multiplies(ops, weight, heading.number(), pull)]
        crate::arithmetic::multiplies(ops, weight, heading.number(), pull)
            && crate::arithmetic::adds(ops, base, pull, r)
}

/// Can the exposure at step `i`, after a move of `prev`, come out as `r`? It lies between minus
/// one and one.
pub open spec fn is_exposure<A: Arithmetic>(
    ops: &A,
    params: Seq<Scalar>,
    overlay: Option<Overlay>,
    i: int,
    prev: Scalar,
    r: Scalar,
) -> bool {
    exists|base: Scalar| #[trigger]
        is_leaning(ops, params, prev, base) && match overlay {
            None => r == within(base, ONE),
            Some(o) => exists|full: Scalar| #[trigger]
                is_overlaid(ops, base, o.weight, heading_at(o.headings@, i), full) && r == within(
                    full,
                    ONE,
                ),
        }
}

fn exposure<A: Arithmetic>(
    ops: &A,
    params: &[Scalar],
    overlay: &Option<Overlay>,
    i: usize,
    prev: Scalar,
) -> (r: Scalar)
    ensures
        is_exposure(ops, params@, *overlay, i as int, prev, r),
{
    let constant = confine(knob_or_zero(params, 0), ONE);
    let scale = confine(knob_or_zero(params, 1), TWO);
    let full = ops.times(scale, prev.signum());
    let half = ops.times(full, Scalar::from_bits(HALF));
    let base = ops.plus(constant, half);
    proof {
        assert(crate::arithmetic::multiplies(
            ops,
            momentum(params@),
            crate::scalar::sign_of(prev),
            full,
        ));
        assert(crate::arithmetic::multiplies(ops, full, Scalar { bits: HALF }, half));
        assert(crate::arithmetic::adds(ops, tilt(params@), half, base));
        assert(is_leaning(ops, params@, prev, base));
    }
    match overlay {
        None => confine(base, ONE),
        Some(o) => {
            let heading = if i < o.headings.len() {
                o.headings[i]
            } else {
                Heading::Flat
            };
            let pull = ops.times(o.weight, heading.value());
            let full = ops.plus(base, pull);
            proof {
                assert(crate::arithmetic::multiplies(ops, o.weight, heading.number(), pull));
                assert(is_overlaid(
                    ops,
                    base,
                    o.weight,
                    heading_at(o.headings@, i as int),
                    full,
                ));
            }
            confine(full, ONE)
        },
    }
}

/// The market's move before step `i`, zero before the first.
pub open spec fn move_before(market: Seq<Scalar>, i: int) -> Scalar {
    if i == 0 {
        Scalar { bits: 0 }
    } else {
        market[i - 1]
    }
}

/// Can the strategy earn `r` at step `i`: the exposure there times the market's move?
pub open spec fn earns<A: Arithmetic>(
    ops: &A,
    params: Seq<Scalar>,
    market: Seq<Scalar>,
    overlay: Option<Overlay>,
    i: int,
    r: Scalar,
) -> bool {
    exists|x: Scalar| #[trigger]
        is_exposure(ops, params, overlay, i, move_before(market, i), x)
            && crate::arithmetic::multiplies(ops, x, market[i], r)
}

/// Can the strategy's returns on a market come out as `series`?
pub open spec fn are_strategy_returns<A: Arithmetic>(
    ops: &A,
    params: Seq<Scalar>,
    market: Seq<Scalar>,
    overlay: Option<Overlay>,
    series: Seq<Scalar>,
) -> bool {
    &&& series.len() == market.len()
    &&& forall|i: int|
        0 <= i < market.len() ==> earns(ops, params, market, overlay, i, #[trigger] series[i])
}

/// The returns of the strategy on a market's step returns. At each step the exposure is the
/// tilt, plus half the momentum in the direction of the last move, plus the weighted direction
/// of the forecast where there is one, confined to the interval from minus one to one.
pub fn strategy_returns<A: Arithmetic>(
    ops: &A,
    params: &[Scalar],
    market: &[Scalar],
    overlay: &Option<Overlay>,
) -> (series: Vec<Scalar>)
    ensures
        are_strategy_returns(ops, params@, market@, *overlay, series@),
{
    let mut prev = Scalar::from_bits(0);
    let mut series: Vec<Scalar> = Vec::new();
    let mut i: usize = 0;
    while i < market.len()
        invariant
            i <= market@.len(),
            series@.len() == i,
            prev == move_before(market@, i as int),
            forall|j: int|
                0 <= j < i ==> earns(ops, params@, market@, *overlay, j, #[trigger] series@[j]),
        decreases market@.len() - i,
    {
        let x = exposure(ops, params, overlay, i, prev);
        let earned = ops.times(x, market[i]);
        assert(is_exposure(
            ops,
            params@,
            *overlay,
            i as int,
            move_before(market@, i as int),
            x,
        ));
        assert(crate::arithmetic::multiplies(ops, x, market@[i as int], earned));
        series.push(earned);
        prev = market[i];
        i += 1;
    }
    series
}

/// The exposure never leaves the interval from minus one to one, whatever the knobs, unless it is
/// NaN.
pub proof fn law_exposure_is_bounded<A: Arithmetic>(
    ops: &A,
    params: Seq<Scalar>,
    overlay: Option<Overlay>,
    i: int,
    prev: Scalar,
    r: Scalar,
)
    requires
        is_exposure(ops, params, overlay, i, prev, r),
    ensures
        r@ is Nan || {
            &&& (Scalar { bits: (ONE + SIGN) as u64 })@.le(r@)
            &&& r@.le((Scalar { bits: ONE })@)
        },
{
    let lo = Scalar { bits: (ONE + SIGN) as u64 };
    let hi = Scalar { bits: ONE };
    crate::scalar::lemma_place_orders(lo, hi);
    let base = choose|base: Scalar| #[trigger]
        is_leaning(ops, params, prev, base) && match overlay {
            None => r == within(base, ONE),
            Some(o) => exists|full: Scalar| #[trigger]
                is_overlaid(ops, base, o.weight, heading_at(o.headings@, i), full) && r == within(
                    full,
                    ONE,
                ),
        };
    match overlay {
        None => {
            crate::scalar::law_clamped_is_bounded(base, lo, hi);
        },
        Some(o) => {
            let full = choose|full: Scalar| #[trigger]
                is_overlaid(ops, base, o.weight, heading_at(o.headings@, i), full) && r == within(
                    full,
                    ONE,
                );
            crate::scalar::law_clamped_is_bounded(full, lo, hi);
        },
    }
}

} // verus!
