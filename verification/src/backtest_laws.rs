//! What a backtest does: the step returns of a path, the exposure that the knobs make of them,
//! and the metric of what is earned.
use vstd::prelude::*;

use crate::arithmetic::Arithmetic;
use crate::evaluator::{Artifact, BtMetric, Evaluator, VectorBtEvaluator};
use crate::scalar::{Scalar, HALF, ONE, SIGN, TWO};
use crate::strategy::{Heading, Overlay};

verus! {

/// The step returns of prices: each return times the price before it is the change of the price.
/// Where there is next to no price before, the return is zero. Returns stay what they are.
pub proof fn law_step_returns<A: Arithmetic>(
    ops: &A,
    path: &[Scalar],
    are_prices: bool,
    changes: Vec<Scalar>,
)
    requires
        crate::exact::exact(ops),
        crate::exact::all_finite(path@),
        call_ensures(crate::strategy::to_returns::<A>, (ops, path, are_prices), changes),
    ensures
        !are_prices ==> changes@ == path@,
        are_prices ==> changes@.len() == (if path@.len() == 0 {
            0
        } else {
            path@.len() - 1
        }),
        crate::exact::all_finite(changes@),
        are_prices ==> forall|i: int|
            0 <= i < changes@.len() ==> {
                let before = crate::exact::value(path@[i]);
                let after = crate::exact::value(path@[i + 1]);
                let t = crate::exact::value(Scalar { bits: 0x3D71_9799_812D_EA11 });
                let c = crate::exact::value(#[trigger] changes@[i]);
                &&& crate::exact::magnitude(before) > t ==> c * before == after - before
                &&& crate::exact::magnitude(before) <= t ==> c == 0real
            },
{
    crate::exact::lemma_constants();
    crate::exact::lemma_tiny();
    if are_prices {
        assert forall|i: int| 0 <= i < changes@.len() implies ({
            let before = crate::exact::value(path@[i]);
            let after = crate::exact::value(path@[i + 1]);
            let t = crate::exact::value(Scalar { bits: 0x3D71_9799_812D_EA11 });
            let c = crate::exact::value(#[trigger] changes@[i]);
            &&& changes@[i]@.finite()
            &&& crate::exact::magnitude(before) > t ==> c * before == after - before
            &&& crate::exact::magnitude(before) <= t ==> c == 0real
        }) by {
            lemma_change(ops, path@[i], path@[i + 1], changes@[i]);
        }
    }
}

proof fn lemma_change<A: Arithmetic>(ops: &A, a: Scalar, b: Scalar, r: Scalar)
    requires
        crate::exact::exact(ops),
        a@.finite(),
        b@.finite(),
        crate::strategy::is_change(ops, a, b, r),
    ensures
        r@.finite(),
        ({
            let before = crate::exact::value(a);
            let after = crate::exact::value(b);
            let t = crate::exact::value(Scalar { bits: 0x3D71_9799_812D_EA11 });
            let c = crate::exact::value(r);
            &&& crate::exact::magnitude(before) > t ==> c * before == after - before
            &&& crate::exact::magnitude(before) <= t ==> c == 0real
        }),
{
    crate::exact::lemma_constants();
    crate::exact::lemma_tiny();
    let tiny = Scalar { bits: 0x3D71_9799_812D_EA11 };
    crate::exact::lemma_signs(a);
    let size = crate::scalar::absolute(a);
    crate::exact::lemma_value_orders(tiny, size);
    if tiny@.lt(size@) {
        let quotient = choose|quotient: Scalar|
            #![trigger crate::arithmetic::divides(ops, b, a, quotient)]
            crate::arithmetic::divides(ops, b, a, quotient) && crate::arithmetic::subtracts(
                ops,
                quotient,
                Scalar { bits: ONE },
                r,
            );
        let q = crate::exact::value(quotient);
        let x = crate::exact::value(a);
        let y = crate::exact::value(b);
        assert((q - 1real) * x == y - x) by (nonlinear_arith)
            requires
                q * x == y,
        ;
    }
}

/// Confining a finite number is confining the real number that it is.
proof fn lemma_within(x: Scalar, bits: u64, bound: real)
    requires
        x@.finite(),
        bits < SIGN,
        (Scalar { bits })@.finite(),
        (Scalar { bits: (bits + SIGN) as u64 })@.finite(),
        crate::exact::value(Scalar { bits }) == bound,
        crate::exact::value(Scalar { bits: (bits + SIGN) as u64 }) == -bound,
    ensures
        crate::strategy::within(x, bits)@.finite(),
        crate::exact::value(crate::strategy::within(x, bits)) == crate::exact::clamp(
            crate::exact::value(x),
            -bound,
            bound,
        ),
{
    crate::exact::lemma_value_orders(x, Scalar { bits: (bits + SIGN) as u64 });
    crate::exact::lemma_value_orders(Scalar { bits }, x);
}

/// What the strategy earns at each step is the market's return there times the exposure: the
/// first knob, between minus one and one, plus half the second, between minus two and two, in the
/// direction of the market's last move, plus the weight in the direction that is forecast; all of
/// it between minus one and one. Before the first move the direction is up, as after a move of
/// nothing; beyond the forecast there is none.
pub proof fn law_strategy_returns<A: Arithmetic>(
    ops: &A,
    params: &[Scalar],
    market: &[Scalar],
    overlay: &Option<Overlay>,
    series: Vec<Scalar>,
)
    requires
        crate::exact::exact(ops),
        crate::exact::all_finite(params@),
        crate::exact::all_finite(market@),
        overlay matches Some(o) ==> o.weight@.finite() && forall|i: int|
            0 <= i < o.headings@.len() ==> !(#[trigger] o.headings@[i] is Unknown),
        call_ensures(
            crate::strategy::strategy_returns::<A>,
            (ops, params, market, overlay),
            series,
        ),
    ensures
        series@.len() == market@.len(),
        forall|i: int|
            0 <= i < market@.len() ==> {
                let tilt = if params@.len() > 0 {
                    crate::exact::value(params@[0])
                } else {
                    0real
                };
                let momentum = if params@.len() > 1 {
                    crate::exact::value(params@[1])
                } else {
                    0real
                };
                let last = if i == 0 || crate::exact::value(market@[i - 1]) > 0real
                    || market@[i - 1].bits == 0 {
                    1real
                } else {
                    -1real
                };
                let forecast = match overlay {
                    None => 0real,
                    Some(o) => crate::exact::value(o.weight) * (if i < o.headings@.len() {
                        match o.headings@[i] {
                            Heading::Up => 1real,
                            Heading::Down => -1real,
                            _ => 0real,
                        }
                    } else {
                        0real
                    }),
                };
                &&& (#[trigger] series@[i])@.finite()
                &&& crate::exact::value(series@[i]) == crate::exact::value(market@[i])
                    * crate::exact::clamp(
                    crate::exact::clamp(tilt, -1real, 1real) + crate::exact::clamp(
                        momentum,
                        -2real,
                        2real,
                    ) * last / 2real + forecast,
                    -1real,
                    1real,
                )
            },
{
    assert forall|i: int| 0 <= i < market@.len() implies ({
        let tilt = if params@.len() > 0 {
            crate::exact::value(params@[0])
        } else {
            0real
        };
        let momentum = if params@.len() > 1 {
            crate::exact::value(params@[1])
        } else {
            0real
        };
        let last = if i == 0 || crate::exact::value(market@[i - 1]) > 0real || market@[i - 1].bits
            == 0 {
            1real
        } else {
            -1real
        };
        let forecast = match overlay {
            None => 0real,
            Some(o) => crate::exact::value(o.weight) * (if i < o.headings@.len() {
                match o.headings@[i] {
                    Heading::Up => 1real,
                    Heading::Down => -1real,
                    _ => 0real,
                }
            } else {
                0real
            }),
        };
        &&& (#[trigger] series@[i])@.finite()
        &&& crate::exact::value(series@[i]) == crate::exact::value(market@[i])
            * crate::exact::clamp(
            crate::exact::clamp(tilt, -1real, 1real) + crate::exact::clamp(
                momentum,
                -2real,
                2real,
            ) * last / 2real + forecast,
            -1real,
            1real,
        )
    }) by {
        assert(crate::strategy::earns(ops, params@, market@, *overlay, i, series@[i]));
        lemma_earns(ops, params@, market@, *overlay, i, series@[i]);
    }
}

proof fn lemma_sign(x: Scalar)
    requires
        x@.finite(),
    ensures
        crate::scalar::sign_of(x)@.finite(),
        crate::exact::value(crate::scalar::sign_of(x)) == (if crate::exact::value(x) > 0real
            || x.bits == 0 {
            1real
        } else {
            -1real
        }),
{
    let none = Scalar { bits: 0 };
    crate::exact::lemma_constants();
    crate::exact::lemma_value_orders(none, x);
    crate::scalar::lemma_place_orders(none, x);
    crate::scalar::lemma_place_orders(x, none);
}

proof fn lemma_leaning<A: Arithmetic>(ops: &A, params: Seq<Scalar>, prev: Scalar, base: Scalar)
    requires
        crate::exact::exact(ops),
        crate::exact::all_finite(params),
        prev@.finite(),
        crate::strategy::is_leaning(ops, params, prev, base),
    ensures
        base@.finite(),
        ({
            let tilt = if params.len() > 0 {
                crate::exact::value(params[0])
            } else {
                0real
            };
            let momentum = if params.len() > 1 {
                crate::exact::value(params[1])
            } else {
                0real
            };
            let last = if crate::exact::value(prev) > 0real || prev.bits == 0 {
                1real
            } else {
                -1real
            };
            crate::exact::value(base) == crate::exact::clamp(tilt, -1real, 1real)
                + crate::exact::clamp(momentum, -2real, 2real) * last / 2real
        }),
{
    crate::exact::lemma_constants();
    lemma_sign(prev);
    let k0 = crate::strategy::knob(params, 0);
    let k1 = crate::strategy::knob(params, 1);
    lemma_within(k0, ONE, 1real);
    lemma_within(k1, TWO, 2real);
    let (full, half) = choose|full: Scalar, half: Scalar|
        {
            &&& #[trigger] crate::arithmetic::multiplies(
                ops,
                crate::strategy::momentum(params),
                crate::scalar::sign_of(prev),
                full,
            )
            &&& #[trigger] crate::arithmetic::multiplies(ops, full, Scalar { bits: HALF }, half)
            &&& crate::arithmetic::adds(ops, crate::strategy::tilt(params), half, base)
        };
    let f = crate::exact::value(full);
    let h = crate::exact::value(Scalar { bits: HALF });
    assert(f * h == f / 2real) by (nonlinear_arith)
        requires
            2real * h == 1real,
    ;
}

proof fn lemma_earns<A: Arithmetic>(
    ops: &A,
    params: Seq<Scalar>,
    market: Seq<Scalar>,
    overlay: Option<Overlay>,
    i: int,
    r: Scalar,
)
    requires
        crate::exact::exact(ops),
        crate::exact::all_finite(params),
        crate::exact::all_finite(market),
        overlay matches Some(o) ==> o.weight@.finite() && forall|k: int|
            0 <= k < o.headings@.len() ==> !(#[trigger] o.headings@[k] is Unknown),
        0 <= i < market.len(),
        crate::strategy::earns(ops, params, market, overlay, i, r),
    ensures
        r@.finite(),
        ({
            let tilt = if params.len() > 0 {
                crate::exact::value(params[0])
            } else {
                0real
            };
            let momentum = if params.len() > 1 {
                crate::exact::value(params[1])
            } else {
                0real
            };
            let last = if i == 0 || crate::exact::value(market[i - 1]) > 0real || market[i - 1].bits
                == 0 {
                1real
            } else {
                -1real
            };
            let forecast = match overlay {
                None => 0real,
                Some(o) => crate::exact::value(o.weight) * (if i < o.headings@.len() {
                    match o.headings@[i] {
                        Heading::Up => 1real,
                        Heading::Down => -1real,
                        _ => 0real,
                    }
                } else {
                    0real
                }),
            };
            crate::exact::value(r) == crate::exact::value(market[i]) * crate::exact::clamp(
                crate::exact::clamp(tilt, -1real, 1real) + crate::exact::clamp(
                    momentum,
                    -2real,
                    2real,
                ) * last / 2real + forecast,
                -1real,
                1real,
            )
        }),
{
    crate::exact::lemma_constants();
    let prev = crate::strategy::move_before(market, i);
    let x = choose|x: Scalar| #[trigger]
        crate::strategy::is_exposure(ops, params, overlay, i, prev, x)
            && crate::arithmetic::multiplies(ops, x, market[i], r);
    assert(market[i]@.finite());
    if i > 0 {
        assert(market[i - 1]@.finite());
    }
    let base = choose|base: Scalar| #[trigger]
        crate::strategy::is_leaning(ops, params, prev, base) && match overlay {
            None => x == crate::strategy::within(base, ONE),
            Some(o) => exists|full: Scalar| #[trigger]
                crate::strategy::is_overlaid(
                    ops,
                    base,
                    o.weight,
                    crate::strategy::heading_at(o.headings@, i),
                    full,
                ) && x == crate::strategy::within(full, ONE),
        };
    lemma_leaning(ops, params, prev, base);
    match overlay {
        None => {
            lemma_within(base, ONE, 1real);
        },
        Some(o) => {
            let heading = crate::strategy::heading_at(o.headings@, i);
            assert(!(heading is Unknown));
            let full = choose|full: Scalar| #[trigger]
                crate::strategy::is_overlaid(ops, base, o.weight, heading, full) && x
                    == crate::strategy::within(full, ONE);
            let pull = choose|pull: Scalar|
                #![trigger crate::arithmetic::multiplies(ops, o.weight, heading.number(), pull)]
                crate::arithmetic::multiplies(ops, o.weight, heading.number(), pull)
                    && crate::arithmetic::adds(ops, base, pull, full);
            assert(heading.number()@.finite());
            lemma_within(full, ONE, 1real);
        },
    }
    let a = crate::exact::value(x);
    let b = crate::exact::value(market[i]);
    assert(a * b == b * a) by (nonlinear_arith);
}

/// The backtest of a path is the metric of what the strategy with all the knobs earns on the
/// path's step returns.
pub proof fn law_path_score<A: Arithmetic>(
    evaluator: VectorBtEvaluator<A>,
    artifact: Artifact,
    path: Vec<Scalar>,
    score: Scalar,
    knobs: &[Scalar],
    points: &[Scalar],
    market: Vec<Scalar>,
    moves: &[Scalar],
    earned: Vec<Scalar>,
    series: &[Scalar],
    r: Scalar,
)
    requires
        crate::arithmetic::reproducible(&evaluator.arithmetic()),
        call_ensures(VectorBtEvaluator::<A>::score_path, (&evaluator, &artifact, &path), score),
        knobs@ == artifact@,
        points@ == path@,
        call_ensures(
            crate::strategy::to_returns::<A>,
            (&evaluator.arithmetic(), points, evaluator.prices()),
            market,
        ),
        moves@ == market@,
        call_ensures(
            crate::strategy::strategy_returns::<A>,
            (&evaluator.arithmetic(), knobs, moves, &None::<Overlay>),
            earned,
        ),
        series@ == earned@,
        call_ensures(
            crate::evaluator::bt_metric_of_path::<A>,
            (&evaluator.arithmetic(), evaluator.kernel(), series),
            r,
        ),
    ensures
        score == r,
{
    let ops = evaluator.arithmetic();
    assert(crate::strategy::are_strategy_returns(
        &ops,
        artifact@,
        market@,
        None::<Overlay>,
        earned@,
    ));
    assert(crate::evaluator::is_path_score(
        &ops,
        evaluator.kernel(),
        artifact@,
        path@,
        evaluator.prices(),
        r,
    ));
    crate::reproducibility::lemma_path_score(
        &ops,
        evaluator.kernel(),
        artifact@,
        path@,
        evaluator.prices(),
        score,
        r,
    );
}

/// The score of a candidate is the average over the backtests of all paths.
pub proof fn law_backtest_score<A: Arithmetic>(
    evaluator: VectorBtEvaluator<A>,
    artifact: Artifact,
    score: Scalar,
    scores: &[Scalar],
    r: Scalar,
)
    requires
        crate::arithmetic::reproducible(&evaluator.arithmetic()),
        call_ensures(VectorBtEvaluator::<A>::score, (&evaluator, &artifact), score),
        scores@.len() == evaluator.paths().len(),
        forall|i: int|
            0 <= i < scores@.len() ==> call_ensures(
                VectorBtEvaluator::<A>::score_path,
                (&evaluator, &artifact, &evaluator.paths()[i]),
                #[trigger] scores@[i],
            ),
        call_ensures(
            crate::evaluator::average::<A>,
            (&evaluator.arithmetic(), scores),
            r,
        ),
    ensures
        score@ == r@,
{
    assert(crate::evaluator::is_average(&evaluator.arithmetic(), scores@, r));
    assert(evaluator.may_score(artifact@, r));
    crate::reproducibility::law_backtests_are_decisive(evaluator);
    assert(evaluator.may_score(artifact@, score));
}

} // verus!
