//! What walking forward does: which folds there are, what each is scored on, and what the
//! disagreement between even and odd folds costs.
use vstd::prelude::*;

use crate::arithmetic::Arithmetic;
use crate::evaluator::{Artifact, BtMetric, Evaluator};
use crate::metric::Direction;
use crate::scalar::Scalar;
use crate::strategy::{Heading, Overlay};
use crate::timesfm_walkforward::{
    ArcForecaster, FoldScore, Forecaster, ForecasterSpec, Model, NativeForecaster, NoModel,
    OnnxForecaster, WalkForward,
};

verus! {

/// A walk forward is set up with what it was given: the window holds two values at least, the
/// horizon and the stride one.
pub proof fn law_walks_are_set_up_as_asked<A: Arithmetic>(
    ops: A,
    bt: BtMetric,
    series: Vec<Vec<Scalar>>,
    are_prices: bool,
    train_len: usize,
    horizon: usize,
    step: usize,
    layout: ForecasterSpec,
    r: WalkForward<A, NoModel>,
)
    requires
        call_ensures(
            WalkForward::<A, NoModel>::from_ensemble,
            (ops, bt, series, are_prices, train_len, horizon, step, layout),
            r,
        ),
    ensures
        r.arithmetic() == ops,
        r.kernel() == bt,
        r.frozen_metric().direction == (if bt is MaxDrawdown || bt is Cvar {
            Direction::Minimize
        } else {
            Direction::Maximize
        }),
        r.series() == series@,
        r.prices() == are_prices,
        train_len >= 2 ==> r.window() == train_len,
        train_len < 2 ==> r.window() == 2,
        horizon >= 1 ==> r.reach() == horizon,
        horizon < 1 ==> r.reach() == 1,
        step >= 1 ==> r.stride() == step,
        step < 1 ==> r.stride() == 1,
        r.artifact_layout() == layout,
        r.model() is None,
        r.weight().bits == 0x3FE0_0000_0000_0000,
        r.penalty().bits == 0x3FE0_0000_0000_0000,
{
}

/// The origins of the folds begin where the first window ends and lie a stride apart, and there is
/// one exactly as long as the steps that it is scored on fit into the series.
pub proof fn law_fold_origins<A: Arithmetic, M: Model>(
    wf: WalkForward<A, M>,
    t: usize,
    origins: Vec<usize>,
    k: int,
)
    requires
        wf.window() >= 0,
        wf.reach() >= 0,
        wf.stride() >= 1,
        call_ensures(WalkForward::<A, M>::fold_origins, (&wf, t), origins),
        k >= 0,
    ensures
        k < origins@.len() <==> wf.window() + k * wf.stride() + wf.reach() <= t,
        k < origins@.len() ==> origins@[k] == wf.window() + k * wf.stride(),
{
    let series = Seq::new(t as nat, |i: int| Scalar { bits: 0 });
    crate::timesfm_walkforward::law_folds_roll(wf, series, k);
    let stride = wf.stride();
    assert(k * stride >= 0) by (nonlinear_arith)
        requires
            k >= 0,
            stride >= 1,
    ;
}

/// The direction of each step of a forecast: up where its point lies above what it is measured
/// from, down where below, and flat where it is the same. For prices that is the point before, and
/// the anchor for the first; for returns it is zero.
pub proof fn law_forecast_directions(
    points: &[Scalar],
    anchor: Scalar,
    are_prices: bool,
    headings: Vec<Heading>,
    i: int,
)
    requires
        crate::exact::all_finite(points@),
        anchor@.finite(),
        call_ensures(
            crate::timesfm_walkforward::forecast_direction,
            (points, anchor, are_prices),
            headings,
        ),
        0 <= i < points@.len(),
    ensures
        headings@.len() == points@.len(),
        ({
            let from = if !are_prices {
                0real
            } else if i == 0 {
                crate::exact::value(anchor)
            } else {
                crate::exact::value(points@[i - 1])
            };
            let to = crate::exact::value(points@[i]);
            headings@[i] == (if from < to {
                Heading::Up
            } else if to < from {
                Heading::Down
            } else {
                Heading::Flat
            })
        }),
{
    crate::exact::lemma_constants();
    let from = if !are_prices {
        Scalar { bits: 0 }
    } else if i == 0 {
        anchor
    } else {
        points@[i - 1]
    };
    assert((Scalar { bits: 0 })@ == crate::scalar::zero());
    assert(points@[i]@.finite());
    assert(from@.finite());
    crate::exact::lemma_value_orders(from, points@[i]);
    crate::exact::lemma_value_orders(points@[i], from);
}

/// The score of a fold is the metric of what the strategy earns on the steps after the origin,
/// with the directions that are forecast from the window before it. For prices the first of those
/// steps leads from the last price of the window.
pub proof fn law_fold_score<A: Arithmetic, M: Model, F: Forecaster>(
    wf: WalkForward<A, M>,
    series: &[Scalar],
    forecaster: F,
    params: &[Scalar],
    o: usize,
    score: Scalar,
    points: &[Scalar],
    headings: Vec<Heading>,
    path: &[Scalar],
    market: Vec<Scalar>,
    moves: &[Scalar],
    overlay: Overlay,
    earned: Vec<Scalar>,
    gains: &[Scalar],
    r: Scalar,
)
    requires
        crate::arithmetic::reproducible(&wf.arithmetic()),
        wf.window() >= 1,
        wf.reach() >= 0,
        wf.window() <= o,
        o + wf.reach() <= series@.len(),
        call_ensures(
            WalkForward::<A, M>::score_fold::<F>,
            (&wf, series, &forecaster, params, o),
            score,
        ),
        crate::reproducibility::settled(
            &forecaster,
            series@.subrange(o - wf.window(), o as int),
            wf.reach() as nat,
        ),
        forecaster.may_forecast(
            series@.subrange(o - wf.window(), o as int),
            wf.reach() as nat,
            points@,
        ),
        call_ensures(
            crate::timesfm_walkforward::forecast_direction,
            (points, series@[o - 1], wf.prices()),
            headings,
        ),
        path@ == (if wf.prices() {
            series@.subrange(o - 1, o + wf.reach())
        } else {
            series@.subrange(o as int, o + wf.reach())
        }),
        call_ensures(
            crate::strategy::to_returns::<A>,
            (&wf.arithmetic(), path, wf.prices()),
            market,
        ),
        moves@ == market@,
        overlay.headings@ == headings@,
        overlay.weight == wf.weight(),
        call_ensures(
            crate::strategy::strategy_returns::<A>,
            (&wf.arithmetic(), params, moves, &Some(overlay)),
            earned,
        ),
        gains@ == earned@,
        call_ensures(
            crate::evaluator::bt_metric_of_path::<A>,
            (&wf.arithmetic(), wf.kernel(), gains),
            r,
        ),
    ensures
        score == r,
{
    let at = o as int;
    let ops = wf.arithmetic();
    assert(wf.has_fold(series@, at));
    if wf.prices() {
        assert(path@ =~= wf.realized(series@, at));
    }
    assert(path@ == wf.realized(series@, at));
    assert(crate::strategy::are_changes(&ops, path@, wf.prices(), market@));
    assert(crate::strategy::are_strategy_returns(
        &ops,
        params@,
        market@,
        Some(overlay),
        earned@,
    ));
    assert(forecaster.may_forecast(wf.in_sample(series@, at), wf.reach() as nat, points@));
    assert(wf.is_fold_score(&forecaster, series@, params@, at, r));
    crate::reproducibility::lemma_fold_score(
        wf,
        &forecaster,
        series@,
        series@,
        params@,
        at,
        score,
        r,
    );
}

/// The sum over a half of the folds is that over all of them with zeros for the other half.
proof fn lemma_half(
    scores: Seq<FoldScore>,
    window: int,
    stride: int,
    even: bool,
    weight: spec_fn(Scalar) -> real,
)
    requires
        forall|i: int| 0 <= i < scores.len() ==> (#[trigger] scores[i]).origin >= window,
    ensures
        ({
            let half = crate::timesfm_walkforward::half_of(scores, window, stride, even);
            &&& crate::exact::total(Seq::new(half.len(), |i: int| weight(half[i])))
                == crate::exact::total(
                Seq::new(
                    scores.len(),
                    |i: int|
                        if (((scores[i].origin - window) / stride) % 2 == 0) == even {
                            weight(scores[i].metric_value)
                        } else {
                            0real
                        },
                ),
            )
            &&& forall|x: Scalar| #[trigger]
                half.contains(x) ==> exists|i: int|
                    0 <= i < scores.len() && (#[trigger] scores[i]).metric_value == x && ((((
                    scores[i].origin - window) / stride) % 2 == 0) == even)
            &&& forall|i: int|
                0 <= i < scores.len() && ((((scores[i].origin - window) / stride) % 2 == 0) == even)
                    ==> half.contains((#[trigger] scores[i]).metric_value)
        }),
    decreases scores.len(),
{
    let half = crate::timesfm_walkforward::half_of(scores, window, stride, even);
    let sums = Seq::new(
        scores.len(),
        |i: int|
            if (((scores[i].origin - window) / stride) % 2 == 0) == even {
                weight(scores[i].metric_value)
            } else {
                0real
            },
    );
    if scores.len() > 0 {
        let init = scores.drop_last();
        lemma_half(init, window, stride, even, weight);
        let before = crate::timesfm_walkforward::half_of(init, window, stride, even);
        assert(sums.drop_last() =~= Seq::new(
            init.len(),
            |i: int|
                if (((init[i].origin - window) / stride) % 2 == 0) == even {
                    weight(init[i].metric_value)
                } else {
                    0real
                },
        ));
        let taken = Seq::new(half.len(), |i: int| weight(half[i]));
        let taken_before = Seq::new(before.len(), |i: int| weight(before[i]));
        let last = scores[scores.len() - 1];
        assert(last.origin >= window);
        let chosen = (((last.origin - window) / stride) % 2 == 0) == even;
        if chosen {
            assert(half == before.push(last.metric_value));
            assert(taken.drop_last() =~= taken_before);
            assert(half[half.len() - 1] == last.metric_value);
        } else {
            assert(half == before);
            assert(taken =~= taken_before);
        }
        assert forall|x: Scalar| #[trigger] half.contains(x) implies exists|i: int|
            0 <= i < scores.len() && (#[trigger] scores[i]).metric_value == x && ((((
            scores[i].origin - window) / stride) % 2 == 0) == even) by {
            if before.contains(x) {
                let i = choose|i: int|
                    0 <= i < init.len() && (#[trigger] init[i]).metric_value == x && ((((
                    init[i].origin - window) / stride) % 2 == 0) == even);
                assert(scores[i] == init[i]);
            } else {
                let k = choose|k: int| 0 <= k < half.len() && half[k] == x;
                if k < before.len() {
                    assert(before[k] == x);
                }
                assert(scores[scores.len() - 1].metric_value == x);
            }
        }
        assert forall|i: int|
            0 <= i < scores.len() && ((((scores[i].origin - window) / stride) % 2 == 0)
                == even) implies half.contains((#[trigger] scores[i]).metric_value) by {
            if i < init.len() {
                assert(scores[i] == init[i]);
                assert(before.contains(init[i].metric_value));
                let k = choose|k: int| 0 <= k < before.len() && before[k] == scores[i].metric_value;
                assert(half[k] == before[k]);
            }
        }
    }
}

/// The averages of the even and the odd folds: each, times the number of folds of that parity with
/// a finite score, is the sum of those scores. The first fold of a series is even, the next odd,
/// and so on. Where there is none the average is NaN.
pub proof fn law_even_and_odd_means<A: Arithmetic, M: Model>(
    wf: WalkForward<A, M>,
    scores: &[FoldScore],
    means: (Scalar, Scalar),
    even: bool,
)
    requires
        crate::exact::exact(&wf.arithmetic()),
        forall|i: int| 0 <= i < scores@.len() ==> (#[trigger] scores@[i]).origin >= wf.window(),
        call_ensures(WalkForward::<A, M>::even_odd_means, (&wf, scores), means),
    ensures
        ({
            let m = if even {
                means.0
            } else {
                means.1
            };
            let n = crate::exact::total(
                Seq::new(
                    scores@.len(),
                    |i: int|
                        if (((scores@[i].origin - wf.window()) / wf.stride()) % 2 == 0) == even {
                            if scores@[i].metric_value@.finite() {
                                1real
                            } else {
                                0real
                            }
                        } else {
                            0real
                        },
                ),
            );
            let sum = crate::exact::total(
                Seq::new(
                    scores@.len(),
                    |i: int|
                        if (((scores@[i].origin - wf.window()) / wf.stride()) % 2 == 0) == even {
                            if scores@[i].metric_value@.finite() {
                                crate::exact::value(scores@[i].metric_value)
                            } else {
                                0real
                            }
                        } else {
                            0real
                        },
                ),
            );
            let some = exists|i: int|
                0 <= i < scores@.len() && (#[trigger] scores@[i]).metric_value@.finite() && ((((
                scores@[i].origin - wf.window()) / wf.stride()) % 2 == 0) == even);
            &&& some ==> m@.finite() && crate::exact::value(m) * n == sum
            &&& !some ==> m@ is Nan
        }),
{
    let m = if even {
        means.0
    } else {
        means.1
    };
    let window = wf.window();
    let stride = wf.stride();
    let half = crate::timesfm_walkforward::half_of(scores@, window, stride, even);
    let ones = |x: Scalar|
        if x@.finite() {
            1real
        } else {
            0real
        };
    let sums = |x: Scalar|
        if x@.finite() {
            crate::exact::value(x)
        } else {
            0real
        };
    lemma_half(scores@, window, stride, even, ones);
    lemma_half(scores@, window, stride, even, sums);
    crate::metric_laws::lemma_average(&wf.arithmetic(), half, m);
    assert(Seq::new(half.len(), |i: int| ones(half[i])) =~= Seq::new(
        half.len(),
        |i: int|
            if half[i]@.finite() {
                1real
            } else {
                0real
            },
    ));
    assert(Seq::new(half.len(), |i: int| sums(half[i])) =~= Seq::new(
        half.len(),
        |i: int|
            if half[i]@.finite() {
                crate::exact::value(half[i])
            } else {
                0real
            },
    ));
    assert(Seq::new(
        scores@.len(),
        |i: int|
            if (((scores@[i].origin - window) / stride) % 2 == 0) == even {
                ones(scores@[i].metric_value)
            } else {
                0real
            },
    ) =~= Seq::new(
        scores@.len(),
        |i: int|
            if (((scores@[i].origin - wf.window()) / wf.stride()) % 2 == 0) == even {
                if scores@[i].metric_value@.finite() {
                    1real
                } else {
                    0real
                }
            } else {
                0real
            },
    ));
    assert(Seq::new(
        scores@.len(),
        |i: int|
            if (((scores@[i].origin - window) / stride) % 2 == 0) == even {
                sums(scores@[i].metric_value)
            } else {
                0real
            },
    ) =~= Seq::new(
        scores@.len(),
        |i: int|
            if (((scores@[i].origin - wf.window()) / wf.stride()) % 2 == 0) == even {
                if scores@[i].metric_value@.finite() {
                    crate::exact::value(scores@[i].metric_value)
                } else {
                    0real
                }
            } else {
                0real
            },
    ));
    if exists|i: int|
        0 <= i < scores@.len() && (#[trigger] scores@[i]).metric_value@.finite() && ((((
        scores@[i].origin - wf.window()) / wf.stride()) % 2 == 0) == even) {
        let i = choose|i: int|
            0 <= i < scores@.len() && (#[trigger] scores@[i]).metric_value@.finite() && ((((
            scores@[i].origin - wf.window()) / wf.stride()) % 2 == 0) == even);
        assert(half.contains(scores@[i].metric_value));
        let k = choose|k: int| 0 <= k < half.len() && half[k] == scores@[i].metric_value;
        assert(half[k]@.finite());
    } else {
        assert forall|k: int| 0 <= k < half.len() implies !(#[trigger] half[k])@.finite() by {
            assert(half.contains(half[k]));
        }
    }
}

/// The disagreement between even and odd folds is charged in proportion to the penalty that was
/// set: the score lies the distance of their averages times the penalty on the worse side of the
/// plain average. It is the plain average where one of the halves has none, and NaN where there is
/// no average at all.
pub proof fn law_guard<A: Arithmetic, M: Model>(
    wf: WalkForward<A, M>,
    scores: &[FoldScore],
    all: &[Scalar],
    base: Scalar,
    means: (Scalar, Scalar),
    r: Scalar,
)
    requires
        crate::exact::exact(&wf.arithmetic()),
        crate::arithmetic::reproducible(&wf.arithmetic()),
        wf.penalty()@.finite(),
        crate::scalar::zero().le(wf.penalty()@),
        all@.len() == scores@.len(),
        forall|i: int| 0 <= i < all@.len() ==> #[trigger] all@[i] == scores@[i].metric_value,
        call_ensures(crate::evaluator::average::<A>, (&wf.arithmetic(), all), base),
        call_ensures(WalkForward::<A, M>::even_odd_means, (&wf, scores), means),
        call_ensures(WalkForward::<A, M>::guarded, (&wf, scores), r),
    ensures
        !base@.finite() ==> r@ is Nan,
        base@.finite() && !(means.0@.finite() && means.1@.finite()) ==> r@ == base@,
        base@.finite() && means.0@.finite() && means.1@.finite() ==> {
            let cost = crate::exact::magnitude(
                crate::exact::value(means.0) - crate::exact::value(means.1),
            ) * crate::exact::value(wf.penalty());
            &&& r@.finite()
            &&& crate::exact::value(r) == (match wf.frozen_metric().direction {
                Direction::Maximize => crate::exact::value(base) - cost,
                Direction::Minimize => crate::exact::value(base) + cost,
            })
        },
{
    lemma_guard_by(wf, scores, all, base, means.0, means.1, r);
}

/// What the disagreement costs is proportional to the penalty: of two evaluators that differ in
/// the penalty that was set only, what each charges stands in the ratio of their penalties, and
/// without a penalty nothing is charged. Where the averages of even and odd folds differ, the
/// larger penalty gives the strictly worse score.
pub proof fn law_penalty_is_proportional<A: Arithmetic, M: Model>(
    wf: WalkForward<A, M>,
    p: Scalar,
    mild: WalkForward<A, M>,
    q: Scalar,
    strict: WalkForward<A, M>,
    scores: &[FoldScore],
    all: &[Scalar],
    base: Scalar,
    means: (Scalar, Scalar),
    r: Scalar,
    s: Scalar,
)
    requires
        crate::exact::exact(&wf.arithmetic()),
        crate::arithmetic::reproducible(&wf.arithmetic()),
        p@.finite(),
        q@.finite(),
        0real <= crate::exact::value(p) <= crate::exact::value(q),
        call_ensures(WalkForward::<A, M>::with_overfit_penalty, (wf, p), mild),
        call_ensures(WalkForward::<A, M>::with_overfit_penalty, (wf, q), strict),
        all@.len() == scores@.len(),
        forall|i: int| 0 <= i < all@.len() ==> #[trigger] all@[i] == scores@[i].metric_value,
        call_ensures(crate::evaluator::average::<A>, (&wf.arithmetic(), all), base),
        call_ensures(WalkForward::<A, M>::even_odd_means, (&mild, scores), means),
        base@.finite(),
        means.0@.finite(),
        means.1@.finite(),
        call_ensures(WalkForward::<A, M>::guarded, (&mild, scores), r),
        call_ensures(WalkForward::<A, M>::guarded, (&strict, scores), s),
    ensures
        (crate::exact::value(base) - crate::exact::value(r)) * crate::exact::value(q) == (
        crate::exact::value(base) - crate::exact::value(s)) * crate::exact::value(p),
        crate::exact::value(p) == 0real ==> crate::exact::value(r) == crate::exact::value(base),
        crate::exact::value(p) < crate::exact::value(q) && crate::exact::value(means.0)
            != crate::exact::value(means.1) ==> crate::metric::better(
            wf.frozen_metric().direction,
            s@,
            r@,
        ),
{
    let none = Scalar { bits: 0 };
    crate::exact::lemma_constants();
    lemma_penalty_set(wf, p, mild);
    lemma_penalty_set(wf, q, strict);
    let (even, odd) = means;
    law_guard(mild, scores, all, base, means, r);
    lemma_guard_by(strict, scores, all, base, even, odd, s);
    let d = crate::exact::magnitude(crate::exact::value(even) - crate::exact::value(odd));
    let x = crate::exact::value(p);
    let y = crate::exact::value(q);
    assert((d * x) * y == (d * y) * x) by (nonlinear_arith);
    assert((-(d * x)) * y == (-(d * y)) * x) by (nonlinear_arith);
    if x == 0real {
        assert(d * x == 0real) by (nonlinear_arith)
            requires
                x == 0real,
        ;
    }
    if x < y && crate::exact::value(even) != crate::exact::value(odd) {
        assert(d * x < d * y) by (nonlinear_arith)
            requires
                x < y,
                d > 0real,
        ;
        crate::exact::lemma_value_orders(r, s);
        crate::exact::lemma_value_orders(s, r);
    }
}

/// The penalty that was set is the one that counts.
proof fn lemma_penalty_set<A: Arithmetic, M: Model>(
    wf: WalkForward<A, M>,
    p: Scalar,
    r: WalkForward<A, M>,
)
    requires
        p@.finite(),
        crate::exact::value(p) >= 0real,
        call_ensures(WalkForward::<A, M>::with_overfit_penalty, (wf, p), r),
    ensures
        wf.same_folds(&r),
        r.penalty()@.finite(),
        crate::exact::value(r.penalty()) == crate::exact::value(p),
        crate::scalar::zero().le(r.penalty()@),
{
    let none = Scalar { bits: 0 };
    crate::exact::lemma_constants();
    crate::exact::lemma_value_orders(p, none);
    crate::exact::lemma_value_orders(none, p);
    assert(none@ == crate::scalar::zero());
    crate::exact::lemma_value_orders(none, r.penalty());
}

/// The guard, from averages of the halves.
proof fn lemma_guard_by<A: Arithmetic, M: Model>(
    wf: WalkForward<A, M>,
    scores: &[FoldScore],
    all: &[Scalar],
    base: Scalar,
    first: Scalar,
    second: Scalar,
    r: Scalar,
)
    requires
        crate::exact::exact(&wf.arithmetic()),
        crate::arithmetic::reproducible(&wf.arithmetic()),
        wf.penalty()@.finite(),
        crate::scalar::zero().le(wf.penalty()@),
        all@.len() == scores@.len(),
        forall|i: int| 0 <= i < all@.len() ==> #[trigger] all@[i] == scores@[i].metric_value,
        crate::evaluator::is_average(&wf.arithmetic(), all@, base),
        crate::evaluator::is_average(
            &wf.arithmetic(),
            crate::timesfm_walkforward::half_of(scores@, wf.window(), wf.stride(), true),
            first,
        ),
        crate::evaluator::is_average(
            &wf.arithmetic(),
            crate::timesfm_walkforward::half_of(scores@, wf.window(), wf.stride(), false),
            second,
        ),
        wf.is_guarded(scores@, r),
    ensures
        !base@.finite() ==> r@ is Nan,
        base@.finite() && !(first@.finite() && second@.finite()) ==> r@ == base@,
        base@.finite() && first@.finite() && second@.finite() ==> {
            let cost = crate::exact::magnitude(
                crate::exact::value(first) - crate::exact::value(second),
            ) * crate::exact::value(wf.penalty());
            &&& r@.finite()
            &&& crate::exact::value(r) == (match wf.frozen_metric().direction {
                Direction::Maximize => crate::exact::value(base) - cost,
                Direction::Minimize => crate::exact::value(base) + cost,
            })
        },
{
    let ops = wf.arithmetic();
    let values = crate::timesfm_walkforward::values_of(scores@);
    assert(all@ =~= values);
    let evens = crate::timesfm_walkforward::half_of(scores@, wf.window(), wf.stride(), true);
    let odds = crate::timesfm_walkforward::half_of(scores@, wf.window(), wf.stride(), false);
    let plain = choose|plain: Scalar|
        {
            &&& #[trigger] crate::evaluator::is_average(&ops, values, plain)
            &&& if !plain@.finite() {
                r@ is Nan
            } else if wf.penalty()@.le(crate::scalar::zero()) {
                r == plain
            } else {
                exists|even: Scalar, odd: Scalar|
                    {
                        &&& #[trigger] crate::evaluator::is_average(&ops, evens, even)
                        &&& #[trigger] crate::evaluator::is_average(&ops, odds, odd)
                        &&& if even@.finite() && odd@.finite() {
                            wf.is_demoted(plain, even, odd, r)
                        } else {
                            r == plain
                        }
                    }
            }
        };
    crate::reproducibility::lemma_average(&ops, values, plain, base);
    crate::exact::lemma_constants();
    let none = Scalar { bits: 0 };
    crate::exact::lemma_value_orders(wf.penalty(), none);
    let p = crate::exact::value(wf.penalty());
    if plain@.finite() {
        if wf.penalty()@.le(crate::scalar::zero()) {
            assert(none@ == crate::scalar::zero());
            let d = crate::exact::magnitude(
                crate::exact::value(first) - crate::exact::value(second),
            );
            assert(p == 0real);
            assert(d * p == 0real) by (nonlinear_arith)
                requires
                    p == 0real,
            ;
        } else {
            let (even, odd) = choose|even: Scalar, odd: Scalar|
                {
                    &&& #[trigger] crate::evaluator::is_average(&ops, evens, even)
                    &&& #[trigger] crate::evaluator::is_average(&ops, odds, odd)
                    &&& if even@.finite() && odd@.finite() {
                        wf.is_demoted(plain, even, odd, r)
                    } else {
                        r == plain
                    }
                };
            crate::reproducibility::lemma_average(&ops, evens, even, first);
            crate::reproducibility::lemma_average(&ops, odds, odd, second);
            if even@.finite() && odd@.finite() {
                let (gap, loss) = choose|gap: Scalar, loss: Scalar|
                    {
                        &&& #[trigger] crate::arithmetic::subtracts(&ops, even, odd, gap)
                        &&& #[trigger] crate::arithmetic::multiplies(
                            &ops,
                            crate::scalar::absolute(gap),
                            wf.penalty(),
                            loss,
                        )
                        &&& match wf.frozen_metric().direction {
                            Direction::Maximize => crate::arithmetic::subtracts(
                                &ops,
                                plain,
                                loss,
                                r,
                            ),
                            Direction::Minimize => crate::arithmetic::adds(&ops, plain, loss, r),
                        }
                    };
                crate::exact::lemma_signs(gap);
            }
        }
    }
}

/// The score of a candidate is the guarded score of all its folds.
pub proof fn law_walk_forward_score<A: Arithmetic, M: Model>(
    wf: WalkForward<A, M>,
    artifact: Artifact,
    r: Scalar,
    folds: Vec<FoldScore>,
    scores: &[FoldScore],
    s: Scalar,
)
    requires
        crate::arithmetic::reproducible(&wf.arithmetic()),
        wf.model() is None,
        wf.window() >= 0,
        wf.reach() >= 0,
        wf.stride() >= 1,
        call_ensures(WalkForward::<A, M>::score, (&wf, &artifact), r) || call_ensures(
            WalkForward::<A, M>::walk_forward_score,
            (&wf, &artifact),
            r,
        ),
        call_ensures(WalkForward::<A, M>::all_fold_scores, (&wf, &artifact), folds),
        scores@ == folds@,
        call_ensures(WalkForward::<A, M>::guarded, (&wf, scores), s),
    ensures
        r@ == s@,
{
    assert(wf.are_fold_scores(artifact@, folds@));
    assert(wf.may_score(artifact@, s));
    assert(wf.may_score(artifact@, r));
    crate::reproducibility::law_walk_forward_is_decisive(wf);
}

/// An artifact is read in order: the knobs of the strategy first, as many as the layout says or as
/// there are; then the smoothing factor of the level, four tenths where it is missing; then that
/// of the trend, one tenth where it is missing.
pub proof fn law_artifacts_are_read_in_order(
    layout: ForecasterSpec,
    artifact: Artifact,
    params: &[Scalar],
    factors: (Scalar, Scalar),
)
    requires
        call_ensures(ForecasterSpec::strategy_params, (&layout, &artifact), params),
        call_ensures(ForecasterSpec::forecaster_knobs, (&layout, &artifact), factors),
    ensures
        params@.len() == (if layout.n_strategy < artifact@.len() {
            layout.n_strategy as int
        } else {
            artifact@.len() as int
        }),
        forall|i: int| 0 <= i < params@.len() ==> #[trigger] params@[i] == artifact@[i],
        layout.n_strategy < artifact@.len() ==> factors.0 == artifact@[layout.n_strategy as int],
        layout.n_strategy >= artifact@.len() ==> factors.0.bits == 0x3FD9_9999_9999_999A,
        layout.n_strategy + 1 < artifact@.len() ==> factors.1 == artifact@[layout.n_strategy + 1],
        layout.n_strategy + 1 >= artifact@.len() ==> factors.1.bits == 0x3FB9_9999_9999_999A,
{
}

/// The forecaster of an artifact is the one made from its two factors.
pub proof fn law_artifact_makes_its_forecaster<'a, A: Arithmetic>(
    layout: ForecasterSpec,
    ops: &'a A,
    artifact: Artifact,
    factors: (Scalar, Scalar),
    one: NativeForecaster<'a, A>,
    two: NativeForecaster<'a, A>,
)
    requires
        call_ensures(ForecasterSpec::forecaster_knobs, (&layout, &artifact), factors),
        call_ensures(ForecasterSpec::build_forecaster::<A>, (&layout, ops, &artifact), one),
        call_ensures(
            crate::timesfm_walkforward::make_forecaster::<A>,
            (ops, layout.kind, factors.0, factors.1),
            two,
        ),
    ensures
        one == two,
{
    lemma_forecasters_are_unique(ops, layout.kind, factors.0, factors.1, one, two);
}

proof fn lemma_forecasters_are_unique<'a, A: Arithmetic>(
    ops: &'a A,
    kind: crate::timesfm_walkforward::ForecasterKind,
    alpha: Scalar,
    beta: Scalar,
    one: NativeForecaster<'a, A>,
    two: NativeForecaster<'a, A>,
)
    requires
        one.fits(ops, kind, alpha, beta),
        two.fits(ops, kind, alpha, beta),
    ensures
        one == two,
{
}

/// The folds of one series: one for every origin, in order, each with the score that the strategy
/// with the artifact's knobs and the artifact's forecaster gets for it.
pub proof fn law_folds_of_a_series<'a, A: Arithmetic>(
    wf: WalkForward<A, NoModel>,
    artifact: Artifact,
    scores: Vec<FoldScore>,
    ops: &'a A,
    native: NativeForecaster<'a, A>,
    params: &[Scalar],
    series: &[Scalar],
    k: int,
    s: Scalar,
)
    requires
        crate::arithmetic::reproducible(&wf.arithmetic()),
        wf.model() is None,
        wf.window() >= 1,
        wf.reach() >= 0,
        wf.stride() >= 1,
        wf.series().len() == 1,
        series@ == wf.series()[0]@,
        ops == wf.arithmetic(),
        call_ensures(WalkForward::<A, NoModel>::all_fold_scores, (&wf, &artifact), scores),
        call_ensures(
            ForecasterSpec::build_forecaster::<A>,
            (&wf.artifact_layout(), ops, &artifact),
            native,
        ),
        call_ensures(
            ForecasterSpec::strategy_params,
            (&wf.artifact_layout(), &artifact),
            params,
        ),
        k >= 0,
        k < scores@.len() ==> call_ensures(
            WalkForward::<A, NoModel>::score_fold::<NativeForecaster<'a, A>>,
            (&wf, series, &native, params, scores@[k].origin),
            s,
        ),
    ensures
        k < scores@.len() <==> wf.window() + k * wf.stride() + wf.reach() <= series@.len(),
        k < scores@.len() ==> scores@[k].origin == wf.window() + k * wf.stride()
            && scores@[k].metric_value == s,
{
    let layout = wf.artifact_layout();
    let other = choose|other: NativeForecaster<A>|
        {
            &&& #[trigger] other.fits(
                &wf.arithmetic(),
                layout.kind,
                layout.alpha(artifact@),
                layout.beta(artifact@),
            )
            &&& wf.are_scores_by(&other, layout.strategy_part(artifact@), scores@)
        };
    lemma_forecasters_are_unique(
        ops,
        layout.kind,
        layout.alpha(artifact@),
        layout.beta(artifact@),
        native,
        other,
    );
    let parts = choose|parts: Seq<Vec<FoldScore>>|
        {
            &&& parts.len() == wf.series().len()
            &&& forall|i: int|
                0 <= i < parts.len() ==> wf.are_series_scores(
                    &native,
                    wf.series()[i]@,
                    params@,
                    (#[trigger] parts[i])@,
                )
            &&& scores@ == #[trigger] crate::timesfm_walkforward::joined(parts)
        };
    assert(wf.are_series_scores(&native, series@, params@, parts[0]@));
    reveal_with_fuel(crate::timesfm_walkforward::joined, 2);
    assert(parts.drop_last().len() == 0);
    assert(scores@ =~= parts[0]@);
    crate::timesfm_walkforward::law_folds_roll(wf, series@, k);
    let stride = wf.stride();
    assert(k * stride >= 0) by (nonlinear_arith)
        requires
            k >= 0,
            stride >= 1,
    ;
    if k < scores@.len() {
        let o = scores@[k].origin as int;
        assert(wf.has_fold(series@, o));
        let seen = wf.in_sample(series@, o);
        let reach = wf.reach() as nat;
        lemma_natives_are_settled(ops, layout.kind, layout.alpha(artifact@), layout.beta(
            artifact@,
        ), native, seen, reach);
        crate::reproducibility::lemma_fold_score(
            wf,
            &native,
            series@,
            series@,
            params@,
            o,
            scores@[k].metric_value,
            s,
        );
    }
}

proof fn lemma_natives_are_settled<'a, A: Arithmetic>(
    ops: &'a A,
    kind: crate::timesfm_walkforward::ForecasterKind,
    alpha: Scalar,
    beta: Scalar,
    native: NativeForecaster<'a, A>,
    seen: Seq<Scalar>,
    reach: nat,
)
    requires
        crate::arithmetic::reproducible(ops),
        native.fits(ops, kind, alpha, beta),
    ensures
        crate::reproducibility::settled(&native, seen, reach),
{
    assert forall|x: Seq<Scalar>, y: Seq<Scalar>| #[trigger]
        native.may_forecast(seen, reach, x) && #[trigger] native.may_forecast(
            seen,
            reach,
            y,
        ) implies x == y by {
        crate::reproducibility::law_native_forecasts_are_reproducible(
            native,
            ops,
            kind,
            alpha,
            beta,
            seen,
            reach,
            x,
            y,
        );
    }
}

proof fn lemma_joined_parts(a: Seq<Vec<FoldScore>>, b: Seq<Vec<FoldScore>>)
    ensures
        crate::timesfm_walkforward::joined(a + b) == crate::timesfm_walkforward::joined(a)
            + crate::timesfm_walkforward::joined(b),
    decreases b.len(),
{
    if b.len() == 0 {
        assert(a + b =~= a);
        assert(crate::timesfm_walkforward::joined(b) =~= Seq::<FoldScore>::empty());
        assert(crate::timesfm_walkforward::joined(a) + crate::timesfm_walkforward::joined(b)
            =~= crate::timesfm_walkforward::joined(a));
    } else {
        lemma_joined_parts(a, b.drop_last());
        assert((a + b).drop_last() =~= a + b.drop_last());
        assert((a + b).last() == b.last());
        assert(crate::timesfm_walkforward::joined(a + b) =~= crate::timesfm_walkforward::joined(a)
            + crate::timesfm_walkforward::joined(b));
    }
}

/// Do two walks differ in their series only?
pub open spec fn same_walk<A: Arithmetic>(
    one: WalkForward<A, NoModel>,
    two: WalkForward<A, NoModel>,
) -> bool {
    &&& one.arithmetic() == two.arithmetic()
    &&& one.kernel() == two.kernel()
    &&& one.prices() == two.prices()
    &&& one.window() == two.window()
    &&& one.reach() == two.reach()
    &&& one.stride() == two.stride()
    &&& one.artifact_layout() == two.artifact_layout()
    &&& one.weight() == two.weight()
    &&& one.model() is None
    &&& two.model() is None
}

proof fn lemma_series_scores_carry_over<A: Arithmetic>(
    one: WalkForward<A, NoModel>,
    two: WalkForward<A, NoModel>,
    forecaster: NativeForecaster<A>,
    series: Seq<Scalar>,
    params: Seq<Scalar>,
    part: Seq<FoldScore>,
)
    requires
        same_walk(one, two),
        one.are_series_scores(&forecaster, series, params, part),
    ensures
        two.are_series_scores(&forecaster, series, params, part),
{
    assert forall|k: int| 0 <= k < part.len() implies {
        &&& (#[trigger] part[k]).origin == two.window() + k * two.stride()
        &&& two.is_fold_score(
            &forecaster,
            series,
            params,
            part[k].origin as int,
            part[k].metric_value,
        )
    } by {
        let o = part[k].origin as int;
        let r = part[k].metric_value;
        assert(one.is_fold_score(&forecaster, series, params, o, r));
        assert(one.has_fold(series, o) == two.has_fold(series, o));
        assert(one.in_sample(series, o) == two.in_sample(series, o));
        assert(one.realized(series, o) == two.realized(series, o));
    }
}

/// The folds of an ensemble are those of its series, one series after the other: the scores over
/// the series of two walks together are the scores of the one, then those of the other.
pub proof fn law_folds_of_an_ensemble<A: Arithmetic>(
    one: WalkForward<A, NoModel>,
    two: WalkForward<A, NoModel>,
    both: WalkForward<A, NoModel>,
    artifact: Artifact,
    r: Vec<FoldScore>,
    s: Vec<FoldScore>,
    t: Vec<FoldScore>,
)
    requires
        crate::arithmetic::reproducible(&one.arithmetic()),
        one.window() >= 0,
        one.reach() >= 0,
        one.stride() >= 1,
        same_walk(one, both),
        same_walk(two, both),
        both.series() == one.series() + two.series(),
        call_ensures(WalkForward::<A, NoModel>::all_fold_scores, (&one, &artifact), r),
        call_ensures(WalkForward::<A, NoModel>::all_fold_scores, (&two, &artifact), s),
        call_ensures(WalkForward::<A, NoModel>::all_fold_scores, (&both, &artifact), t),
    ensures
        t@ == r@ + s@,
{
    let ops = both.arithmetic();
    let layout = both.artifact_layout();
    let params = layout.strategy_part(artifact@);
    let alpha = layout.alpha(artifact@);
    let beta = layout.beta(artifact@);
    let f = choose|f: NativeForecaster<A>| #[trigger]
        f.fits(&ops, layout.kind, alpha, beta) && one.are_scores_by(&f, params, r@);
    let g = choose|g: NativeForecaster<A>| #[trigger]
        g.fits(&ops, layout.kind, alpha, beta) && two.are_scores_by(&g, params, s@);
    let h = choose|h: NativeForecaster<A>| #[trigger]
        h.fits(&ops, layout.kind, alpha, beta) && both.are_scores_by(&h, params, t@);
    lemma_forecasters_are_unique(&ops, layout.kind, alpha, beta, f, h);
    lemma_forecasters_are_unique(&ops, layout.kind, alpha, beta, g, h);
    let a = choose|parts: Seq<Vec<FoldScore>>|
        {
            &&& parts.len() == one.series().len()
            &&& forall|i: int|
                0 <= i < parts.len() ==> one.are_series_scores(
                    &h,
                    one.series()[i]@,
                    params,
                    (#[trigger] parts[i])@,
                )
            &&& r@ == #[trigger] crate::timesfm_walkforward::joined(parts)
        };
    let b = choose|parts: Seq<Vec<FoldScore>>|
        {
            &&& parts.len() == two.series().len()
            &&& forall|i: int|
                0 <= i < parts.len() ==> two.are_series_scores(
                    &h,
                    two.series()[i]@,
                    params,
                    (#[trigger] parts[i])@,
                )
            &&& s@ == #[trigger] crate::timesfm_walkforward::joined(parts)
        };
    let parts = a + b;
    assert forall|i: int| 0 <= i < parts.len() implies both.are_series_scores(
        &h,
        both.series()[i]@,
        params,
        (#[trigger] parts[i])@,
    ) by {
        if i < a.len() {
            assert(one.are_series_scores(&h, one.series()[i]@, params, a[i]@));
            lemma_series_scores_carry_over(one, both, h, one.series()[i]@, params, a[i]@);
        } else {
            let j = i - a.len();
            assert(two.are_series_scores(&h, two.series()[j]@, params, b[j]@));
            lemma_series_scores_carry_over(two, both, h, two.series()[j]@, params, b[j]@);
        }
    }
    lemma_joined_parts(a, b);
    assert(crate::timesfm_walkforward::joined(parts) == r@ + s@);
    assert(both.are_scores_by(&h, params, r@ + s@));
    crate::reproducibility::lemma_scores(
        both,
        h,
        layout.kind,
        alpha,
        beta,
        params,
        t@,
        r@ + s@,
    );
}

/// Setting the weight of the forecast sets it and nothing else.
pub proof fn law_forecast_weight_is_set<A: Arithmetic, M: Model>(
    wf: WalkForward<A, M>,
    w: Scalar,
    r: WalkForward<A, M>,
)
    requires
        call_ensures(WalkForward::<A, M>::with_fc_weight, (wf, w), r),
    ensures
        r.weight() == w,
        r.penalty() == wf.penalty(),
        r.model() == wf.model(),
        r.arithmetic() == wf.arithmetic(),
        r.kernel() == wf.kernel(),
        r.frozen_metric() == wf.frozen_metric(),
        r.series() == wf.series(),
        r.prices() == wf.prices(),
        r.window() == wf.window(),
        r.reach() == wf.reach(),
        r.stride() == wf.stride(),
        r.artifact_layout() == wf.artifact_layout(),
{
}

/// Setting the penalty sets it and nothing else; a negative one, or NaN, counts as zero.
pub proof fn law_penalty_is_set<A: Arithmetic, M: Model>(
    wf: WalkForward<A, M>,
    p: Scalar,
    r: WalkForward<A, M>,
)
    requires
        call_ensures(WalkForward::<A, M>::with_overfit_penalty, (wf, p), r),
    ensures
        p@ is Nan ==> r.penalty()@ == crate::scalar::zero(),
        p@.finite() ==> r.penalty()@.finite() && crate::exact::value(r.penalty())
            == crate::exact::max(crate::exact::value(p), 0real),
        r.weight() == wf.weight(),
        r.model() == wf.model(),
        r.arithmetic() == wf.arithmetic(),
        r.kernel() == wf.kernel(),
        r.frozen_metric() == wf.frozen_metric(),
        r.series() == wf.series(),
        r.prices() == wf.prices(),
        r.window() == wf.window(),
        r.reach() == wf.reach(),
        r.stride() == wf.stride(),
        r.artifact_layout() == wf.artifact_layout(),
{
    let none = Scalar { bits: 0 };
    crate::exact::lemma_constants();
    assert(none@ == crate::scalar::zero());
    if p@.finite() {
        crate::exact::lemma_value_orders(p, none);
    }
}

/// The forecasts of a forecaster without a model are those of what it is made of, and a shared
/// model's are those of the model.
pub proof fn law_wrapped_forecasts<'a, A: Arithmetic, M: Model>(
    native: NativeForecaster<'a, A>,
    shared: ArcForecaster<M>,
    history: Seq<Scalar>,
    horizon: nat,
    points: Seq<Scalar>,
)
    ensures
        native matches NativeForecaster::Naive(f) ==> (native.may_forecast(history, horizon, points)
            <==> f.may_forecast(history, horizon, points)),
        native matches NativeForecaster::Ewma(f) ==> (native.may_forecast(history, horizon, points)
            <==> f.may_forecast(history, horizon, points)),
        native matches NativeForecaster::Holt(f) ==> (native.may_forecast(history, horizon, points)
            <==> f.may_forecast(history, horizon, points)),
        shared.may_forecast(history, horizon, points) <==> shared.0.may_forecast(
            history,
            horizon,
            points,
        ),
{
}

/// With a model, the folds of one series are scored with its forecasts, whatever the artifact
/// says: one for every origin, in order.
pub proof fn law_folds_with_a_model<A: Arithmetic, M: Model>(
    wf: WalkForward<A, M>,
    model: ArcForecaster<M>,
    artifact: Artifact,
    scores: Vec<FoldScore>,
    params: &[Scalar],
    series: &[Scalar],
    k: int,
    s: Scalar,
)
    requires
        crate::arithmetic::reproducible(&wf.arithmetic()),
        wf.model() == Some(model.0),
        wf.window() >= 1,
        wf.reach() >= 0,
        wf.stride() >= 1,
        wf.series().len() == 1,
        series@ == wf.series()[0]@,
        call_ensures(WalkForward::<A, M>::all_fold_scores, (&wf, &artifact), scores),
        call_ensures(
            ForecasterSpec::strategy_params,
            (&wf.artifact_layout(), &artifact),
            params,
        ),
        k >= 0,
        k < scores@.len() ==> {
            let o = scores@[k].origin;
            &&& crate::reproducibility::settled(
                &model,
                series@.subrange(o - wf.window(), o as int),
                wf.reach() as nat,
            )
            &&& call_ensures(
                WalkForward::<A, M>::score_fold::<ArcForecaster<M>>,
                (&wf, series, &model, params, o),
                s,
            )
        },
    ensures
        k < scores@.len() <==> wf.window() + k * wf.stride() + wf.reach() <= series@.len(),
        k < scores@.len() ==> scores@[k].origin == wf.window() + k * wf.stride()
            && scores@[k].metric_value == s,
{
    let parts = choose|parts: Seq<Vec<FoldScore>>|
        {
            &&& parts.len() == wf.series().len()
            &&& forall|i: int|
                0 <= i < parts.len() ==> wf.are_series_scores(
                    &model,
                    wf.series()[i]@,
                    params@,
                    (#[trigger] parts[i])@,
                )
            &&& scores@ == #[trigger] crate::timesfm_walkforward::joined(parts)
        };
    assert(wf.are_series_scores(&model, series@, params@, parts[0]@));
    reveal_with_fuel(crate::timesfm_walkforward::joined, 2);
    assert(parts.drop_last().len() == 0);
    assert(scores@ =~= parts[0]@);
    crate::timesfm_walkforward::law_folds_roll(wf, series@, k);
    let stride = wf.stride();
    assert(k * stride >= 0) by (nonlinear_arith)
        requires
            k >= 0,
            stride >= 1,
    ;
    if k < scores@.len() {
        let o = scores@[k].origin as int;
        assert(wf.has_fold(series@, o));
        crate::reproducibility::lemma_fold_score(
            wf,
            &model,
            series@,
            series@,
            params@,
            o,
            scores@[k].metric_value,
            s,
        );
    }
}

/// A fold whose window or horizon does not fit into the series has no score.
pub proof fn law_fold_outside_the_series<A: Arithmetic, M: Model, F: Forecaster>(
    wf: WalkForward<A, M>,
    series: &[Scalar],
    forecaster: F,
    params: &[Scalar],
    o: usize,
    score: Scalar,
)
    requires
        call_ensures(
            WalkForward::<A, M>::score_fold::<F>,
            (&wf, series, &forecaster, params, o),
            score,
        ),
        o < wf.window() || o + wf.reach() > series@.len(),
    ensures
        score@ is Nan,
{
}

/// A walk over one series is the walk over the ensemble of that series alone.
pub proof fn law_walk_over_one_series<A: Arithmetic>(
    ops: A,
    bt: BtMetric,
    series: Vec<Scalar>,
    are_prices: bool,
    train_len: usize,
    horizon: usize,
    step: usize,
    layout: ForecasterSpec,
    ensemble: Vec<Vec<Scalar>>,
    r: WalkForward<A, NoModel>,
    s: WalkForward<A, NoModel>,
)
    requires
        call_ensures(
            WalkForward::<A, NoModel>::new,
            (ops, bt, series, are_prices, train_len, horizon, step, layout),
            r,
        ),
        ensemble@.len() == 1,
        ensemble@[0] == series,
        call_ensures(
            WalkForward::<A, NoModel>::from_ensemble,
            (ops, bt, ensemble, are_prices, train_len, horizon, step, layout),
            s,
        ),
    ensures
        r.series().len() == 1,
        r.series()[0] == series,
        same_walk(r, s),
        r.penalty() == s.penalty(),
        r.frozen_metric().direction == s.frozen_metric().direction,
        r.frozen_metric().name@ == s.frozen_metric().name@,
{
}

/// A model is attached to a walk that is otherwise the same.
pub proof fn law_model_is_set<A: Arithmetic, M: Model, N: Model>(
    wf: WalkForward<A, M>,
    model: OnnxForecaster<N>,
    r: WalkForward<A, N>,
)
    requires
        call_ensures(WalkForward::<A, M>::with_onnx::<N>, (wf, model), r),
    ensures
        r.model() is Some,
        *(r.model()->0) == model,
        r.weight() == wf.weight(),
        r.penalty() == wf.penalty(),
        r.arithmetic() == wf.arithmetic(),
        r.kernel() == wf.kernel(),
        r.frozen_metric() == wf.frozen_metric(),
        r.series() == wf.series(),
        r.prices() == wf.prices(),
        r.window() == wf.window(),
        r.reach() == wf.reach(),
        r.stride() == wf.stride(),
        r.artifact_layout() == wf.artifact_layout(),
{
}

/// How many origins some series have, together.
pub open spec fn counted(origins: Seq<Vec<usize>>) -> nat
    decreases origins.len(),
{
    if origins.len() == 0 {
        0
    } else {
        counted(origins.drop_last()) + origins.last()@.len()
    }
}

proof fn lemma_counted<A: Arithmetic, M: Model>(
    wf: WalkForward<A, M>,
    origins: Seq<Vec<usize>>,
    n: nat,
)
    requires
        n <= origins.len(),
        origins.len() == wf.series().len(),
        forall|i: int|
            0 <= i < origins.len() ==> #[trigger] origins[i]@.len()
                == crate::timesfm_walkforward::fold_count(
                wf.window(),
                wf.reach(),
                wf.stride(),
                wf.series()[i]@.len() as int,
            ),
    ensures
        counted(origins.take(n as int)) == wf.folds_of(n),
    decreases n,
{
    if n > 0 {
        lemma_counted(wf, origins, (n - 1) as nat);
        assert(origins.take(n as int).drop_last() =~= origins.take(n - 1));
        assert(origins.take(n as int).last() == origins[n - 1]);
    }
}

/// The number of folds of a walk is that of the origins in all its series together.
pub proof fn law_number_of_folds<A: Arithmetic, M: Model>(
    wf: WalkForward<A, M>,
    n: usize,
    lens: Seq<usize>,
    origins: Seq<Vec<usize>>,
)
    requires
        call_ensures(WalkForward::<A, M>::n_folds, (&wf,), n),
        lens.len() == wf.series().len(),
        origins.len() == wf.series().len(),
        forall|i: int| 0 <= i < lens.len() ==> #[trigger] lens[i] == wf.series()[i]@.len(),
        forall|i: int|
            0 <= i < origins.len() ==> call_ensures(
                WalkForward::<A, M>::fold_origins,
                (&wf, lens[i]),
                #[trigger] origins[i],
            ),
    ensures
        n == counted(origins),
{
    assert forall|i: int| 0 <= i < origins.len() implies #[trigger] origins[i]@.len()
        == crate::timesfm_walkforward::fold_count(
        wf.window(),
        wf.reach(),
        wf.stride(),
        wf.series()[i]@.len() as int,
    ) by {
        assert(call_ensures(WalkForward::<A, M>::fold_origins, (&wf, lens[i]), origins[i]));
        assert(lens[i] == wf.series()[i]@.len());
    }
    lemma_counted(wf, origins, origins.len());
    assert(origins.take(origins.len() as int) =~= origins);
}

} // verus!
