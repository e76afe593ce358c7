//! What the forecasters do: how one more value changes a forecast, and what a model is handed.
use vstd::prelude::*;

use crate::arithmetic::Arithmetic;
use crate::scalar::{Scalar, ONE};
use crate::timesfm_walkforward::{
    EwmaForecaster, Forecaster, ForecasterKind, HoltForecaster, Model, NaiveForecaster,
    NativeForecaster, OnnxForecaster,
};

verus! {

/// The random walk forecasts the last value of the history for every step, zero without one.
pub proof fn law_naive_repeats_the_last(
    forecaster: NaiveForecaster,
    history: Seq<Scalar>,
    horizon: nat,
    points: Seq<Scalar>,
)
    requires
        forecaster.may_forecast(history, horizon, points),
    ensures
        points.len() == horizon,
        forall|i: int|
            0 <= i < horizon ==> #[trigger] points[i] == (if history.len() > 0 {
                history[history.len() - 1]
            } else {
                Scalar { bits: 0 }
            }),
{
}

proof fn lemma_blend<A: Arithmetic>(ops: &A, a: Scalar, new: Scalar, old: Scalar, r: Scalar)
    requires
        crate::exact::exact(ops),
        a@.finite(),
        new@.finite(),
        old@.finite(),
        crate::timesfm_walkforward::blends(ops, a, new, old, r),
    ensures
        r@.finite(),
        crate::exact::value(r) == crate::exact::value(a) * crate::exact::value(new) + (1real
            - crate::exact::value(a)) * crate::exact::value(old),
{
    crate::exact::lemma_constants();
}

proof fn lemma_level_is_finite<A: Arithmetic>(
    ops: &A,
    alpha: Scalar,
    series: Seq<Scalar>,
    level: Scalar,
)
    requires
        crate::exact::exact(ops),
        alpha@.finite(),
        crate::exact::all_finite(series),
        series.len() > 0,
        crate::timesfm_walkforward::is_level(ops, alpha, series, level),
    ensures
        level@.finite(),
    decreases series.len(),
{
    if series.len() <= 1 {
        assert(series[0]@.finite());
    } else {
        let before = choose|before: Scalar|
            crate::timesfm_walkforward::is_level(ops, alpha, series.drop_last(), before)
                && #[trigger] crate::timesfm_walkforward::blends(
                ops,
                alpha,
                series.last(),
                before,
                level,
            );
        lemma_level_is_finite(ops, alpha, series.drop_last(), before);
        assert(series[series.len() - 1]@.finite());
        lemma_blend(ops, alpha, series.last(), before, level);
    }
}

/// The moving average of one value is that value.
pub proof fn law_moving_average_begins<'a, A: Arithmetic>(
    forecaster: EwmaForecaster<'a, A>,
    history: Seq<Scalar>,
    horizon: nat,
    points: Seq<Scalar>,
)
    requires
        forecaster.may_forecast(history, horizon, points),
        history.len() <= 1,
    ensures
        points.len() == horizon,
        forall|i: int|
            0 <= i < horizon ==> #[trigger] points[i] == (if history.len() > 0 {
                history[0]
            } else {
                Scalar { bits: 0 }
            }),
{
    if history.len() == 1 {
        let level = choose|level: Scalar| #[trigger]
            crate::timesfm_walkforward::is_level(forecaster.ops, forecaster.alpha, history, level)
                && points == crate::timesfm_walkforward::flat(level, horizon);
        assert(level == history[0]);
    }
}

/// One more value moves the moving average by the factor's share of the way to it: the new
/// forecast is `alpha` times the value plus the rest times the old forecast, for every step.
pub proof fn law_moving_average_follows<'a, A: Arithmetic>(
    forecaster: EwmaForecaster<'a, A>,
    history: Seq<Scalar>,
    horizon: nat,
    points: Seq<Scalar>,
    x: Scalar,
    more: nat,
    next: Seq<Scalar>,
    i: int,
    j: int,
)
    requires
        crate::exact::exact(forecaster.ops),
        crate::arithmetic::reproducible(forecaster.ops),
        forecaster.alpha@.finite(),
        history.len() > 0,
        crate::exact::all_finite(history),
        x@.finite(),
        forecaster.may_forecast(history, horizon, points),
        forecaster.may_forecast(history.push(x), more, next),
        0 <= i < horizon,
        0 <= j < more,
    ensures
        points.len() == horizon,
        next.len() == more,
        next[j]@.finite(),
        crate::exact::value(next[j]) == crate::exact::value(forecaster.alpha)
            * crate::exact::value(x) + (1real - crate::exact::value(forecaster.alpha))
            * crate::exact::value(points[i]),
{
    let ops = forecaster.ops;
    let alpha = forecaster.alpha;
    let old = choose|level: Scalar| #[trigger]
        crate::timesfm_walkforward::is_level(ops, alpha, history, level) && points
            == crate::timesfm_walkforward::flat(level, horizon);
    let longer = history.push(x);
    let new = choose|level: Scalar| #[trigger]
        crate::timesfm_walkforward::is_level(ops, alpha, longer, level) && next
            == crate::timesfm_walkforward::flat(level, more);
    let before = choose|before: Scalar|
        crate::timesfm_walkforward::is_level(ops, alpha, longer.drop_last(), before)
            && #[trigger] crate::timesfm_walkforward::blends(
            ops,
            alpha,
            longer.last(),
            before,
            new,
        );
    assert(longer.drop_last() =~= history);
    crate::reproducibility::lemma_level(ops, alpha, history, before, old);
    lemma_level_is_finite(ops, alpha, history, old);
    lemma_blend(ops, alpha, x, old, new);
}

proof fn lemma_smooths<A: Arithmetic>(
    ops: &A,
    alpha: Scalar,
    beta: Scalar,
    level: Scalar,
    trend: Scalar,
    x: Scalar,
    l: Scalar,
    t: Scalar,
)
    requires
        crate::exact::exact(ops),
        alpha@.finite(),
        beta@.finite(),
        level@.finite(),
        trend@.finite(),
        x@.finite(),
        crate::timesfm_walkforward::smooths(ops, alpha, beta, level, trend, x, l, t),
    ensures
        l@.finite(),
        t@.finite(),
        crate::exact::value(l) == crate::exact::value(alpha) * crate::exact::value(x) + (1real
            - crate::exact::value(alpha)) * (crate::exact::value(level) + crate::exact::value(
            trend,
        )),
        crate::exact::value(t) == crate::exact::value(beta) * (crate::exact::value(l)
            - crate::exact::value(level)) + (1real - crate::exact::value(beta))
            * crate::exact::value(trend),
{
    let (led, rise) = choose|led: Scalar, rise: Scalar|
        {
            &&& #[trigger] crate::arithmetic::adds(ops, level, trend, led)
            &&& crate::timesfm_walkforward::blends(ops, alpha, x, led, l)
            &&& #[trigger] crate::arithmetic::subtracts(ops, l, level, rise)
            &&& crate::timesfm_walkforward::blends(ops, beta, rise, trend, t)
        };
    lemma_blend(ops, alpha, x, led, l);
    lemma_blend(ops, beta, rise, trend, t);
}

proof fn lemma_trend_is_finite<A: Arithmetic>(
    ops: &A,
    alpha: Scalar,
    beta: Scalar,
    first: Scalar,
    slope: Scalar,
    rest: Seq<Scalar>,
    level: Scalar,
    trend: Scalar,
)
    requires
        crate::exact::exact(ops),
        alpha@.finite(),
        beta@.finite(),
        first@.finite(),
        slope@.finite(),
        crate::exact::all_finite(rest),
        crate::timesfm_walkforward::is_trend(ops, alpha, beta, first, slope, rest, level, trend),
    ensures
        level@.finite(),
        trend@.finite(),
        crate::exact::value(beta) == 0real ==> crate::exact::value(trend) == crate::exact::value(
            slope,
        ),
    decreases rest.len(),
{
    if rest.len() > 0 {
        let (l, t) = choose|l: Scalar, t: Scalar|
            crate::timesfm_walkforward::is_trend(
                ops,
                alpha,
                beta,
                first,
                slope,
                rest.drop_last(),
                l,
                t,
            ) && #[trigger] crate::timesfm_walkforward::smooths(
                ops,
                alpha,
                beta,
                l,
                t,
                rest.last(),
                level,
                trend,
            );
        lemma_trend_is_finite(ops, alpha, beta, first, slope, rest.drop_last(), l, t);
        assert(rest[rest.len() - 1]@.finite());
        lemma_smooths(ops, alpha, beta, l, t, rest.last(), level, trend);
        let b = crate::exact::value(beta);
        let d = crate::exact::value(level) - crate::exact::value(l);
        let old = crate::exact::value(t);
        if b == 0real {
            assert(b * d + (1real - b) * old == old) by (nonlinear_arith)
                requires
                    b == 0real,
            ;
        }
    }
}

/// A level and a trend that a forecast lies on.
proof fn lemma_line<'a, A: Arithmetic>(
    forecaster: HoltForecaster<'a, A>,
    history: Seq<Scalar>,
    horizon: nat,
    points: Seq<Scalar>,
) -> (line: (Scalar, Scalar, Scalar))
    requires
        crate::exact::exact(forecaster.ops),
        forecaster.alpha@.finite(),
        forecaster.beta@.finite(),
        history.len() >= 2,
        crate::exact::all_finite(history),
        forecaster.may_forecast(history, horizon, points),
    ensures
        crate::arithmetic::subtracts(forecaster.ops, history[1], history[0], line.2),
        crate::timesfm_walkforward::is_trend(
            forecaster.ops,
            forecaster.alpha,
            forecaster.beta,
            history[0],
            line.2,
            history.skip(1),
            line.0,
            line.1,
        ),
        line.2@.finite(),
        crate::exact::value(line.2) == crate::exact::value(history[1]) - crate::exact::value(
            history[0],
        ),
        line.0@.finite(),
        line.1@.finite(),
        crate::exact::value(forecaster.beta) == 0real ==> crate::exact::value(line.1)
            == crate::exact::value(line.2),
        points.len() == horizon,
        forall|k: int|
            0 <= k < horizon ==> (#[trigger] points[k])@.finite() && crate::exact::value(points[k])
                == crate::exact::value(line.0) + ((k + 1) as real) * crate::exact::value(line.1),
{
    let ops = forecaster.ops;
    let (slope, level, trend) = choose|slope: Scalar, level: Scalar, trend: Scalar|
        {
            &&& crate::arithmetic::subtracts(ops, history[1], history[0], slope)
            &&& #[trigger] crate::timesfm_walkforward::is_trend(
                ops,
                forecaster.alpha,
                forecaster.beta,
                history[0],
                slope,
                history.skip(1),
                level,
                trend,
            )
            &&& forecaster.are_ahead(level, trend, points)
        };
    assert(history[0]@.finite() && history[1]@.finite());
    assert forall|k: int| 0 <= k < history.skip(1).len() implies (#[trigger] history.skip(
        1,
    )[k])@.finite() by {
        assert(history[k + 1]@.finite());
    }
    lemma_trend_is_finite(
        ops,
        forecaster.alpha,
        forecaster.beta,
        history[0],
        slope,
        history.skip(1),
        level,
        trend,
    );
    assert forall|k: int| 0 <= k < horizon implies (#[trigger] points[k])@.finite()
        && crate::exact::value(points[k]) == crate::exact::value(level) + ((k + 1) as real)
        * crate::exact::value(trend) by {
        assert(crate::timesfm_walkforward::is_ahead(
            ops,
            level,
            trend,
            (k + 1) as nat,
            points[k],
        ));
    }
    (level, trend, slope)
}

/// A forecast by double smoothing is a line: every point is the first one plus as many times the
/// first rise as there are steps between them.
pub proof fn law_double_smoothing_forecasts_a_line<'a, A: Arithmetic>(
    forecaster: HoltForecaster<'a, A>,
    history: Seq<Scalar>,
    horizon: nat,
    points: Seq<Scalar>,
    k: int,
)
    requires
        crate::exact::exact(forecaster.ops),
        forecaster.alpha@.finite(),
        forecaster.beta@.finite(),
        history.len() >= 2,
        crate::exact::all_finite(history),
        forecaster.may_forecast(history, horizon, points),
        horizon >= 2,
        0 <= k < horizon,
    ensures
        points.len() == horizon,
        points[k]@.finite(),
        crate::exact::value(points[k]) == crate::exact::value(points[0]) + (k as real) * (
        crate::exact::value(points[1]) - crate::exact::value(points[0])),
{
    let (level, trend, _) = lemma_line(forecaster, history, horizon, points);
    let l = crate::exact::value(level);
    let t = crate::exact::value(trend);
    let x = k as real;
    assert((k + 1) as real == x + 1real);
    assert(points[0]@.finite() && points[1]@.finite() && points[k]@.finite());
    assert(l + (x + 1real) * t == (l + 1real * t) + x * ((l + 2real * t) - (l + 1real * t))) by (
        nonlinear_arith);
}

/// Double smoothing of two values goes on from the second one by their difference; of fewer it
/// repeats the last value, zero without one.
pub proof fn law_double_smoothing_begins<'a, A: Arithmetic>(
    forecaster: HoltForecaster<'a, A>,
    history: Seq<Scalar>,
    horizon: nat,
    points: Seq<Scalar>,
    k: int,
)
    requires
        crate::exact::exact(forecaster.ops),
        forecaster.alpha@.finite(),
        forecaster.beta@.finite(),
        history.len() <= 2,
        crate::exact::all_finite(history),
        forecaster.may_forecast(history, horizon, points),
        0 <= k < horizon,
    ensures
        points.len() == horizon,
        history.len() == 0 ==> points[k] == (Scalar { bits: 0 }),
        history.len() == 1 ==> points[k] == history[0],
        history.len() == 2 ==> crate::exact::value(points[k]) == crate::exact::value(history[1])
            + ((k + 1) as real) * (crate::exact::value(history[1]) - crate::exact::value(
            history[0],
        )),
{
    if history.len() == 2 {
        let (level, trend, slope) = lemma_line(forecaster, history, horizon, points);
        let ops = forecaster.ops;
        let rest = history.skip(1);
        let (l, t) = choose|l: Scalar, t: Scalar|
            crate::timesfm_walkforward::is_trend(
                ops,
                forecaster.alpha,
                forecaster.beta,
                history[0],
                slope,
                rest.drop_last(),
                l,
                t,
            ) && #[trigger] crate::timesfm_walkforward::smooths(
                ops,
                forecaster.alpha,
                forecaster.beta,
                l,
                t,
                rest.last(),
                level,
                trend,
            );
        assert(rest.drop_last().len() == 0);
        assert(history[0]@.finite() && history[1]@.finite());
        lemma_smooths(
            ops,
            forecaster.alpha,
            forecaster.beta,
            l,
            t,
            rest.last(),
            level,
            trend,
        );
        let a = crate::exact::value(forecaster.alpha);
        let b = crate::exact::value(forecaster.beta);
        let x = crate::exact::value(history[0]);
        let y = crate::exact::value(history[1]);
        assert(a * y + (1real - a) * (x + (y - x)) == y) by (nonlinear_arith);
        assert(b * (y - x) + (1real - b) * (y - x) == y - x) by (nonlinear_arith);
    }
}

/// One more value smooths level and trend: the level becomes `alpha` times the value plus the
/// rest times what was forecast for it; the trend becomes `beta` times the level's move plus the
/// rest times the trend so far. Level and trend are those of the line that a forecast lies on.
pub proof fn law_double_smoothing_follows<'a, A: Arithmetic>(
    forecaster: HoltForecaster<'a, A>,
    history: Seq<Scalar>,
    horizon: nat,
    points: Seq<Scalar>,
    x: Scalar,
    more: nat,
    next: Seq<Scalar>,
)
    requires
        crate::exact::exact(forecaster.ops),
        crate::arithmetic::reproducible(forecaster.ops),
        forecaster.alpha@.finite(),
        forecaster.beta@.finite(),
        history.len() >= 2,
        crate::exact::all_finite(history),
        x@.finite(),
        horizon >= 2,
        more >= 2,
        forecaster.may_forecast(history, horizon, points),
        forecaster.may_forecast(history.push(x), more, next),
    ensures
        ({
            let a = crate::exact::value(forecaster.alpha);
            let b = crate::exact::value(forecaster.beta);
            let trend = crate::exact::value(points[1]) - crate::exact::value(points[0]);
            let level = crate::exact::value(points[0]) - trend;
            let new_trend = crate::exact::value(next[1]) - crate::exact::value(next[0]);
            let new_level = crate::exact::value(next[0]) - new_trend;
            &&& new_level == a * crate::exact::value(x) + (1real - a) * crate::exact::value(
                points[0],
            )
            &&& new_trend == b * (new_level - level) + (1real - b) * trend
        }),
{
    let ops = forecaster.ops;
    let longer = history.push(x);
    let (level, trend, slope) = lemma_line(forecaster, history, horizon, points);
    assert forall|k: int| 0 <= k < longer.len() implies (#[trigger] longer[k])@.finite() by {
        if k < history.len() {
            assert(longer[k] == history[k]);
        }
    }
    let (new_level, new_trend, new_slope) = lemma_line(forecaster, longer, more, next);
    assert(longer[0] == history[0] && longer[1] == history[1]);
    assert(new_slope == slope);
    let rest = longer.skip(1);
    let (l, t) = choose|l: Scalar, t: Scalar|
        crate::timesfm_walkforward::is_trend(
            ops,
            forecaster.alpha,
            forecaster.beta,
            longer[0],
            slope,
            rest.drop_last(),
            l,
            t,
        ) && #[trigger] crate::timesfm_walkforward::smooths(
            ops,
            forecaster.alpha,
            forecaster.beta,
            l,
            t,
            rest.last(),
            new_level,
            new_trend,
        );
    assert(rest.drop_last() =~= history.skip(1));
    assert(rest.last() == x);
    crate::reproducibility::lemma_trend(
        ops,
        forecaster.alpha,
        forecaster.beta,
        history[0],
        slope,
        history.skip(1),
        l,
        t,
        level,
        trend,
    );
    lemma_smooths(
        ops,
        forecaster.alpha,
        forecaster.beta,
        level,
        trend,
        x,
        new_level,
        new_trend,
    );
    let lv = crate::exact::value(level);
    let tv = crate::exact::value(trend);
    let nl = crate::exact::value(new_level);
    let nt = crate::exact::value(new_trend);
    assert(points[0]@.finite() && points[1]@.finite());
    assert(next[0]@.finite() && next[1]@.finite());
    assert((0 + 1) as real == 1real && (1 + 1) as real == 2real);
    assert(crate::exact::value(points[0]) == lv + tv);
    assert(crate::exact::value(points[1]) == lv + ((1int + 1) as real) * tv);
    assert(crate::exact::value(points[1]) == lv + 2real * tv);
    assert(crate::exact::value(next[0]) == nl + nt);
    assert(crate::exact::value(next[1]) == nl + ((1int + 1) as real) * nt);
    assert(crate::exact::value(next[1]) == nl + 2real * nt);
}

/// With a trend factor of zero the trend stays the first observed slope, whatever follows: the
/// forecast rises by it from step to step.
pub proof fn law_unsmoothed_trend_stays<'a, A: Arithmetic>(
    forecaster: HoltForecaster<'a, A>,
    history: Seq<Scalar>,
    horizon: nat,
    points: Seq<Scalar>,
)
    requires
        crate::exact::exact(forecaster.ops),
        forecaster.alpha@.finite(),
        forecaster.beta@ == crate::scalar::zero(),
        history.len() >= 2,
        crate::exact::all_finite(history),
        horizon >= 2,
        forecaster.may_forecast(history, horizon, points),
    ensures
        crate::exact::value(points[1]) - crate::exact::value(points[0]) == crate::exact::value(
            history[1],
        ) - crate::exact::value(history[0]),
{
    crate::exact::lemma_constants();
    crate::exact::lemma_value_orders(forecaster.beta, Scalar { bits: 0 });
    let (level, trend, slope) = lemma_line(forecaster, history, horizon, points);
    let lv = crate::exact::value(level);
    let tv = crate::exact::value(trend);
    assert(points[0]@.finite() && points[1]@.finite());
    assert((0 + 1) as real == 1real && (1 + 1) as real == 2real);
    assert(crate::exact::value(points[0]) == lv + ((0int + 1) as real) * tv);
    assert(crate::exact::value(points[0]) == lv + tv);
    assert(crate::exact::value(points[1]) == lv + ((1int + 1) as real) * tv);
    assert(crate::exact::value(points[1]) == lv + 2real * tv);
}

/// A forecaster is made with the kind and the factors that were asked for: the smoothing factor
/// of a level lies between a thousandth and one, that of a trend between zero and one, and each
/// is what was asked for where that does.
pub proof fn law_forecasters_are_made_as_asked<'a, A: Arithmetic>(
    ops: &'a A,
    kind: ForecasterKind,
    alpha: Scalar,
    beta: Scalar,
    r: NativeForecaster<'a, A>,
)
    requires
        alpha@.finite(),
        beta@.finite(),
        call_ensures(
            crate::timesfm_walkforward::make_forecaster::<A>,
            (ops, kind, alpha, beta),
            r,
        ),
    ensures
        kind is Naive ==> r is Naive,
        kind is Ewma ==> (r matches NativeForecaster::Ewma(f) && f.ops == ops && f.alpha@.finite()
            && crate::exact::value(f.alpha) == crate::exact::clamp(
            crate::exact::value(alpha),
            crate::exact::value(Scalar { bits: 0x3F50_624D_D2F1_A9FC }),
            1real,
        )),
        kind is Holt || kind is TimesFmOnnx ==> (r matches NativeForecaster::Holt(f) && f.ops
            == ops && f.alpha@.finite() && f.beta@.finite() && crate::exact::value(f.alpha)
            == crate::exact::clamp(
            crate::exact::value(alpha),
            crate::exact::value(Scalar { bits: 0x3F50_624D_D2F1_A9FC }),
            1real,
        ) && crate::exact::value(f.beta) == crate::exact::clamp(
            crate::exact::value(beta),
            0real,
            1real,
        )),
{
    let slowest = Scalar { bits: 0x3F50_624D_D2F1_A9FC };
    let one = Scalar { bits: ONE };
    let none = Scalar { bits: 0 };
    crate::exact::lemma_constants();
    assert(slowest@.finite());
    crate::exact::lemma_value_orders(alpha, slowest);
    crate::exact::lemma_value_orders(one, alpha);
    crate::exact::lemma_value_orders(beta, none);
    crate::exact::lemma_value_orders(one, beta);
}

/// A model is handed the last values of the history, as many as its context holds, after copies of
/// the first one where there are fewer; and the forecast is what it gave, up to its own horizon,
/// then the last point that it gave. Where it gives nothing the last value of the history is
/// repeated.
pub proof fn law_model_forecasts<M: Model>(
    forecaster: OnnxForecaster<M>,
    history: Seq<Scalar>,
    horizon: nat,
    points: Seq<Scalar>,
)
    requires
        forecaster.may_forecast(history, horizon, points),
        history.len() > 0,
    ensures
        points.len() == horizon,
        exists|context: Vec<Scalar>, out: Option<Vec<Scalar>>|
            {
                &&& #[trigger] call_ensures(M::run, (&forecaster.model, &context), out)
                &&& context@.len() == forecaster.context_len
                &&& forall|i: int|
                    1 <= i <= context@.len() && i <= history.len() ==> #[trigger] context@[
                        context@.len() - i] == history[history.len() - i]
                &&& forall|i: int|
                    0 <= i < context@.len() - history.len() ==> #[trigger] context@[i]
                        == history[0]
                &&& out matches Some(v) ==> v@.len() > 0 ==> forall|i: int|
                    0 <= i < horizon ==> #[trigger] points[i] == (if i < v@.len() && i
                        < forecaster.horizon {
                        v@[i]
                    } else {
                        v@[v@.len() - 1]
                    })
                &&& out matches Some(v) ==> v@.len() == 0 ==> forall|i: int|
                    0 <= i < horizon ==> #[trigger] points[i] == (Scalar { bits: 0 })
                &&& out is None ==> forall|i: int|
                    0 <= i < horizon ==> #[trigger] points[i] == history[history.len() - 1]
            },
{
    let (context, out) = choose|context: Vec<Scalar>, out: Option<Vec<Scalar>>|
        {
            &&& context@ == crate::timesfm_walkforward::context_of(
                history,
                forecaster.context_len as nat,
            )
            &&& #[trigger] call_ensures(M::run, (&forecaster.model, &context), out)
            &&& match out {
                Some(v) => points == crate::timesfm_walkforward::resized(
                    crate::timesfm_walkforward::resized(
                        v@,
                        forecaster.horizon as nat,
                        crate::timesfm_walkforward::last_or_zero(v@),
                    ),
                    horizon,
                    crate::timesfm_walkforward::last_or_zero(v@),
                ),
                None => points == crate::timesfm_walkforward::flat(
                    crate::timesfm_walkforward::last_or_zero(history),
                    horizon,
                ),
            }
        };
    assert(call_ensures(M::run, (&forecaster.model, &context), out));
}

} // verus!
