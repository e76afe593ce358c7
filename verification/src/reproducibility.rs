//! What is computed with a reproducible arithmetic is reproducible: every metric, every backtest
//! and every walk forward has one value, and a whole run takes one course.
use vstd::prelude::*;

use crate::arithmetic::Arithmetic;
use crate::attempt_log::{NoopRatchet, Ratchet};
use crate::engine::{IterationResult, Run, StopCondition};
use crate::evaluator::{BtMetric, Evaluator, SseEvaluator, VectorBtEvaluator};
use crate::metric::Direction;
use crate::proposer::{Candidate, LocalProposer};
use crate::scalar::{Scalar, ONE};
use crate::strategy::Overlay;
use crate::timesfm_walkforward::{
    FoldScore, Forecaster, ForecasterKind, HoltForecaster, Model, NativeForecaster,
    WalkForward,
};

verus! {

proof fn lemma_squared_gaps<A: Arithmetic>(
    ops: &A,
    xs: Seq<Scalar>,
    m: Scalar,
    one: Seq<Scalar>,
    two: Seq<Scalar>,
)
    requires
        crate::arithmetic::reproducible(ops),
        crate::evaluator::squared_gaps(ops, xs, m, one),
        crate::evaluator::squared_gaps(ops, xs, m, two),
    ensures
        one == two,
{
    assert forall|i: int| 0 <= i < xs.len() implies one[i] == two[i] by {
        assert(crate::evaluator::squared_gap(ops, xs[i], m, one[i]));
        assert(crate::evaluator::squared_gap(ops, xs[i], m, two[i]));
    }
    assert(one =~= two);
}

proof fn lemma_deviation<A: Arithmetic>(
    ops: &A,
    xs: Seq<Scalar>,
    m: Scalar,
    r: Scalar,
    s: Scalar,
)
    requires
        crate::arithmetic::reproducible(ops),
        crate::evaluator::is_deviation(ops, xs, m, r),
        crate::evaluator::is_deviation(ops, xs, m, s),
    ensures
        r == s,
{
    assert forall|a: Seq<Scalar>, b: Seq<Scalar>|
        #![trigger
            crate::evaluator::squared_gaps(ops, xs, m, a),
            crate::evaluator::squared_gaps(ops, xs, m, b)
        ]
        crate::evaluator::squared_gaps(ops, xs, m, a) && crate::evaluator::squared_gaps(
            ops,
            xs,
            m,
            b,
        ) implies a == b by {
        lemma_squared_gaps(ops, xs, m, a, b);
    }
    assert forall|xs: Seq<Scalar>, a: Scalar, b: Scalar|
        #![trigger crate::arithmetic::is_sum(ops, xs, a), crate::arithmetic::is_sum(ops, xs, b)]
        crate::arithmetic::is_sum(ops, xs, a) && crate::arithmetic::is_sum(
            ops,
            xs,
            b,
        ) implies a == b by {
        crate::arithmetic::lemma_sum_is_unique(ops, xs, a, b);
    }
}

proof fn lemma_sharpe<A: Arithmetic>(ops: &A, xs: Seq<Scalar>, r: Scalar, s: Scalar)
    requires
        crate::arithmetic::reproducible(ops),
        crate::evaluator::is_sharpe(ops, xs, r),
        crate::evaluator::is_sharpe(ops, xs, s),
    ensures
        r == s,
{
    assert forall|a: Scalar, b: Scalar|
        #![trigger crate::arithmetic::is_mean(ops, xs, a), crate::arithmetic::is_mean(ops, xs, b)]
        crate::arithmetic::is_mean(ops, xs, a) && crate::arithmetic::is_mean(
            ops,
            xs,
            b,
        ) implies a == b by {
        crate::arithmetic::lemma_mean_is_unique(ops, xs, a, b);
    }
    assert forall|m: Scalar, a: Scalar, b: Scalar|
        #![trigger
            crate::evaluator::is_deviation(ops, xs, m, a),
            crate::evaluator::is_deviation(ops, xs, m, b)
        ]
        crate::evaluator::is_deviation(ops, xs, m, a) && crate::evaluator::is_deviation(
            ops,
            xs,
            m,
            b,
        ) implies a == b by {
        lemma_deviation(ops, xs, m, a, b);
    }
}

proof fn lemma_root_mean_square<A: Arithmetic>(ops: &A, xs: Seq<Scalar>, r: Scalar, s: Scalar)
    requires
        crate::arithmetic::reproducible(ops),
        crate::evaluator::is_root_mean_square(ops, xs, r),
        crate::evaluator::is_root_mean_square(ops, xs, s),
    ensures
        r == s,
{
    let (a, x) = choose|squares: Seq<Scalar>, average: Scalar|
        {
            &&& crate::evaluator::are_squares(ops, xs, squares)
            &&& #[trigger] crate::arithmetic::is_mean(ops, squares, average)
            &&& crate::arithmetic::extracts(ops, average, r)
        };
    let (b, y) = choose|squares: Seq<Scalar>, average: Scalar|
        {
            &&& crate::evaluator::are_squares(ops, xs, squares)
            &&& #[trigger] crate::arithmetic::is_mean(ops, squares, average)
            &&& crate::arithmetic::extracts(ops, average, s)
        };
    assert forall|i: int| 0 <= i < xs.len() implies a[i] == b[i] by {
        assert(crate::arithmetic::multiplies(ops, xs[i], xs[i], a[i]));
        assert(crate::arithmetic::multiplies(ops, xs[i], xs[i], b[i]));
    }
    assert(a =~= b);
    crate::arithmetic::lemma_mean_is_unique(ops, a, x, y);
}

proof fn lemma_sortino<A: Arithmetic>(ops: &A, xs: Seq<Scalar>, r: Scalar, s: Scalar)
    requires
        crate::arithmetic::reproducible(ops),
        crate::evaluator::is_sortino(ops, xs, r),
        crate::evaluator::is_sortino(ops, xs, s),
    ensures
        r == s,
{
    let down = crate::evaluator::losses(xs);
    assert forall|a: Scalar, b: Scalar|
        #![trigger crate::arithmetic::is_mean(ops, xs, a), crate::arithmetic::is_mean(ops, xs, b)]
        crate::arithmetic::is_mean(ops, xs, a) && crate::arithmetic::is_mean(
            ops,
            xs,
            b,
        ) implies a == b by {
        crate::arithmetic::lemma_mean_is_unique(ops, xs, a, b);
    }
    assert forall|a: Scalar, b: Scalar|
        #![trigger
            crate::evaluator::is_root_mean_square(ops, down, a),
            crate::evaluator::is_root_mean_square(ops, down, b)
        ]
        crate::evaluator::is_root_mean_square(ops, down, a)
            && crate::evaluator::is_root_mean_square(ops, down, b) implies a == b by {
        lemma_root_mean_square(ops, down, a, b);
    }
}

proof fn lemma_curve_entry<A: Arithmetic>(
    ops: &A,
    xs: Seq<Scalar>,
    one: Seq<Scalar>,
    two: Seq<Scalar>,
    i: int,
)
    requires
        crate::arithmetic::reproducible(ops),
        crate::evaluator::is_curve(ops, xs, one),
        crate::evaluator::is_curve(ops, xs, two),
        0 <= i < xs.len(),
    ensures
        one[i] == two[i],
    decreases i,
{
    if i > 0 {
        lemma_curve_entry(ops, xs, one, two, i - 1);
    }
    let before = crate::evaluator::equity_before(one, i);
    assert(before == crate::evaluator::equity_before(two, i));
    assert(crate::evaluator::grows(ops, before, xs[i], one[i]));
    assert(crate::evaluator::grows(ops, before, xs[i], two[i]));
}

proof fn lemma_curve<A: Arithmetic>(
    ops: &A,
    xs: Seq<Scalar>,
    one: Seq<Scalar>,
    two: Seq<Scalar>,
)
    requires
        crate::arithmetic::reproducible(ops),
        crate::evaluator::is_curve(ops, xs, one),
        crate::evaluator::is_curve(ops, xs, two),
    ensures
        one == two,
{
    assert forall|i: int| 0 <= i < xs.len() implies one[i] == two[i] by {
        lemma_curve_entry(ops, xs, one, two, i);
    }
    assert(one =~= two);
}

pub proof fn lemma_total_return<A: Arithmetic>(ops: &A, xs: Seq<Scalar>, r: Scalar, s: Scalar)
    requires
        crate::arithmetic::reproducible(ops),
        crate::evaluator::is_total_return(ops, xs, r),
        crate::evaluator::is_total_return(ops, xs, s),
    ensures
        r == s,
{
    assert forall|a: Seq<Scalar>, b: Seq<Scalar>|
        #![trigger crate::evaluator::is_curve(ops, xs, a), crate::evaluator::is_curve(ops, xs, b)]
        crate::evaluator::is_curve(ops, xs, a) && crate::evaluator::is_curve(
            ops,
            xs,
            b,
        ) implies a == b by {
        lemma_curve(ops, xs, a, b);
    }
}

pub proof fn lemma_max_drawdown<A: Arithmetic>(ops: &A, xs: Seq<Scalar>, r: Scalar, s: Scalar)
    requires
        crate::arithmetic::reproducible(ops),
        crate::evaluator::is_max_drawdown(ops, xs, r),
        crate::evaluator::is_max_drawdown(ops, xs, s),
    ensures
        r == s,
{
    let (a, x) = choose|curve: Seq<Scalar>, drops: Seq<Scalar>|
        {
            &&& crate::evaluator::is_curve(ops, xs, curve)
            &&& #[trigger] crate::evaluator::are_drops(ops, curve, drops)
            &&& r == crate::evaluator::highest(Scalar { bits: 0 }, drops)
        };
    let (b, y) = choose|curve: Seq<Scalar>, drops: Seq<Scalar>|
        {
            &&& crate::evaluator::is_curve(ops, xs, curve)
            &&& #[trigger] crate::evaluator::are_drops(ops, curve, drops)
            &&& s == crate::evaluator::highest(Scalar { bits: 0 }, drops)
        };
    lemma_curve(ops, xs, a, b);
    assert forall|i: int| 0 <= i < a.len() implies x[i] == y[i] by {
        let peak = crate::evaluator::highest(Scalar { bits: ONE }, a.take(i + 1));
        assert(crate::evaluator::falls(ops, peak, a[i], x[i]));
        assert(crate::evaluator::falls(ops, peak, a[i], y[i]));
    }
    assert(x =~= y);
}

proof fn lemma_calmar<A: Arithmetic>(ops: &A, xs: Seq<Scalar>, r: Scalar, s: Scalar)
    requires
        crate::arithmetic::reproducible(ops),
        crate::evaluator::is_calmar(ops, xs, r),
        crate::evaluator::is_calmar(ops, xs, s),
    ensures
        r == s,
{
    assert forall|a: Scalar, b: Scalar|
        #![trigger
            crate::evaluator::is_max_drawdown(ops, xs, a),
            crate::evaluator::is_max_drawdown(ops, xs, b)
        ]
        crate::evaluator::is_max_drawdown(ops, xs, a) && crate::evaluator::is_max_drawdown(
            ops,
            xs,
            b,
        ) implies a == b by {
        lemma_max_drawdown(ops, xs, a, b);
    }
    assert forall|a: Scalar, b: Scalar|
        #![trigger
            crate::evaluator::is_total_return(ops, xs, a),
            crate::evaluator::is_total_return(ops, xs, b)
        ]
        crate::evaluator::is_total_return(ops, xs, a) && crate::evaluator::is_total_return(
            ops,
            xs,
            b,
        ) implies a == b by {
        lemma_total_return(ops, xs, a, b);
    }
}

pub proof fn lemma_ranking_is_complete(
    direction: Direction,
    values: Seq<Scalar>,
    order: Seq<usize>,
    i: int,
)
    requires
        crate::ranking::is_ranking(direction, values, order),
        0 <= i < values.len(),
    ensures
        exists|k: int| 0 <= k < order.len() && #[trigger] order[k] == i,
{
    let places = order.map_values(|x: usize| x as int);
    let all = vstd::set_lib::set_int_range(0, values.len() as int);
    vstd::set_lib::lemma_int_range(0, values.len() as int);
    places.unique_seq_to_set();
    assert(places.to_set().subset_of(all)) by {
        assert forall|x: int| places.to_set().contains(x) implies all.contains(x) by {
            let k = choose|k: int| 0 <= k < places.len() && places[k] == x;
            assert((order[k] as int) < values.len());
        }
    }
    vstd::set_lib::lemma_subset_equality(places.to_set(), all);
    assert(places.to_set().contains(i));
    let k = choose|k: int| 0 <= k < places.len() && places[k] == i;
    assert(order[k] == i);
}

/// A ranking of given values is determined.
pub proof fn law_rankings_are_unique(
    direction: Direction,
    values: Seq<Scalar>,
    one: Seq<usize>,
    two: Seq<usize>,
    k: int,
)
    requires
        crate::ranking::is_ranking(direction, values, one),
        crate::ranking::is_ranking(direction, values, two),
        0 <= k < values.len(),
    ensures
        one[k] == two[k],
    decreases k,
{
    if one[k] != two[k] {
        lemma_ranking_is_complete(direction, values, two, one[k] as int);
        lemma_ranking_is_complete(direction, values, one, two[k] as int);
        let a = choose|a: int| 0 <= a < two.len() && #[trigger] two[a] == one[k];
        let b = choose|b: int| 0 <= b < one.len() && #[trigger] one[b] == two[k];
        if a < k {
            law_rankings_are_unique(direction, values, one, two, a);
        }
        if b < k {
            law_rankings_are_unique(direction, values, one, two, b);
        }
        assert(crate::ranking::precedes(direction, values, one[k] as int, one[b] as int));
        assert(crate::ranking::precedes(direction, values, two[k] as int, two[a] as int));
    }
}

proof fn lemma_cvar<A: Arithmetic>(ops: &A, xs: Seq<Scalar>, r: Scalar, s: Scalar)
    requires
        crate::arithmetic::reproducible(ops),
        crate::evaluator::is_cvar(ops, xs, r),
        crate::evaluator::is_cvar(ops, xs, s),
    ensures
        r == s,
{
    if xs.len() > 0 {
        let (a, x) = choose|tail: Seq<Scalar>, average: Scalar|
            {
                &&& crate::evaluator::is_tail(xs, tail)
                &&& #[trigger] crate::arithmetic::is_mean(ops, tail, average)
                &&& r == crate::scalar::larger(
                    crate::scalar::negated(average),
                    Scalar { bits: 0 },
                )
            };
        let (b, y) = choose|tail: Seq<Scalar>, average: Scalar|
            {
                &&& crate::evaluator::is_tail(xs, tail)
                &&& #[trigger] crate::arithmetic::is_mean(ops, tail, average)
                &&& s == crate::scalar::larger(
                    crate::scalar::negated(average),
                    Scalar { bits: 0 },
                )
            };
        let p = choose|order: Seq<usize>| #[trigger]
            crate::ranking::is_ranking(Direction::Minimize, xs, order) && forall|k: int|
                0 <= k < a.len() ==> #[trigger] a[k] == xs[order[k] as int];
        let q = choose|order: Seq<usize>| #[trigger]
            crate::ranking::is_ranking(Direction::Minimize, xs, order) && forall|k: int|
                0 <= k < b.len() ==> #[trigger] b[k] == xs[order[k] as int];
        assert forall|k: int| 0 <= k < a.len() implies a[k] == b[k] by {
            assert(crate::evaluator::tail_count(xs.len() as int) <= xs.len());
            law_rankings_are_unique(Direction::Minimize, xs, p, q, k);
        }
        assert(a =~= b);
        crate::arithmetic::lemma_mean_is_unique(ops, a, x, y);
    }
}

/// With a reproducible arithmetic every backtest metric of a series has one value.
pub proof fn law_metrics_are_reproducible<A: Arithmetic>(
    ops: &A,
    m: BtMetric,
    series: Seq<Scalar>,
    r: Scalar,
    s: Scalar,
)
    requires
        crate::arithmetic::reproducible(ops),
        crate::evaluator::is_metric(ops, m, series, r),
        crate::evaluator::is_metric(ops, m, series, s),
    ensures
        r == s,
{
    match m {
        BtMetric::Sharpe => lemma_sharpe(ops, series, r, s),
        BtMetric::Sortino => lemma_sortino(ops, series, r, s),
        BtMetric::TotalReturn => lemma_total_return(ops, series, r, s),
        BtMetric::MaxDrawdown => lemma_max_drawdown(ops, series, r, s),
        BtMetric::Calmar => lemma_calmar(ops, series, r, s),
        BtMetric::WinRate => {},
        BtMetric::Cvar => lemma_cvar(ops, series, r, s),
    }
}

pub proof fn lemma_changes<A: Arithmetic>(
    ops: &A,
    path: Seq<Scalar>,
    prices: bool,
    one: Seq<Scalar>,
    two: Seq<Scalar>,
)
    requires
        crate::arithmetic::reproducible(ops),
        crate::strategy::are_changes(ops, path, prices, one),
        crate::strategy::are_changes(ops, path, prices, two),
    ensures
        one == two,
{
    if prices {
        assert forall|i: int| 0 <= i < one.len() implies one[i] == two[i] by {
            assert(crate::strategy::is_change(ops, path[i], path[i + 1], one[i]));
            assert(crate::strategy::is_change(ops, path[i], path[i + 1], two[i]));
        }
        assert(one =~= two);
    }
}

/// Do two overlays say the same?
spec fn alike(a: Option<Overlay>, b: Option<Overlay>) -> bool {
    match (a, b) {
        (None, None) => true,
        (Some(x), Some(y)) => x.headings@ == y.headings@ && x.weight == y.weight,
        _ => false,
    }
}

proof fn lemma_leaning<A: Arithmetic>(
    ops: &A,
    params: Seq<Scalar>,
    prev: Scalar,
    r: Scalar,
    s: Scalar,
)
    requires
        crate::arithmetic::reproducible(ops),
        crate::strategy::is_leaning(ops, params, prev, r),
        crate::strategy::is_leaning(ops, params, prev, s),
    ensures
        r == s,
{
}

proof fn lemma_exposure<A: Arithmetic>(
    ops: &A,
    params: Seq<Scalar>,
    a: Option<Overlay>,
    b: Option<Overlay>,
    i: int,
    prev: Scalar,
    r: Scalar,
    s: Scalar,
)
    requires
        crate::arithmetic::reproducible(ops),
        alike(a, b),
        crate::strategy::is_exposure(ops, params, a, i, prev, r),
        crate::strategy::is_exposure(ops, params, b, i, prev, s),
    ensures
        r == s,
{
    assert forall|x: Scalar, y: Scalar|
        #![trigger
            crate::strategy::is_leaning(ops, params, prev, x),
            crate::strategy::is_leaning(ops, params, prev, y)
        ]
        crate::strategy::is_leaning(ops, params, prev, x) && crate::strategy::is_leaning(
            ops,
            params,
            prev,
            y,
        ) implies x == y by {
        lemma_leaning(ops, params, prev, x, y);
    }
}

proof fn lemma_strategy_returns<A: Arithmetic>(
    ops: &A,
    params: Seq<Scalar>,
    market: Seq<Scalar>,
    a: Option<Overlay>,
    b: Option<Overlay>,
    one: Seq<Scalar>,
    two: Seq<Scalar>,
)
    requires
        crate::arithmetic::reproducible(ops),
        alike(a, b),
        crate::strategy::are_strategy_returns(ops, params, market, a, one),
        crate::strategy::are_strategy_returns(ops, params, market, b, two),
    ensures
        one == two,
{
    assert forall|i: int| 0 <= i < market.len() implies one[i] == two[i] by {
        let prev = crate::strategy::move_before(market, i);
        assert(crate::strategy::earns(ops, params, market, a, i, one[i]));
        assert(crate::strategy::earns(ops, params, market, b, i, two[i]));
        let x = choose|x: Scalar| #[trigger]
            crate::strategy::is_exposure(ops, params, a, i, prev, x)
                && crate::arithmetic::multiplies(ops, x, market[i], one[i]);
        let y = choose|y: Scalar| #[trigger]
            crate::strategy::is_exposure(ops, params, b, i, prev, y)
                && crate::arithmetic::multiplies(ops, y, market[i], two[i]);
        lemma_exposure(ops, params, a, b, i, prev, x, y);
    }
    assert(one =~= two);
}

pub proof fn lemma_path_score<A: Arithmetic>(
    ops: &A,
    bt: BtMetric,
    params: Seq<Scalar>,
    path: Seq<Scalar>,
    prices: bool,
    r: Scalar,
    s: Scalar,
)
    requires
        crate::arithmetic::reproducible(ops),
        crate::evaluator::is_path_score(ops, bt, params, path, prices, r),
        crate::evaluator::is_path_score(ops, bt, params, path, prices, s),
    ensures
        r == s,
{
    let (a, x) = choose|market: Seq<Scalar>, series: Seq<Scalar>|
        {
            &&& crate::strategy::are_changes(ops, path, prices, market)
            &&& #[trigger] crate::strategy::are_strategy_returns(
                ops,
                params,
                market,
                None::<Overlay>,
                series,
            )
            &&& crate::evaluator::is_metric(ops, bt, series, r)
        };
    let (b, y) = choose|market: Seq<Scalar>, series: Seq<Scalar>|
        {
            &&& crate::strategy::are_changes(ops, path, prices, market)
            &&& #[trigger] crate::strategy::are_strategy_returns(
                ops,
                params,
                market,
                None::<Overlay>,
                series,
            )
            &&& crate::evaluator::is_metric(ops, bt, series, s)
        };
    lemma_changes(ops, path, prices, a, b);
    lemma_strategy_returns(ops, params, a, None, None, x, y);
    law_metrics_are_reproducible(ops, bt, x, r, s);
}

pub proof fn lemma_average<A: Arithmetic>(ops: &A, values: Seq<Scalar>, r: Scalar, s: Scalar)
    requires
        crate::arithmetic::reproducible(ops),
        crate::evaluator::is_average(ops, values, r),
        crate::evaluator::is_average(ops, values, s),
    ensures
        r@ == s@,
        r@.finite() ==> r == s,
{
    if crate::evaluator::finite_part(values).len() > 0 {
        crate::arithmetic::lemma_mean_is_unique(
            ops,
            crate::evaluator::finite_part(values),
            r,
            s,
        );
    }
}

/// A backtest with a reproducible arithmetic is decisive: every artifact has one score.
pub proof fn law_backtests_are_decisive<A: Arithmetic>(evaluator: VectorBtEvaluator<A>)
    requires
        crate::arithmetic::reproducible(&evaluator.arithmetic()),
    ensures
        crate::evaluator::decisive(&evaluator),
{
    let ops = evaluator.arithmetic();
    assert forall|artifact: Seq<Scalar>, v: Scalar, w: Scalar| #[trigger]
        evaluator.may_score(artifact, v) && #[trigger] evaluator.may_score(
            artifact,
            w,
        ) implies v@ == w@ by {
        let one = choose|scores: Seq<Scalar>|
            {
                &&& scores.len() == evaluator.paths().len()
                &&& forall|i: int|
                    0 <= i < scores.len() ==> crate::evaluator::is_path_score(
                        &ops,
                        evaluator.kernel(),
                        artifact,
                        evaluator.paths()[i]@,
                        evaluator.prices(),
                        #[trigger] scores[i],
                    )
                &&& #[trigger] crate::evaluator::is_average(&ops, scores, v)
            };
        let two = choose|scores: Seq<Scalar>|
            {
                &&& scores.len() == evaluator.paths().len()
                &&& forall|i: int|
                    0 <= i < scores.len() ==> crate::evaluator::is_path_score(
                        &ops,
                        evaluator.kernel(),
                        artifact,
                        evaluator.paths()[i]@,
                        evaluator.prices(),
                        #[trigger] scores[i],
                    )
                &&& #[trigger] crate::evaluator::is_average(&ops, scores, w)
            };
        assert forall|i: int| 0 <= i < one.len() implies one[i] == two[i] by {
            lemma_path_score(
                &ops,
                evaluator.kernel(),
                artifact,
                evaluator.paths()[i]@,
                evaluator.prices(),
                one[i],
                two[i],
            );
        }
        assert(one =~= two);
        lemma_average(&ops, one, v, w);
    }
}

/// The squared error with a reproducible arithmetic is decisive.
pub proof fn law_squared_errors_are_decisive<A: Arithmetic>(evaluator: SseEvaluator<A>)
    requires
        crate::arithmetic::reproducible(&evaluator.arithmetic()),
    ensures
        crate::evaluator::decisive(&evaluator),
{
    let ops = evaluator.arithmetic();
    let target = evaluator.aim();
    assert forall|artifact: Seq<Scalar>, v: Scalar, w: Scalar| #[trigger]
        evaluator.may_score(artifact, v) && #[trigger] evaluator.may_score(
            artifact,
            w,
        ) implies v@ == w@ by {
        assert forall|a: Seq<Scalar>, b: Seq<Scalar>|
            #![trigger
                crate::evaluator::squared_distances(&ops, artifact, target, a),
                crate::evaluator::squared_distances(&ops, artifact, target, b)
            ]
            crate::evaluator::squared_distances(&ops, artifact, target, a)
                && crate::evaluator::squared_distances(
                &ops,
                artifact,
                target,
                b,
            ) implies a == b by {
            assert forall|i: int| 0 <= i < a.len() implies a[i] == b[i] by {
                assert(crate::evaluator::squared_gap(&ops, artifact[i], target[i], a[i]));
                assert(crate::evaluator::squared_gap(&ops, artifact[i], target[i], b[i]));
            }
            assert(a =~= b);
        }
        assert forall|xs: Seq<Scalar>, a: Scalar, b: Scalar|
            #![trigger crate::arithmetic::is_sum(&ops, xs, a), crate::arithmetic::is_sum(&ops, xs, b)]
            crate::arithmetic::is_sum(&ops, xs, a) && crate::arithmetic::is_sum(
                &ops,
                xs,
                b,
            ) implies a == b by {
            crate::arithmetic::lemma_sum_is_unique(&ops, xs, a, b);
        }
    }
}

proof fn lemma_blend<A: Arithmetic>(
    ops: &A,
    a: Scalar,
    new: Scalar,
    old: Scalar,
    r: Scalar,
    s: Scalar,
)
    requires
        crate::arithmetic::reproducible(ops),
        crate::timesfm_walkforward::blends(ops, a, new, old, r),
        crate::timesfm_walkforward::blends(ops, a, new, old, s),
    ensures
        r == s,
{
}

pub proof fn lemma_level<A: Arithmetic>(
    ops: &A,
    alpha: Scalar,
    series: Seq<Scalar>,
    r: Scalar,
    s: Scalar,
)
    requires
        crate::arithmetic::reproducible(ops),
        crate::timesfm_walkforward::is_level(ops, alpha, series, r),
        crate::timesfm_walkforward::is_level(ops, alpha, series, s),
    ensures
        r == s,
    decreases series.len(),
{
    if series.len() > 1 {
        let a = choose|before: Scalar|
            crate::timesfm_walkforward::is_level(ops, alpha, series.drop_last(), before)
                && #[trigger] crate::timesfm_walkforward::blends(
                ops,
                alpha,
                series.last(),
                before,
                r,
            );
        let b = choose|before: Scalar|
            crate::timesfm_walkforward::is_level(ops, alpha, series.drop_last(), before)
                && #[trigger] crate::timesfm_walkforward::blends(
                ops,
                alpha,
                series.last(),
                before,
                s,
            );
        lemma_level(ops, alpha, series.drop_last(), a, b);
        lemma_blend(ops, alpha, series.last(), a, r, s);
    }
}

proof fn lemma_smooths<A: Arithmetic>(
    ops: &A,
    alpha: Scalar,
    beta: Scalar,
    level: Scalar,
    trend: Scalar,
    x: Scalar,
    l: Scalar,
    t: Scalar,
    m: Scalar,
    u: Scalar,
)
    requires
        crate::arithmetic::reproducible(ops),
        crate::timesfm_walkforward::smooths(ops, alpha, beta, level, trend, x, l, t),
        crate::timesfm_walkforward::smooths(ops, alpha, beta, level, trend, x, m, u),
    ensures
        l == m,
        t == u,
{
    let (p, q) = choose|led: Scalar, rise: Scalar|
        {
            &&& #[trigger] crate::arithmetic::adds(ops, level, trend, led)
            &&& crate::timesfm_walkforward::blends(ops, alpha, x, led, l)
            &&& #[trigger] crate::arithmetic::subtracts(ops, l, level, rise)
            &&& crate::timesfm_walkforward::blends(ops, beta, rise, trend, t)
        };
    let (v, w) = choose|led: Scalar, rise: Scalar|
        {
            &&& #[trigger] crate::arithmetic::adds(ops, level, trend, led)
            &&& crate::timesfm_walkforward::blends(ops, alpha, x, led, m)
            &&& #[trigger] crate::arithmetic::subtracts(ops, m, level, rise)
            &&& crate::timesfm_walkforward::blends(ops, beta, rise, trend, u)
        };
    lemma_blend(ops, alpha, x, p, l, m);
    lemma_blend(ops, beta, q, trend, t, u);
}

pub proof fn lemma_trend<A: Arithmetic>(
    ops: &A,
    alpha: Scalar,
    beta: Scalar,
    first: Scalar,
    slope: Scalar,
    rest: Seq<Scalar>,
    l: Scalar,
    t: Scalar,
    m: Scalar,
    u: Scalar,
)
    requires
        crate::arithmetic::reproducible(ops),
        crate::timesfm_walkforward::is_trend(ops, alpha, beta, first, slope, rest, l, t),
        crate::timesfm_walkforward::is_trend(ops, alpha, beta, first, slope, rest, m, u),
    ensures
        l == m,
        t == u,
    decreases rest.len(),
{
    if rest.len() > 0 {
        let x = rest.last();
        let before = rest.drop_last();
        let (p, q) = choose|p: Scalar, q: Scalar|
            crate::timesfm_walkforward::is_trend(ops, alpha, beta, first, slope, before, p, q)
                && #[trigger] crate::timesfm_walkforward::smooths(
                ops,
                alpha,
                beta,
                p,
                q,
                x,
                l,
                t,
            );
        let (v, w) = choose|v: Scalar, w: Scalar|
            crate::timesfm_walkforward::is_trend(ops, alpha, beta, first, slope, before, v, w)
                && #[trigger] crate::timesfm_walkforward::smooths(
                ops,
                alpha,
                beta,
                v,
                w,
                x,
                m,
                u,
            );
        lemma_trend(ops, alpha, beta, first, slope, before, p, q, v, w);
        lemma_smooths(ops, alpha, beta, p, q, x, l, t, m, u);
    }
}

proof fn lemma_holt<'a, A: Arithmetic>(
    holt: HoltForecaster<'a, A>,
    history: Seq<Scalar>,
    horizon: nat,
    one: Seq<Scalar>,
    two: Seq<Scalar>,
)
    requires
        crate::arithmetic::reproducible(holt.ops),
        holt.may_forecast(history, horizon, one),
        holt.may_forecast(history, horizon, two),
    ensures
        one == two,
{
    if history.len() >= 2 {
        let ops = holt.ops;
        let (a, l, t) = choose|slope: Scalar, level: Scalar, trend: Scalar|
            {
                &&& crate::arithmetic::subtracts(ops, history[1], history[0], slope)
                &&& #[trigger] crate::timesfm_walkforward::is_trend(
                    ops,
                    holt.alpha,
                    holt.beta,
                    history[0],
                    slope,
                    history.skip(1),
                    level,
                    trend,
                )
                &&& holt.are_ahead(level, trend, one)
            };
        let (b, m, u) = choose|slope: Scalar, level: Scalar, trend: Scalar|
            {
                &&& crate::arithmetic::subtracts(ops, history[1], history[0], slope)
                &&& #[trigger] crate::timesfm_walkforward::is_trend(
                    ops,
                    holt.alpha,
                    holt.beta,
                    history[0],
                    slope,
                    history.skip(1),
                    level,
                    trend,
                )
                &&& holt.are_ahead(level, trend, two)
            };
        lemma_trend(ops, holt.alpha, holt.beta, history[0], a, history.skip(1), l, t, m, u);
        assert forall|i: int| 0 <= i < one.len() implies one[i] == two[i] by {
            assert(crate::timesfm_walkforward::is_ahead(ops, l, t, (i + 1) as nat, one[i]));
            assert(crate::timesfm_walkforward::is_ahead(ops, l, t, (i + 1) as nat, two[i]));
        }
        assert(one =~= two);
    }
}

/// A forecaster without a model gives one forecast, with a reproducible arithmetic.
pub proof fn law_native_forecasts_are_reproducible<'a, A: Arithmetic>(
    forecaster: NativeForecaster<'a, A>,
    ops: &A,
    kind: ForecasterKind,
    alpha: Scalar,
    beta: Scalar,
    history: Seq<Scalar>,
    horizon: nat,
    one: Seq<Scalar>,
    two: Seq<Scalar>,
)
    requires
        crate::arithmetic::reproducible(ops),
        forecaster.fits(ops, kind, alpha, beta),
        forecaster.may_forecast(history, horizon, one),
        forecaster.may_forecast(history, horizon, two),
    ensures
        one == two,
{
    match forecaster {
        NativeForecaster::Naive(_) => {},
        NativeForecaster::Ewma(ewma) => {
            if history.len() > 0 {
                let a = choose|level: Scalar| #[trigger]
                    crate::timesfm_walkforward::is_level(ops, ewma.alpha, history, level) && one
                        == crate::timesfm_walkforward::flat(level, horizon);
                let b = choose|level: Scalar| #[trigger]
                    crate::timesfm_walkforward::is_level(ops, ewma.alpha, history, level) && two
                        == crate::timesfm_walkforward::flat(level, horizon);
                lemma_level(ops, ewma.alpha, history, a, b);
            }
        },
        NativeForecaster::Holt(holt) => {
            lemma_holt(holt, history, horizon, one, two);
        },
    }
}

/// Does the forecaster give one forecast of so many points from this history?
pub open spec fn settled<F: Forecaster>(forecaster: &F, history: Seq<Scalar>, horizon: nat) -> bool {
    forall|one: Seq<Scalar>, two: Seq<Scalar>| #[trigger]
        forecaster.may_forecast(history, horizon, one) && #[trigger] forecaster.may_forecast(
            history,
            horizon,
            two,
        ) ==> one == two
}

pub proof fn lemma_fold_score<A: Arithmetic, M: Model, F: Forecaster>(
    wf: WalkForward<A, M>,
    forecaster: &F,
    one: Seq<Scalar>,
    two: Seq<Scalar>,
    params: Seq<Scalar>,
    o: int,
    r: Scalar,
    s: Scalar,
)
    requires
        crate::arithmetic::reproducible(&wf.arithmetic()),
        settled(forecaster, wf.in_sample(one, o), wf.reach() as nat),
        wf.has_fold(one, o),
        wf.has_fold(two, o),
        wf.in_sample(one, o) == wf.in_sample(two, o),
        wf.realized(one, o) == wf.realized(two, o),
        one[o - 1] == two[o - 1],
        wf.is_fold_score(forecaster, one, params, o, r),
        wf.is_fold_score(forecaster, two, params, o, s),
    ensures
        r == s,
{
    let ops = wf.arithmetic();
    let seen = wf.in_sample(one, o);
    let path = wf.realized(one, o);
    let (a, b, c, d) = choose|
        points: Seq<Scalar>,
        market: Seq<Scalar>,
        overlay: Overlay,
        earned: Seq<Scalar>,
    |
        {
            &&& #[trigger] forecaster.may_forecast(seen, wf.reach() as nat, points)
            &&& overlay.headings@ == crate::timesfm_walkforward::headings_of(
                points,
                one[o - 1],
                wf.prices(),
            )
            &&& overlay.weight == wf.weight()
            &&& crate::strategy::are_changes(&ops, path, wf.prices(), market)
            &&& #[trigger] crate::strategy::are_strategy_returns(
                &ops,
                params,
                market,
                Some(overlay),
                earned,
            )
            &&& crate::evaluator::is_metric(&ops, wf.kernel(), earned, r)
        };
    let (w, x, y, z) = choose|
        points: Seq<Scalar>,
        market: Seq<Scalar>,
        overlay: Overlay,
        earned: Seq<Scalar>,
    |
        {
            &&& #[trigger] forecaster.may_forecast(seen, wf.reach() as nat, points)
            &&& overlay.headings@ == crate::timesfm_walkforward::headings_of(
                points,
                two[o - 1],
                wf.prices(),
            )
            &&& overlay.weight == wf.weight()
            &&& crate::strategy::are_changes(&ops, path, wf.prices(), market)
            &&& #[trigger] crate::strategy::are_strategy_returns(
                &ops,
                params,
                market,
                Some(overlay),
                earned,
            )
            &&& crate::evaluator::is_metric(&ops, wf.kernel(), earned, s)
        };
    assert(a == w);
    lemma_changes(&ops, path, wf.prices(), b, x);
    lemma_strategy_returns(&ops, params, b, Some(c), Some(y), d, z);
    law_metrics_are_reproducible(&ops, wf.kernel(), d, r, s);
}

/// A fold's score rests on the fold alone: two series that agree on its window and on the steps
/// after it get the same score for it, whatever they hold elsewhere, where the forecaster gives
/// one forecast and the arithmetic is reproducible. A series that does not have the fold gets
/// NaN.
pub proof fn law_fold_scores_rest_on_the_fold<A: Arithmetic, M: Model, F: Forecaster>(
    wf: WalkForward<A, M>,
    forecaster: &F,
    one: Seq<Scalar>,
    two: Seq<Scalar>,
    params: Seq<Scalar>,
    o: int,
    r: Scalar,
    s: Scalar,
)
    requires
        wf.window() >= 1,
        wf.reach() >= 0,
        crate::arithmetic::reproducible(&wf.arithmetic()),
        settled(forecaster, wf.in_sample(one, o), wf.reach() as nat),
        wf.is_fold_score(forecaster, one, params, o, r),
        wf.is_fold_score(forecaster, two, params, o, s),
    ensures
        wf.has_fold(one, o) && wf.has_fold(two, o) && one.subrange(
            o - wf.window(),
            o + wf.reach(),
        ) == two.subrange(o - wf.window(), o + wf.reach()) ==> r == s,
        !wf.has_fold(one, o) ==> r@ is Nan,
{
    let from = o - wf.window();
    let to = o + wf.reach();
    if wf.has_fold(one, o) && wf.has_fold(two, o) && one.subrange(from, to) == two.subrange(
        from,
        to,
    ) {
        assert forall|i: int| from <= i < to implies one[i] == two[i] by {
            assert(one.subrange(from, to)[i - from] == two.subrange(from, to)[i - from]);
        }
        assert(wf.in_sample(one, o) =~= wf.in_sample(two, o));
        assert(wf.out_of_sample(one, o) =~= wf.out_of_sample(two, o));
        lemma_fold_score(wf, forecaster, one, two, params, o, r, s);
    }
}

proof fn lemma_joined(one: Seq<Vec<FoldScore>>, two: Seq<Vec<FoldScore>>)
    requires
        one.len() == two.len(),
        forall|i: int| 0 <= i < one.len() ==> (#[trigger] one[i])@ == two[i]@,
    ensures
        crate::timesfm_walkforward::joined(one) == crate::timesfm_walkforward::joined(two),
    decreases one.len(),
{
    if one.len() > 0 {
        lemma_joined(one.drop_last(), two.drop_last());
        assert(one.last()@ == two.last()@) by {
            assert(one[one.len() - 1]@ == two[one.len() - 1]@);
        }
    }
}

pub proof fn lemma_scores<A: Arithmetic, M: Model>(
    wf: WalkForward<A, M>,
    forecaster: NativeForecaster<A>,
    kind: ForecasterKind,
    alpha: Scalar,
    beta: Scalar,
    params: Seq<Scalar>,
    one: Seq<FoldScore>,
    two: Seq<FoldScore>,
)
    requires
        crate::arithmetic::reproducible(&wf.arithmetic()),
        wf.window() >= 0,
        wf.reach() >= 0,
        wf.stride() >= 1,
        forecaster.fits(&wf.arithmetic(), kind, alpha, beta),
        wf.are_scores_by(&forecaster, params, one),
        wf.are_scores_by(&forecaster, params, two),
    ensures
        one == two,
{
    let p = choose|parts: Seq<Vec<FoldScore>>|
        {
            &&& parts.len() == wf.series().len()
            &&& forall|i: int|
                0 <= i < parts.len() ==> wf.are_series_scores(
                    &forecaster,
                    wf.series()[i]@,
                    params,
                    (#[trigger] parts[i])@,
                )
            &&& one == #[trigger] crate::timesfm_walkforward::joined(parts)
        };
    let q = choose|parts: Seq<Vec<FoldScore>>|
        {
            &&& parts.len() == wf.series().len()
            &&& forall|i: int|
                0 <= i < parts.len() ==> wf.are_series_scores(
                    &forecaster,
                    wf.series()[i]@,
                    params,
                    (#[trigger] parts[i])@,
                )
            &&& two == #[trigger] crate::timesfm_walkforward::joined(parts)
        };
    assert forall|i: int| 0 <= i < p.len() implies (#[trigger] p[i])@ == q[i]@ by {
        let series = wf.series()[i]@;
        let a = p[i]@;
        let b = q[i]@;
        assert(wf.are_series_scores(&forecaster, series, params, a));
        assert(wf.are_series_scores(&forecaster, series, params, b));
        assert forall|k: int| 0 <= k < a.len() implies a[k] == b[k] by {
            crate::timesfm_walkforward::law_folds_roll(wf, series, k);
            assert(a[k].origin == b[k].origin);
            let o = a[k].origin as int;
            let seen = wf.in_sample(series, o);
            let reach = wf.reach() as nat;
            assert forall|x: Seq<Scalar>, y: Seq<Scalar>| #[trigger]
                forecaster.may_forecast(seen, reach, x) && #[trigger] forecaster.may_forecast(
                    seen,
                    reach,
                    y,
                ) implies x == y by {
                law_native_forecasts_are_reproducible(
                    forecaster,
                    &wf.arithmetic(),
                    kind,
                    alpha,
                    beta,
                    seen,
                    reach,
                    x,
                    y,
                );
            }
            lemma_fold_score(
                wf,
                &forecaster,
                series,
                series,
                params,
                o,
                a[k].metric_value,
                b[k].metric_value,
            );
        }
        assert(a =~= b);
    }
    lemma_joined(p, q);
}

pub proof fn lemma_guarded<A: Arithmetic, M: Model>(
    wf: WalkForward<A, M>,
    scores: Seq<FoldScore>,
    r: Scalar,
    s: Scalar,
)
    requires
        crate::arithmetic::reproducible(&wf.arithmetic()),
        wf.is_guarded(scores, r),
        wf.is_guarded(scores, s),
    ensures
        r@ == s@,
{
    let ops = wf.arithmetic();
    assert forall|values: Seq<Scalar>, a: Scalar, b: Scalar|
        #![trigger
            crate::evaluator::is_average(&ops, values, a),
            crate::evaluator::is_average(&ops, values, b)
        ]
        crate::evaluator::is_average(&ops, values, a) && crate::evaluator::is_average(
            &ops,
            values,
            b,
        ) implies a@ == b@ && (a@.finite() ==> a == b) by {
        lemma_average(&ops, values, a, b);
    }
}

/// A walk forward without a model, with a reproducible arithmetic, is decisive: every artifact
/// has one score.
pub proof fn law_walk_forward_is_decisive<A: Arithmetic, M: Model>(wf: WalkForward<A, M>)
    requires
        crate::arithmetic::reproducible(&wf.arithmetic()),
        wf.model() is None,
        wf.window() >= 0,
        wf.reach() >= 0,
        wf.stride() >= 1,
    ensures
        crate::evaluator::decisive(&wf),
{
    let ops = wf.arithmetic();
    let layout = wf.artifact_layout();
    assert forall|artifact: Seq<Scalar>, v: Scalar, w: Scalar| #[trigger]
        wf.may_score(artifact, v) && #[trigger] wf.may_score(artifact, w) implies v@ == w@ by {
        let params = layout.strategy_part(artifact);
        let alpha = layout.alpha(artifact);
        let beta = layout.beta(artifact);
        let one = choose|scores: Seq<FoldScore>| #[trigger]
            wf.are_fold_scores(artifact, scores) && wf.is_guarded(scores, v);
        let two = choose|scores: Seq<FoldScore>| #[trigger]
            wf.are_fold_scores(artifact, scores) && wf.is_guarded(scores, w);
        let f = choose|native: NativeForecaster<A>|
            {
                &&& #[trigger] native.fits(&ops, layout.kind, alpha, beta)
                &&& wf.are_scores_by(&native, params, one)
            };
        let g = choose|native: NativeForecaster<A>|
            {
                &&& #[trigger] native.fits(&ops, layout.kind, alpha, beta)
                &&& wf.are_scores_by(&native, params, two)
            };
        assert(f == g);
        lemma_scores(wf, f, layout.kind, alpha, beta, params, one, two);
        lemma_guarded(wf, one, v, w);
    }
}

/// Consistent candidates keep their score: where the even and the odd folds have the same average,
/// the guard takes nothing away, with a reproducible arithmetic that rounds faithfully. Without a
/// finite average there is no score.
pub proof fn law_consistent_candidates_keep_their_score<A: Arithmetic, M: Model>(
    wf: WalkForward<A, M>,
    scores: Seq<FoldScore>,
    base: Scalar,
    even: Scalar,
    odd: Scalar,
    r: Scalar,
)
    requires
        crate::arithmetic::reproducible(&wf.arithmetic()),
        crate::arithmetic::faithful(&wf.arithmetic()),
        wf.penalty()@.finite(),
        crate::evaluator::is_average(
            &wf.arithmetic(),
            crate::timesfm_walkforward::values_of(scores),
            base,
        ),
        crate::evaluator::is_average(
            &wf.arithmetic(),
            crate::timesfm_walkforward::half_of(scores, wf.window(), wf.stride(), true),
            even,
        ),
        crate::evaluator::is_average(
            &wf.arithmetic(),
            crate::timesfm_walkforward::half_of(scores, wf.window(), wf.stride(), false),
            odd,
        ),
        even@ == odd@,
        wf.is_guarded(scores, r),
    ensures
        base@.finite() ==> r@ == base@,
        !base@.finite() ==> r@ is Nan,
{
    let ops = wf.arithmetic();
    let values = crate::timesfm_walkforward::values_of(scores);
    let evens = crate::timesfm_walkforward::half_of(scores, wf.window(), wf.stride(), true);
    let odds = crate::timesfm_walkforward::half_of(scores, wf.window(), wf.stride(), false);
    assert forall|b: Scalar| #[trigger] crate::evaluator::is_average(&ops, values, b) implies b@
        == base@ by {
        lemma_average(&ops, values, b, base);
    }
    assert forall|e: Scalar| #[trigger] crate::evaluator::is_average(&ops, evens, e) implies e@
        == even@ by {
        lemma_average(&ops, evens, e, even);
    }
    assert forall|o: Scalar| #[trigger] crate::evaluator::is_average(&ops, odds, o) implies o@
        == odd@ by {
        lemma_average(&ops, odds, o, odd);
    }
    assert forall|b: Scalar, e: Scalar, o: Scalar|
        b@.finite() && e@.finite() && e@ == o@ && #[trigger] wf.is_demoted(b, e, o, r) implies r@
        == b@ by {
        lemma_no_gap_no_loss(wf, b, e, o, r);
    }
}

/// Without a gap nothing is lost.
proof fn lemma_no_gap_no_loss<A: Arithmetic, M: Model>(
    wf: WalkForward<A, M>,
    base: Scalar,
    even: Scalar,
    odd: Scalar,
    r: Scalar,
)
    requires
        crate::arithmetic::faithful(&wf.arithmetic()),
        wf.penalty()@.finite(),
        base@.finite(),
        even@.finite(),
        even@ == odd@,
        wf.is_demoted(base, even, odd, r),
    ensures
        r@ == base@,
{
    let ops = wf.arithmetic();
    let none = Scalar { bits: 0 };
    crate::scalar::lemma_powers_of_two();
    let (gap, loss) = choose|gap: Scalar, loss: Scalar|
        {
            &&& #[trigger] crate::arithmetic::subtracts(&ops, even, odd, gap)
            &&& #[trigger] crate::arithmetic::multiplies(
                &ops,
                crate::scalar::absolute(gap),
                wf.penalty(),
                loss,
            )
            &&& match wf.frozen_metric().direction {
                Direction::Maximize => crate::arithmetic::subtracts(&ops, base, loss, r),
                Direction::Minimize => crate::arithmetic::adds(&ops, base, loss, r),
            }
        };
    assert(crate::arithmetic::rounding(0, 1, gap@));
    assert(none@.le(gap@) && gap@.le(none@));
    let width = crate::scalar::absolute(gap);
    assert(width@ == none@);
    let weight = wf.penalty()@->Finite_0;
    assert(0 * weight == 0) by (nonlinear_arith);
    assert(crate::arithmetic::rounding(0, crate::scalar::one(), loss@));
    assert(none@.le(loss@) && loss@.le(none@));
    assert(crate::arithmetic::rounding(base@->Finite_0, 1, r@));
    assert(base@->Finite_0 * 1 == base@->Finite_0);
    assert(base@.le(r@) && r@.le(base@));
}

/// Are two runs alike as far as their course goes: the same evaluator and the same search, at the
/// same baseline, with the same number of commits and the same history?
pub open spec fn in_step<E: Evaluator, A: Arithmetic>(
    one: Run<E, LocalProposer<A>, NoopRatchet>,
    two: Run<E, LocalProposer<A>, NoopRatchet>,
) -> bool {
    &&& one.evaluator == two.evaluator
    &&& one.proposer == two.proposer
    &&& one.target@ == two.target@
    &&& one.baseline_value@ == two.baseline_value@
    &&& one.ratchet.count() == two.ratchet.count()
    &&& one.ratchet.kept() == two.ratchet.kept()
}

/// Do two iterations tell the same?
pub open spec fn same_result(one: IterationResult, two: IterationResult) -> bool {
    &&& one.iter == two.iter
    &&& one.commit7@ == two.commit7@
    &&& one.metric_value@ == two.metric_value@
    &&& one.baseline_value@ == two.baseline_value@
    &&& one.status == two.status
    &&& one.crashed == two.crashed
    &&& one.description@ == two.description@
}

proof fn lemma_steps_agree<E: Evaluator, A: Arithmetic>(
    one: Run<E, LocalProposer<A>, NoopRatchet>,
    two: Run<E, LocalProposer<A>, NoopRatchet>,
    iter: usize,
    one_after: Run<E, LocalProposer<A>, NoopRatchet>,
    r: IterationResult,
    two_after: Run<E, LocalProposer<A>, NoopRatchet>,
    s: IterationResult,
)
    requires
        crate::evaluator::decisive(&one.evaluator),
        crate::arithmetic::reproducible(&one.proposer.arithmetic()),
        in_step(one, two),
        one.stepped(iter, &one_after, r),
        two.stepped(iter, &two_after, s),
    ensures
        in_step(one_after, two_after),
        same_result(r, s),
{
    let (c, c_mid, c_ok) = choose|c: Candidate, mid: NoopRatchet, ok: bool| #[trigger]
        one.iterated(iter, c, mid, ok, &one_after, r);
    let (d, d_mid, d_ok) = choose|d: Candidate, mid: NoopRatchet, ok: bool| #[trigger]
        two.iterated(iter, d, mid, ok, &two_after, s);
    crate::proposer::law_local_proposals_are_reproducible(
        one.proposer,
        one.target@,
        crate::attempt_log::latest(one.log@, 16),
        crate::attempt_log::latest(two.log@, 16),
        iter as nat,
        c,
        d,
    );
    assert(one.evaluator.may_score(c.artifact@, r.metric_value));
    assert(one.evaluator.may_score(c.artifact@, s.metric_value));
    assert(r.metric_value@ == s.metric_value@);
}

proof fn lemma_traces_agree<E: Evaluator, A: Arithmetic>(
    one: Seq<Run<E, LocalProposer<A>, NoopRatchet>>,
    r: Seq<IterationResult>,
    two: Seq<Run<E, LocalProposer<A>, NoopRatchet>>,
    s: Seq<IterationResult>,
    k: int,
)
    requires
        crate::evaluator::decisive(&one[0].evaluator),
        crate::arithmetic::reproducible(&one[0].proposer.arithmetic()),
        in_step(one[0], two[0]),
        Run::is_trace(one, r),
        Run::is_trace(two, s),
        0 <= k < one.len(),
        k < two.len(),
    ensures
        one[k].evaluator == one[0].evaluator,
        one[k].proposer == one[0].proposer,
        in_step(one[k], two[k]),
        k > 0 ==> same_result(r[k - 1], s[k - 1]),
    decreases k,
{
    if k > 0 {
        lemma_traces_agree(one, r, two, s, k - 1);
        assert(one[k - 1].stepped((k - 1) as usize, &one[k], r[k - 1]));
        assert(two[k - 1].stepped((k - 1) as usize, &two[k], s[k - 1]));
        lemma_steps_agree(
            one[k - 1],
            two[k - 1],
            (k - 1) as usize,
            one[k],
            r[k - 1],
            two[k],
            s[k - 1],
        );
    }
}

proof fn lemma_due_agrees(stop: StopCondition, r: Seq<IterationResult>, s: Seq<IterationResult>)
    requires
        r.len() == s.len(),
        forall|k: int| 0 <= k < r.len() ==> same_result(#[trigger] r[k], s[k]),
    ensures
        crate::engine::stalled(r) == crate::engine::stalled(s),
        crate::engine::due(stop, r) == crate::engine::due(stop, s),
    decreases r.len(),
{
    if r.len() > 0 {
        assert(same_result(r[r.len() - 1], s[r.len() - 1]));
        lemma_due_agrees(stop, r.drop_last(), s.drop_last());
    }
}

/// Whole runs are reproducible: two loops from runs that are alike, with the same stop, take the
/// same number of iterations, tell the same of each, and end alike, at the same artifact and with
/// the same history. The evaluator gives every artifact one value, and the search is a local one
/// over a reproducible arithmetic; what the log held before does not matter.
pub proof fn law_runs_are_reproducible<E: Evaluator, A: Arithmetic>(
    stop: StopCondition,
    one: Run<E, LocalProposer<A>, NoopRatchet>,
    one_trace: Seq<Run<E, LocalProposer<A>, NoopRatchet>>,
    r: Seq<IterationResult>,
    one_after: Run<E, LocalProposer<A>, NoopRatchet>,
    two: Run<E, LocalProposer<A>, NoopRatchet>,
    two_trace: Seq<Run<E, LocalProposer<A>, NoopRatchet>>,
    s: Seq<IterationResult>,
    two_after: Run<E, LocalProposer<A>, NoopRatchet>,
)
    requires
        crate::evaluator::decisive(&one.evaluator),
        crate::arithmetic::reproducible(&one.proposer.arithmetic()),
        in_step(one, two),
        one.looped(one_trace, r, &one_after),
        !crate::engine::due(stop, r),
        forall|k: int| 0 <= k < r.len() ==> crate::engine::due(stop, #[trigger] r.take(k)),
        two.looped(two_trace, s, &two_after),
        !crate::engine::due(stop, s),
        forall|k: int| 0 <= k < s.len() ==> crate::engine::due(stop, #[trigger] s.take(k)),
    ensures
        r.len() == s.len(),
        forall|k: int| 0 <= k < r.len() ==> same_result(#[trigger] r[k], s[k]),
        in_step(one_after, two_after),
{
    assert(in_step(one_trace[0], two_trace[0]));
    let n: int = if r.len() < s.len() {
        r.len() as int
    } else {
        s.len() as int
    };
    assert forall|k: int| 0 <= k < n implies same_result(#[trigger] r[k], s[k]) by {
        lemma_traces_agree(one_trace, r, two_trace, s, k + 1);
    }
    lemma_due_agrees(stop, r.take(n), s.take(n));
    assert(r.take(r.len() as int) == r);
    assert(s.take(s.len() as int) == s);
    lemma_traces_agree(one_trace, r, two_trace, s, n);
}

} // verus!
