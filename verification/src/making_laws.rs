//! What is made holds what it was made of.
use vstd::prelude::*;

use crate::arithmetic::Arithmetic;
use crate::attempt_log::AttemptRow;
use crate::evaluator::{
    Artifact, BtMetric, Evaluator, ScalarEvaluator, SseEvaluator, VectorBtEvaluator,
};
use crate::metric::Metric;
use crate::proposer::{Candidate, LocalProposer, Proposer, VariationProposer};
use crate::scalar::Scalar;
use crate::scenario::MirofishScenarioSource;
use crate::timesfm_walkforward::{
    EwmaForecaster, ForecasterKind, ForecasterSpec, HoltForecaster, Model, OnnxForecaster,
    WalkForward,
};

verus! {

/// A moving average has the factor that was asked for, between a thousandth and one, and three
/// tenths by default.
pub proof fn law_moving_average_is_made<'a, A: Arithmetic>(
    ops: &'a A,
    alpha: Scalar,
    r: EwmaForecaster<'a, A>,
    tenths: Scalar,
    usual: EwmaForecaster<'a, A>,
    same: EwmaForecaster<'a, A>,
)
    requires
        alpha@.finite(),
        call_ensures(EwmaForecaster::<A>::new, (ops, alpha), r),
        tenths.bits == 0x3FD3_3333_3333_3333,
        call_ensures(EwmaForecaster::<A>::standard, (ops,), usual),
        call_ensures(EwmaForecaster::<A>::new, (ops, tenths), same),
    ensures
        r.ops == ops,
        r.alpha@.finite(),
        crate::exact::value(r.alpha) == crate::exact::clamp(
            crate::exact::value(alpha),
            crate::exact::value(Scalar { bits: 0x3F50_624D_D2F1_A9FC }),
            1real,
        ),
        usual == same,
{
    lemma_level_factor(alpha);
}

proof fn lemma_level_factor(alpha: Scalar)
    requires
        alpha@.finite(),
    ensures
        ({
            let r = crate::timesfm_walkforward::level_factor(alpha);
            r@.finite() && crate::exact::value(r) == crate::exact::clamp(
                crate::exact::value(alpha),
                crate::exact::value(Scalar { bits: 0x3F50_624D_D2F1_A9FC }),
                1real,
            )
        }),
{
    let low = Scalar { bits: 0x3F50_624D_D2F1_A9FC };
    let one = Scalar { bits: 0x3FF0_0000_0000_0000 };
    crate::exact::lemma_constants();
    crate::exact::lemma_value_orders(alpha, low);
    crate::exact::lemma_value_orders(one, alpha);
}

/// Double smoothing has the factors that were asked for, that of the level between a thousandth
/// and one and that of the trend between zero and one; four tenths and a tenth by default.
pub proof fn law_double_smoothing_is_made<'a, A: Arithmetic>(
    ops: &'a A,
    alpha: Scalar,
    beta: Scalar,
    r: HoltForecaster<'a, A>,
    tenths: Scalar,
    tenth: Scalar,
    usual: HoltForecaster<'a, A>,
    same: HoltForecaster<'a, A>,
)
    requires
        alpha@.finite(),
        beta@.finite(),
        call_ensures(HoltForecaster::<A>::new, (ops, alpha, beta), r),
        tenths.bits == 0x3FD9_9999_9999_999A,
        tenth.bits == 0x3FB9_9999_9999_999A,
        call_ensures(HoltForecaster::<A>::standard, (ops,), usual),
        call_ensures(HoltForecaster::<A>::new, (ops, tenths, tenth), same),
    ensures
        r.ops == ops,
        r.alpha@.finite(),
        crate::exact::value(r.alpha) == crate::exact::clamp(
            crate::exact::value(alpha),
            crate::exact::value(Scalar { bits: 0x3F50_624D_D2F1_A9FC }),
            1real,
        ),
        r.beta@.finite(),
        crate::exact::value(r.beta) == crate::exact::clamp(crate::exact::value(beta), 0real, 1real),
        usual == same,
{
    lemma_level_factor(alpha);
    let zero = Scalar { bits: 0 };
    let one = Scalar { bits: 0x3FF0_0000_0000_0000 };
    crate::exact::lemma_constants();
    crate::exact::lemma_value_orders(beta, zero);
    crate::exact::lemma_value_orders(one, beta);
}

/// A model's forecaster has the model, the context and the horizon that were asked for, each of
/// one value at least.
pub proof fn law_model_forecaster_is_made<M: Model>(
    model: M,
    context_len: usize,
    horizon: usize,
    r: OnnxForecaster<M>,
)
    requires
        call_ensures(OnnxForecaster::<M>::new, (model, context_len, horizon), r),
    ensures
        r.model == model,
        r.context_len >= 1,
        r.horizon >= 1,
        context_len >= 1 ==> r.context_len == context_len,
        context_len < 1 ==> r.context_len == 1,
        horizon >= 1 ==> r.horizon == horizon,
        horizon < 1 ==> r.horizon == 1,
{
}

/// A layout has the forecaster and the number of strategy knobs that were asked for, one at least;
/// by default two knobs and double smoothing.
pub proof fn law_layout_is_made(
    n: usize,
    kind: ForecasterKind,
    r: ForecasterSpec,
    usual: ForecasterSpec,
)
    requires
        call_ensures(ForecasterSpec::new, (n, kind), r),
        call_ensures(ForecasterSpec::default, (), usual),
    ensures
        r.kind == kind,
        n >= 1 ==> r.n_strategy == n,
        n < 1 ==> r.n_strategy == 1,
        usual.n_strategy == 2,
        usual.kind is Holt,
{
}

/// A local search has the step and the seed that were asked for, between minus ten and ten or the
/// bounds that were asked for.
pub proof fn law_local_search_is_made<A: Arithmetic>(
    ops: A,
    step: Scalar,
    seed: u64,
    p: LocalProposer<A>,
    lo: Scalar,
    hi: Scalar,
    q: LocalProposer<A>,
)
    requires
        call_ensures(LocalProposer::<A>::new, (ops, step, seed), p),
        lo@.le(hi@),
        call_ensures(LocalProposer::<A>::with_bounds, (p, lo, hi), q),
    ensures
        p.arithmetic() == ops,
        p.reach() == step,
        p.seed() == seed,
        p.lower().bits == 0xC024_0000_0000_0000,
        p.upper().bits == 0x4024_0000_0000_0000,
        q.arithmetic() == ops,
        q.reach() == step,
        q.seed() == seed,
        q.lower() == lo,
        q.upper() == hi,
{
}

/// A local proposal tells its step, in three places, and its iteration.
pub proof fn law_local_proposals_tell_their_step<A: Arithmetic>(
    p: LocalProposer<A>,
    baseline: Artifact,
    history: &[AttemptRow],
    n: usize,
    c: Candidate,
    number: String,
) -> (shown: String)
    requires
        call_ensures(LocalProposer::<A>::propose, (&p, &baseline, history, n), c),
        call_ensures(crate::text::decimal, (n as u64,), number),
    ensures
        crate::arithmetic::shows(&p.arithmetic(), p.reach(), shown),
        c.description@ == "local-perturb step="@ + shown@ + " iter="@ + number@,
{
    choose|shown: String| #[trigger]
        crate::arithmetic::shows(&p.arithmetic(), p.reach(), shown) && c.description@
            == "local-perturb step="@ + shown@ + " iter="@ + crate::text::decimal_text(n as nat)
}

/// Variations are proposed in turn and named by their place; without any the baseline is.
pub proof fn law_variations_take_turns(
    variations: Vec<Artifact>,
    p: VariationProposer,
    baseline: Artifact,
    history: &[AttemptRow],
    round: usize,
    turn: usize,
    n: usize,
    c: Candidate,
    number: String,
)
    requires
        call_ensures(VariationProposer::new, (variations,), p),
        call_ensures(VariationProposer::propose, (&p, &baseline, history, n), c),
        variations@.len() > 0 ==> turn < variations@.len() && n == round * variations@.len() + turn,
        call_ensures(crate::text::decimal, (turn as u64,), number),
    ensures
        variations@.len() > 0 ==> c.artifact@ == variations@[turn as int]@ && c.description@
            == "variation["@ + number@ + "]"@,
        variations@.len() == 0 ==> c.artifact@ == baseline@ && c.description@
            == "no-op (empty variation list)"@,
{
    if variations@.len() > 0 {
        let len = variations@.len() as int;
        vstd::arithmetic::div_mod::lemma_fundamental_div_mod_converse(
            n as int,
            len,
            round as int,
            turn as int,
        );
    }
}

/// An evaluator of a function has the function, the metric and the name that were given, and its
/// score is what the function gives.
pub proof fn law_function_is_the_score<F: Fn(&Artifact) -> Scalar + Send + Sync>(
    name: &str,
    metric: Metric,
    f: F,
    r: ScalarEvaluator<F>,
    artifact: Artifact,
    score: Scalar,
) -> (a: Artifact)
    requires
        call_ensures(ScalarEvaluator::<F>::new, (name, metric, f), r),
        call_ensures(ScalarEvaluator::<F>::score, (&r, &artifact), score),
    ensures
        r.frozen_metric() == metric,
        r.label() == name@,
        a@ == artifact@,
        call_ensures(f, (&a,), score),
{
    choose|a: Artifact| a@ == artifact@ && #[trigger] call_ensures(f, (&a,), score)
}

/// The evaluator of the squared error minimizes it against the vector that was given.
pub proof fn law_squared_error_is_minimized<A: Arithmetic>(
    ops: A,
    target: Artifact,
    r: SseEvaluator<A>,
)
    requires
        call_ensures(crate::evaluator::sse_to_target::<A>, (ops, target), r),
    ensures
        r.arithmetic() == ops,
        r.aim() == target@,
        r.frozen_metric().direction is Minimize,
        r.frozen_metric().name@ == "sse"@,
{
}

/// A backtest has the metric and the paths that were given.
pub proof fn law_backtest_is_made<A: Arithmetic>(
    ops: A,
    m: BtMetric,
    scenarios: Vec<Vec<Scalar>>,
    prices: bool,
    r: VectorBtEvaluator<A>,
    scalar: Metric,
)
    requires
        call_ensures(VectorBtEvaluator::<A>::new, (ops, m, scenarios, prices), r),
        call_ensures(BtMetric::metric, (&m,), scalar),
    ensures
        r.arithmetic() == ops,
        r.kernel() == m,
        r.paths() == scenarios@,
        r.prices() == prices,
        r.frozen_metric().name@ == scalar.name@,
        r.frozen_metric().direction == scalar.direction,
        r.frozen_metric().direction is Minimize <==> m is MaxDrawdown || m is Cvar,
{
}

/// Every metric of a series without a step is zero.
pub proof fn law_metrics_of_nothing<A: Arithmetic>(
    ops: &A,
    m: BtMetric,
    xs: &[Scalar],
    r: Scalar,
)
    requires
        crate::exact::exact(ops),
        xs@.len() == 0,
        call_ensures(crate::evaluator::bt_metric_of_path::<A>, (ops, m, xs), r),
    ensures
        r@.finite(),
        crate::exact::value(r) == 0real,
{
    crate::exact::lemma_constants();
    crate::exact::lemma_tiny();
    let none = Scalar { bits: 0 };
    let tiny = Scalar { bits: crate::strategy::TINY };
    crate::exact::lemma_value_orders(none, tiny);
    reveal(Seq::filter);
    assert(crate::evaluator::losses(xs@).len() == 0);
    if m is Sortino {
        let mean = choose|mean: Scalar| #[trigger]
            crate::arithmetic::is_mean(ops, xs@, mean) && r == crate::evaluator::riskless(mean);
        crate::exact::lemma_signs(mean);
    }
    if m is Calmar {
        let (mdd, gain) = choose|mdd: Scalar, gain: Scalar|
            {
                &&& #[trigger] crate::evaluator::is_max_drawdown(ops, xs@, mdd)
                &&& #[trigger] crate::evaluator::is_total_return(ops, xs@, gain)
                &&& if mdd@.le(tiny@) {
                    r == crate::evaluator::riskless(gain)
                } else {
                    crate::arithmetic::divides(ops, gain, mdd, r)
                }
            };
        assert(mdd == none);
        crate::exact::lemma_signs(gain);
    }
}

/// The win rate counts every step with a gain, an infinite one too, and no step that is no number.
pub proof fn law_win_rate_of_any_series<A: Arithmetic>(ops: &A, xs: &[Scalar], r: Scalar)
    requires
        crate::exact::exact(ops),
        xs@.len() > 0,
        call_ensures(crate::evaluator::win_rate::<A>, (ops, xs), r),
    ensures
        r@.finite(),
        crate::exact::value(r) * (xs@.len() as real) == crate::exact::total(
            Seq::new(
                xs@.len(),
                |i: int|
                    if xs@[i]@ is PosInf || (xs@[i]@.finite() && crate::exact::value(xs@[i])
                        > 0real) {
                        1real
                    } else {
                        0real
                    },
            ),
        ),
{
    let won = |x: Scalar| crate::scalar::zero().lt(x@);
    let up = xs@.filter(won);
    assert(up == crate::evaluator::gains(xs@));
    crate::exact::lemma_constants();
    crate::metric_laws::lemma_part(xs@, won, |x: Scalar| 0real);
    assert forall|i: int| 0 <= i < xs@.len() implies won(xs@[i]) == ((#[trigger] xs@[i])@ is PosInf
        || (xs@[i]@.finite() && crate::exact::value(xs@[i]) > 0real)) by {
        if xs@[i]@.finite() {
            crate::exact::lemma_signs(xs@[i]);
        }
    }
    assert(Seq::new(
        xs@.len(),
        |i: int|
            if xs@[i]@ is PosInf || (xs@[i]@.finite() && crate::exact::value(xs@[i]) > 0real) {
                1real
            } else {
                0real
            },
    ) =~= Seq::new(
        xs@.len(),
        |i: int|
            if won(xs@[i]) {
                1real
            } else {
                0real
            },
    ));
}

/// From a price that is none, or next to none, there is no return: it is zero, whatever the next
/// price.
pub proof fn law_no_return_from_no_price<A: Arithmetic>(
    ops: &A,
    path: &[Scalar],
    changes: Vec<Scalar>,
    i: int,
)
    requires
        call_ensures(crate::strategy::to_returns::<A>, (ops, path, true), changes),
        0 <= i < path@.len() - 1,
        path@[i]@ is Nan || (path@[i]@.finite() && crate::exact::magnitude(
            crate::exact::value(path@[i]),
        ) <= crate::exact::value(Scalar { bits: 0x3D71_9799_812D_EA11 })),
    ensures
        changes@[i].bits == 0,
{
    let tiny = Scalar { bits: 0x3D71_9799_812D_EA11 };
    let size = crate::scalar::absolute(path@[i]);
    crate::exact::lemma_tiny();
    if path@[i]@.finite() {
        crate::exact::lemma_signs(path@[i]);
        crate::exact::lemma_value_orders(tiny, size);
    }
    assert(crate::strategy::is_change(ops, path@[i], path@[i + 1], changes@[i]));
}

/// What is asked for beyond all numbers becomes the bound on its side, and what is no number stays
/// so: the smoothing factors.
pub proof fn law_factors_beyond_all_bounds<'a, A: Arithmetic>(
    ops: &'a A,
    alpha: Scalar,
    beta: Scalar,
    average: EwmaForecaster<'a, A>,
    smoothing: HoltForecaster<'a, A>,
)
    requires
        call_ensures(EwmaForecaster::<A>::new, (ops, alpha), average),
        call_ensures(HoltForecaster::<A>::new, (ops, alpha, beta), smoothing),
    ensures
        smoothing.alpha == average.alpha,
        alpha@ is Nan ==> average.alpha == alpha,
        alpha@ is NegInf ==> average.alpha.bits == 0x3F50_624D_D2F1_A9FC,
        alpha@ is PosInf ==> average.alpha.bits == 0x3FF0_0000_0000_0000,
        beta@ is Nan ==> smoothing.beta == beta,
        beta@ is NegInf ==> smoothing.beta.bits == 0,
        beta@ is PosInf ==> smoothing.beta.bits == 0x3FF0_0000_0000_0000,
{
}

/// What is asked for beyond all numbers becomes the bound on its side, and so does what is no
/// number: the start and the volatility of a source, and the penalty of a walk.
pub proof fn law_settings_beyond_all_bounds<A: Arithmetic, M: Model>(
    ops: A,
    x: Scalar,
    drift: Scalar,
    source: MirofishScenarioSource<A>,
    walk: WalkForward<A, M>,
    penalized: WalkForward<A, M>,
)
    requires
        call_ensures(MirofishScenarioSource::<A>::new, (ops, x, drift, x), source),
        call_ensures(WalkForward::<A, M>::with_overfit_penalty, (walk, x), penalized),
    ensures
        x@ is Nan || x@ is NegInf ==> source.start.bits == 0x3E11_2E0B_E826_D695 && source.vol.bits
            == 0 && penalized.penalty().bits == 0,
        x@ is PosInf ==> source.start@ is PosInf && source.vol@ is PosInf && penalized.penalty()@
            is PosInf,
        source.drift == drift,
{
}

} // verus!
