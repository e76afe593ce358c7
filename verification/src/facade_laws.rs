//! What the one-call runs do: they are the loop over what was asked for, and nothing else.
use vstd::prelude::*;

use crate::arithmetic::Arithmetic;
use crate::attempt_log::{AttemptRow, NoopRatchet, Ratchet};
use crate::cli::{WalkForwardPlan, Windows};
use crate::engine::{IterationResult, Run, SwarmMode, SwarmResult, SweepResult};
use crate::evaluator::{Artifact, BtMetric, Evaluator, SseEvaluator, VectorBtEvaluator};
use crate::facade::{Market, Report};
use crate::proposer::{Candidate, LocalProposer, Proposer};
use crate::scalar::Scalar;
use crate::scenario::{MirofishScenarioSource, ScenarioSource};
use crate::timesfm_walkforward::{ForecasterKind, ForecasterSpec, NoModel, WalkForward};

verus! {

/// The metric of returns by its name is the metric that the name reads as.
pub proof fn law_metric_by_name<A: Arithmetic>(
    ops: &A,
    series: &[Scalar],
    name: &str,
    r: Scalar,
    m: BtMetric,
    s: Scalar,
)
    requires
        crate::arithmetic::reproducible(ops),
        call_ensures(crate::facade::backtest_metric::<A>, (ops, series, name), r),
        call_ensures(BtMetric::from_str, (name,), m),
        call_ensures(crate::evaluator::bt_metric_of_path::<A>, (ops, m, series), s),
    ensures
        r == s,
{
    crate::reproducibility::law_metrics_are_reproducible(ops, m, series@, r, s);
}

/// Do two backtests run on the same paths, with the same metric and the same arithmetic?
pub open spec fn same_backtest<A: Arithmetic>(
    one: VectorBtEvaluator<A>,
    two: VectorBtEvaluator<A>,
) -> bool {
    &&& one.arithmetic() == two.arithmetic()
    &&& one.kernel() == two.kernel()
    &&& one.prices() == two.prices()
    &&& one.paths().len() == two.paths().len()
    &&& forall|i: int|
        0 <= i < one.paths().len() ==> (#[trigger] one.paths()[i])@ == two.paths()[i]@
}

proof fn lemma_backtests_agree<A: Arithmetic>(
    one: VectorBtEvaluator<A>,
    two: VectorBtEvaluator<A>,
    artifact: Seq<Scalar>,
    v: Scalar,
)
    requires
        same_backtest(one, two),
        one.may_score(artifact, v),
    ensures
        two.may_score(artifact, v),
{
    let scores = choose|scores: Seq<Scalar>|
        {
            &&& scores.len() == one.paths().len()
            &&& forall|i: int|
                0 <= i < scores.len() ==> crate::evaluator::is_path_score(
                    &one.arithmetic(),
                    one.kernel(),
                    artifact,
                    one.paths()[i]@,
                    one.prices(),
                    #[trigger] scores[i],
                )
            &&& #[trigger] crate::evaluator::is_average(&one.arithmetic(), scores, v)
        };
    assert forall|i: int| 0 <= i < scores.len() implies crate::evaluator::is_path_score(
        &two.arithmetic(),
        two.kernel(),
        artifact,
        two.paths()[i]@,
        two.prices(),
        #[trigger] scores[i],
    ) by {
        assert(one.paths()[i]@ == two.paths()[i]@);
    }
    assert(crate::evaluator::is_average(&two.arithmetic(), scores, v));
}

/// The metric of an ensemble by its name is the score of the strategy that is fully long on it.
pub proof fn law_evaluate_scenarios<A: Arithmetic + Copy>(
    ops: A,
    scenarios: Vec<Vec<Scalar>>,
    name: &str,
    paths_are_prices: bool,
    r: Scalar,
    m: BtMetric,
    evaluator: VectorBtEvaluator<A>,
    long: Artifact,
    s: Scalar,
)
    requires
        crate::arithmetic::reproducible(&ops),
        call_ensures(
            crate::facade::evaluate_scenarios::<A>,
            (ops, scenarios, name, paths_are_prices),
            r,
        ),
        call_ensures(BtMetric::from_str, (name,), m),
        call_ensures(
            VectorBtEvaluator::<A>::new,
            (ops, m, scenarios, paths_are_prices),
            evaluator,
        ),
        long@.len() == 2,
        long@[0].bits == 0x3FF0_0000_0000_0000,
        long@[1].bits == 0,
        call_ensures(VectorBtEvaluator::<A>::score, (&evaluator, &long), s),
    ensures
        r@ == s@,
{
    let knobs = crate::facade::two_knobs(
        Scalar { bits: crate::scalar::ONE },
        Scalar { bits: 0 },
    );
    let other = choose|other: VectorBtEvaluator<A>|
        {
            &&& other.arithmetic() == ops
            &&& other.kernel() == m
            &&& other.paths() == scenarios@
            &&& other.prices() == paths_are_prices
            &&& #[trigger] other.may_score(knobs, r)
        };
    lemma_backtests_agree(other, evaluator, knobs, r);
    assert(long@ =~= knobs);
    crate::reproducibility::law_backtests_are_decisive(evaluator);
    assert(evaluator.may_score(knobs, s));
}

/// Two backtests over one market are the same.
proof fn lemma_same_market<A: Arithmetic>(
    market: Market,
    ops: A,
    seed: u64,
    one: VectorBtEvaluator<A>,
    two: VectorBtEvaluator<A>,
)
    requires
        crate::arithmetic::reproducible(&ops),
        one.arithmetic() == ops,
        two.arithmetic() == ops,
        one.kernel() == two.kernel(),
        one.prices(),
        two.prices(),
        market.may_roll(ops, seed, one.paths()),
        market.may_roll(ops, seed, two.paths()),
    ensures
        same_backtest(one, two),
{
    let source = MirofishScenarioSource {
        ops,
        start: crate::scalar::larger(market.start, Scalar { bits: crate::scenario::FLOOR }),
        drift: market.drift,
        vol: crate::scalar::larger(market.vol, Scalar { bits: 0 }),
    };
    assert forall|i: int| 0 <= i < one.paths().len() implies (#[trigger] one.paths()[i])@
        == two.paths()[i]@ by {
        crate::scenario::law_rollouts_are_reproducible(
            source,
            market.n_scenarios as nat,
            market.horizon as nat,
            seed,
            one.paths(),
            two.paths(),
            i,
        );
    }
}

/// Do two sweeps tell the same, entry by entry?
pub open spec fn same_ranking(one: Seq<SweepResult>, two: Seq<SweepResult>) -> bool {
    &&& one.len() == two.len()
    &&& forall|k: int|
        0 <= k < one.len() ==> {
            &&& (#[trigger] one[k]).index == two[k].index
            &&& one[k].artifact@ == two[k].artifact@
            &&& one[k].metric_value@ == two[k].metric_value@
            &&& one[k].description@ == two[k].description@
        }
}

proof fn lemma_sweeps_carry_over<A: Arithmetic>(
    one: VectorBtEvaluator<A>,
    two: VectorBtEvaluator<A>,
    a: Seq<Candidate>,
    b: Seq<Candidate>,
    ranked: Seq<SweepResult>,
)
    requires
        same_backtest(one, two),
        one.frozen_metric().direction == two.frozen_metric().direction,
        a.len() == b.len(),
        forall|k: int|
            0 <= k < a.len() ==> (#[trigger] a[k]).artifact@ == b[k].artifact@ && a[k].description@
                == b[k].description@,
        crate::engine::swept(&one, a, ranked),
    ensures
        crate::engine::swept(&two, b, ranked),
{
    assert forall|k: int| 0 <= k < ranked.len() implies (#[trigger] ranked[k]).stands_for(
        &two,
        b,
    ) by {
        assert(ranked[k].stands_for(&one, a));
        assert(a[ranked[k].index as int].artifact@ == b[ranked[k].index as int].artifact@);
        lemma_backtests_agree(one, two, ranked[k].artifact@, ranked[k].metric_value);
    }
}

/// The sweep of a market is the swarm of subagents around a flat strategy, over the backtest of
/// that market: proposals by the step and the seed that were given, each knob between minus three
/// and three.
pub proof fn law_sweep_backtest<A: Arithmetic + Copy>(
    ops: A,
    market: Market,
    name: &str,
    n: usize,
    step: Scalar,
    seed: u64,
    r: SwarmResult,
    m: BtMetric,
    evaluator: VectorBtEvaluator<A>,
    proposer: LocalProposer<A>,
    flat: Artifact,
    history: &[AttemptRow],
    s: SwarmResult,
)
    requires
        crate::arithmetic::reproducible(&ops),
        call_ensures(
            crate::facade::sweep_backtest::<A>,
            (ops, &market, name, n, step, seed),
            r,
        ),
        call_ensures(BtMetric::from_str, (name,), m),
        call_ensures(Market::backtest::<A>, (&market, ops, m, seed), evaluator),
        proposer.arithmetic() == ops,
        proposer.reach() == step,
        proposer.seed() == seed,
        proposer.lower().bits == 0xC008_0000_0000_0000,
        proposer.upper().bits == 0x4008_0000_0000_0000,
        flat@.len() == 2,
        flat@[0].bits == 0,
        flat@[1].bits == 0,
        history@.len() == 0,
        call_ensures(
            crate::engine::spawn_swarm::<VectorBtEvaluator<A>, LocalProposer<A>>,
            (&evaluator, &proposer, &flat, n, SwarmMode::Subagent, history),
            s,
        ),
    ensures
        r.mode_subagent == s.mode_subagent,
        same_ranking(r.ranked@, s.ranked@),
{
    let knobs = crate::facade::two_knobs(Scalar { bits: 0 }, Scalar { bits: 0 });
    assert(flat@ =~= knobs);
    assert(history@ =~= Seq::<AttemptRow>::empty());
    let size = crate::engine::swarm_size(SwarmMode::Subagent, n as nat);
    let (other, searcher) = choose|other: VectorBtEvaluator<A>, searcher: LocalProposer<A>|
        {
            &&& other.arithmetic() == ops
            &&& other.kernel() == m
            &&& other.prices()
            &&& market.may_roll(ops, seed, other.paths())
            &&& other.frozen_metric().direction == m.heading()
            &&& crate::facade::searches(&searcher, ops, step, seed, crate::facade::THREE)
            &&& #[trigger] crate::engine::explored(
                &other,
                &searcher,
                knobs,
                size,
                Seq::empty(),
                r.ranked@,
            )
        };
    crate::proposer::lemma_same_search(proposer, searcher);
    lemma_same_market(market, ops, seed, other, evaluator);
    let a = choose|a: Seq<Candidate>|
        {
            &&& a.len() == size
            &&& forall|k: int|
                0 <= k < size ==> searcher.may_propose(
                    knobs,
                    Seq::empty(),
                    k as nat,
                    #[trigger] a[k],
                )
            &&& #[trigger] crate::engine::swept(&other, a, r.ranked@)
        };
    let b = choose|b: Seq<Candidate>|
        {
            &&& b.len() == size
            &&& forall|k: int|
                0 <= k < size ==> proposer.may_propose(
                    knobs,
                    Seq::empty(),
                    k as nat,
                    #[trigger] b[k],
                )
            &&& #[trigger] crate::engine::swept(&evaluator, b, s.ranked@)
        };
    assert forall|k: int| 0 <= k < a.len() implies (#[trigger] a[k]).artifact@ == b[k].artifact@
        && a[k].description@ == b[k].description@ by {
        crate::proposer::law_local_proposals_are_reproducible(
            proposer,
            knobs,
            Seq::empty(),
            Seq::empty(),
            k as nat,
            a[k],
            b[k],
        );
    }
    lemma_sweeps_carry_over(other, evaluator, a, b, r.ranked@);
    crate::reproducibility::law_backtests_are_decisive(evaluator);
    assert forall|k: int| 0 <= k < r.ranked@.len() implies ({
        &&& (#[trigger] r.ranked@[k]).index == s.ranked@[k].index
        &&& r.ranked@[k].artifact@ == s.ranked@[k].artifact@
        &&& r.ranked@[k].metric_value@ == s.ranked@[k].metric_value@
        &&& r.ranked@[k].description@ == s.ranked@[k].description@
    }) by {
        crate::engine::law_sweep_is_deterministic(&evaluator, b, r.ranked@, s.ranked@, k);
    }
}

/// Are two runs alike as far as their course goes: evaluators that give an artifact one value
/// between them, the same search, at the same baseline, with the same commits and history?
pub open spec fn alike<E: Evaluator, A: Arithmetic>(
    one: Run<E, LocalProposer<A>, NoopRatchet>,
    two: Run<E, LocalProposer<A>, NoopRatchet>,
) -> bool {
    &&& forall|a: Seq<Scalar>, v: Scalar, w: Scalar| #[trigger]
        one.evaluator.may_score(a, v) && #[trigger] two.evaluator.may_score(a, w) ==> v@ == w@
    &&& one.evaluator.frozen_metric().direction == two.evaluator.frozen_metric().direction
    &&& one.proposer == two.proposer
    &&& one.target@ == two.target@
    &&& one.baseline_value@ == two.baseline_value@
    &&& one.ratchet.count() == two.ratchet.count()
    &&& one.ratchet.kept() == two.ratchet.kept()
}

proof fn lemma_steps_agree<E: Evaluator, A: Arithmetic>(
    one: Run<E, LocalProposer<A>, NoopRatchet>,
    two: Run<E, LocalProposer<A>, NoopRatchet>,
    iter: usize,
    one_after: Run<E, LocalProposer<A>, NoopRatchet>,
    r: IterationResult,
    two_after: Run<E, LocalProposer<A>, NoopRatchet>,
    s: IterationResult,
)
    requires
        crate::arithmetic::reproducible(&one.proposer.arithmetic()),
        alike(one, two),
        one.stepped(iter, &one_after, r),
        two.stepped(iter, &two_after, s),
    ensures
        alike(one_after, two_after),
        one_after.proposer == one.proposer,
        crate::reproducibility::same_result(r, s),
{
    let (c, c_mid, c_ok) = choose|c: Candidate, mid: NoopRatchet, ok: bool| #[trigger]
        one.iterated(iter, c, mid, ok, &one_after, r);
    let (d, d_mid, d_ok) = choose|d: Candidate, mid: NoopRatchet, ok: bool| #[trigger]
        two.iterated(iter, d, mid, ok, &two_after, s);
    crate::proposer::law_local_proposals_are_reproducible(
        one.proposer,
        one.target@,
        crate::attempt_log::latest(one.log@, 16),
        crate::attempt_log::latest(two.log@, 16),
        iter as nat,
        c,
        d,
    );
    assert(one.evaluator.may_score(c.artifact@, r.metric_value));
    assert(two.evaluator.may_score(c.artifact@, s.metric_value));
    assert(r.metric_value@ == s.metric_value@);
}

proof fn lemma_traces_agree<E: Evaluator, A: Arithmetic>(
    one: Seq<Run<E, LocalProposer<A>, NoopRatchet>>,
    r: Seq<IterationResult>,
    two: Seq<Run<E, LocalProposer<A>, NoopRatchet>>,
    s: Seq<IterationResult>,
    k: int,
)
    requires
        crate::arithmetic::reproducible(&one[0].proposer.arithmetic()),
        alike(one[0], two[0]),
        Run::is_trace(one, r),
        Run::is_trace(two, s),
        0 <= k < one.len(),
        k < two.len(),
    ensures
        one[k].proposer == one[0].proposer,
        alike(one[k], two[k]),
        k > 0 ==> crate::reproducibility::same_result(r[k - 1], s[k - 1]),
    decreases k,
{
    if k > 0 {
        lemma_traces_agree(one, r, two, s, k - 1);
        assert(one[k - 1].stepped((k - 1) as usize, &one[k], r[k - 1]));
        assert(two[k - 1].stepped((k - 1) as usize, &two[k], s[k - 1]));
        lemma_steps_agree(
            one[k - 1],
            two[k - 1],
            (k - 1) as usize,
            one[k],
            r[k - 1],
            two[k],
            s[k - 1],
        );
    }
}

/// Do two reports tell the same?
pub open spec fn same_report(one: Report, two: Report) -> bool {
    &&& one.goal@ == two.goal@
    &&& one.results@.len() == two.results@.len()
    &&& forall|k: int|
        0 <= k < one.results@.len() ==> crate::reproducibility::same_result(
            #[trigger] one.results@[k],
            two.results@[k],
        )
    &&& one.n_kept == two.n_kept
    &&& one.best_value@ == two.best_value@
    &&& one.best_target@ == two.best_target@
    &&& crate::text::texts(one.git_history@) == crate::text::texts(two.git_history@)
    &&& one.metric_name@ == two.metric_name@
    &&& one.direction == two.direction
}

proof fn lemma_reports_agree<E: Evaluator, A: Arithmetic>(
    one: Run<E, LocalProposer<A>, NoopRatchet>,
    one_trace: Seq<Run<E, LocalProposer<A>, NoopRatchet>>,
    one_after: Run<E, LocalProposer<A>, NoopRatchet>,
    r: Report,
    two: Run<E, LocalProposer<A>, NoopRatchet>,
    two_trace: Seq<Run<E, LocalProposer<A>, NoopRatchet>>,
    two_after: Run<E, LocalProposer<A>, NoopRatchet>,
    s: Report,
)
    requires
        crate::arithmetic::reproducible(&one.proposer.arithmetic()),
        alike(one, two),
        crate::facade::fresh(&one),
        crate::facade::fresh(&two),
        one.goal@ == two.goal@,
        one.evaluator.frozen_metric().name@ == two.evaluator.frozen_metric().name@,
        r.results@.len() == s.results@.len(),
        crate::facade::reports(one, one_trace, one_after, r),
        crate::facade::reports(two, two_trace, two_after, s),
    ensures
        same_report(r, s),
{
    assert(alike(one_trace[0], two_trace[0]));
    let n = r.results@.len() as int;
    assert forall|k: int| 0 <= k < n implies crate::reproducibility::same_result(
        #[trigger] r.results@[k],
        s.results@[k],
    ) by {
        lemma_traces_agree(one_trace, r.results@, two_trace, s.results@, k + 1);
    }
    lemma_traces_agree(one_trace, r.results@, two_trace, s.results@, n);
    assert(one.ratchet.kept() =~= crate::attempt_log::kept_hashes(one.log@));
    assert(two.ratchet.kept() =~= crate::attempt_log::kept_hashes(two.log@));
    crate::engine::law_loop(one, one_trace, r.results@, one_after, 0, 0);
    crate::engine::law_loop(two, two_trace, s.results@, two_after, 0, 0);
}

/// A backtest in one call is the loop of so many iterations over the run that tunes the strategy
/// against the market, from the artifact, with the step and the seed that were given.
pub proof fn law_run_backtest<A: Arithmetic + Copy>(
    ops: A,
    target: Artifact,
    market: Market,
    name: &str,
    iterations: usize,
    step: Scalar,
    seed: u64,
    r: Report,
    m: BtMetric,
    goal: &str,
    run: Run<VectorBtEvaluator<A>, LocalProposer<A>, NoopRatchet>,
    s: Report,
)
    requires
        crate::arithmetic::reproducible(&ops),
        call_ensures(
            crate::facade::run_backtest::<A>,
            (ops, target, &market, name, iterations, step, seed),
            r,
        ),
        call_ensures(BtMetric::from_str, (name,), m),
        goal@ == "autoresearch backtest: optimize "@ + m.label(),
        call_ensures(
            crate::facade::backtest_run::<A>,
            (ops, target, &market, m, step, seed, goal),
            run,
        ),
        call_ensures(
            crate::facade::conclude::<VectorBtEvaluator<A>, LocalProposer<A>, NoopRatchet>,
            (run, iterations),
            s,
        ),
    ensures
        same_report(r, s),
{
    let (before, trace, after) = choose|
        before: Run<VectorBtEvaluator<A>, LocalProposer<A>, NoopRatchet>,
        trace: Seq<Run<VectorBtEvaluator<A>, LocalProposer<A>, NoopRatchet>>,
        after: Run<VectorBtEvaluator<A>, LocalProposer<A>, NoopRatchet>,
    |
        {
            &&& crate::facade::fresh(&before)
            &&& before.target == target
            &&& before.evaluator.arithmetic() == ops
            &&& before.evaluator.kernel() == m
            &&& before.evaluator.prices()
            &&& market.may_roll(ops, seed, before.evaluator.paths())
            &&& crate::facade::searches(
                &before.proposer,
                ops,
                step,
                seed,
                crate::facade::THREE,
            )
            &&& #[trigger] crate::facade::reports(before, trace, after, r)
        };
    let (other_trace, other_after) = choose|
        other_trace: Seq<Run<VectorBtEvaluator<A>, LocalProposer<A>, NoopRatchet>>,
        other_after: Run<VectorBtEvaluator<A>, LocalProposer<A>, NoopRatchet>,
    | #[trigger]
        crate::facade::reports(run, other_trace, other_after, s);
    crate::proposer::lemma_same_search(before.proposer, run.proposer);
    lemma_same_market(market, ops, seed, before.evaluator, run.evaluator);
    crate::reproducibility::law_backtests_are_decisive(run.evaluator);
    assert forall|a: Seq<Scalar>, v: Scalar, w: Scalar| #[trigger]
        before.evaluator.may_score(a, v) && #[trigger] run.evaluator.may_score(a, w) implies v@
        == w@ by {
        lemma_backtests_agree(before.evaluator, run.evaluator, a, v);
    }
    assert(before.ratchet.kept() =~= run.ratchet.kept());
    assert(alike(before, run));
    lemma_reports_agree(before, trace, after, r, run, other_trace, other_after, s);
}

/// Tuning towards a vector in one call is the loop of so many iterations over the run that tunes
/// the artifact towards it, with the step and the seed that were given and every knob between
/// minus ten and ten.
pub proof fn law_run_scalar<A: Arithmetic + Copy>(
    ops: A,
    target: Artifact,
    vector: Artifact,
    iterations: usize,
    step: Scalar,
    seed: u64,
    r: Report,
    goal: &str,
    run: Run<SseEvaluator<A>, LocalProposer<A>, NoopRatchet>,
    s: Report,
)
    requires
        crate::arithmetic::reproducible(&ops),
        call_ensures(
            crate::facade::run_scalar::<A>,
            (ops, target, vector, iterations, step, seed),
            r,
        ),
        goal@ == "autoresearch scalar: minimize SSE to target"@,
        call_ensures(
            crate::facade::scalar_run::<A>,
            (ops, target, vector, step, seed, 0x4024_0000_0000_0000u64, goal),
            run,
        ),
        call_ensures(
            crate::facade::conclude::<SseEvaluator<A>, LocalProposer<A>, NoopRatchet>,
            (run, iterations),
            s,
        ),
    ensures
        same_report(r, s),
{
    let (before, trace, after) = choose|
        before: Run<SseEvaluator<A>, LocalProposer<A>, NoopRatchet>,
        trace: Seq<Run<SseEvaluator<A>, LocalProposer<A>, NoopRatchet>>,
        after: Run<SseEvaluator<A>, LocalProposer<A>, NoopRatchet>,
    |
        {
            &&& crate::facade::fresh(&before)
            &&& before.target == target
            &&& before.evaluator.arithmetic() == ops
            &&& before.evaluator.aim() == vector@
            &&& crate::facade::searches(
                &before.proposer,
                ops,
                step,
                seed,
                crate::proposer::TEN,
            )
            &&& #[trigger] crate::facade::reports(before, trace, after, r)
        };
    let (other_trace, other_after) = choose|
        other_trace: Seq<Run<SseEvaluator<A>, LocalProposer<A>, NoopRatchet>>,
        other_after: Run<SseEvaluator<A>, LocalProposer<A>, NoopRatchet>,
    | #[trigger]
        crate::facade::reports(run, other_trace, other_after, s);
    crate::proposer::lemma_same_search(before.proposer, run.proposer);
    crate::reproducibility::law_squared_errors_are_decisive(run.evaluator);
    assert forall|a: Seq<Scalar>, v: Scalar, w: Scalar| #[trigger]
        before.evaluator.may_score(a, v) && #[trigger] run.evaluator.may_score(a, w) implies v@
        == w@ by {
        assert(run.evaluator.may_score(a, v));
    }
    assert(before.ratchet.kept() =~= run.ratchet.kept());
    assert(alike(before, run));
    lemma_reports_agree(before, trace, after, r, run, other_trace, other_after, s);
}

/// The run that tunes a strategy against a market has what it was asked for: the artifact, the
/// market's backtest, and a search with the step and the seed, each knob between minus three and
/// three; nothing is logged or kept, and the baseline is the worst value.
pub proof fn law_backtest_run<A: Arithmetic + Copy>(
    ops: A,
    target: Artifact,
    market: Market,
    m: BtMetric,
    step: Scalar,
    seed: u64,
    goal: &str,
    run: Run<VectorBtEvaluator<A>, LocalProposer<A>, NoopRatchet>,
    evaluator: VectorBtEvaluator<A>,
)
    requires
        crate::arithmetic::reproducible(&ops),
        call_ensures(
            crate::facade::backtest_run::<A>,
            (ops, target, &market, m, step, seed, goal),
            run,
        ),
        call_ensures(Market::backtest::<A>, (&market, ops, m, seed), evaluator),
    ensures
        run.target == target,
        run.goal@ == goal@,
        same_backtest(run.evaluator, evaluator),
        run.proposer.arithmetic() == ops,
        run.proposer.reach() == step,
        run.proposer.seed() == seed,
        run.proposer.lower().bits == 0xC008_0000_0000_0000,
        run.proposer.upper().bits == 0x4008_0000_0000_0000,
        run.log@.len() == 0,
        run.ratchet.kept().len() == 0,
        run.ratchet.count() == 0,
        m is MaxDrawdown || m is Cvar ==> run.baseline_value@ is PosInf,
        !(m is MaxDrawdown || m is Cvar) ==> run.baseline_value@ is NegInf,
{
    lemma_same_market(market, ops, seed, run.evaluator, evaluator);
}

/// A backtest over a source runs on the paths that the source rolls out, as many, as long and
/// from the seed that were asked for, with the metric that was asked for.
pub proof fn law_backtest_of_a_source<A: Arithmetic, S: ScenarioSource>(
    ops: A,
    source: S,
    n_scenarios: usize,
    horizon: usize,
    seed: u64,
    m: BtMetric,
    r: VectorBtEvaluator<A>,
)
    requires
        call_ensures(
            crate::engine::vectorbt_evaluator_from_source::<A, S>,
            (ops, &source, n_scenarios, horizon, seed, m),
            r,
        ),
    ensures
        r.arithmetic() == ops,
        r.kernel() == m,
        source.may_roll(n_scenarios as nat, horizon as nat, seed, r.paths()),
        call_ensures(S::paths_are_prices, (&source,), r.prices()),
        r.frozen_metric().direction is Minimize <==> m is MaxDrawdown || m is Cvar,
{
}

/// The backtest of a market is the backtest of the source with the market's start, drift and
/// volatility.
pub proof fn law_market_is_its_source<A: Arithmetic + Copy>(
    ops: A,
    market: Market,
    m: BtMetric,
    seed: u64,
    r: VectorBtEvaluator<A>,
    source: MirofishScenarioSource<A>,
    s: VectorBtEvaluator<A>,
)
    requires
        crate::arithmetic::reproducible(&ops),
        call_ensures(Market::backtest::<A>, (&market, ops, m, seed), r),
        call_ensures(
            MirofishScenarioSource::<A>::new,
            (ops, market.start, market.drift, market.vol),
            source,
        ),
        call_ensures(
            crate::engine::vectorbt_evaluator_from_source::<A, MirofishScenarioSource<A>>,
            (ops, &source, market.n_scenarios, market.horizon, seed, m),
            s,
        ),
    ensures
        same_backtest(r, s),
{
    assert forall|i: int| 0 <= i < r.paths().len() implies (#[trigger] r.paths()[i])@
        == s.paths()[i]@ by {
        crate::scenario::law_rollouts_are_reproducible(
            source,
            market.n_scenarios as nat,
            market.horizon as nat,
            seed,
            r.paths(),
            s.paths(),
            i,
        );
    }
}

/// The run that tunes a strategy and its forecaster walks over the series of prices with the
/// windows that were asked for, from flat knobs and factors of four tenths and a tenth, with every
/// knob between minus one and one.
pub proof fn law_walkforward_run<A: Arithmetic + Copy>(
    ops: A,
    bt: BtMetric,
    series: Vec<Scalar>,
    windows: Windows,
    kind: ForecasterKind,
    step: Scalar,
    seed: u64,
    run: Run<WalkForward<A, NoModel>, LocalProposer<A>, NoopRatchet>,
    layout: ForecasterSpec,
    walk: WalkForward<A, NoModel>,
)
    requires
        call_ensures(
            crate::facade::walkforward_run::<A>,
            (ops, bt, series, windows, kind, step, seed),
            run,
        ),
        call_ensures(ForecasterSpec::new, (2usize, kind), layout),
        call_ensures(
            WalkForward::<A, NoModel>::new,
            (ops, bt, series, true, windows.train_len, windows.horizon, windows.step, layout),
            walk,
        ),
    ensures
        run.target@.len() == 4,
        run.target@[0].bits == 0,
        run.target@[1].bits == 0,
        run.target@[2].bits == 0x3FD9_9999_9999_999A,
        run.target@[3].bits == 0x3FB9_9999_9999_999A,
        crate::walk_laws::same_walk(run.evaluator, walk),
        run.evaluator.series() == walk.series(),
        run.evaluator.penalty() == walk.penalty(),
        run.evaluator.frozen_metric().direction == walk.frozen_metric().direction,
        run.proposer.arithmetic() == ops,
        run.proposer.reach() == step,
        run.proposer.seed() == seed,
        run.proposer.lower().bits == 0xBFF0_0000_0000_0000,
        run.proposer.upper().bits == 0x3FF0_0000_0000_0000,
        run.log@.len() == 0,
        run.ratchet.kept().len() == 0,
        run.ratchet.count() == 0,
        run.goal@ == "walk-forward: co-tune strategy + forecaster"@,
{
}

/// The walk that a plan asks for is the walk over the series with the plan's metric, windows and
/// forecaster, and the plan's penalty; the artifact is the plan's tilt, momentum and two factors.
pub proof fn law_plan<A: Arithmetic>(
    ops: A,
    series: Vec<Scalar>,
    plan: WalkForwardPlan,
    r: WalkForward<A, NoModel>,
    artifact: Artifact,
    layout: ForecasterSpec,
    walk: WalkForward<A, NoModel>,
    walked: WalkForward<A, NoModel>,
)
    requires
        call_ensures(crate::facade::planned_walk::<A>, (ops, series, &plan), r),
        call_ensures(crate::facade::planned_artifact, (&plan,), artifact),
        call_ensures(ForecasterSpec::new, (2usize, plan.kind), layout),
        call_ensures(
            WalkForward::<A, NoModel>::new,
            (
                ops,
                plan.metric,
                series,
                true,
                plan.windows.train_len,
                plan.windows.horizon,
                plan.windows.step,
                layout,
            ),
            walk,
        ),
        call_ensures(
            WalkForward::<A, NoModel>::with_overfit_penalty,
            (walk, plan.overfit_penalty),
            walked,
        ),
    ensures
        crate::walk_laws::same_walk(r, walked),
        r.series() == walked.series(),
        r.penalty() == walked.penalty(),
        r.frozen_metric().direction == walked.frozen_metric().direction,
        artifact@.len() == 4,
        artifact@[0] == plan.tilt,
        artifact@[1] == plan.mom,
        artifact@[2] == plan.alpha,
        artifact@[3] == plan.beta,
{
}

/// The results that kept their candidate, in order.
pub open spec fn kept_results(results: Seq<IterationResult>) -> Seq<IterationResult> {
    results.filter(|r: IterationResult| r.status is Keep)
}

proof fn lemma_kept_commits<E: Evaluator, P: Proposer, R: Ratchet>(
    trace: Seq<Run<E, P, R>>,
    results: Seq<IterationResult>,
    k: int,
)
    requires
        Run::is_trace(trace, results),
        trace[0].ratchet.kept().len() == 0,
        0 <= k <= results.len(),
    ensures
        trace[k].ratchet.kept() == kept_results(results.take(k)).map_values(
            |r: IterationResult| r.commit7@,
        ),
        k > 0 ==> trace[k].baseline_value == results[k - 1].baseline_value,
        kept_results(results.take(k)).len() == 0 ==> trace[k].target@ == trace[0].target@
            && trace[k].baseline_value == trace[0].baseline_value,
        kept_results(results.take(k)).len() > 0 ==> trace[k].baseline_value == kept_results(
            results.take(k),
        ).last().metric_value,
    decreases k,
{
    reveal(Seq::filter);
    let done = results.take(k);
    if k == 0 {
        assert(trace[0].ratchet.kept() =~= kept_results(done).map_values(
            |r: IterationResult| r.commit7@,
        ));
    } else {
        lemma_kept_commits(trace, results, k - 1);
        let before = results.take(k - 1);
        let r = results[k - 1];
        assert(done.drop_last() =~= before);
        assert(done.last() == r);
        assert(trace[k - 1].stepped((k - 1) as usize, &trace[k], r));
        let (c, mid, ok) = choose|c: Candidate, mid: R, ok: bool| #[trigger]
            trace[k - 1].iterated((k - 1) as usize, c, mid, ok, &trace[k], r);
        if r.status is Keep {
            assert(kept_results(done) =~= kept_results(before).push(r));
        } else {
            assert(kept_results(done) =~= kept_results(before));
        }
        assert(trace[k].ratchet.kept() =~= kept_results(done).map_values(
            |r: IterationResult| r.commit7@,
        ));
    }
}

/// A report tells what its results tell: so many iterations, one at least; the kept ones are
/// counted, and their commits are the history, in order; the best value is the score of the last
/// kept candidate, and the baseline's value after the last iteration.
pub proof fn law_report<E: Evaluator, P: Proposer, R: Ratchet>(
    run: Run<E, P, R>,
    iterations: usize,
    r: Report,
)
    requires
        run.log@.len() == 0,
        run.ratchet.kept().len() == 0,
        call_ensures(crate::facade::conclude::<E, P, R>, (run, iterations), r),
    ensures
        iterations >= 1 ==> r.results@.len() == iterations,
        iterations < 1 ==> r.results@.len() == 1,
        r.n_kept == kept_results(r.results@).len(),
        crate::text::texts(r.git_history@) == kept_results(r.results@).map_values(
            |r: IterationResult| r.commit7@,
        ),
        r.best_value == r.results@.last().baseline_value,
        kept_results(r.results@).len() > 0 ==> r.best_value == kept_results(
            r.results@,
        ).last().metric_value && run.evaluator.may_score(r.best_target@, r.best_value),
        kept_results(r.results@).len() == 0 ==> r.best_target@ == run.target@,
        r.goal@ == run.goal@,
        r.metric_name@ == run.evaluator.frozen_metric().name@,
        r.direction == run.evaluator.frozen_metric().direction,
        forall|k: int| 0 <= k < r.results@.len() ==> (#[trigger] r.results@[k]).iter == k,
{
    let (trace, after) = choose|trace: Seq<Run<E, P, R>>, after: Run<E, P, R>| #[trigger]
        crate::facade::reports(run, trace, after, r);
    let n = r.results@.len() as int;
    lemma_kept_commits(trace, r.results@, n);
    assert(r.results@.take(n) =~= r.results@);
    assert(run.ratchet.kept() =~= crate::attempt_log::kept_hashes(run.log@));
    crate::engine::law_loop(run, trace, r.results@, after, 0, 0);
    lemma_best_is_scored(trace, r.results@, n);
    assert forall|k: int| 0 <= k < n implies (#[trigger] r.results@[k]).iter == k by {
        assert(trace[k].stepped(k as usize, &trace[k + 1], r.results@[k]));
    }
}

proof fn lemma_best_is_scored<E: Evaluator, P: Proposer, R: Ratchet>(
    trace: Seq<Run<E, P, R>>,
    results: Seq<IterationResult>,
    k: int,
)
    requires
        Run::is_trace(trace, results),
        0 <= k <= results.len(),
    ensures
        trace[k].evaluator == trace[0].evaluator,
        kept_results(results.take(k)).len() > 0 ==> trace[k].evaluator.may_score(
            trace[k].target@,
            trace[k].baseline_value,
        ),
    decreases k,
{
    reveal(Seq::filter);
    if k > 0 {
        lemma_best_is_scored(trace, results, k - 1);
        let done = results.take(k);
        let before = results.take(k - 1);
        let r = results[k - 1];
        assert(done.drop_last() =~= before);
        assert(done.last() == r);
        assert(trace[k - 1].stepped((k - 1) as usize, &trace[k], r));
        let (c, mid, ok) = choose|c: Candidate, mid: R, ok: bool| #[trigger]
            trace[k - 1].iterated((k - 1) as usize, c, mid, ok, &trace[k], r);
        if r.status is Keep {
            assert(kept_results(done) =~= kept_results(before).push(r));
        } else {
            assert(kept_results(done) =~= kept_results(before));
        }
    } else {
        assert(results.take(0).len() == 0);
    }
}

} // verus!
