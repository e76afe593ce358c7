//! Whole runs in one call: what a command line or an embedding program asks for.
use vstd::prelude::*;

use crate::arithmetic::Arithmetic;
use crate::attempt_log::{AttemptLog, NoopRatchet, Ratchet};
use crate::cli::{WalkForwardPlan, Windows};
use crate::engine::{
    spawn_swarm, vectorbt_evaluator_from_source, IterationResult, Run, StopCondition, SwarmMode,
    SwarmResult,
};
use crate::evaluator::{
    bt_metric_of_path, sse_to_target, Artifact, BtMetric, Evaluator, SseEvaluator,
    VectorBtEvaluator,
};
use crate::metric::{Direction, KeepOrRevert, Metric};
use crate::proposer::{copy_knobs, LocalProposer, Proposer};
use crate::scalar::{Scalar, ONE, SIGN};
use crate::scenario::{MirofishScenarioSource, ScenarioSource, FLOOR};
use crate::text::join;
use crate::timesfm_walkforward::{
    ForecasterKind, ForecasterSpec, NoModel, WalkForward, DEFAULT_ALPHA, DEFAULT_BETA,
};

verus! {

/// The bits of three, the bound of a strategy's knobs.
pub const THREE: u64 = 0x4008_0000_0000_0000;

/// The scenarios of a backtest: how prices walk, how many paths there are, and how long.
#[derive(Debug, Clone, Copy)]
pub struct Market {
    pub start: Scalar,
    pub drift: Scalar,
    pub vol: Scalar,
    pub n_scenarios: usize,
    pub horizon: usize,
}

impl Market {
    /// Can a backtest have these paths?
    pub open spec fn may_roll<A: Arithmetic>(
        &self,
        ops: A,
        seed: u64,
        paths: Seq<Vec<Scalar>>,
    ) -> bool {
        let source = MirofishScenarioSource {
            ops,
            start: crate::scalar::larger(self.start, Scalar { bits: FLOOR }),
            drift: self.drift,
            vol: crate::scalar::larger(self.vol, Scalar { bits: 0 }),
        };
        source.may_roll(self.n_scenarios as nat, self.horizon as nat, seed, paths)
    }

    /// The backtest over these scenarios.
    pub fn backtest<A: Arithmetic + Copy>(&self, ops: A, bt: BtMetric, seed: u64) -> (r:
        VectorBtEvaluator<A>)
        ensures
            r.arithmetic() == ops,
            r.kernel() == bt,
            r.prices(),
            self.may_roll(ops, seed, r.paths()),
            r.frozen_metric().name@ == bt.label(),
            r.frozen_metric().direction == bt.heading(),
    {
        let source = MirofishScenarioSource::new(ops, self.start, self.drift, self.vol);
        vectorbt_evaluator_from_source(
            ops,
            &source,
            self.n_scenarios,
            self.horizon,
            seed,
            bt,
        )
    }
}

/// An artifact of two strategy knobs.
pub open spec fn two_knobs(tilt: Scalar, momentum: Scalar) -> Seq<Scalar> {
    seq![tilt, momentum]
}

/// A local proposer over the box from minus `bits` to `bits`.
fn searcher<A: Arithmetic>(ops: A, step: Scalar, seed: u64, bits: u64) -> (p: LocalProposer<A>)
    requires
        bits < crate::scalar::EXPONENT,
    ensures
        searches(&p, ops, step, seed, bits),
{
    let lo = Scalar::from_bits(bits + SIGN);
    let hi = Scalar::from_bits(bits);
    proof {
        crate::scalar::lemma_place_orders(lo, hi);
    }
    LocalProposer::new(ops, step, seed).with_bounds(lo, hi)
}

/// Is this the local proposer with this step and seed over the box from minus `bits` to `bits`?
pub open spec fn searches<A: Arithmetic>(
    p: &LocalProposer<A>,
    ops: A,
    step: Scalar,
    seed: u64,
    bits: u64,
) -> bool {
    &&& p.arithmetic() == ops
    &&& p.reach() == step
    &&& p.seed() == seed
    &&& p.lower().bits == bits + SIGN
    &&& p.upper().bits == bits
}

/// Is this run at its start: nothing logged, nothing kept, and the worst value as its baseline?
pub open spec fn fresh<E: Evaluator, P: Proposer>(run: &Run<E, P, NoopRatchet>) -> bool {
    &&& run.log@.len() == 0
    &&& run.log.file() is None
    &&& run.ratchet.kept().len() == 0
    &&& run.ratchet.count() == 0
    &&& run.baseline_value@ == crate::metric::worst_value(
        run.evaluator.frozen_metric().direction,
    )
}

/// A run that tunes a strategy against a backtest over scenarios, its knobs between minus three
/// and three.
pub fn backtest_run<A: Arithmetic + Copy>(
    ops: A,
    target: Artifact,
    market: &Market,
    bt: BtMetric,
    step: Scalar,
    seed: u64,
    goal: &str,
) -> (run: Run<VectorBtEvaluator<A>, LocalProposer<A>, NoopRatchet>)
    ensures
        fresh(&run),
        run.target == target,
        run.evaluator.arithmetic() == ops,
        run.evaluator.kernel() == bt,
        run.evaluator.prices(),
        market.may_roll(ops, seed, run.evaluator.paths()),
        run.evaluator.frozen_metric().name@ == bt.label(),
        run.evaluator.frozen_metric().direction == bt.heading(),
        searches(&run.proposer, ops, step, seed, THREE),
        run.goal@ == goal@,
{
    let evaluator = market.backtest(ops, bt, seed);
    let proposer = searcher(ops, step, seed, THREE);
    Run::new(target, evaluator, proposer, NoopRatchet::new(), AttemptLog::new()).with_goal(goal)
}

/// A run that tunes an artifact towards a target vector, its knobs between minus `bound` and
/// `bound`. The search keeps the number of knobs, and an artifact that lacks a knob of the target
/// is infinitely far from it: from a start that is not empty and shorter than the target every
/// iteration is a crash, and nothing is kept.
pub fn scalar_run<A: Arithmetic + Copy>(
    ops: A,
    start: Artifact,
    target: Artifact,
    step: Scalar,
    seed: u64,
    bound: u64,
    goal: &str,
) -> (run: Run<SseEvaluator<A>, LocalProposer<A>, NoopRatchet>)
    requires
        bound < crate::scalar::EXPONENT,
    ensures
        fresh(&run),
        run.target == start,
        run.evaluator.arithmetic() == ops,
        run.evaluator.aim() == target@,
        run.evaluator.frozen_metric().name@ == "sse"@,
        run.evaluator.frozen_metric().direction == Direction::Minimize,
        searches(&run.proposer, ops, step, seed, bound),
        run.goal@ == goal@,
{
    let evaluator = sse_to_target(ops, target);
    let proposer = searcher(ops, step, seed, bound);
    Run::new(start, evaluator, proposer, NoopRatchet::new(), AttemptLog::new()).with_goal(goal)
}

/// A run that tunes a strategy and its forecaster against a walk over a series of prices: two
/// strategy knobs and two smoothing factors, all between minus one and one.
pub fn walkforward_run<A: Arithmetic + Copy>(
    ops: A,
    bt: BtMetric,
    series: Vec<Scalar>,
    windows: Windows,
    kind: ForecasterKind,
    step: Scalar,
    seed: u64,
) -> (run: Run<WalkForward<A, NoModel>, LocalProposer<A>, NoopRatchet>)
    ensures
        fresh(&run),
        run.target@ == seq![
            Scalar { bits: 0 },
            Scalar { bits: 0 },
            Scalar { bits: DEFAULT_ALPHA },
            Scalar { bits: DEFAULT_BETA },
        ],
        run.evaluator.set_up(
            ops,
            bt,
            seq![series],
            true,
            windows.train_len,
            windows.horizon,
            windows.step,
            ForecasterSpec { n_strategy: 2, kind },
        ),
        searches(&run.proposer, ops, step, seed, ONE),
        run.goal@ == "walk-forward: co-tune strategy + forecaster"@,
{
    let layout = ForecasterSpec::new(2, kind);
    let evaluator = WalkForward::new(
        ops,
        bt,
        series,
        true,
        windows.train_len,
        windows.horizon,
        windows.step,
        layout,
    );
    let mut target: Artifact = Vec::new();
    target.push(Scalar::from_bits(0));
    target.push(Scalar::from_bits(0));
    target.push(Scalar::from_bits(DEFAULT_ALPHA));
    target.push(Scalar::from_bits(DEFAULT_BETA));
    let proposer = searcher(ops, step, seed, ONE);
    Run::new(target, evaluator, proposer, NoopRatchet::new(), AttemptLog::new()).with_goal(
        "walk-forward: co-tune strategy + forecaster",
    )
}

/// The evaluator that a plan asks for, over a series of prices.
pub fn planned_walk<A: Arithmetic>(ops: A, series: Vec<Scalar>, plan: &WalkForwardPlan) -> (r:
    WalkForward<A, NoModel>)
    ensures
        exists|before: WalkForward<A, NoModel>|
            {
                &&& before.set_up(
                    ops,
                    plan.metric,
                    seq![series],
                    true,
                    plan.windows.train_len,
                    plan.windows.horizon,
                    plan.windows.step,
                    ForecasterSpec { n_strategy: 2, kind: plan.kind },
                )
                &&& #[trigger] before.same_folds(&r)
                &&& r.weight() == before.weight()
                &&& r.model() is None
            },
        r.penalty() == crate::scalar::larger(plan.overfit_penalty, Scalar { bits: 0 }),
{
    let layout = ForecasterSpec::new(2, plan.kind);
    let walk = WalkForward::new(
        ops,
        plan.metric,
        series,
        true,
        plan.windows.train_len,
        plan.windows.horizon,
        plan.windows.step,
        layout,
    );
    let ghost before = walk;
    let r = walk.with_overfit_penalty(plan.overfit_penalty);
    assert(before.same_folds(&r));
    r
}

/// The artifact that a plan asks for: the strategy's knobs, then the forecaster's factors.
pub fn planned_artifact(plan: &WalkForwardPlan) -> (r: Artifact)
    ensures
        r@ == seq![plan.tilt, plan.mom, plan.alpha, plan.beta],
{
    let mut r: Artifact = Vec::new();
    r.push(plan.tilt);
    r.push(plan.mom);
    r.push(plan.alpha);
    r.push(plan.beta);
    assert(r@ == seq![plan.tilt, plan.mom, plan.alpha, plan.beta]);
    r
}

/// What came of a run.
#[derive(Debug)]
pub struct Report {
    /// The research goal, in words.
    pub goal: String,
    pub results: Vec<IterationResult>,
    pub n_kept: usize,
    pub best_value: Scalar,
    pub best_target: Artifact,
    pub git_history: Vec<String>,
    pub metric_name: String,
    pub direction: Direction,
}

/// Does the report tell what came of a run that went from `before` to `after` through `trace`?
pub open spec fn reports<E: Evaluator, P: Proposer, R: Ratchet>(
    before: Run<E, P, R>,
    trace: Seq<Run<E, P, R>>,
    after: Run<E, P, R>,
    report: Report,
) -> bool {
    &&& before.looped(trace, report.results@, &after)
    &&& report.goal@ == before.goal@
    &&& report.n_kept == crate::attempt_log::kept_hashes(after.log@).len()
    &&& report.best_value == after.baseline_value
    &&& report.best_target@ == after.target@
    &&& crate::text::texts(report.git_history@) == after.ratchet.kept()
    &&& report.metric_name@ == before.evaluator.frozen_metric().name@
    &&& report.direction == before.evaluator.frozen_metric().direction
}

/// Runs a loop of so many iterations, one at least, and reports what came of it.
pub fn conclude<E: Evaluator, P: Proposer, R: Ratchet>(
    run: Run<E, P, R>,
    iterations: usize,
) -> (report: Report)
    ensures
        exists|trace: Seq<Run<E, P, R>>, after: Run<E, P, R>| #[trigger]
            reports(run, trace, after, report),
        report.results@.len() == (if iterations == 0 {
            1
        } else {
            iterations as int
        }),
{
    let mut run = run;
    let ghost before = run;
    let count: usize = if iterations == 0 {
        1
    } else {
        iterations
    };
    let stop = StopCondition::MaxIterations(count);
    let results = run.run_loop(stop);
    let report = Report {
        goal: run.goal.clone(),
        results,
        n_kept: run.n_kept(),
        best_value: run.baseline_value(),
        best_target: copy_knobs(run.target.as_slice()),
        git_history: run.git_history(),
        metric_name: run.metric().name.clone(),
        direction: run.metric().direction,
    };
    proof {
        let trace = choose|trace: Seq<Run<E, P, R>>| #[trigger]
            before.looped(trace, results@, &run);
        crate::engine::law_loop(before, trace, results@, run, 0, 0);
        assert(reports(before, trace, run, report));
    }
    report
}

/// Tunes a strategy against a backtest over scenarios, and reports what came of it.
pub fn run_backtest<A: Arithmetic + Copy>(
    ops: A,
    target: Artifact,
    market: &Market,
    metric: &str,
    iterations: usize,
    step: Scalar,
    seed: u64,
) -> (report: Report)
    ensures
        exists|
            before: Run<VectorBtEvaluator<A>, LocalProposer<A>, NoopRatchet>,
            trace: Seq<Run<VectorBtEvaluator<A>, LocalProposer<A>, NoopRatchet>>,
            after: Run<VectorBtEvaluator<A>, LocalProposer<A>, NoopRatchet>,
        |
            {
                &&& fresh(&before)
                &&& before.target == target
                &&& before.evaluator.arithmetic() == ops
                &&& before.evaluator.kernel() == BtMetric::named(crate::text::folded(metric@))
                &&& before.evaluator.prices()
                &&& market.may_roll(ops, seed, before.evaluator.paths())
                &&& searches(&before.proposer, ops, step, seed, THREE)
                &&& #[trigger] reports(before, trace, after, report)
            },
        report.goal@ == "autoresearch backtest: optimize "@ + BtMetric::named(
            crate::text::folded(metric@),
        ).label(),
        report.metric_name@ == BtMetric::named(crate::text::folded(metric@)).label(),
        report.direction == BtMetric::named(crate::text::folded(metric@)).heading(),
        report.results@.len() == (if iterations == 0 {
            1
        } else {
            iterations as int
        }),
{
    let bt = BtMetric::from_str(metric);
    let goal = join("autoresearch backtest: optimize ".to_owned(), bt.name());
    let run = backtest_run(ops, target, market, bt, step, seed, goal.as_str());
    conclude(run, iterations)
}

/// Tunes an artifact towards a target vector, and reports what came of it. As in [`scalar_run`],
/// nothing is kept from a start that is not empty and shorter than the vector.
pub fn run_scalar<A: Arithmetic + Copy>(
    ops: A,
    target: Artifact,
    target_vector: Artifact,
    iterations: usize,
    step: Scalar,
    seed: u64,
) -> (report: Report)
    ensures
        exists|
            before: Run<SseEvaluator<A>, LocalProposer<A>, NoopRatchet>,
            trace: Seq<Run<SseEvaluator<A>, LocalProposer<A>, NoopRatchet>>,
            after: Run<SseEvaluator<A>, LocalProposer<A>, NoopRatchet>,
        |
            {
                &&& fresh(&before)
                &&& before.target == target
                &&& before.evaluator.arithmetic() == ops
                &&& before.evaluator.aim() == target_vector@
                &&& searches(&before.proposer, ops, step, seed, crate::proposer::TEN)
                &&& #[trigger] reports(before, trace, after, report)
            },
        report.goal@ == "autoresearch scalar: minimize SSE to target"@,
        report.metric_name@ == "sse"@,
        report.direction == Direction::Minimize,
        report.results@.len() == (if iterations == 0 {
            1
        } else {
            iterations as int
        }),
{
    let run = scalar_run(
        ops,
        target,
        target_vector,
        step,
        seed,
        crate::proposer::TEN,
        "autoresearch scalar: minimize SSE to target",
    );
    conclude(run, iterations)
}

/// Scores many variations of a flat strategy at once on a backtest over scenarios, best first.
pub fn sweep_backtest<A: Arithmetic + Copy>(
    ops: A,
    market: &Market,
    metric: &str,
    n_candidates: usize,
    step: Scalar,
    seed: u64,
) -> (r: SwarmResult)
    ensures
        r.mode_subagent,
        exists|evaluator: VectorBtEvaluator<A>, proposer: LocalProposer<A>|
            {
                &&& evaluator.arithmetic() == ops
                &&& evaluator.kernel() == BtMetric::named(crate::text::folded(metric@))
                &&& evaluator.prices()
                &&& evaluator.frozen_metric().direction == evaluator.kernel().heading()
                &&& market.may_roll(ops, seed, evaluator.paths())
                &&& searches(&proposer, ops, step, seed, THREE)
                &&& #[trigger] crate::engine::explored(
                    &evaluator,
                    &proposer,
                    two_knobs(Scalar { bits: 0 }, Scalar { bits: 0 }),
                    crate::engine::swarm_size(SwarmMode::Subagent, n_candidates as nat),
                    Seq::empty(),
                    r.ranked@,
                )
            },
{
    let evaluator = market.backtest(ops, BtMetric::from_str(metric), seed);
    let proposer = searcher(ops, step, seed, THREE);
    let mut baseline: Artifact = Vec::new();
    baseline.push(Scalar::from_bits(0));
    baseline.push(Scalar::from_bits(0));
    assert(baseline@ == two_knobs(Scalar { bits: 0 }, Scalar { bits: 0 }));
    let log = AttemptLog::new();
    assert(log@ == Seq::<crate::attempt_log::AttemptRow>::empty());
    spawn_swarm(&evaluator, &proposer, &baseline, n_candidates, SwarmMode::Subagent, log.all())
}

/// One backtest metric, by its name, of a series of returns.
pub fn backtest_metric<A: Arithmetic>(ops: &A, series: &[Scalar], metric: &str) -> (r: Scalar)
    ensures
        crate::evaluator::is_metric(
            ops,
            BtMetric::named(crate::text::folded(metric@)),
            series@,
            r,
        ),
{
    bt_metric_of_path(ops, BtMetric::from_str(metric), series)
}

/// A backtest metric, by its name, of an ensemble: the score of a strategy that is fully long.
pub fn evaluate_scenarios<A: Arithmetic + Copy>(
    ops: A,
    scenarios: Vec<Vec<Scalar>>,
    metric: &str,
    paths_are_prices: bool,
) -> (r: Scalar)
    ensures
        exists|evaluator: VectorBtEvaluator<A>|
            {
                &&& evaluator.arithmetic() == ops
                &&& evaluator.kernel() == BtMetric::named(crate::text::folded(metric@))
                &&& evaluator.paths() == scenarios@
                &&& evaluator.prices() == paths_are_prices
                &&& #[trigger] evaluator.may_score(
                    two_knobs(Scalar { bits: ONE }, Scalar { bits: 0 }),
                    r,
                )
            },
{
    let evaluator = VectorBtEvaluator::new(
        ops,
        BtMetric::from_str(metric),
        scenarios,
        paths_are_prices,
    );
    let mut long: Artifact = Vec::new();
    long.push(Scalar::from_bits(ONE));
    long.push(Scalar::from_bits(0));
    let r = evaluator.score(&long);
    assert(long@ == two_knobs(Scalar { bits: ONE }, Scalar { bits: 0 }));
    r
}

} // verus!
