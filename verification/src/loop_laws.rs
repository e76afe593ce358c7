//! What the loop is made of: decisions, proposals, the distance to a target, the ranking of a
//! sweep, the log and the end of a loop.
use vstd::prelude::*;

use crate::arithmetic::Arithmetic;
use crate::attempt_log::{AttemptLog, AttemptRow, PeakMem, Ratchet};
use crate::engine::{IterationResult, Run, StopCondition, SwarmMode, SwarmResult, SweepResult};
use crate::evaluator::{Artifact, Evaluator, SseEvaluator};
use crate::metric::{Direction, KeepOrRevert, Metric};
use crate::proposer::{Candidate, LocalProposer, Proposer, FRACTIONS};
use crate::scalar::{Scalar, ONE, TWO};

verus! {

/// A candidate is kept exactly when its value is strictly better than the baseline: lower to
/// minimize, higher to maximize. A NaN is never kept, and beats nothing; any number beats a NaN.
pub proof fn law_decision(metric: Metric, prev: Scalar, new: Scalar, r: KeepOrRevert)
    requires
        call_ensures(Metric::decide, (&metric, prev, new), r),
    ensures
        new@ is Nan ==> r is Revert,
        !(new@ is Nan) && prev@ is Nan ==> r is Keep,
        prev@.finite() && new@.finite() ==> (r is Keep <==> match metric.direction {
            Direction::Minimize => crate::exact::value(new) < crate::exact::value(prev),
            Direction::Maximize => crate::exact::value(prev) < crate::exact::value(new),
        }),
        prev@ is PosInf && new@.finite() ==> (r is Keep <==> metric.direction is Minimize),
        prev@ is NegInf && new@.finite() ==> (r is Keep <==> metric.direction is Maximize),
{
    if prev@.finite() && new@.finite() {
        crate::exact::lemma_value_orders(prev, new);
        crate::exact::lemma_value_orders(new, prev);
    }
}

/// A score that is not finite is a crash and reverted; any other is decided on as the metric says.
pub proof fn law_judgement(
    metric: Metric,
    baseline: Scalar,
    score: Scalar,
    crashed: bool,
    r: KeepOrRevert,
    decided: KeepOrRevert,
)
    requires
        crashed == !score@.finite(),
        call_ensures(crate::engine::judge, (&metric, baseline, score, crashed), r),
        call_ensures(Metric::decide, (&metric, baseline, score), decided),
    ensures
        r == (if score@.finite() {
            decided
        } else {
            KeepOrRevert::Revert
        }),
{
}

/// The squared error of an artifact is the sum of the squares of its distances from the target,
/// knob by knob, plus one for each knob too many; it is infinite where a knob is missing.
pub proof fn law_squared_error<A: Arithmetic>(
    ops: A,
    target: Artifact,
    evaluator: SseEvaluator<A>,
    artifact: Artifact,
    r: Scalar,
)
    requires
        crate::exact::exact(&ops),
        crate::exact::all_finite(target@),
        crate::exact::all_finite(artifact@),
        call_ensures(crate::evaluator::sse_to_target::<A>, (ops, target), evaluator),
        call_ensures(SseEvaluator::<A>::score, (&evaluator, &artifact), r),
    ensures
        artifact@.len() < target@.len() ==> r@ is PosInf,
        artifact@.len() >= target@.len() ==> r@.finite() && crate::exact::value(r)
            == crate::exact::total(
            Seq::new(
                target@.len(),
                |i: int|
                    (crate::exact::value(artifact@[i]) - crate::exact::value(target@[i])) * (
                    crate::exact::value(artifact@[i]) - crate::exact::value(target@[i])),
            ),
        ) + ((artifact@.len() - target@.len()) as real),
{
    if artifact@.len() >= target@.len() {
        let (squares, total, m, n, d) = choose|
            squares: Seq<Scalar>,
            total: Scalar,
            m: Scalar,
            n: Scalar,
            d: Scalar,
        |
            {
                &&& crate::evaluator::squared_distances(&ops, artifact@, target@, squares)
                &&& #[trigger] crate::arithmetic::is_sum(&ops, squares, total)
                &&& crate::arithmetic::counts(&ops, artifact@.len(), m)
                &&& crate::arithmetic::counts(&ops, target@.len(), n)
                &&& #[trigger] crate::arithmetic::subtracts(&ops, m, n, d)
                &&& crate::arithmetic::adds(&ops, total, crate::scalar::absolute(d), r)
            };
        let gaps = Seq::new(
            target@.len(),
            |i: int|
                (crate::exact::value(artifact@[i]) - crate::exact::value(target@[i])) * (
                crate::exact::value(artifact@[i]) - crate::exact::value(target@[i])),
        );
        assert forall|i: int| 0 <= i < squares.len() implies (#[trigger] squares[i])@.finite()
            && crate::exact::value(squares[i]) == gaps[i] by {
            assert(crate::evaluator::squared_gap(&ops, artifact@[i], target@[i], squares[i]));
            assert(artifact@[i]@.finite() && target@[i]@.finite());
        }
        crate::exact::lemma_sum_is_the_total(&ops, squares, total);
        assert(crate::exact::values(squares) =~= gaps);
        crate::exact::lemma_signs(d);
        assert((artifact@.len() - target@.len()) as real == (artifact@.len() as real) - (
        target@.len() as real));
    }
}

proof fn lemma_swing<A: Arithmetic>(ops: &A, numerator: u64, r: Scalar)
    requires
        crate::exact::exact(ops),
        numerator < 0x20_0000_0000_0000,
        crate::proposer::is_swing(ops, numerator, r),
    ensures
        r@.finite(),
        crate::exact::value(r) == 2real * ((numerator as real) / 9007199254740992real) - 1real,
{
    let (whole, unit, twice) = choose|whole: Scalar, unit: Scalar, twice: Scalar|
        {
            &&& crate::arithmetic::counts(ops, numerator as nat, whole)
            &&& #[trigger] crate::arithmetic::divides(
                ops,
                whole,
                Scalar { bits: FRACTIONS },
                unit,
            )
            &&& #[trigger] crate::arithmetic::multiplies(ops, unit, Scalar { bits: TWO }, twice)
            &&& crate::arithmetic::subtracts(ops, twice, Scalar { bits: ONE }, r)
        };
    crate::exact::lemma_constants();
    assert(crate::scenario::is_unit(ops, numerator, unit));
    crate::scenario_laws::lemma_unit(ops, numerator, unit);
}

proof fn lemma_clamped(x: Scalar, lo: Scalar, hi: Scalar)
    requires
        x@.finite(),
        lo@.finite(),
        hi@.finite(),
    ensures
        crate::scalar::clamped(x, lo, hi)@.finite(),
        crate::exact::value(crate::scalar::clamped(x, lo, hi)) == crate::exact::clamp(
            crate::exact::value(x),
            crate::exact::value(lo),
            crate::exact::value(hi),
        ),
{
    crate::exact::lemma_value_orders(x, lo);
    crate::exact::lemma_value_orders(hi, x);
}

/// A local proposal moves every knob by the step times a number between minus one and one, drawn
/// uniformly from the stream of the iteration, and confines it to the box. An empty baseline gets
/// one knob, which is such a number.
pub proof fn law_local_proposal<A: Arithmetic>(
    p: LocalProposer<A>,
    baseline: Artifact,
    history: &[AttemptRow],
    n: usize,
    c: Candidate,
    i: int,
)
    requires
        crate::exact::exact(&p.arithmetic()),
        p.reach()@.finite(),
        p.lower()@.finite(),
        p.upper()@.finite(),
        crate::exact::all_finite(baseline@),
        call_ensures(LocalProposer::<A>::propose, (&p, &baseline, history, n), c),
        0 <= i < c.artifact@.len(),
    ensures
        baseline@.len() > 0 ==> c.artifact@.len() == baseline@.len(),
        baseline@.len() == 0 ==> c.artifact@.len() == 1,
        c.artifact@[i]@.finite(),
        ({
            let draw = crate::rng::unit_draw(
                crate::rng::derived_seed(p.seed(), n as u64),
                i as nat,
            );
            let swing = 2real * ((draw as real) / 9007199254740992real) - 1real;
            let moved = if baseline@.len() > 0 {
                crate::exact::value(baseline@[i]) + swing * crate::exact::value(p.reach())
            } else {
                swing
            };
            crate::exact::value(c.artifact@[i]) == crate::exact::clamp(
                moved,
                crate::exact::value(p.lower()),
                crate::exact::value(p.upper()),
            )
        }),
{
    let ops = p.arithmetic();
    let seed = crate::rng::derived_seed(p.seed(), n as u64);
    let draw = crate::rng::unit_draw(seed, i as nat);
    crate::rng::lemma_draws_are_fractions(seed, i as nat);
    if baseline@.len() == 0 {
        let s = choose|s: Scalar|
            #![trigger crate::proposer::is_swing(&ops, draw, s)]
            crate::proposer::is_swing(&ops, draw, s) && c.artifact@[i] == crate::scalar::clamped(
                s,
                p.lower(),
                p.upper(),
            );
        lemma_swing(&ops, draw, s);
        lemma_clamped(s, p.lower(), p.upper());
    } else {
        assert(p.may_move(n as nat, i, baseline@[i], c.artifact@[i]));
        let (s, delta, moved) = choose|s: Scalar, delta: Scalar, moved: Scalar|
            {
                &&& crate::proposer::is_swing(&ops, draw, s)
                &&& #[trigger] crate::arithmetic::multiplies(&ops, s, p.reach(), delta)
                &&& #[trigger] crate::arithmetic::adds(&ops, baseline@[i], delta, moved)
                &&& c.artifact@[i] == crate::scalar::clamped(moved, p.lower(), p.upper())
            };
        lemma_swing(&ops, draw, s);
        assert(baseline@[i]@.finite());
        lemma_clamped(moved, p.lower(), p.upper());
    }
}

/// A sweep is sorted: of two candidates in its ranking the earlier one has the better score, or
/// the same and came first; and no crash comes before a candidate whose score is finite.
pub proof fn law_sweep_is_sorted<E: Evaluator>(
    evaluator: E,
    candidates: &[Candidate],
    ranked: Vec<SweepResult>,
    k: int,
    l: int,
)
    requires
        call_ensures(crate::engine::sweep::<E>, (&evaluator, candidates), ranked),
        0 <= k < l < ranked@.len(),
    ensures
        ranked@.len() == candidates@.len(),
        ranked@[k].index < candidates@.len(),
        ranked@[k].index != ranked@[l].index,
        ranked@[k].artifact@ == candidates@[ranked@[k].index as int].artifact@,
        ranked@[k].description@ == candidates@[ranked@[k].index as int].description@,
        evaluator.may_score(ranked@[k].artifact@, ranked@[k].metric_value),
        ranked@[l].metric_value@.finite() ==> ranked@[k].metric_value@.finite(),
        ranked@[l].metric_value@.finite() ==> {
            let a = crate::exact::value(ranked@[k].metric_value);
            let b = crate::exact::value(ranked@[l].metric_value);
            &&& match evaluator.frozen_metric().direction {
                Direction::Minimize => a <= b,
                Direction::Maximize => a >= b,
            }
            &&& a == b ==> ranked@[k].index < ranked@[l].index
        },
        !ranked@[k].metric_value@.finite() ==> ranked@[k].index < ranked@[l].index,
{
    let x = ranked@[k];
    let y = ranked@[l];
    assert(x.stands_for(&evaluator, candidates@));
    assert(y.stands_for(&evaluator, candidates@));
    assert(x.leads(evaluator.frozen_metric().direction, y));
    if x.metric_value@.finite() && y.metric_value@.finite() {
        crate::exact::lemma_value_orders(x.metric_value, y.metric_value);
        crate::exact::lemma_value_orders(y.metric_value, x.metric_value);
    }
}

/// Every entry of a sweep holds one of the candidates with a score of it.
pub proof fn law_sweep_entries<E: Evaluator>(
    evaluator: E,
    candidates: &[Candidate],
    ranked: Vec<SweepResult>,
    k: int,
)
    requires
        call_ensures(crate::engine::sweep::<E>, (&evaluator, candidates), ranked),
        0 <= k < candidates@.len(),
    ensures
        ranked@.len() == candidates@.len(),
        ranked@[k].index < candidates@.len(),
        ranked@[k].artifact@ == candidates@[ranked@[k].index as int].artifact@,
        ranked@[k].description@ == candidates@[ranked@[k].index as int].description@,
        evaluator.may_score(ranked@[k].artifact@, ranked@[k].metric_value),
{
    assert(ranked@[k].stands_for(&evaluator, candidates@));
}

/// A sweep of proposals scores as many as were asked for: entry by entry what was proposed, under
/// its number, from the baseline and the history that were given, the best first.
pub proof fn law_scenario_sweep<E: Evaluator, P: Proposer>(
    evaluator: E,
    proposer: P,
    baseline: Artifact,
    n: usize,
    history: &[AttemptRow],
    ranked: Vec<SweepResult>,
    k: int,
    l: int,
) -> (c: Candidate)
    requires
        call_ensures(
            crate::engine::scenario_sweep::<E, P>,
            (&evaluator, &proposer, &baseline, n, history),
            ranked,
        ),
        0 <= k <= l < n,
    ensures
        ranked@.len() == n,
        ranked@[k].index < n,
        proposer.may_propose(baseline@, history@, ranked@[k].index as nat, c),
        ranked@[k].artifact@ == c.artifact@,
        ranked@[k].description@ == c.description@,
        evaluator.may_score(c.artifact@, ranked@[k].metric_value),
        k < l ==> ranked@[k].index != ranked@[l].index,
        k < l && ranked@[l].metric_value@.finite() ==> ranked@[k].metric_value@.finite() && {
            let a = crate::exact::value(ranked@[k].metric_value);
            let b = crate::exact::value(ranked@[l].metric_value);
            match evaluator.frozen_metric().direction {
                Direction::Minimize => a <= b,
                Direction::Maximize => a >= b,
            }
        },
{
    let candidates = choose|candidates: Seq<Candidate>|
        {
            &&& candidates.len() == n
            &&& forall|j: int|
                0 <= j < n ==> proposer.may_propose(
                    baseline@,
                    history@,
                    j as nat,
                    #[trigger] candidates[j],
                )
            &&& #[trigger] crate::engine::swept(&evaluator, candidates, ranked@)
        };
    let x = ranked@[k];
    let y = ranked@[l];
    assert(x.stands_for(&evaluator, candidates));
    assert(y.stands_for(&evaluator, candidates));
    if k < l {
        assert(x.leads(evaluator.frozen_metric().direction, y));
        if x.metric_value@.finite() && y.metric_value@.finite() {
            crate::exact::lemma_value_orders(x.metric_value, y.metric_value);
            crate::exact::lemma_value_orders(y.metric_value, x.metric_value);
        }
    }
    candidates[x.index as int]
}

/// A swarm is the sweep of as many proposals as its mode allows.
pub proof fn law_swarm_is_a_sweep<E: Evaluator, P: Proposer>(
    evaluator: E,
    proposer: P,
    baseline: Artifact,
    n: usize,
    mode: SwarmMode,
    history: &[AttemptRow],
    r: SwarmResult,
    k: int,
) -> (c: Candidate)
    requires
        call_ensures(
            crate::engine::spawn_swarm::<E, P>,
            (&evaluator, &proposer, &baseline, n, mode, history),
            r,
        ),
        0 <= k < r.ranked@.len(),
    ensures
        r.ranked@[k].index < r.ranked@.len(),
        proposer.may_propose(baseline@, history@, r.ranked@[k].index as nat, c),
        r.ranked@[k].artifact@ == c.artifact@,
        r.ranked@[k].description@ == c.description@,
        evaluator.may_score(c.artifact@, r.ranked@[k].metric_value),
{
    let size = crate::engine::swarm_size(mode, n as nat);
    let candidates = choose|candidates: Seq<Candidate>|
        {
            &&& candidates.len() == size
            &&& forall|j: int|
                0 <= j < size ==> proposer.may_propose(
                    baseline@,
                    history@,
                    j as nat,
                    #[trigger] candidates[j],
                )
            &&& #[trigger] crate::engine::swept(&evaluator, candidates, r.ranked@)
        };
    assert(r.ranked@[k].stands_for(&evaluator, candidates));
    candidates[r.ranked@[k].index as int]
}

/// A swarm makes the proposals that were asked for, four at most for a team.
pub proof fn law_swarm_size<E: Evaluator, P: Proposer>(
    evaluator: E,
    proposer: P,
    baseline: Artifact,
    n: usize,
    mode: SwarmMode,
    history: &[AttemptRow],
    r: SwarmResult,
)
    requires
        call_ensures(
            crate::engine::spawn_swarm::<E, P>,
            (&evaluator, &proposer, &baseline, n, mode, history),
            r,
        ),
    ensures
        mode is Subagent ==> r.ranked@.len() == n && r.mode_subagent,
        mode is AgentTeam ==> !r.mode_subagent,
        mode is AgentTeam && n <= 4 ==> r.ranked@.len() == n,
        mode is AgentTeam && n > 4 ==> r.ranked@.len() == 4,
{
}

/// The recent rows are the last ones of the log, as many as were asked for or as there are, in
/// order.
pub proof fn law_recent_rows(log: AttemptLog, n: usize, r: &[AttemptRow], i: int)
    requires
        call_ensures(AttemptLog::recent, (&log, n), r),
        0 <= i < r@.len(),
    ensures
        r@.len() == (if n < log@.len() {
            n as int
        } else {
            log@.len() as int
        }),
        r@[r@.len() - 1 - i] == log@[log@.len() - 1 - i],
{
}

/// The number of kept attempts is the number of rows with the status `keep`.
pub proof fn law_kept_rows_are_counted(log: AttemptLog, n: usize)
    requires
        call_ensures(AttemptLog::n_kept, (&log,), n),
    ensures
        n == log@.filter(|row: AttemptRow| row.status@ == "keep"@).len(),
{
    lemma_kept_rows(log@);
}

proof fn lemma_kept_rows(rows: Seq<AttemptRow>)
    ensures
        crate::attempt_log::kept_hashes(rows).len() == rows.filter(
            |row: AttemptRow| row.status@ == "keep"@,
        ).len(),
    decreases rows.len(),
{
    reveal(Seq::filter);
    if rows.len() > 0 {
        lemma_kept_rows(rows.drop_last());
    }
}

/// The row of an iteration tells what the iteration did: its number, commit, score and
/// description, the baseline that it left, and `crash`, `keep` or `revert`.
pub proof fn law_rows_tell_the_iteration<E: Evaluator, P: Proposer, R: Ratchet>(
    before: Run<E, P, R>,
    iter: usize,
    after: Run<E, P, R>,
    r: IterationResult,
)
    requires
        before.stepped(iter, &after, r),
    ensures
        after.log@.len() == before.log@.len() + 1,
        forall|i: int|
            0 <= i < before.log@.len() ==> #[trigger] after.log@[i] == before.log@[i],
        ({
            let row = after.log@[before.log@.len() as int];
            &&& r.iter == iter
            &&& row.iter == iter
            &&& row.commit7@ == r.commit7@
            &&& row.metric_value == r.metric_value
            &&& row.metric_name@ == before.evaluator.frozen_metric().name@
            &&& row.description@ == r.description@
            &&& row.baseline_value == after.baseline_value
            &&& r.baseline_value == after.baseline_value
            &&& row.peak_mem_gb == r.peak_mem_gb
            &&& !r.metric_value@.finite() ==> row.status@ == "crash"@
            &&& r.is_kept() ==> row.status@ == "keep"@
            &&& r.metric_value@.finite() && !r.is_kept() ==> row.status@ == "revert"@
        }),
{
}

/// An iteration is stalled for `n` iterations exactly when none of the last `n` was kept.
proof fn lemma_stalled(results: Seq<IterationResult>, n: int)
    requires
        n >= 0,
    ensures
        crate::engine::stalled(results) <= results.len(),
        crate::engine::stalled(results) >= n <==> results.len() >= n && forall|i: int|
            results.len() - n <= i < results.len() ==> !(#[trigger] results[i]).is_kept(),
    decreases results.len(),
{
    if results.len() > 0 {
        let init = results.drop_last();
        if n > 0 {
            lemma_stalled(init, n - 1);
            if results.last().is_kept() {
                assert(results[results.len() - 1].is_kept());
            } else {
                if results.len() >= n && forall|i: int|
                    results.len() - n <= i < results.len() ==> !(#[trigger] results[i]).is_kept() {
                    assert forall|i: int| init.len() - (n - 1) <= i < init.len() implies !(
                    #[trigger] init[i]).is_kept() by {
                        assert(init[i] == results[i]);
                    }
                }
                if init.len() >= n - 1 && forall|i: int|
                    init.len() - (n - 1) <= i < init.len() ==> !(#[trigger] init[i]).is_kept() {
                    assert forall|i: int| results.len() - n <= i < results.len() implies !(
                    #[trigger] results[i]).is_kept() by {
                        if i < init.len() {
                            assert(init[i] == results[i]);
                        }
                    }
                }
            }
        } else {
            lemma_stalled(init, 0);
        }
    }
}

/// A loop that stops without improvement for `n` iterations stops the first time that the last `n`
/// of them kept nothing: they did not, and before every earlier end of `n` or more one was kept
/// among the last `n`.
pub proof fn law_loop_ends_when_stalled(n: usize, results: Seq<IterationResult>, k: int)
    requires
        n > 0,
        !crate::engine::due(StopCondition::NoImprovementFor(n), results),
        forall|j: int|
            0 <= j < results.len() ==> crate::engine::due(
                StopCondition::NoImprovementFor(n),
                #[trigger] results.take(j),
            ),
        n <= k < results.len(),
    ensures
        results.len() >= n,
        forall|i: int| results.len() - n <= i < results.len() ==> !(#[trigger] results[i]).is_kept(),
        exists|i: int| k - n <= i < k && (#[trigger] results[i]).is_kept(),
{
    lemma_stalled(results, n as int);
    let early = results.take(k);
    lemma_stalled(early, n as int);
    assert(crate::engine::due(StopCondition::NoImprovementFor(n), early));
    let i = choose|i: int| early.len() - n <= i < early.len() && (#[trigger] early[i]).is_kept();
    assert(results[i] == early[i]);
}

/// A loop with a limit runs as many iterations as the limit says, and one that runs once runs one.
pub proof fn law_loop_ends_at_its_limit(stop: StopCondition, results: Seq<IterationResult>)
    requires
        !crate::engine::due(stop, results),
        forall|j: int|
            0 <= j < results.len() ==> crate::engine::due(stop, #[trigger] results.take(j)),
    ensures
        stop matches StopCondition::MaxIterations(n) ==> results.len() == n,
        stop is Once ==> results.len() == 1,
{
    let n: int = match stop {
        StopCondition::MaxIterations(n) => n as int,
        _ => 1,
    };
    if 0 <= n < results.len() && !(stop is NoImprovementFor) {
        assert(crate::engine::due(stop, results.take(n)));
    }
}

/// Is rounding to a whole number off by a half at most?
pub open spec fn rounds_to_nearest<A: Arithmetic>(ops: &A) -> bool {
    forall|x: Scalar, r: Scalar| #[trigger]
        crate::arithmetic::rounds(ops, x, r) && x@.finite() ==> r@.finite()
            && crate::exact::magnitude(crate::exact::value(r) - crate::exact::value(x)) * 2real
            <= 1real
}

/// The memory proxy is one gigabyte plus eight bytes for each knob, to three places: off by half a
/// thousandth at most.
pub proof fn law_memory_proxy<A: Arithmetic>(ops: &A, knobs: usize, r: Scalar)
    requires
        crate::exact::exact(ops),
        rounds_to_nearest(ops),
        call_ensures(PeakMem::gigabytes::<A>, (&PeakMem::Estimated { knobs }, ops), r),
    ensures
        r@.finite(),
        crate::exact::magnitude(
            crate::exact::value(r) * 1000real - (1real + 8real * (knobs as real) / 1000000000real)
                * 1000real,
        ) * 2real <= 1real,
{
    let (n, bytes, share, size, scaled, rounded) = choose|
        n: Scalar,
        bytes: Scalar,
        share: Scalar,
        size: Scalar,
        scaled: Scalar,
        rounded: Scalar,
    |
        {
            &&& crate::arithmetic::counts(ops, knobs as nat, n)
            &&& #[trigger] crate::arithmetic::multiplies(
                ops,
                n,
                Scalar { bits: crate::attempt_log::KNOB_BYTES },
                bytes,
            )
            &&& #[trigger] crate::arithmetic::divides(
                ops,
                bytes,
                Scalar { bits: crate::attempt_log::GIGABYTE },
                share,
            )
            &&& crate::arithmetic::adds(ops, Scalar { bits: ONE }, share, size)
            &&& #[trigger] crate::arithmetic::multiplies(
                ops,
                size,
                Scalar { bits: crate::attempt_log::THOUSAND },
                scaled,
            )
            &&& #[trigger] crate::arithmetic::rounds(ops, scaled, rounded)
            &&& crate::arithmetic::divides(
                ops,
                rounded,
                Scalar { bits: crate::attempt_log::THOUSAND },
                r,
            )
        };
    crate::exact::lemma_constants();
    crate::exact::law_constants();
    assert((Scalar { bits: 0x408F_4000_0000_0000 })@.finite());
    assert((Scalar { bits: 0x41CD_CD65_0000_0000 })@.finite());
    assert((Scalar { bits: 0x4020_0000_0000_0000 })@.finite());
    let k = knobs as real;
    let s = crate::exact::value(share);
    assert(s == 8real * k / 1000000000real) by (nonlinear_arith)
        requires
            s * 1000000000real == k * 8real,
    ;
}

} // verus!
