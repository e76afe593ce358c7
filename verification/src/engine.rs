//! The engine: the keep-or-revert loop over one artifact, and the ranked sweep over many.
//!
//! One iteration proposes a candidate from the baseline and the recent attempts, commits it,
//! scores it with the frozen evaluator, keeps it when it strictly improved and reverts it
//! otherwise, and logs the attempt. A score that is not finite counts as a crash: it is logged
//! and never kept.
use vstd::prelude::*;

use crate::arithmetic::Arithmetic;
use crate::attempt_log::{make_row, AttemptLog, AttemptRow, PeakMem, Ratchet};
use crate::evaluator::{Artifact, BtMetric, Evaluator, VectorBtEvaluator};
use crate::metric::{Direction, KeepOrRevert, Metric};
use crate::parallel::par_map;
use crate::proposer::{copy_knobs, Candidate, Proposer};
use crate::ranking::rank;
use crate::scalar::{Extended, Scalar, NAN};
use crate::scenario::ScenarioSource;
use crate::text::{decimal, join};

verus! {

/// When to stop the loop. The condition is looked at after each iteration; a limit of zero
/// iterations lets none begin.
#[derive(Debug, Clone, Copy, PartialEq, Eq, Structural)]
pub enum StopCondition {
    /// Stop after this many iterations.
    MaxIterations(usize),
    /// Stop once this many iterations in a row brought no improvement.
    NoImprovementFor(usize),
    /// Run exactly once.
    Once,
}

/// The result of one iteration.
#[derive(Debug)]
pub struct IterationResult {
    pub iter: usize,
    pub commit7: String,
    pub metric_value: Scalar,
    pub baseline_value: Scalar,
    pub peak_mem_gb: PeakMem,
    pub status: KeepOrRevert,
    pub crashed: bool,
    pub description: String,
}

impl Clone for IterationResult {
    fn clone(&self) -> (r: IterationResult)
        ensures
            r == *self,
    {
        IterationResult {
            iter: self.iter,
            commit7: self.commit7.clone(),
            metric_value: self.metric_value,
            baseline_value: self.baseline_value,
            peak_mem_gb: self.peak_mem_gb,
            status: self.status,
            crashed: self.crashed,
            description: self.description.clone(),
        }
    }
}

impl IterationResult {
    /// Was the candidate kept?
    pub open spec fn is_kept(self) -> bool {
        !self.crashed && self.status is Keep
    }

    pub fn kept(&self) -> (r: bool)
        ensures
            r == self.is_kept(),
    {
        !self.crashed && self.status.is_keep()
    }
}

/// A research run: the baseline artifact, the moving parts around it, and the log.
pub struct Run<E: Evaluator, P: Proposer, R: Ratchet> {
    /// The current baseline artifact. It advances on every keep.
    pub target: Artifact,
    /// The frozen evaluator. The proposer never sees it.
    pub evaluator: E,
    pub proposer: P,
    pub ratchet: R,
    pub log: AttemptLog,
    /// The research goal, in words.
    pub goal: String,
    /// The constraints, in words.
    pub conditions: Vec<String>,
    /// The best value so far: the score of the baseline, once there is one.
    pub baseline_value: Scalar,
}

/// The message that the candidate of iteration `iter` is committed under.
pub open spec fn message_text(iter: nat, description: Seq<char>) -> Seq<char> {
    "autoresearch["@ + crate::text::decimal_text(iter) + "]: "@ + description
}

fn commit_message(iter: usize, description: &str) -> (r: String)
    ensures
        r@ == message_text(iter as nat, description@),
{
    let number = decimal(iter as u64);
    let head = join("autoresearch[".to_owned(), number.as_str());
    let mid = join(head, "]: ");
    join(mid, description)
}

/// The decision on a score: a crash, which is a score that is not finite, never keeps.
pub open spec fn judged(direction: Direction, baseline: Extended, value: Extended) -> KeepOrRevert {
    if value.finite() {
        crate::metric::verdict(direction, baseline, value)
    } else {
        KeepOrRevert::Revert
    }
}

/// Scores an artifact; the flag says whether the evaluation crashed, which is that the score is
/// not finite. A panic is not caught here: an evaluator that may panic catches it and scores NaN.
pub fn safe_score<E: Evaluator>(evaluator: &E, artifact: &Artifact) -> (r: (Scalar, bool))
    ensures
        evaluator.may_score(artifact@, r.0),
        r.1 == !r.0@.finite(),
{
    let value = evaluator.score(artifact);
    (value, !value.is_finite())
}

/// The decision on a score of a given metric against a baseline.
pub fn judge(metric: &Metric, baseline: Scalar, value: Scalar, crashed: bool) -> (r: KeepOrRevert)
    requires
        crashed == !value@.finite(),
    ensures
        r == judged(metric.direction, baseline@, value@),
{
    if crashed {
        KeepOrRevert::Revert
    } else {
        metric.decide(baseline, value)
    }
}

/// The number of iterations since the last keep.
pub open spec fn stalled(results: Seq<IterationResult>) -> nat
    decreases results.len(),
{
    if results.len() == 0 || results.last().is_kept() {
        0
    } else {
        stalled(results.drop_last()) + 1
    }
}

/// Does the condition fire after `done` iterations, the last `idle` of them without a keep?
pub open spec fn fires(stop: StopCondition, done: nat, idle: nat) -> bool {
    match stop {
        StopCondition::MaxIterations(n) => done >= n,
        StopCondition::NoImprovementFor(n) => idle >= n,
        StopCondition::Once => true,
    }
}

/// Should the loop stop after `done` iterations, the last `idle` of them without a keep?
pub fn should_stop(stop: StopCondition, done: usize, idle: usize) -> (r: bool)
    ensures
        r == fires(stop, done as nat, idle as nat),
{
    match stop {
        StopCondition::Once => true,
        StopCondition::MaxIterations(n) => done >= n,
        StopCondition::NoImprovementFor(n) => idle >= n,
    }
}

/// Is another iteration due, after those with these results?
pub open spec fn due(stop: StopCondition, results: Seq<IterationResult>) -> bool {
    if results.len() == 0 {
        stop != StopCondition::MaxIterations(0)
    } else {
        !fires(stop, results.len(), stalled(results))
    }
}

/// How far a loop has come: the results so far, and how many of the last iterations brought no
/// keep.
pub struct Progress {
    results: Vec<IterationResult>,
    idle: usize,
}

impl View for Progress {
    type V = Seq<IterationResult>;

    /// The results so far.
    closed spec fn view(&self) -> Seq<IterationResult> {
        self.results@
    }
}

impl Progress {
    /// The count of idle iterations is right.
    pub closed spec fn sound(&self) -> bool {
        self.idle == stalled(self.results@) && self.idle <= self.results@.len()
    }

    pub fn new() -> (r: Progress)
        ensures
            r.sound(),
            r@ == Seq::<IterationResult>::empty(),
    {
        Progress { results: Vec::new(), idle: 0 }
    }

    /// Is another iteration due?
    pub fn is_due(&self, stop: StopCondition) -> (r: bool)
        requires
            self.sound(),
        ensures
            r == due(stop, self@),
    {
        if self.results.len() == 0 {
            match stop {
                StopCondition::MaxIterations(n) => n > 0,
                _ => true,
            }
        } else {
            !should_stop(stop, self.results.len(), self.idle)
        }
    }

    fn record(&mut self, r: IterationResult)
        requires
            old(self).sound(),
        ensures
            final(self).sound(),
            final(self)@ == old(self)@.push(r),
    {
        let kept: bool = r.kept();
        self.results.push(r);
        assert(self.results@.drop_last() == old(self).results@);
        assert(self.results.len() == self.results@.len());
        self.idle = if kept {
            0
        } else {
            self.idle + 1
        };
    }

    /// The results of all iterations.
    pub fn into_results(self) -> (r: Vec<IterationResult>)
        ensures
            r@ == self@,
    {
        self.results
    }
}

/// A bound on how many times in a row a value can still be improved on.
spec fn headroom(direction: Direction, v: Scalar) -> nat {
    let span = 0x8000_0000_0000_0000int;
    if v@ is Nan {
        (2 * span) as nat
    } else {
        match direction {
            Direction::Minimize => (span + crate::scalar::place(v.bits)) as nat,
            Direction::Maximize => (span - crate::scalar::place(v.bits)) as nat,
        }
    }
}

proof fn lemma_headroom_shrinks(direction: Direction, before: Scalar, after: Scalar)
    requires
        crate::metric::better(direction, before@, after@),
    ensures
        headroom(direction, after) < headroom(direction, before),
{
    if !(before@ is Nan) {
        crate::scalar::lemma_place_orders(before, after);
    }
}

impl<E: Evaluator, P: Proposer, R: Ratchet> Run<E, P, R> {
    /// The direction of the metric.
    pub open spec fn direction(&self) -> Direction {
        self.evaluator.frozen_metric().direction
    }

    /// The baseline value is a score of the baseline artifact.
    pub open spec fn anchored(&self) -> bool {
        self.evaluator.may_score(self.target@, self.baseline_value)
    }

    /// The ratchet's history and the log tell the same: the kept commits are those of the
    /// attempts with the status `keep`, in order.
    pub open spec fn consistent(&self) -> bool {
        self.ratchet.kept() == crate::attempt_log::kept_hashes(self.log@)
    }

    /// Does `after` differ from `self` in the baseline, the ratchet and the log only?
    pub open spec fn same_setup(&self, after: &Self) -> bool {
        &&& after.evaluator == self.evaluator
        &&& after.proposer == self.proposer
        &&& after.goal == self.goal
        &&& after.conditions == self.conditions
        &&& after.log.file() == self.log.file()
    }

    /// A run that starts at `target`, with the worst value as its baseline.
    pub fn new(target: Artifact, evaluator: E, proposer: P, ratchet: R, log: AttemptLog) -> (run:
        Self)
        ensures
            run.target == target,
            run.evaluator == evaluator,
            run.proposer == proposer,
            run.ratchet == ratchet,
            run.log == log,
            run.goal@ == Seq::<char>::empty(),
            run.conditions@ == Seq::<String>::empty(),
            run.baseline_value@ == crate::metric::worst_value(evaluator.frozen_metric().direction),
            log@.len() == 0 && ratchet.kept().len() == 0 ==> run.consistent(),
    {
        let worst = evaluator.metric().worst();
        proof {
            if log@.len() == 0 && ratchet.kept().len() == 0 {
                assert(ratchet.kept() =~= crate::attempt_log::kept_hashes(log@));
            }
        }
        Run {
            target,
            evaluator,
            proposer,
            ratchet,
            log,
            goal: String::new(),
            conditions: Vec::new(),
            baseline_value: worst,
        }
    }

    pub fn with_goal(self, goal: &str) -> (run: Self)
        ensures
            run.goal@ == goal@,
            run == (Run { goal: run.goal, ..self }),
    {
        let mut run = self;
        run.goal = goal.to_owned();
        run
    }

    pub fn with_conditions(self, conditions: Vec<String>) -> (run: Self)
        ensures
            run == (Run { conditions, ..self }),
    {
        let mut run = self;
        run.conditions = conditions;
        run
    }

    pub fn metric(&self) -> (r: &Metric)
        ensures
            *r == self.evaluator.frozen_metric(),
    {
        self.evaluator.metric()
    }

    pub fn baseline_value(&self) -> (r: Scalar)
        ensures
            r == self.baseline_value,
    {
        self.baseline_value
    }

    /// Scores the current baseline and makes that its value, so that the first candidate is
    /// compared against a real one. An empty baseline, or one whose score is not finite,
    /// changes nothing.
    pub fn establish_baseline(&mut self)
        ensures
            old(self).established(final(self)),
    {
        if self.target.len() > 0 {
            let value = self.evaluator.score(&self.target);
            if value.is_finite() {
                self.baseline_value = value;
            }
        }
    }

    /// One iteration with everything that it met: the candidate `c`, the ratchet `mid` after
    /// the commit, and the answer `ok` to the decision.
    pub open spec fn iterated(
        &self,
        iter: usize,
        c: Candidate,
        mid: R,
        ok: bool,
        after: &Self,
        r: IterationResult,
    ) -> bool {
        let metric = self.evaluator.frozen_metric();
        let decision = judged(metric.direction, self.baseline_value@, r.metric_value@);
        let row = after.log@.last();
        // What was handed on, and to whom.
        &&& self.proposer.may_propose(
            self.target@,
            crate::attempt_log::latest(self.log@, 16),
            iter as nat,
            c,
        )
        &&& self.ratchet.may_commit(message_text(iter as nat, c.description@), r.commit7@, &mid)
        &&& mid.may_apply(
            decision,
            ok,
            &after.ratchet,
        )
        // What came out.
        &&& r.iter == iter
        &&& self.evaluator.may_score(c.artifact@, r.metric_value)
        &&& r.crashed == !r.metric_value@.finite()
        &&& r.status == decision
        &&& r.description@ == c.description@
        &&& r.peak_mem_gb == (PeakMem::Estimated { knobs: c.artifact@.len() as usize })
        &&& r.baseline_value
            == after.baseline_value
        // What became of the run.
        &&& self.same_setup(after)
        &&& decision is Keep ==> after.target@ == c.artifact@ && after.baseline_value == r.metric_value
        &&& decision is Revert ==> after.target@ == self.target@ && after.baseline_value
            == self.baseline_value
        &&& after.ratchet.kept() == (if decision is Keep {
            self.ratchet.kept().push(r.commit7@)
        } else {
            self.ratchet.kept()
        })
        &&& after.log@ == self.log@.push(row)
        &&& row.iter == iter
        &&& row.commit7@ == r.commit7@
        &&& row.metric_name@ == metric.name@
        &&& row.metric_value == r.metric_value
        &&& row.baseline_value == after.baseline_value
        &&& row.peak_mem_gb == r.peak_mem_gb
        &&& row.status@ == crate::attempt_log::status_text(Some(decision), r.crashed)
        &&& row.description@ == c.description@
        &&& crate::attempt_log::is_present(row.ts)
    }

    /// One iteration, whatever it met.
    pub open spec fn stepped(&self, iter: usize, after: &Self, r: IterationResult) -> bool {
        exists|c: Candidate, mid: R, ok: bool| #[trigger] self.iterated(iter, c, mid, ok, after, r)
    }

    /// One propose, commit, score, keep-or-revert, log cycle.
    pub fn run_iteration(&mut self, iter: usize) -> (r: IterationResult)
        ensures
            old(self).stepped(iter, final(self), r),
    {
        let candidate = self.proposer.propose(&self.target, self.log.recent(16), iter);
        let message = commit_message(iter, candidate.description.as_str());
        let commit7 = self.ratchet.commit_candidate(message.as_str());
        let ghost mid = self.ratchet;
        let (value, crashed) = safe_score(&self.evaluator, &candidate.artifact);
        let decision = judge(self.evaluator.metric(), self.baseline_value, value, crashed);
        let ok = self.ratchet.apply(decision);
        if decision.is_keep() {
            self.target = copy_knobs(candidate.artifact.as_slice());
            self.baseline_value = value;
        }
        let peak = PeakMem::Estimated { knobs: candidate.artifact.len() };
        let row = make_row(
            iter,
            commit7.clone(),
            self.evaluator.metric().name.as_str(),
            value,
            self.baseline_value,
            peak,
            Some(decision),
            crashed,
            candidate.description.clone(),
        );
        self.log.append(row);
        let r = IterationResult {
            iter,
            commit7,
            metric_value: value,
            baseline_value: self.baseline_value,
            peak_mem_gb: peak,
            status: decision,
            crashed,
            description: candidate.description.clone(),
        };
        assert(old(self).iterated(iter, candidate, mid, ok, self, r));
        r
    }

    /// The states that a loop goes through, one before each iteration and one after the last:
    /// iteration `k` leads from state `k` to state `k + 1` and gives result `k`.
    pub open spec fn is_trace(trace: Seq<Self>, results: Seq<IterationResult>) -> bool {
        &&& trace.len() == results.len() + 1
        &&& forall|k: int|
            0 <= k < results.len() ==> trace[k].stepped(
                k as usize,
                &trace[k + 1],
                #[trigger] results[k],
            )
    }

    /// Establishing the baseline leads from `self` to `after`.
    pub open spec fn established(&self, after: &Self) -> bool {
        &&& self.same_setup(after)
        &&& after.target == self.target
        &&& after.ratchet == self.ratchet
        &&& after.log == self.log
        &&& if self.target@.len() == 0 {
            after.baseline_value == self.baseline_value
        } else {
            exists|value: Scalar| #[trigger]
                self.evaluator.may_score(self.target@, value) && after.baseline_value == (
                if value@.finite() {
                    value
                } else {
                    self.baseline_value
                })
        }
    }

    /// The whole loop leads from `self` to `after`: the baseline is established, then the
    /// iterations follow each other through the states of `trace`.
    pub open spec fn looped(
        &self,
        trace: Seq<Self>,
        results: Seq<IterationResult>,
        after: &Self,
    ) -> bool {
        &&& Self::is_trace(trace, results)
        &&& self.established(&trace[0])
        &&& trace.last() == after
    }

    /// One step of the loop: the next iteration, where one is due. Says whether there was one.
    pub fn step(&mut self, stop: StopCondition, progress: &mut Progress) -> (went_on: bool)
        requires
            old(progress).sound(),
        ensures
            final(progress).sound(),
            went_on == due(stop, old(progress)@),
            went_on ==> {
                let r = final(progress)@.last();
                &&& old(self).stepped(old(progress)@.len() as usize, final(self), r)
                &&& final(progress)@ == old(progress)@.push(r)
            },
            !went_on ==> *final(self) == *old(self) && *final(progress) == *old(progress),
    {
        if !progress.is_due(stop) {
            return false;
        }
        let iter: usize = progress.results.len();
        let r = self.run_iteration(iter);
        progress.record(r);
        true
    }

    /// Establishes the baseline, then iterates as long as `stop` lets it, and not once more.
    /// Returns the result of every iteration.
    pub fn run_loop(&mut self, stop: StopCondition) -> (results: Vec<IterationResult>)
        ensures
            exists|trace: Seq<Self>| #[trigger] old(self).looped(trace, results@, final(self)),
            !due(stop, results@),
            forall|k: int| 0 <= k < results@.len() ==> due(stop, #[trigger] results@.take(k)),
            stop matches StopCondition::MaxIterations(n) ==> results@.len() == n,
            stop is Once ==> results@.len() == 1,
    {
        self.establish_baseline();
        let mut progress = Progress::new();
        let ghost mut trace: Seq<Self> = seq![*self];
        loop
            invariant
                progress.sound(),
                old(self).looped(trace, progress@, self),
                self.evaluator == old(self).evaluator,
                forall|k: int|
                    0 <= k < progress@.len() ==> due(stop, #[trigger] progress@.take(k)),
            ensures
                !due(stop, progress@),
            decreases
                    match stop {
                        StopCondition::NoImprovementFor(_) => headroom(
                            self.direction(),
                            self.baseline_value,
                        ),
                        StopCondition::MaxIterations(n) if progress@.len() < n => (n
                            - progress@.len()) as nat,
                        StopCondition::Once if progress@.len() == 0 => 1,
                        _ => 0,
                    },
                    match stop {
                        StopCondition::NoImprovementFor(n) if progress@.len() == 0 => n as nat + 1,
                        StopCondition::NoImprovementFor(n) if stalled(progress@) < n => (n
                            - stalled(progress@)) as nat,
                        _ => 0,
                    },
        {
            let ghost before = *self;
            let ghost earlier = progress@;
            if !self.step(stop, &mut progress) {
                break;
            }
            proof {
                trace = trace.push(*self);
                assert(progress@.drop_last() == earlier);
                assert forall|k: int| 0 <= k < progress@.len() implies trace[k].stepped(
                    k as usize,
                    &trace[k + 1],
                    #[trigger] progress@[k],
                ) by {
                    if k < earlier.len() {
                        assert(progress@[k] == earlier[k]);
                        assert(trace[k] == trace.drop_last()[k]);
                        assert(trace[k + 1] == trace.drop_last()[k + 1]);
                    }
                }
                assert forall|k: int| 0 <= k < progress@.len() implies due(
                    stop,
                    #[trigger] progress@.take(k),
                ) by {
                    if k < earlier.len() {
                        assert(progress@.take(k) == earlier.take(k));
                    } else {
                        assert(progress@.take(k) == earlier);
                    }
                }
                if progress@.last().is_kept() {
                    lemma_headroom_shrinks(
                        before.direction(),
                        before.baseline_value,
                        self.baseline_value,
                    );
                }
            }
        }
        proof {
            let n: int = match stop {
                StopCondition::MaxIterations(n) => n as int,
                _ => 1,
            };
            if 0 < n < progress@.len() && !(stop is NoImprovementFor) {
                assert(due(stop, progress@.take(n)));
            }
            if progress@.len() > 0 {
                assert(due(stop, progress@.take(0)));
            }
        }
        progress.into_results()
    }

    /// The history of validated improvements: the short hashes of the kept commits.
    pub fn git_history(&self) -> (r: Vec<String>)
        ensures
            crate::text::texts(r@) == self.ratchet.kept(),
    {
        self.ratchet.kept_history()
    }

    /// The number of attempts that were kept.
    pub fn n_kept(&self) -> (n: usize)
        ensures
            n == crate::attempt_log::kept_hashes(self.log@).len(),
    {
        self.log.n_kept()
    }
}

/// An iteration keeps its candidate exactly when the score is finite and strictly
/// better than the baseline value.
pub proof fn law_kept_exactly_on_strict_improvement<E: Evaluator, P: Proposer, R: Ratchet>(
    before: Run<E, P, R>,
    iter: usize,
    after: Run<E, P, R>,
    r: IterationResult,
)
    requires
        before.stepped(iter, &after, r),
    ensures
        r.is_kept() <==> r.metric_value@.finite() && crate::metric::better(
            before.direction(),
            before.baseline_value@,
            r.metric_value@,
        ),
        r.is_kept() <==> after.log@.last().kept(),
{
    reveal_strlit("keep");
    reveal_strlit("revert");
    reveal_strlit("crash");
    assert("keep"@[0] == 'k' && "revert"@[0] == 'r' && "crash"@[0] == 'c');
}

/// A keep advances the baseline: the artifact's value is the new baseline value, strictly better
/// than the one before, and its commit joins the history.
pub proof fn law_keep_advances_the_baseline<E: Evaluator, P: Proposer, R: Ratchet>(
    before: Run<E, P, R>,
    iter: usize,
    after: Run<E, P, R>,
    r: IterationResult,
)
    requires
        before.stepped(iter, &after, r),
        r.is_kept(),
    ensures
        after.anchored(),
        after.baseline_value == r.metric_value,
        crate::metric::better(
            before.direction(),
            before.baseline_value@,
            after.baseline_value@,
        ),
        after.ratchet.kept() == before.ratchet.kept().push(r.commit7@),
{
}

/// A revert holds the baseline: the artifact, its value and the history stay as they were.
pub proof fn law_revert_holds_the_baseline<E: Evaluator, P: Proposer, R: Ratchet>(
    before: Run<E, P, R>,
    iter: usize,
    after: Run<E, P, R>,
    r: IterationResult,
)
    requires
        before.stepped(iter, &after, r),
        !r.is_kept(),
    ensures
        after.target@ == before.target@,
        after.baseline_value == before.baseline_value,
        after.ratchet.kept() == before.ratchet.kept(),
{
}

/// Failures are data: a crash is never kept, and it is logged as a crash.
pub proof fn law_crash_is_logged_and_reverted<E: Evaluator, P: Proposer, R: Ratchet>(
    before: Run<E, P, R>,
    iter: usize,
    after: Run<E, P, R>,
    r: IterationResult,
)
    requires
        before.stepped(iter, &after, r),
        r.crashed,
    ensures
        !r.is_kept(),
        r.status is Revert,
        after.log@.last().status@ == "crash"@,
        after.log@.drop_last() == before.log@,
{
    assert(after.log@.drop_last() == before.log@);
}

/// Once the baseline value is the score of the baseline artifact, it stays so.
pub proof fn law_baseline_stays_anchored<E: Evaluator, P: Proposer, R: Ratchet>(
    before: Run<E, P, R>,
    iter: usize,
    after: Run<E, P, R>,
    r: IterationResult,
)
    requires
        before.stepped(iter, &after, r),
        before.anchored(),
    ensures
        after.anchored(),
{
}

/// The history is the kept part of the log: where the two agree, an iteration leaves them in
/// agreement.
pub proof fn law_history_is_the_kept_part_of_the_log<E: Evaluator, P: Proposer, R: Ratchet>(
    before: Run<E, P, R>,
    iter: usize,
    after: Run<E, P, R>,
    r: IterationResult,
)
    requires
        before.stepped(iter, &after, r),
        before.consistent(),
    ensures
        after.consistent(),
{
    law_kept_exactly_on_strict_improvement(before, iter, after, r);
    assert(after.log@.drop_last() == before.log@);
}

/// What a whole loop does to a run: the evaluator, the proposer, the goal and the conditions
/// are those it began with; every iteration left exactly one row in the log, after those that
/// were there; the history and the log still agree, if they did; and of any two states the
/// later one's baseline value is that of the earlier one or strictly better.
pub proof fn law_loop<E: Evaluator, P: Proposer, R: Ratchet>(
    before: Run<E, P, R>,
    trace: Seq<Run<E, P, R>>,
    results: Seq<IterationResult>,
    after: Run<E, P, R>,
    i: int,
    j: int,
)
    requires
        before.looped(trace, results, &after),
        0 <= i <= j < trace.len(),
    ensures
        before.same_setup(&after),
        after.log@.len() == before.log@.len() + results.len(),
        before.log@ == after.log@.take(before.log@.len() as int),
        before.consistent() ==> after.consistent(),
        trace[j].baseline_value == trace[i].baseline_value || crate::metric::better(
            before.direction(),
            trace[i].baseline_value@,
            trace[j].baseline_value@,
        ),
{
    lemma_trace_prefix(before, trace, results, results.len() as int);
    lemma_trace_prefix(before, trace, results, i);
    lemma_trace_improves(trace, results, i, j);
}

proof fn lemma_trace_prefix<E: Evaluator, P: Proposer, R: Ratchet>(
    before: Run<E, P, R>,
    trace: Seq<Run<E, P, R>>,
    results: Seq<IterationResult>,
    k: int,
)
    requires
        Run::is_trace(trace, results),
        before.established(&trace[0]),
        0 <= k < trace.len(),
    ensures
        before.same_setup(&trace[k]),
        trace[k].log@.len() == before.log@.len() + k,
        before.log@ == trace[k].log@.take(before.log@.len() as int),
        before.consistent() ==> trace[k].consistent(),
    decreases k,
{
    if k > 0 {
        lemma_trace_prefix(before, trace, results, k - 1);
        let prev = trace[k - 1];
        let next = trace[k];
        assert(prev.stepped((k - 1) as usize, &next, results[k - 1]));
        if prev.consistent() {
            law_history_is_the_kept_part_of_the_log(prev, (k - 1) as usize, next, results[k - 1]);
        }
        assert(next.log@.take(before.log@.len() as int) == prev.log@.take(
            before.log@.len() as int,
        ));
    }
}

proof fn lemma_trace_improves<E: Evaluator, P: Proposer, R: Ratchet>(
    trace: Seq<Run<E, P, R>>,
    results: Seq<IterationResult>,
    i: int,
    j: int,
)
    requires
        Run::is_trace(trace, results),
        0 <= i <= j < trace.len(),
    ensures
        trace[i].evaluator == trace[j].evaluator,
        trace[j].baseline_value == trace[i].baseline_value || crate::metric::better(
            trace[i].direction(),
            trace[i].baseline_value@,
            trace[j].baseline_value@,
        ),
    decreases j - i,
{
    if i < j {
        lemma_trace_improves(trace, results, i, j - 1);
        assert(trace[j - 1].stepped((j - 1) as usize, &trace[j], results[j - 1]));
    }
}

/// A loop that begins at a baseline whose score is finite ends at a baseline whose value is its
/// score.
pub proof fn law_loop_ends_anchored<E: Evaluator, P: Proposer, R: Ratchet>(
    before: Run<E, P, R>,
    trace: Seq<Run<E, P, R>>,
    results: Seq<IterationResult>,
    after: Run<E, P, R>,
)
    requires
        before.looped(trace, results, &after),
        before.target@.len() > 0,
        forall|v: Scalar|
            #[trigger] before.evaluator.may_score(before.target@, v) ==> v@.finite(),
    ensures
        after.anchored(),
{
    lemma_trace_anchored(trace, results, results.len() as int);
}

proof fn lemma_trace_anchored<E: Evaluator, P: Proposer, R: Ratchet>(
    trace: Seq<Run<E, P, R>>,
    results: Seq<IterationResult>,
    k: int,
)
    requires
        Run::is_trace(trace, results),
        trace[0].anchored(),
        0 <= k < trace.len(),
    ensures
        trace[k].anchored(),
    decreases k,
{
    if k > 0 {
        lemma_trace_anchored(trace, results, k - 1);
        law_baseline_stays_anchored(
            trace[k - 1],
            (k - 1) as usize,
            trace[k],
            results[k - 1],
        );
    }
}

/// One scored candidate of a sweep; `index` is its place among the candidates.
#[derive(Debug)]
pub struct SweepResult {
    pub index: usize,
    pub artifact: Artifact,
    pub metric_value: Scalar,
    pub description: String,
}

impl Clone for SweepResult {
    fn clone(&self) -> (r: SweepResult)
        ensures
            r.index == self.index,
            r.artifact@ == self.artifact@,
            r.metric_value == self.metric_value,
            r.description@ == self.description@,
    {
        SweepResult {
            index: self.index,
            artifact: copy_knobs(self.artifact.as_slice()),
            metric_value: self.metric_value,
            description: self.description.clone(),
        }
    }
}

/// What a score counts as in a ranking: one that is not finite is a crash, and comes last.
pub open spec fn standing(value: Extended) -> Extended {
    if value.finite() {
        value
    } else {
        Extended::Nan
    }
}

impl SweepResult {
    /// Does this result stand for the candidate at its index, with its score?
    pub open spec fn stands_for<E: Evaluator>(
        self,
        evaluator: &E,
        candidates: Seq<Candidate>,
    ) -> bool {
        &&& self.index < candidates.len()
        &&& self.artifact@ == candidates[self.index as int].artifact@
        &&& self.description@ == candidates[self.index as int].description@
        &&& evaluator.may_score(self.artifact@, self.metric_value)
    }

    /// Does this result rank before the other: by a better score, or level with it and earlier
    /// among the candidates? Crashes come last, level with each other.
    pub open spec fn leads(self, direction: Direction, other: SweepResult) -> bool {
        let ours = standing(self.metric_value@);
        let theirs = standing(other.metric_value@);
        ||| crate::ranking::ahead(direction, ours, theirs)
        ||| !crate::ranking::ahead(direction, theirs, ours) && self.index < other.index
    }
}

/// Is `ranked` the sweep of `candidates`: each one once, with its score, best first?
pub open spec fn swept<E: Evaluator>(
    evaluator: &E,
    candidates: Seq<Candidate>,
    ranked: Seq<SweepResult>,
) -> bool {
    &&& ranked.len() == candidates.len()
    &&& forall|k: int|
        0 <= k < ranked.len() ==> (#[trigger] ranked[k]).stands_for(evaluator, candidates)
    &&& forall|k: int, l: int|
        0 <= k < l < ranked.len() ==> #[trigger] ranked[k].index != #[trigger] ranked[l].index
            && ranked[k].leads(evaluator.frozen_metric().direction, ranked[l])
}

/// The scores as they count in a ranking.
fn standings(values: &[Scalar]) -> (r: Vec<Scalar>)
    ensures
        r@.len() == values@.len(),
        forall|i: int|
            0 <= i < values@.len() ==> (#[trigger] r@[i])@ == standing(values@[i]@),
{
    let mut r: Vec<Scalar> = Vec::new();
    let mut i: usize = 0;
    while i < values.len()
        invariant
            i <= values@.len(),
            r@.len() == i,
            forall|j: int| 0 <= j < i ==> (#[trigger] r@[j])@ == standing(values@[j]@),
        decreases values@.len() - i,
    {
        if values[i].is_finite() {
            r.push(values[i]);
        } else {
            r.push(Scalar::from_bits(NAN));
        }
        i += 1;
    }
    r
}

/// Scores every candidate, in parallel, and ranks them best first: the winner is the first.
/// Candidates of equal score keep their order. Crashes rank last, whatever their score.
pub fn sweep<E: Evaluator>(evaluator: &E, candidates: &[Candidate]) -> (ranked: Vec<SweepResult>)
    ensures
        swept(evaluator, candidates@, ranked@),
{
    let direction = evaluator.metric().direction;
    let score = |c: &Candidate| -> (v: Scalar)
        ensures
            evaluator.may_score(c.artifact@, v),
        {
            let (v, _) = safe_score(evaluator, &c.artifact);
            v
        };
    let values: Vec<Scalar> = par_map(candidates, score);
    let keys = standings(values.as_slice());
    let order = rank(direction, keys.as_slice());
    let mut ranked: Vec<SweepResult> = Vec::new();
    let mut k: usize = 0;
    while k < order.len()
        invariant
            k <= order@.len(),
            ranked@.len() == k,
            values@.len() == candidates@.len(),
            direction == evaluator.frozen_metric().direction,
            keys@.len() == values@.len(),
            crate::ranking::is_ranking(direction, keys@, order@),
            forall|i: int|
                0 <= i < values@.len() ==> (#[trigger] keys@[i])@ == standing(values@[i]@),
            forall|i: int|
                0 <= i < values@.len() ==> evaluator.may_score(
                    candidates@[i].artifact@,
                    #[trigger] values@[i],
                ),
            forall|i: int|
                0 <= i < k ==> {
                    &&& (#[trigger] ranked@[i]).stands_for(evaluator, candidates@)
                    &&& ranked@[i].index == order@[i]
                    &&& ranked@[i].metric_value == values@[order@[i] as int]
                },
        decreases order@.len() - k,
    {
        let index: usize = order[k];
        ranked.push(
            SweepResult {
                index,
                artifact: copy_knobs(candidates[index].artifact.as_slice()),
                metric_value: values[index],
                description: candidates[index].description.clone(),
            },
        );
        k += 1;
    }
    ranked
}

/// Is `ranked` the sweep of `n` candidates, number `k` being one that the proposer can give for
/// iteration `k`?
pub open spec fn explored<E: Evaluator, P: Proposer>(
    evaluator: &E,
    proposer: &P,
    baseline: Seq<Scalar>,
    n: nat,
    history: Seq<AttemptRow>,
    ranked: Seq<SweepResult>,
) -> bool {
    exists|candidates: Seq<Candidate>|
        {
            &&& candidates.len() == n
            &&& forall|k: int|
                0 <= k < n ==> proposer.may_propose(
                    baseline,
                    history,
                    k as nat,
                    #[trigger] candidates[k],
                )
            &&& #[trigger] swept(evaluator, candidates, ranked)
        }
}

/// Proposes `n` candidates from the same baseline and history, and sweeps them.
pub fn scenario_sweep<E: Evaluator, P: Proposer>(
    evaluator: &E,
    proposer: &P,
    baseline: &Artifact,
    n: usize,
    history: &[AttemptRow],
) -> (ranked: Vec<SweepResult>)
    ensures
        explored(evaluator, proposer, baseline@, n as nat, history@, ranked@),
{
    let mut candidates: Vec<Candidate> = Vec::new();
    let mut k: usize = 0;
    while k < n
        invariant
            k <= n,
            candidates@.len() == k,
            forall|i: int|
                0 <= i < k ==> proposer.may_propose(
                    baseline@,
                    history@,
                    i as nat,
                    #[trigger] candidates@[i],
                ),
        decreases n - k,
    {
        candidates.push(proposer.propose(baseline, history, k));
        k += 1;
    }
    sweep(evaluator, candidates.as_slice())
}

/// How a swarm explores: many shallow proposals, or a few.
#[derive(Debug, Clone, Copy, PartialEq, Eq, Structural)]
pub enum SwarmMode {
    Subagent,
    AgentTeam,
}

/// The ranked candidates of a swarm, and the mode that gave them.
#[derive(Debug, Clone)]
pub struct SwarmResult {
    pub mode_subagent: bool,
    pub ranked: Vec<SweepResult>,
}

/// The number of proposals that a swarm asked for `n` makes: four at most for a team.
pub open spec fn swarm_size(mode: SwarmMode, n: nat) -> nat {
    if mode is AgentTeam && n > 4 {
        4
    } else {
        n
    }
}

/// Explores broadly from a baseline, for when a single ratchet stalls.
pub fn spawn_swarm<E: Evaluator, P: Proposer>(
    evaluator: &E,
    proposer: &P,
    baseline: &Artifact,
    n: usize,
    mode: SwarmMode,
    history: &[AttemptRow],
) -> (r: SwarmResult)
    ensures
        r.mode_subagent == (mode is Subagent),
        explored(
            evaluator,
            proposer,
            baseline@,
            swarm_size(mode, n as nat),
            history@,
            r.ranked@,
        ),
{
    let count: usize = match mode {
        SwarmMode::Subagent => n,
        SwarmMode::AgentTeam => if n > 4 {
            4
        } else {
            n
        },
    };
    let ranked = scenario_sweep(evaluator, proposer, baseline, count, history);
    assert(count == swarm_size(mode, n as nat));
    SwarmResult { mode_subagent: mode == SwarmMode::Subagent, ranked }
}

/// A backtest over the paths of a scenario source.
pub fn vectorbt_evaluator_from_source<A: Arithmetic, S: ScenarioSource>(
    ops: A,
    source: &S,
    n_scenarios: usize,
    horizon: usize,
    seed: u64,
    bt: BtMetric,
) -> (r: VectorBtEvaluator<A>)
    ensures
        r.arithmetic() == ops,
        r.kernel() == bt,
        source.may_roll(n_scenarios as nat, horizon as nat, seed, r.paths()),
        call_ensures(S::paths_are_prices, (source,), r.prices()),
        r.frozen_metric().name@ == bt.label(),
        r.frozen_metric().direction == bt.heading(),
{
    let paths = source.rollout(n_scenarios, horizon, seed);
    VectorBtEvaluator::new(ops, bt, paths, source.paths_are_prices())
}

/// No candidate of a sweep is strictly ahead of the winner.
pub proof fn law_winner_is_unbeaten<E: Evaluator>(
    evaluator: &E,
    candidates: Seq<Candidate>,
    ranked: Seq<SweepResult>,
    k: int,
)
    requires
        swept(evaluator, candidates, ranked),
        0 <= k < ranked.len(),
    ensures
        !crate::ranking::ahead(
            evaluator.frozen_metric().direction,
            standing(ranked[k].metric_value@),
            standing(ranked[0].metric_value@),
        ),
{
    if k > 0 {
        assert(ranked[0].leads(evaluator.frozen_metric().direction, ranked[k]));
    }
}

/// A crash never ranks before a candidate whose score is finite; so a crash wins only where
/// every candidate crashed.
pub proof fn law_crashes_rank_last<E: Evaluator>(
    evaluator: &E,
    candidates: Seq<Candidate>,
    ranked: Seq<SweepResult>,
    k: int,
    l: int,
)
    requires
        swept(evaluator, candidates, ranked),
        0 <= k < l < ranked.len(),
        !ranked[k].metric_value@.finite(),
    ensures
        !ranked[l].metric_value@.finite(),
{
    assert(ranked[k].leads(evaluator.frozen_metric().direction, ranked[l]));
}

/// A sweep loses no candidate: every one of them has its place in the ranking.
pub proof fn law_sweep_is_complete<E: Evaluator>(
    evaluator: &E,
    candidates: Seq<Candidate>,
    ranked: Seq<SweepResult>,
    i: int,
)
    requires
        swept(evaluator, candidates, ranked),
        0 <= i < candidates.len(),
    ensures
        exists|k: int| 0 <= k < ranked.len() && (#[trigger] ranked[k]).index == i,
{
    let indices = ranked.map_values(|r: SweepResult| r.index as int);
    let all = vstd::set_lib::set_int_range(0, candidates.len() as int);
    vstd::set_lib::lemma_int_range(0, candidates.len() as int);
    indices.unique_seq_to_set();
    assert(indices.to_set().subset_of(all)) by {
        assert forall|x: int| indices.to_set().contains(x) implies all.contains(x) by {
            let k = choose|k: int| 0 <= k < indices.len() && indices[k] == x;
            assert(ranked[k].stands_for(evaluator, candidates));
        }
    }
    vstd::set_lib::lemma_subset_equality(indices.to_set(), all);
    assert(indices.to_set().contains(i));
    let k = choose|k: int| 0 <= k < indices.len() && indices[k] == i;
    assert(ranked[k].index == i);
}

/// The sweep of given candidates by a decisive evaluator is determined: two rankings of them
/// agree entry by entry.
pub proof fn law_sweep_is_deterministic<E: Evaluator>(
    evaluator: &E,
    candidates: Seq<Candidate>,
    one: Seq<SweepResult>,
    two: Seq<SweepResult>,
    k: int,
)
    requires
        crate::evaluator::decisive(evaluator),
        swept(evaluator, candidates, one),
        swept(evaluator, candidates, two),
        0 <= k < candidates.len(),
    ensures
        one[k].index == two[k].index,
        one[k].artifact@ == two[k].artifact@,
        one[k].metric_value@ == two[k].metric_value@,
        one[k].description@ == two[k].description@,
    decreases k,
{
    assert(one[k].stands_for(evaluator, candidates));
    assert(two[k].stands_for(evaluator, candidates));
    if one[k].index != two[k].index {
        let direction = evaluator.frozen_metric().direction;
        law_sweep_is_complete(evaluator, candidates, two, one[k].index as int);
        law_sweep_is_complete(evaluator, candidates, one, two[k].index as int);
        let a = choose|a: int| 0 <= a < two.len() && (#[trigger] two[a]).index == one[k].index;
        let b = choose|b: int| 0 <= b < one.len() && (#[trigger] one[b]).index == two[k].index;
        if a < k {
            law_sweep_is_deterministic(evaluator, candidates, one, two, a);
        }
        if b < k {
            law_sweep_is_deterministic(evaluator, candidates, one, two, b);
        }
        assert(two[a].stands_for(evaluator, candidates));
        assert(one[b].stands_for(evaluator, candidates));
        assert(one[k].leads(direction, one[b]));
        assert(two[k].leads(direction, two[a]));
    }
}

} // verus!
