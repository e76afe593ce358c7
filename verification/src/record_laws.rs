//! What a loop hands on and leaves behind: what is proposed from, committed, logged and undone.
use vstd::prelude::*;

use crate::attempt_log::{AttemptLog, AttemptRow, GitRatchet, NoopRatchet, PeakMem, Ratchet};
use crate::engine::{IterationResult, Run, StopCondition};
use crate::evaluator::{Artifact, Evaluator};
use crate::git::GitRunner;
use crate::metric::KeepOrRevert;
use crate::proposer::{Candidate, Proposer};
use crate::scalar::Scalar;

verus! {

/// An iteration proposes from the baseline and the last sixteen rows, commits the candidate under
/// its number and description, scores it, and makes it the baseline exactly where it keeps it.
pub proof fn law_iteration<E: Evaluator, P: Proposer, R: Ratchet>(
    before: Run<E, P, R>,
    iter: usize,
    after: Run<E, P, R>,
    r: IterationResult,
    number: String,
) -> (met: (Candidate, R))
    requires
        before.stepped(iter, &after, r),
        call_ensures(crate::text::decimal, (iter as u64,), number),
    ensures
        before.log@.len() <= 16 ==> before.proposer.may_propose(
            before.target@,
            before.log@,
            iter as nat,
            met.0,
        ),
        before.log@.len() > 16 ==> before.proposer.may_propose(
            before.target@,
            before.log@.subrange(before.log@.len() - 16, before.log@.len() as int),
            iter as nat,
            met.0,
        ),
        before.ratchet.may_commit(
            "autoresearch["@ + number@ + "]: "@ + met.0.description@,
            r.commit7@,
            &met.1,
        ),
        before.evaluator.may_score(met.0.artifact@, r.metric_value),
        r.iter == iter,
        r.description@ == met.0.description@,
        r.crashed <==> r.metric_value@ is Nan || r.metric_value@ is PosInf || r.metric_value@
            is NegInf,
        r.peak_mem_gb == (PeakMem::Estimated { knobs: met.0.artifact@.len() as usize }),
        r.crashed ==> r.status is Revert,
        r.status is Keep ==> after.target@ == met.0.artifact@ && after.baseline_value
            == r.metric_value && after.ratchet.kept() == before.ratchet.kept().push(r.commit7@),
        r.status is Revert ==> after.target@ == before.target@ && after.baseline_value
            == before.baseline_value && after.ratchet.kept() == before.ratchet.kept(),
        r.baseline_value == after.baseline_value,
        after.evaluator == before.evaluator,
        after.proposer == before.proposer,
        after.goal == before.goal,
        after.conditions == before.conditions,
        after.log.file() == before.log.file(),
        after.log@.len() == before.log@.len() + 1,
        forall|i: int| 0 <= i < before.log@.len() ==> after.log@[i] == before.log@[i],
{
    let (c, mid, ok) = choose|c: Candidate, mid: R, ok: bool| #[trigger]
        before.iterated(iter, c, mid, ok, &after, r);
    let n = before.log@.len() as int;
    if n > 16 {
        assert(before.log@.skip(n - 16) =~= before.log@.subrange(n - 16, n));
    }
    (c, mid)
}

/// A run begins with what it was given and with the worst value, which any score improves on; its
/// goal and its conditions are set without touching the rest.
pub proof fn law_run_is_made<E: Evaluator, P: Proposer, R: Ratchet>(
    target: Artifact,
    evaluator: E,
    proposer: P,
    ratchet: R,
    log: AttemptLog,
    run: Run<E, P, R>,
    goal: &str,
    aimed: Run<E, P, R>,
    conditions: Vec<String>,
    bound: Run<E, P, R>,
)
    requires
        call_ensures(Run::<E, P, R>::new, (target, evaluator, proposer, ratchet, log), run),
        call_ensures(Run::<E, P, R>::with_goal, (run, goal), aimed),
        call_ensures(Run::<E, P, R>::with_conditions, (aimed, conditions), bound),
    ensures
        bound.target == target,
        bound.evaluator == evaluator,
        bound.proposer == proposer,
        bound.ratchet == ratchet,
        bound.log == log,
        bound.goal@ == goal@,
        bound.conditions == conditions,
        bound.baseline_value == run.baseline_value,
        run.goal@.len() == 0,
        run.conditions@.len() == 0,
        evaluator.frozen_metric().direction is Minimize ==> run.baseline_value@ is PosInf,
        evaluator.frozen_metric().direction is Maximize ==> run.baseline_value@ is NegInf,
{
}

/// A run counts the kept rows of its log, and its history is that of its ratchet.
pub proof fn law_run_tells_its_records<E: Evaluator, P: Proposer, R: Ratchet>(
    run: Run<E, P, R>,
    n: usize,
    m: usize,
    history: Vec<String>,
    hashes: Vec<String>,
    value: Scalar,
)
    requires
        call_ensures(Run::<E, P, R>::n_kept, (&run,), n),
        call_ensures(AttemptLog::n_kept, (&run.log,), m),
        call_ensures(Run::<E, P, R>::git_history, (&run,), history),
        call_ensures(R::kept_history, (&run.ratchet,), hashes),
        call_ensures(Run::<E, P, R>::baseline_value, (&run,), value),
    ensures
        n == m,
        crate::text::texts(history@) == crate::text::texts(hashes@),
        value == run.baseline_value,
{
}

/// Before the first iteration the baseline is scored: its value is the score where that is finite,
/// and what it was where it is not or where there is no artifact; nothing else changes.
pub proof fn law_established_baseline<E: Evaluator, P: Proposer, R: Ratchet>(
    before: Run<E, P, R>,
    after: Run<E, P, R>,
    artifact: Artifact,
    value: Scalar,
)
    requires
        before.established(&after),
        crate::evaluator::decisive(&before.evaluator),
        artifact@ == before.target@,
        before.evaluator.may_score(artifact@, value),
    ensures
        artifact@.len() > 0 && value@.finite() ==> after.baseline_value@ == value@,
        artifact@.len() > 0 && !value@.finite() ==> after.baseline_value == before.baseline_value,
        artifact@.len() == 0 ==> after.baseline_value == before.baseline_value,
        after.target == before.target,
        after.ratchet == before.ratchet,
        after.log@ == before.log@,
        after.evaluator == before.evaluator,
        after.proposer == before.proposer,
{
    if artifact@.len() > 0 {
        let scored = choose|scored: Scalar| #[trigger]
            before.evaluator.may_score(before.target@, scored) && after.baseline_value == (
            if scored@.finite() {
                scored
            } else {
                before.baseline_value
            });
        assert(scored@ == value@);
    }
}

/// A score is a crash where it is infinite or no number.
pub proof fn law_crashes<E: Evaluator>(evaluator: E, artifact: Artifact, r: (Scalar, bool))
    requires
        call_ensures(crate::engine::safe_score::<E>, (&evaluator, &artifact), r),
    ensures
        evaluator.may_score(artifact@, r.0),
        r.1 <==> r.0@ is Nan || r.0@ is PosInf || r.0@ is NegInf,
{
}

/// When a loop stops after an iteration: always where it was to run once, after as many
/// iterations as were asked for, and after as many in a row without a keep.
pub proof fn law_stop_conditions(stop: StopCondition, done: usize, idle: usize, r: bool)
    requires
        call_ensures(crate::engine::should_stop, (stop, done, idle), r),
    ensures
        stop is Once ==> r,
        stop matches StopCondition::MaxIterations(n) ==> (r <==> n <= done),
        stop matches StopCondition::NoImprovementFor(n) ==> (r <==> n <= idle),
{
}

/// A result counts as kept where its candidate was kept and did not crash.
pub proof fn law_kept_results(result: IterationResult, r: bool)
    requires
        call_ensures(IterationResult::kept, (&result,), r),
    ensures
        r <==> result.status is Keep && !result.crashed,
{
}

/// A row holds what it was made of; its status is the crash where there was one, else the
/// decision, and a revert without one.
pub proof fn law_row(
    iter: usize,
    commit7: String,
    metric_name: &str,
    metric_value: Scalar,
    baseline_value: Scalar,
    peak_mem_gb: PeakMem,
    decision: Option<KeepOrRevert>,
    crashed: bool,
    description: String,
    ts: u64,
    row: AttemptRow,
)
    requires
        call_ensures(
            crate::attempt_log::row_at,
            (
                iter,
                commit7,
                metric_name,
                metric_value,
                baseline_value,
                peak_mem_gb,
                decision,
                crashed,
                description,
                ts,
            ),
            row,
        ),
    ensures
        row.iter == iter,
        row.commit7@ == commit7@,
        row.metric_name@ == metric_name@,
        row.metric_value == metric_value,
        row.baseline_value == baseline_value,
        row.peak_mem_gb == peak_mem_gb,
        row.description@ == description@,
        row.ts == ts,
        crashed ==> row.status@ == "crash"@,
        !crashed && decision == Some(KeepOrRevert::Keep) ==> row.status@ == "keep"@,
        !crashed && decision == Some(KeepOrRevert::Revert) ==> row.status@ == "revert"@,
        !crashed && decision is None ==> row.status@ == "revert"@,
{
}

/// A row that is stamped by the clock is the row at the time that the clock told.
pub proof fn law_stamped_row(
    iter: usize,
    commit7: String,
    metric_name: &str,
    metric_value: Scalar,
    baseline_value: Scalar,
    peak_mem_gb: PeakMem,
    decision: Option<KeepOrRevert>,
    crashed: bool,
    description: String,
    row: AttemptRow,
    same: AttemptRow,
)
    requires
        call_ensures(
            crate::attempt_log::make_row,
            (
                iter,
                commit7,
                metric_name,
                metric_value,
                baseline_value,
                peak_mem_gb,
                decision,
                crashed,
                description,
            ),
            row,
        ),
        call_ensures(
            crate::attempt_log::row_at,
            (
                iter,
                commit7,
                metric_name,
                metric_value,
                baseline_value,
                peak_mem_gb,
                decision,
                crashed,
                description,
                row.ts,
            ),
            same,
        ),
    ensures
        row.iter == same.iter,
        row.commit7@ == same.commit7@,
        row.metric_name@ == same.metric_name@,
        row.metric_value == same.metric_value,
        row.baseline_value == same.baseline_value,
        row.peak_mem_gb == same.peak_mem_gb,
        row.status@ == same.status@,
        row.description@ == same.description@,
        crate::attempt_log::is_present(row.ts),
{
}

/// In memory, commits are counted, and the hash of each is its number in seven hexadecimal
/// digits, whatever the message; a decision leaves the count.
pub proof fn law_commits_are_counted(
    before: NoopRatchet,
    message: Seq<char>,
    hash: Seq<char>,
    mid: NoopRatchet,
    decision: KeepOrRevert,
    ok: bool,
    after: NoopRatchet,
    digits: String,
)
    requires
        before.may_commit(message, hash, &mid),
        mid.may_apply(decision, ok, &after),
        call_ensures(crate::text::hex, (mid.count(), 7usize), digits),
    ensures
        before.count() < u64::MAX ==> mid.count() == before.count() + 1,
        before.count() == u64::MAX ==> mid.count() == 0,
        hash == digits@,
        hash.len() == 7,
        ok,
        after.count() == mid.count(),
{
    crate::text::lemma_hex_text_len(mid.count() as nat, 7);
}

/// In a work tree, a commit runs three commands there and no other: everything is staged, then
/// committed under the message even where nothing changed, then the short hash of the current
/// commit is asked for; it is what git answers, and seven dashes where git does not.
pub proof fn law_git_commit<G: GitRunner>(
    before: GitRatchet<G>,
    message: Seq<char>,
    hash: Seq<char>,
    after: GitRatchet<G>,
)
    requires
        before.may_commit(message, hash, &after),
    ensures
        ({
            let n = before.ran().len() as int;
            let path = before.work_tree();
            let ran = after.ran();
            &&& ran.len() == n + 3
            &&& forall|i: int| 0 <= i < n ==> ran[i] == before.ran()[i]
            &&& ran[n].args == seq!["-C"@, path, "add"@, "-A"@]
            &&& ran[n + 1].args == seq![
                "-C"@,
                path,
                "commit"@,
                "--allow-empty"@,
                "-m"@,
                message,
            ]
            &&& ran[n + 2].args == seq!["-C"@, path, "rev-parse"@, "--short=7"@, "HEAD"@]
            &&& after.undecided() <==> ran[n + 1].answer is Some
            &&& ran[n + 2].answer is Some ==> hash == ran[n + 2].answer->0
            &&& ran[n + 2].answer is None ==> hash == "-------"@
            &&& after.work_tree() == path
        }),
{
    let n = before.ran().len() as int;
    let path = before.work_tree();
    let ran = after.ran();
    assert(ran[n].args =~= seq!["-C"@, path, "add"@, "-A"@]);
    assert(ran[n + 1].args =~= seq!["-C"@, path, "commit"@, "--allow-empty"@, "-m"@, message]);
    assert(ran[n + 2].args =~= seq!["-C"@, path, "rev-parse"@, "--short=7"@, "HEAD"@]);
}

/// In a work tree, a keep runs nothing; a revert of a commit that was made drops it with one
/// command, and a revert without one runs nothing.
pub proof fn law_git_decision<G: GitRunner>(
    before: GitRatchet<G>,
    decision: KeepOrRevert,
    ok: bool,
    after: GitRatchet<G>,
)
    requires
        before.may_apply(decision, ok, &after),
    ensures
        decision is Keep || !before.undecided() ==> after.ran() == before.ran() && ok,
        decision is Revert && before.undecided() ==> {
            let n = before.ran().len() as int;
            &&& after.ran().len() == n + 1
            &&& forall|i: int| 0 <= i < n ==> after.ran()[i] == before.ran()[i]
            &&& after.ran()[n].args == seq![
                "-C"@,
                before.work_tree(),
                "reset"@,
                "--hard"@,
                "HEAD~1"@,
            ]
            &&& ok <==> after.ran()[n].answer is Some
        },
        !after.undecided(),
        after.work_tree() == before.work_tree(),
{
    if decision is Revert && before.undecided() {
        let n = before.ran().len() as int;
        assert(after.ran()[n].args =~= seq![
            "-C"@,
            before.work_tree(),
            "reset"@,
            "--hard"@,
            "HEAD~1"@,
        ]);
    }
}

/// Whether a directory belongs to a work tree is asked there with one command.
pub proof fn law_work_tree_question(path: Seq<char>)
    ensures
        crate::git::arguments(path, crate::attempt_log::work_tree_args()) == seq![
            "-C"@,
            path,
            "rev-parse"@,
            "--is-inside-work-tree"@,
        ],
{
    assert(crate::git::arguments(path, crate::attempt_log::work_tree_args()) =~= seq![
        "-C"@,
        path,
        "rev-parse"@,
        "--is-inside-work-tree"@,
    ]);
}

/// The streams of numbers: the state begins at the seed and moves on by one constant, and the
/// number is the state after two rounds of folding its high bits into its low and multiplying,
/// and one more folding; as a fraction it is the upper fifty-three of its bits.
pub proof fn law_streams(seed: u64, k: nat, a: u64, b: u64)
    requires
        ({
            let next = crate::rng::state_after(seed, k + 1);
            &&& a == ((next ^ (next >> 30u64)) * 0xBF58_476D_1CE4_E5B9) % 0x1_0000_0000_0000_0000
            &&& b == ((a ^ (a >> 27u64)) * 0x94D0_49BB_1331_11EB) % 0x1_0000_0000_0000_0000
        }),
    ensures
        crate::rng::state_after(seed, 0) == seed,
        crate::rng::state_after(seed, k + 1) == (crate::rng::state_after(seed, k)
            + 0x9E37_79B9_7F4A_7C15) % 0x1_0000_0000_0000_0000,
        crate::rng::mixed(crate::rng::state_after(seed, k + 1)) == b ^ (b >> 31u64),
        crate::rng::unit_draw(seed, k) == (b ^ (b >> 31u64)) >> 11u64,
{
    crate::rng::lemma_state_steps(seed, k);
}

/// The seeds of many streams: the base seed for the first, and for each the base seed folded with
/// its number times the constant.
pub proof fn law_path_seed(base: u64, k: usize, r: u64)
    requires
        call_ensures(crate::rng::path_seed, (base, k), r),
    ensures
        r ^ base == (k * 0x9E37_79B9_7F4A_7C15) % 0x1_0000_0000_0000_0000,
        k == 0 ==> r == base,
{
    let x = (k as u64).wrapping_mul(crate::rng::GAMMA);
    assert((base ^ x) ^ base == x) by (bit_vector);
    assert(base ^ 0u64 == base) by (bit_vector);
}

} // verus!
