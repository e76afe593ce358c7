use vision_autoresearch::arithmetic::Arithmetic;
use vision_autoresearch::attempt_log::{AttemptLog, AttemptRow, NoopRatchet, PeakMem, Ratchet};
use vision_autoresearch::engine::{
    judge, safe_score, scenario_sweep, should_stop, spawn_swarm, sweep,
    vectorbt_evaluator_from_source, Progress, Run, StopCondition, SwarmMode,
};
use vision_autoresearch::evaluator::{sse_to_target, BtMetric, Evaluator, ScalarEvaluator};
use vision_autoresearch::metric::{Direction, KeepOrRevert, Metric};
use vision_autoresearch::proposer::{Candidate, LocalProposer, Proposer, VariationProposer};
use vision_autoresearch::ranking::{rank, ranks_ahead};
use vision_autoresearch::scalar::Scalar;
use vision_autoresearch::scenario::MirofishScenarioSource;

fn s(x: f64) -> Scalar {
    Scalar::from_bits(x.to_bits())
}

fn f(x: Scalar) -> f64 {
    f64::from_bits(x.to_bits())
}

fn series(xs: &[f64]) -> Vec<Scalar> {
    xs.iter().map(|x| s(*x)).collect()
}

/// The machine's own arithmetic.
#[derive(Clone, Copy)]
struct Native;

impl Arithmetic for Native {
    fn plus(&self, a: Scalar, b: Scalar) -> Scalar {
        s(f(a) + f(b))
    }
    fn minus(&self, a: Scalar, b: Scalar) -> Scalar {
        s(f(a) - f(b))
    }
    fn times(&self, a: Scalar, b: Scalar) -> Scalar {
        s(f(a) * f(b))
    }
    fn over(&self, a: Scalar, b: Scalar) -> Scalar {
        s(f(a) / f(b))
    }
    fn root(&self, a: Scalar) -> Scalar {
        s(f(a).sqrt())
    }
    fn log(&self, a: Scalar) -> Scalar {
        s(f(a).ln())
    }
    fn cosine(&self, a: Scalar) -> Scalar {
        s(f(a).cos())
    }
    fn nearest(&self, a: Scalar) -> Scalar {
        s(f(a).round())
    }
    fn whole(&self, n: u64) -> Scalar {
        s(n as f64)
    }
    fn three_places(&self, a: Scalar) -> String {
        format!("{:.3}", f(a))
    }
}

#[test]
fn loop_ratchets_toward_target_minimize() {
    let ev = sse_to_target(Native, series(&[1.0, -2.0, 3.0]));
    let prop = LocalProposer::new(Native, s(0.4), 2026).with_bounds(s(-5.0), s(5.0));
    let mut run = Run::new(
        series(&[0.0, 0.0, 0.0]),
        ev,
        prop,
        NoopRatchet::new(),
        AttemptLog::new(),
    )
    .with_goal("minimize SSE to target");

    run.establish_baseline();
    let start = f(run.baseline_value());
    let results = run.run_loop(StopCondition::MaxIterations(200));
    assert_eq!(results.len(), 200);
    assert!(f(run.baseline_value()) < start, "loop did not improve: {} -> {}", start, f(run.baseline_value()));
    assert!(run.n_kept() >= 1);
    assert_eq!(run.git_history().len(), run.n_kept());
}

#[test]
fn keep_advances_revert_holds_baseline() {
    let ev = sse_to_target(Native, series(&[0.0]));
    let prop = VariationProposer::new(vec![series(&[0.5]), series(&[3.0]), series(&[0.1])]);
    let mut run = Run::new(series(&[1.0]), ev, prop, NoopRatchet::new(), AttemptLog::new());
    run.establish_baseline();

    let r0 = run.run_iteration(0);
    assert!(r0.kept());
    assert!((f(run.baseline_value()) - 0.25).abs() < 1e-9);

    let r1 = run.run_iteration(1);
    assert!(!r1.kept());
    assert!((f(run.baseline_value()) - 0.25).abs() < 1e-9);
    assert_eq!(run.target, series(&[0.5]));

    let r2 = run.run_iteration(2);
    assert!(r2.kept());
    assert!((f(run.baseline_value()) - 0.01).abs() < 1e-9);
}

#[test]
fn crash_is_logged_and_reverted_not_fatal() {
    // the evaluation fails on a large knob
    let ev = ScalarEvaluator::new("panicky", Metric::val_bpb(), |a: &Vec<Scalar>| {
        let first = a.first().map(|x| f(*x)).unwrap_or(0.0);
        if first > 100.0 {
            return s(f64::NAN);
        }
        s(first.abs())
    });
    let prop = VariationProposer::new(vec![series(&[999.0]), series(&[0.1])]);
    let mut run = Run::new(series(&[1.0]), ev, prop, NoopRatchet::new(), AttemptLog::new());
    run.establish_baseline();
    let r0 = run.run_iteration(0);
    assert!(r0.crashed);
    assert!(!r0.kept());
    let r1 = run.run_iteration(1);
    assert!(!r1.crashed);
    assert!(r1.kept());
    assert!(run.log.all().iter().any(|r| r.status == "crash"));
}

#[test]
fn no_improvement_stop_fires_when_stalled() {
    let ev = sse_to_target(Native, series(&[0.0]));
    let prop = VariationProposer::new(vec![series(&[5.0])]);
    let mut run = Run::new(series(&[0.0]), ev, prop, NoopRatchet::new(), AttemptLog::new());
    let results = run.run_loop(StopCondition::NoImprovementFor(3));
    assert_eq!(results.len(), 3);
    assert!(results.iter().all(|r| !r.kept()));
}

fn candidate(x: f64, description: &str) -> Candidate {
    Candidate { artifact: series(&[x]), description: description.to_string() }
}

#[test]
fn sweep_ranks_best_first_in_parallel() {
    let ev = sse_to_target(Native, series(&[0.0]));
    let cands = vec![candidate(5.0, "far"), candidate(0.1, "near"), candidate(2.0, "mid")];
    let ranked = sweep(&ev, &cands);
    assert_eq!(ranked.len(), 3);
    assert_eq!(ranked[0].description, "near");
    assert!(f(ranked[0].metric_value) < f(ranked[1].metric_value));
}

#[test]
fn swarm_subagent_is_broad_agentteam_is_capped() {
    let ev = sse_to_target(Native, series(&[0.0]));
    let prop = LocalProposer::new(Native, s(0.5), 11);
    let sub = spawn_swarm(&ev, &prop, &series(&[1.0]), 10, SwarmMode::Subagent, &[]);
    let team = spawn_swarm(&ev, &prop, &series(&[1.0]), 10, SwarmMode::AgentTeam, &[]);
    assert_eq!(sub.ranked.len(), 10);
    assert_eq!(team.ranked.len(), 4);
    assert!(sub.mode_subagent);
    assert!(!team.mode_subagent);
}

#[test]
fn vectorbt_evaluator_from_mirofish_source_scores() {
    let src = MirofishScenarioSource::new(Native, s(100.0), s(0.001), s(0.02));
    let ev = vectorbt_evaluator_from_source(Native, &src, 64, 12, 42, BtMetric::Sharpe);
    let a = f(ev.score(&series(&[1.0, 0.0])));
    let b = f(ev.score(&series(&[-1.0, 0.5])));
    assert!(a.is_finite() && b.is_finite());
    assert!((a - b).abs() > 1e-9, "evaluator not responsive over mirofish scenarios");
}

#[test]
fn demonstration_run_keeps_and_improves_as_published() {
    // Four knobs, seed 2026: two of the keeps.
    let ev = sse_to_target(Native, series(&[1.0, -2.0, 3.0, 0.5]));
    let prop = LocalProposer::new(Native, s(0.4), 2026).with_bounds(s(-5.0), s(5.0));
    let mut run = Run::new(series(&[0.0; 4]), ev, prop, NoopRatchet::new(), AttemptLog::new());
    run.establish_baseline();
    assert_eq!(format!("{:.5}", f(run.baseline_value())), "14.25000");
    let results = run.run_loop(StopCondition::MaxIterations(200));
    let kept: Vec<String> = results
        .iter()
        .filter(|r| r.kept())
        .map(|r| format!("{} {:.5} {}", r.iter, f(r.metric_value), r.commit7))
        .collect();
    assert_eq!(kept[0], "0 12.98446 0000001");
    assert!(kept.contains(&"6 12.30771 0000007".to_string()), "{kept:?}");
}

#[test]
fn a_loop_leaves_a_consistent_run() {
    let ev = sse_to_target(Native, series(&[1.0, -2.0]));
    let prop = LocalProposer::new(Native, s(0.5), 5);
    let mut run = Run::new(series(&[0.0, 0.0]), ev, prop, NoopRatchet::new(), AttemptLog::new());
    let results = run.run_loop(StopCondition::MaxIterations(80));
    // one row for every iteration
    assert_eq!(run.log.len(), results.len());
    // the baseline value is the score of the baseline
    assert_eq!(run.evaluator.score(&run.target), run.baseline_value());
    // the history is the kept part of the log
    let kept: Vec<String> = run
        .log
        .all()
        .iter()
        .filter(|row| row.status == "keep")
        .map(|row| row.commit7.clone())
        .collect();
    assert_eq!(run.git_history(), kept);
    // the baseline never gets worse, and gets better with every keep
    for pair in results.windows(2) {
        let (a, b) = (f(pair[0].baseline_value), f(pair[1].baseline_value));
        assert!(if pair[1].kept() { b < a } else { b == a });
    }
}

#[test]
fn runs_from_the_same_start_agree() {
    let mk = || {
        let ev = sse_to_target(Native, series(&[1.0, -2.0]));
        let prop = LocalProposer::new(Native, s(0.4), 77);
        Run::new(series(&[0.0, 0.0]), ev, prop, NoopRatchet::new(), AttemptLog::new())
    };
    for stop in [StopCondition::MaxIterations(60), StopCondition::NoImprovementFor(8)] {
        let (mut one, mut two) = (mk(), mk());
        let (r, t) = (one.run_loop(stop), two.run_loop(stop));
        assert_eq!(r.len(), t.len());
        for (a, b) in r.iter().zip(t.iter()) {
            assert_eq!((a.iter, &a.commit7, a.status), (b.iter, &b.commit7, b.status));
            assert_eq!((a.metric_value, a.crashed), (b.metric_value, b.crashed));
        }
        assert_eq!(one.target, two.target);
        assert_eq!(one.git_history(), two.git_history());
        assert!(one.n_kept() > 0);
    }
}

#[test]
fn sweeps_of_the_same_candidates_agree() {
    let ev = sse_to_target(Native, series(&[0.5]));
    let prop = LocalProposer::new(Native, s(2.0), 3);
    let one = scenario_sweep(&ev, &prop, &series(&[0.0]), 64, &[]);
    let two = scenario_sweep(&ev, &prop, &series(&[0.0]), 64, &[]);
    let mut seen = vec![false; 64];
    for (a, b) in one.iter().zip(two.iter()) {
        assert_eq!((a.index, a.metric_value), (b.index, b.metric_value));
        seen[a.index] = true;
        assert!(f(one[0].metric_value) <= f(a.metric_value));
    }
    assert!(seen.iter().all(|x| *x));
}

struct Halves {
    metric: Metric,
}

impl Evaluator for Halves {
    fn score(&self, artifact: &Vec<Scalar>) -> Scalar {
        s(f(artifact[0]) / 2.0)
    }
    fn metric(&self) -> &Metric {
        &self.metric
    }
}

struct Doubles;

impl Proposer for Doubles {
    fn propose(&self, baseline: &Vec<Scalar>, history: &[AttemptRow], n: usize) -> Candidate {
        Candidate {
            artifact: vec![s(f(baseline[0]) * 2.0)],
            description: format!("{} after {}", n, history.len()),
        }
    }
}

struct Notes {
    lines: Vec<String>,
}

impl Ratchet for Notes {
    fn commit_candidate(&mut self, message: &str) -> String {
        self.lines.push(message.to_string());
        format!("c{}", self.lines.len())
    }
    fn apply(&mut self, decision: KeepOrRevert) -> bool {
        self.lines.push(decision.as_str().to_string());
        true
    }
    fn kept_history(&self) -> Vec<String> {
        self.lines.iter().filter(|l| *l == "keep").cloned().collect()
    }
}

#[test]
fn the_parts_of_a_run_can_be_supplied() {
    let ev = Halves { metric: Metric::new("half", Direction::Maximize) };
    assert_eq!((ev.name(), Doubles.name()), ("evaluator", "proposer"));
    let mut run =
        Run::new(series(&[1.0]), ev, Doubles, Notes { lines: vec![] }, AttemptLog::new());
    let results = run.run_loop(StopCondition::MaxIterations(20));
    assert_eq!(f(run.baseline_value()), 524288.0);
    assert_eq!(results[19].description, "19 after 16");
    assert_eq!(results[19].commit7, "c39");
    assert_eq!(run.ratchet.lines[0], "autoresearch[0]: 0 after 0");
    assert_eq!(run.ratchet.lines[39], "keep");
    assert_eq!(run.git_history().len(), 20);
}

#[test]
fn an_iteration_reports_and_logs_what_it_did() {
    let ev = sse_to_target(Native, series(&[0.0]));
    let prop = VariationProposer::new(vec![series(&[0.5]), series(&[2.0])]);
    let mut run = Run::new(series(&[1.0]), ev, prop, NoopRatchet::new(), AttemptLog::new())
        .with_goal("small")
        .with_conditions(vec!["one knob".to_string()]);
    assert_eq!(f(run.baseline_value()), f64::INFINITY);
    assert_eq!(run.goal, "small");
    assert_eq!(run.conditions, vec!["one knob".to_string()]);
    assert_eq!(run.metric().name, "sse");
    run.establish_baseline();
    assert_eq!(f(run.baseline_value()), 1.0);
    let r = run.run_iteration(0);
    assert_eq!((r.iter, r.commit7.as_str()), (0, "0000001"));
    assert_eq!((f(r.metric_value), f(r.baseline_value)), (0.25, 0.25));
    assert_eq!(r.status, KeepOrRevert::Keep);
    assert_eq!(r.description, "variation[0]");
    assert!(matches!(r.peak_mem_gb, PeakMem::Estimated { knobs: 1 }));
    let r = run.run_iteration(1);
    assert_eq!((f(r.metric_value), f(r.baseline_value)), (4.0, 0.25));
    assert_eq!(r.clone().status, KeepOrRevert::Revert);
    let rows = run.log.all();
    assert_eq!(rows.len(), 2);
    assert_eq!((rows[0].status.as_str(), rows[1].status.as_str()), ("keep", "revert"));
    assert_eq!(rows[1].commit7, "0000002");
    assert_eq!(rows[1].metric_name, "sse");
    assert_eq!(run.git_history(), vec!["0000001".to_string()]);
}

#[test]
fn stop_conditions() {
    let mk = || {
        let ev = sse_to_target(Native, series(&[0.0]));
        let prop = VariationProposer::new(vec![series(&[4.0]), series(&[3.0]), series(&[3.5])]);
        Run::new(series(&[5.0]), ev, prop, NoopRatchet::new(), AttemptLog::new())
    };
    assert_eq!(mk().run_loop(StopCondition::Once).len(), 1);
    let mut idle = mk();
    assert!(idle.run_loop(StopCondition::MaxIterations(0)).is_empty());
    assert!(idle.log.is_empty() && idle.git_history().is_empty());
    assert_eq!(idle.target, series(&[5.0]));
    assert_eq!(mk().run_loop(StopCondition::MaxIterations(1)).len(), 1);
    assert_eq!(mk().run_loop(StopCondition::MaxIterations(4)).len(), 4);
    // kept, kept, then two without an improvement
    assert_eq!(mk().run_loop(StopCondition::NoImprovementFor(2)).len(), 4);
    assert_eq!(mk().run_loop(StopCondition::NoImprovementFor(0)).len(), 1);
    assert!(should_stop(StopCondition::MaxIterations(3), 3, 0));
    assert!(!should_stop(StopCondition::MaxIterations(3), 2, 9));
    assert!(should_stop(StopCondition::NoImprovementFor(2), 9, 2));
    assert!(!should_stop(StopCondition::NoImprovementFor(2), 9, 1));
    assert!(should_stop(StopCondition::Once, 1, 0));
}

#[test]
fn a_loop_can_be_taken_step_by_step() {
    let mk = || {
        let ev = sse_to_target(Native, series(&[0.0]));
        let prop = VariationProposer::new(vec![series(&[4.0]), series(&[3.0]), series(&[3.5])]);
        Run::new(series(&[5.0]), ev, prop, NoopRatchet::new(), AttemptLog::new())
    };
    for stop in [
        StopCondition::Once,
        StopCondition::MaxIterations(0),
        StopCondition::MaxIterations(3),
        StopCondition::NoImprovementFor(2),
    ] {
        let mut whole = mk();
        let results = whole.run_loop(stop);
        let mut run = mk();
        run.establish_baseline();
        let mut progress = Progress::new();
        let mut steps = 0;
        while run.step(stop, &mut progress) {
            steps += 1;
            assert_eq!(run.log.len(), steps);
        }
        assert!(!progress.is_due(stop));
        assert!(!run.step(stop, &mut progress));
        assert_eq!(progress.into_results().len(), results.len());
        assert_eq!((steps, run.target), (results.len(), whole.target));
    }
}

#[test]
fn an_unscorable_baseline_stays_the_worst() {
    let ev = ScalarEvaluator::new("inf", Metric::val_bpb(), |_: &Vec<Scalar>| s(f64::INFINITY));
    let prop = VariationProposer::new(vec![]);
    let mut run = Run::new(series(&[1.0]), ev, prop, NoopRatchet::new(), AttemptLog::new());
    run.establish_baseline();
    assert_eq!(f(run.baseline_value()), f64::INFINITY);
    let r = run.run_iteration(0);
    assert!(r.crashed && !r.kept());
    // an empty baseline is not scored
    let ev = sse_to_target(Native, series(&[]));
    let mut run = Run::new(vec![], ev, VariationProposer::new(vec![]), NoopRatchet::new(), AttemptLog::new());
    run.establish_baseline();
    assert_eq!(f(run.baseline_value()), f64::INFINITY);
    assert!(run.run_iteration(0).kept());
}

#[test]
fn decisions() {
    let m = Metric::new("sharpe", Direction::Maximize);
    assert_eq!(judge(&m, s(1.0), s(2.0), false), KeepOrRevert::Keep);
    assert_eq!(judge(&m, s(1.0), s(1.0), false), KeepOrRevert::Revert);
    assert_eq!(judge(&m, s(1.0), s(f64::INFINITY), true), KeepOrRevert::Revert);
    let ev = ScalarEvaluator::new("first", m, |a: &Vec<Scalar>| a[0]);
    assert_eq!(safe_score(&ev, &series(&[2.0])), (s(2.0), false));
    let (v, crashed) = safe_score(&ev, &series(&[f64::NAN]));
    assert!(v.is_nan() && crashed);
    assert!(safe_score(&ev, &series(&[f64::NEG_INFINITY])).1);
}

#[test]
fn sweep_puts_crashes_last_and_keeps_the_order_of_equals() {
    let up = Metric::new("up", Direction::Maximize);
    let ev = ScalarEvaluator::new("first", up, |a: &Vec<Scalar>| a[0]);
    let cands = vec![
        candidate(f64::NAN, "nan"),
        candidate(1.0, "one"),
        candidate(2.0, "two"),
        candidate(1.0, "another one"),
        candidate(f64::INFINITY, "inf"),
    ];
    let ranked = sweep(&ev, &cands);
    let order: Vec<usize> = ranked.iter().map(|r| r.index).collect();
    assert_eq!(order, vec![2, 1, 3, 0, 4]);
    assert_eq!(ranked[0].artifact, series(&[2.0]));
    assert_eq!(ranked[0].clone().description, "two");
    assert_eq!(f(ranked[4].metric_value), f64::INFINITY);
    assert!(sweep(&ev, &[]).is_empty());
}

#[test]
fn a_large_sweep_scores_every_candidate() {
    let down = Metric::val_bpb();
    let ev = ScalarEvaluator::new("square", down, |a: &Vec<Scalar>| s(f(a[0]) * f(a[0])));
    let cands: Vec<Candidate> =
        (0..500).map(|i| candidate(((i * 7) % 500) as f64 - 250.0, "c")).collect();
    let ranked = sweep(&ev, &cands);
    assert_eq!(ranked.len(), 500);
    for (k, r) in ranked.iter().enumerate() {
        assert_eq!(r.artifact, cands[r.index].artifact);
        assert_eq!(f(r.metric_value), f(r.artifact[0]) * f(r.artifact[0]));
        if k > 0 {
            assert!(f(ranked[k - 1].metric_value) <= f(r.metric_value));
        }
    }
}

#[test]
fn swarms_have_the_members_that_were_asked_for() {
    let ev = sse_to_target(Native, series(&[0.0]));
    let prop = VariationProposer::new(vec![series(&[2.0]), series(&[1.0])]);
    let base = series(&[1.0]);
    assert_eq!(spawn_swarm(&ev, &prop, &base, 0, SwarmMode::Subagent, &[]).ranked.len(), 0);
    assert_eq!(spawn_swarm(&ev, &prop, &base, 0, SwarmMode::AgentTeam, &[]).ranked.len(), 0);
    assert_eq!(spawn_swarm(&ev, &prop, &base, 3, SwarmMode::AgentTeam, &[]).ranked.len(), 3);
    let ranked = scenario_sweep(&ev, &prop, &base, 2, &[]);
    assert_eq!(ranked[0].index, 1);
    assert_eq!(ranked[0].description, "variation[1]");
    assert!(scenario_sweep(&ev, &prop, &base, 0, &[]).is_empty());
}

#[test]
fn rankings() {
    let values = series(&[3.0, f64::NAN, 1.0, 3.0]);
    assert_eq!(rank(Direction::Minimize, &values), vec![2, 0, 3, 1]);
    assert_eq!(rank(Direction::Maximize, &values), vec![0, 3, 2, 1]);
    assert!(ranks_ahead(Direction::Minimize, s(1.0), s(f64::NAN)));
    assert!(!ranks_ahead(Direction::Minimize, s(f64::NAN), s(f64::NAN)));
    // what improves on another ranks ahead of it
    let m = Metric::new("up", Direction::Maximize);
    for a in [1.0, 2.0, f64::NEG_INFINITY] {
        for b in [1.0, 2.0, f64::NAN] {
            assert_eq!(m.improved(s(b), s(a)), ranks_ahead(Direction::Maximize, s(a), s(b)));
        }
    }
}
