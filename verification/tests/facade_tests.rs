use vision_autoresearch::arithmetic::Arithmetic;
use vision_autoresearch::cli::{WalkForwardPlan, Windows};
use vision_autoresearch::engine::StopCondition;
use vision_autoresearch::evaluator::{BtMetric, Evaluator};
use vision_autoresearch::facade::{
    backtest_metric, backtest_run, conclude, evaluate_scenarios, planned_artifact, planned_walk,
    run_backtest, run_scalar, scalar_run, sweep_backtest, walkforward_run, Market,
};
use vision_autoresearch::metric::Direction;
use vision_autoresearch::scalar::Scalar;
use vision_autoresearch::timesfm_walkforward::ForecasterKind;

fn s(x: f64) -> Scalar {
    Scalar::from_bits(x.to_bits())
}

fn f(x: Scalar) -> f64 {
    f64::from_bits(x.to_bits())
}

fn series(xs: &[f64]) -> Vec<Scalar> {
    xs.iter().map(|x| s(*x)).collect()
}

/// The machine's own arithmetic.
#[derive(Clone, Copy)]
struct Native;

impl Arithmetic for Native {
    fn plus(&self, a: Scalar, b: Scalar) -> Scalar {
        s(f(a) + f(b))
    }
    fn minus(&self, a: Scalar, b: Scalar) -> Scalar {
        s(f(a) - f(b))
    }
    fn times(&self, a: Scalar, b: Scalar) -> Scalar {
        s(f(a) * f(b))
    }
    fn over(&self, a: Scalar, b: Scalar) -> Scalar {
        s(f(a) / f(b))
    }
    fn root(&self, a: Scalar) -> Scalar {
        s(f(a).sqrt())
    }
    fn log(&self, a: Scalar) -> Scalar {
        s(f(a).ln())
    }
    fn cosine(&self, a: Scalar) -> Scalar {
        s(f(a).cos())
    }
    fn nearest(&self, a: Scalar) -> Scalar {
        s(f(a).round())
    }
    fn whole(&self, n: u64) -> Scalar {
        s(n as f64)
    }
    fn three_places(&self, a: Scalar) -> String {
        format!("{:.3}", f(a))
    }
}

fn market(n_scenarios: usize, horizon: usize) -> Market {
    Market { start: s(100.0), drift: s(0.001), vol: s(0.02), n_scenarios, horizon }
}

#[test]
fn backtest_reports_what_came_of_it() {
    let r = run_backtest(Native, series(&[0.0, 0.0]), &market(40, 10), " Sharpe", 60, s(0.3), 42);
    assert_eq!(r.results.len(), 60);
    assert_eq!((r.metric_name.as_str(), r.direction), ("sharpe", Direction::Maximize));
    assert_eq!(r.goal, "autoresearch backtest: optimize sharpe");
    assert_eq!(r.n_kept, r.git_history.len());
    assert!(r.n_kept >= 1);
    assert_eq!(r.best_value, r.results[59].baseline_value);
    assert!(r.best_target.iter().all(|x| f(*x).abs() <= 3.0));
    let again = run_backtest(Native, series(&[0.0, 0.0]), &market(40, 10), "sharpe", 60, s(0.3), 42);
    assert_eq!((r.best_value, r.best_target), (again.best_value, again.best_target));
}

#[test]
fn scalar_run_reports_what_came_of_it() {
    let r = run_scalar(Native, series(&[0.0]), series(&[2.0]), 0, s(0.2), 1);
    assert_eq!(r.results.len(), 1);
    assert_eq!((r.metric_name.as_str(), r.direction), ("sse", Direction::Minimize));
    assert_eq!(r.goal, "autoresearch scalar: minimize SSE to target");
    let r = run_scalar(Native, series(&[0.0]), series(&[2.0]), 100, s(0.2), 1);
    assert!(f(r.best_value) < 4.0);
    let d = f(r.best_target[0]) - 2.0;
    assert_eq!(f(r.best_value), d * d);
}

#[test]
fn sweeps_rank_variations_of_a_flat_strategy() {
    let r = sweep_backtest(Native, &market(16, 6), "max_drawdown", 12, s(0.5), 9);
    assert!(r.mode_subagent);
    assert_eq!(r.ranked.len(), 12);
    for pair in r.ranked.windows(2) {
        assert!(f(pair[0].metric_value) <= f(pair[1].metric_value));
    }
    assert_eq!(r.ranked[0].artifact.len(), 2);
}

#[test]
fn metrics_by_name() {
    let returns = series(&[1.0, -0.5, 1.0]);
    assert_eq!(f(backtest_metric(&Native, &returns, "total_return")), 1.0);
    assert_eq!(f(backtest_metric(&Native, &returns, "MDD")), 0.5);
    let paths = vec![returns.clone(), returns];
    assert_eq!(f(evaluate_scenarios(Native, paths, "return", false)), 1.0);
    assert!(evaluate_scenarios(Native, vec![], "return", false).is_nan());
}

#[test]
fn runs_start_fresh() {
    let run = backtest_run(
        Native,
        series(&[0.5]),
        &market(3, 4),
        BtMetric::Calmar,
        s(0.1),
        7,
        "a goal",
    );
    assert_eq!((run.goal.as_str(), run.log.len()), ("a goal", 0));
    assert_eq!(f(run.baseline_value()), f64::NEG_INFINITY);
    assert_eq!((f(run.proposer.lo()), f(run.proposer.hi())), (-3.0, 3.0));
    assert_eq!(run.evaluator.name(), "calmar");
    let run = scalar_run(
        Native,
        series(&[0.0]),
        series(&[1.0]),
        s(0.1),
        7,
        5.0f64.to_bits(),
        "g",
    );
    assert_eq!((f(run.proposer.lo()), f(run.proposer.hi())), (-5.0, 5.0));
    assert_eq!(f(run.baseline_value()), f64::INFINITY);
}

#[test]
fn walks_are_tuned() {
    let prices: Vec<Scalar> = (0..60).map(|i| s(100.0 + i as f64)).collect();
    let windows = Windows { train_len: 12, horizon: 6, step: 6 };
    let mut run = walkforward_run(
        Native,
        BtMetric::TotalReturn,
        prices,
        windows,
        ForecasterKind::Holt,
        s(0.2),
        42,
    );
    assert_eq!(run.target, series(&[0.0, 0.0, 0.4, 0.1]));
    assert_eq!(run.goal, "walk-forward: co-tune strategy + forecaster");
    assert_eq!((f(run.proposer.lo()), f(run.proposer.hi())), (-1.0, 1.0));
    run.establish_baseline();
    let start = f(run.baseline_value());
    run.run_loop(StopCondition::MaxIterations(20));
    assert!(f(run.baseline_value()) >= start);
    let report = conclude(run, 5);
    assert_eq!(report.results.len(), 5);
    assert!(f(report.best_value) >= start);
}

#[test]
fn planned_walks_are_scored() {
    let plan = WalkForwardPlan {
        metric: BtMetric::TotalReturn,
        windows: Windows { train_len: 2, horizon: 2, step: 1 },
        kind: ForecasterKind::Naive,
        overfit_penalty: s(-1.0),
        tilt: s(1.0),
        mom: s(0.0),
        alpha: s(0.4),
        beta: s(0.1),
    };
    let wf = planned_walk(Native, series(&[1.0, 2.0, 4.0, 8.0]), &plan);
    assert_eq!(planned_artifact(&plan), series(&[1.0, 0.0, 0.4, 0.1]));
    assert_eq!(wf.n_folds(), 1);
    assert_eq!(f(wf.score(&planned_artifact(&plan))), 3.0);
}
