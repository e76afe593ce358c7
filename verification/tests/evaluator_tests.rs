use vision_autoresearch::arithmetic::{mean, sum, Arithmetic};
use vision_autoresearch::evaluator::{
    average, bt_metric_of_path, calmar, cvar, downside, finite_values, max_drawdown,
    metric_direction, sharpe, sortino, sse_to_target, total_return, win_rate, wins, worst_tail,
    BtMetric, Evaluator, ScalarEvaluator, VectorBtEvaluator,
};
use vision_autoresearch::metric::{Direction, Metric};
use vision_autoresearch::scalar::Scalar;
use vision_autoresearch::strategy::{strategy_returns, to_returns, Heading, Overlay};

fn s(x: f64) -> Scalar {
    Scalar::from_bits(x.to_bits())
}

fn f(x: Scalar) -> f64 {
    f64::from_bits(x.to_bits())
}

fn series(xs: &[f64]) -> Vec<Scalar> {
    xs.iter().map(|x| s(*x)).collect()
}

/// The machine's own arithmetic.
#[derive(Clone, Copy)]
struct Native;

impl Arithmetic for Native {
    fn plus(&self, a: Scalar, b: Scalar) -> Scalar {
        s(f(a) + f(b))
    }
    fn minus(&self, a: Scalar, b: Scalar) -> Scalar {
        s(f(a) - f(b))
    }
    fn times(&self, a: Scalar, b: Scalar) -> Scalar {
        s(f(a) * f(b))
    }
    fn over(&self, a: Scalar, b: Scalar) -> Scalar {
        s(f(a) / f(b))
    }
    fn root(&self, a: Scalar) -> Scalar {
        s(f(a).sqrt())
    }
    fn log(&self, a: Scalar) -> Scalar {
        s(f(a).ln())
    }
    fn cosine(&self, a: Scalar) -> Scalar {
        s(f(a).cos())
    }
    fn nearest(&self, a: Scalar) -> Scalar {
        s(f(a).round())
    }
    fn whole(&self, n: u64) -> Scalar {
        s(n as f64)
    }
    fn three_places(&self, a: Scalar) -> String {
        format!("{:.3}", f(a))
    }
}

#[test]
fn sharpe_basic_and_zero_vol() {
    assert_eq!(f(sharpe(&Native, &series(&[0.01, 0.01, 0.01]))), 0.0);
    let v = f(sharpe(&Native, &series(&[0.02, -0.01, 0.03, 0.01])));
    assert!(v > 0.0, "sharpe={}", v);
}

#[test]
fn total_return_and_drawdown() {
    let r = series(&[0.1, -0.5, 0.1]);
    assert!((f(total_return(&Native, &r)) - (-0.395)).abs() < 1e-9);
    assert!((f(max_drawdown(&Native, &r)) - 0.5).abs() < 1e-9);
}

#[test]
fn win_rate_and_cvar() {
    assert!((f(win_rate(&Native, &series(&[0.1, -0.2, 0.3, 0.0]))) - 0.5).abs() < 1e-12);
    let mut r = vec![0.01; 20];
    r[5] = -0.2;
    assert!((f(cvar(&Native, &series(&r))) - 0.2).abs() < 1e-9);
}

#[test]
fn sortino_no_downside_is_favorable() {
    assert_eq!(f(sortino(&Native, &series(&[0.01, 0.02, 0.03]))), 1e6);
    assert_eq!(
        f(sortino(&Native, &series(&[-0.01, -0.02]))),
        f(sortino(&Native, &series(&[-0.01, -0.02])))
    );
}

#[test]
fn calmar_uses_return_over_drawdown() {
    let r = series(&[0.2, -0.1, 0.15]);
    let c = f(calmar(&Native, &r));
    let expect = f(total_return(&Native, &r)) / f(max_drawdown(&Native, &r));
    assert!((c - expect).abs() < 1e-9);
}

#[test]
fn vectorbt_evaluator_is_frozen_and_responsive() {
    let scen = vec![
        series(&[0.02, -0.01, 0.03, 0.01, -0.02, 0.04]),
        series(&[0.01, 0.02, -0.03, 0.02, 0.01, -0.01]),
    ];
    let ev = VectorBtEvaluator::new(Native, BtMetric::Sharpe, scen, false);
    let a = f(ev.score(&series(&[1.0, 0.0])));
    let b = f(ev.score(&series(&[-1.0, 0.0])));
    assert!(a.is_finite() && b.is_finite());
    assert!((a - b).abs() > 1e-9, "evaluator not responsive: a={} b={}", a, b);
    assert_eq!(ev.metric().direction, Direction::Maximize);
    assert_eq!(ev.metric().name, "sharpe");
    assert_eq!(ev.name(), "sharpe");
}

#[test]
fn scalar_sse_evaluator_ratchets_toward_target() {
    let ev = sse_to_target(Native, series(&[1.0, 2.0, 3.0]));
    let far = f(ev.score(&series(&[0.0, 0.0, 0.0])));
    let near = f(ev.score(&series(&[0.9, 1.9, 3.1])));
    assert!(near < far, "closer artifact should score lower (minimize)");
    assert_eq!(ev.metric().direction, Direction::Minimize);
    assert_eq!(far, 14.0);
    // a longer artifact pays for each knob too many
    assert_eq!(f(ev.score(&series(&[1.0, 2.0, 2.0, 9.0, 9.0]))), 3.0);
    assert_eq!(ev.metric().name, "sse");
    assert_eq!(ev.name(), "sse_to_target");
}

#[test]
fn nothing_is_gained_by_shrinking() {
    let ev = sse_to_target(Native, series(&[5.0]));
    assert_eq!(f(ev.score(&series(&[0.0]))), 25.0);
    assert_eq!(f(ev.score(&series(&[]))), f64::INFINITY);
    let ev = sse_to_target(Native, series(&[1.0, 2.0, 3.0]));
    assert_eq!(f(ev.score(&series(&[1.0, 2.0]))), f64::INFINITY);
    assert_eq!(f(ev.score(&series(&[1.0, 2.0, -997.0]))), 1e6);
    // finite knobs never score NaN, however far off
    for a in [[1e308, -1e308, 1e308], [-1e308, 0.0, 3.0], [1e200, 1e200, 1e200]] {
        for k in 0..3 {
            assert!(f(ev.score(&series(&a[..k]))) >= f(ev.score(&series(&a))));
        }
    }
}

#[test]
fn scalar_evaluator_scores_by_its_function() {
    let ev = ScalarEvaluator::new("first", Metric::val_bpb(), |a: &Vec<Scalar>| a[0]);
    assert_eq!(ev.score(&series(&[2.5, 1.0])), s(2.5));
    assert_eq!(ev.name(), "first");
    assert_eq!(ev.metric().name, "val_bpb");
}

#[test]
fn sums_and_means() {
    assert_eq!(f(sum(&Native, &series(&[1.0, 2.0, 4.0]))), 7.0);
    assert_eq!(f(mean(&Native, &series(&[1.0, 2.0, 6.0]))), 3.0);
    assert_eq!(f(mean(&Native, &[])), 0.0);
}

#[test]
fn metrics_on_exact_values() {
    let up_down = series(&[1.0, -0.5, 1.0]);
    assert_eq!(f(bt_metric_of_path(&Native, BtMetric::TotalReturn, &up_down)), 1.0);
    assert_eq!(f(bt_metric_of_path(&Native, BtMetric::MaxDrawdown, &up_down)), 0.5);
    assert_eq!(f(bt_metric_of_path(&Native, BtMetric::Calmar, &up_down)), 2.0);
    assert_eq!(f(bt_metric_of_path(&Native, BtMetric::Sortino, &up_down)), 1.0);
    assert_eq!(f(bt_metric_of_path(&Native, BtMetric::WinRate, &series(&[1.0, -1.0]))), 0.5);
    // deviation of 0 and 2 is the root of 2
    let v = f(bt_metric_of_path(&Native, BtMetric::Sharpe, &series(&[0.0, 2.0])));
    assert!((v - 1.0 / 2.0f64.sqrt()).abs() < 1e-15);
    assert_eq!(f(bt_metric_of_path(&Native, BtMetric::Cvar, &series(&[0.5, -0.25]))), 0.25);
}

#[test]
fn metrics_of_nothing_are_zero() {
    for m in [
        BtMetric::Sharpe,
        BtMetric::Sortino,
        BtMetric::TotalReturn,
        BtMetric::MaxDrawdown,
        BtMetric::Calmar,
        BtMetric::WinRate,
        BtMetric::Cvar,
    ] {
        assert_eq!(f(bt_metric_of_path(&Native, m, &[])), 0.0, "{m:?}");
    }
}

#[test]
fn ratios_without_risk_are_capped_or_zero() {
    assert_eq!(f(calmar(&Native, &series(&[0.1, 0.1]))), 1e6);
    assert_eq!(f(calmar(&Native, &series(&[0.0, 0.0]))), 0.0);
    assert_eq!(f(sortino(&Native, &series(&[0.0, 0.0]))), 0.0);
    // a gain in the tail is no loss
    assert_eq!(f(cvar(&Native, &series(&[0.1, 0.2]))), 0.0);
}

#[test]
fn selections_of_returns() {
    let r = series(&[0.1, -0.2, f64::NAN, 0.0, -0.1]);
    assert_eq!(downside(&r), series(&[-0.2, -0.1]));
    assert_eq!(wins(&r), 1);
    assert_eq!(finite_values(&r).unwrap().len(), 4);
    assert!(finite_values(&series(&[f64::NAN, f64::INFINITY])).is_none());
    let many: Vec<f64> = (0..41).map(|i| (i as f64 * 7.0) % 41.0).collect();
    assert_eq!(worst_tail(&series(&many)), series(&[0.0, 1.0, 2.0]));
    assert_eq!(worst_tail(&series(&[3.0, 1.0, 2.0])), series(&[1.0]));
    assert_eq!(f(average(&Native, &series(&[1.0, f64::NAN, 3.0]))), 2.0);
    assert!(average(&Native, &series(&[f64::NAN])).is_nan());
}

#[test]
fn metric_names_and_directions() {
    for (word, m) in [
        ("sharpe", BtMetric::Sharpe),
        (" SORTINO ", BtMetric::Sortino),
        ("return", BtMetric::TotalReturn),
        ("TotalReturn", BtMetric::TotalReturn),
        ("mdd", BtMetric::MaxDrawdown),
        ("drawdown", BtMetric::MaxDrawdown),
        ("calmar", BtMetric::Calmar),
        ("WinRate", BtMetric::WinRate),
        ("es", BtMetric::Cvar),
        ("unheard of", BtMetric::Sharpe),
    ] {
        assert_eq!(BtMetric::from_str(word), m);
        assert_eq!(BtMetric::from_str(m.name()), m);
    }
    assert_eq!(metric_direction("cvar"), "minimize");
    assert_eq!(metric_direction("max_drawdown"), "minimize");
    assert_eq!(metric_direction("anything"), "maximize");
}

#[test]
fn no_scenarios_score_nan() {
    let ev = VectorBtEvaluator::new(Native, BtMetric::Sharpe, vec![], true);
    assert!(ev.score(&series(&[1.0, 0.0])).is_nan());
}

#[test]
fn backtest_scores_are_averaged_over_the_paths() {
    // Full long: the total return of each path is the path's own.
    let paths = vec![series(&[100.0, 150.0]), series(&[100.0, 200.0, 200.0])];
    let ev = VectorBtEvaluator::new(Native, BtMetric::TotalReturn, paths, true);
    assert_eq!(f(ev.score(&series(&[1.0, 0.0]))), 0.75);
    // The tilt is confined.
    assert_eq!(f(ev.score(&series(&[7.0, 0.0]))), 0.75);
    assert_eq!(f(ev.score(&series(&[]))), 0.0);
}

#[test]
fn scores_are_reproducible() {
    let paths: Vec<Vec<Scalar>> = (0..40)
        .map(|k| series(&(0..30).map(|i| 100.0 + ((i * k) % 7) as f64).collect::<Vec<f64>>()))
        .collect();
    for m in [
        BtMetric::Sharpe,
        BtMetric::Sortino,
        BtMetric::TotalReturn,
        BtMetric::MaxDrawdown,
        BtMetric::Calmar,
        BtMetric::WinRate,
        BtMetric::Cvar,
    ] {
        let ev = VectorBtEvaluator::new(Native, m, paths.clone(), true);
        let artifact = series(&[0.5, -0.5]);
        assert_eq!(ev.score(&artifact), ev.score(&artifact));
        if m == BtMetric::MaxDrawdown || m == BtMetric::Cvar {
            assert!(f(ev.score(&artifact)) >= 0.0);
        }
    }
    let ev = sse_to_target(Native, series(&[1.0, 2.0]));
    assert_eq!(ev.score(&series(&[0.3])), ev.score(&series(&[0.3])));
}

#[test]
fn step_returns_of_prices() {
    assert_eq!(to_returns(&Native, &series(&[100.0, 150.0, 75.0]), true), series(&[0.5, -0.5]));
    assert_eq!(to_returns(&Native, &series(&[0.0, 150.0]), true), series(&[0.0]));
    assert_eq!(to_returns(&Native, &series(&[]), true), series(&[]));
    assert_eq!(to_returns(&Native, &series(&[0.25]), false), series(&[0.25]));
}

#[test]
fn exposure_is_tilt_plus_momentum_plus_forecast() {
    let market = series(&[1.0, -1.0, 1.0]);
    // tilt 0.25, momentum 1: 0.25 + 0.5 after no move or a rise, 0.25 - 0.5 after a fall
    assert_eq!(
        strategy_returns(&Native, &series(&[0.25, 1.0]), &market, &None),
        series(&[0.75, -0.75, -0.25])
    );
    let overlay = Some(Overlay { headings: vec![Heading::Down, Heading::Up], weight: s(0.5) });
    assert_eq!(
        strategy_returns(&Native, &series(&[0.25, 0.0]), &market, &overlay),
        series(&[-0.25, -0.75, 0.25])
    );
    // never beyond one
    assert_eq!(
        strategy_returns(&Native, &series(&[1.0, 2.0]), &series(&[3.0]), &overlay),
        series(&[3.0])
    );
}

#[test]
fn headings_follow_the_order_of_numbers() {
    assert_eq!(Heading::of(s(1.0), s(2.0)), Heading::Up);
    assert_eq!(Heading::of(s(2.0), s(1.0)), Heading::Down);
    assert_eq!(Heading::of(s(0.0), s(-0.0)), Heading::Flat);
    assert_eq!(Heading::of(s(f64::INFINITY), s(f64::INFINITY)), Heading::Unknown);
    assert_eq!(Heading::of(s(1.0), s(f64::NAN)), Heading::Unknown);
    assert_eq!(f(Heading::Down.value()), -1.0);
    assert_eq!(f(Heading::Flat.value()), 0.0);
    assert_eq!(f(Heading::Up.value()), 1.0);
    assert!(Heading::Unknown.value().is_nan());
}
