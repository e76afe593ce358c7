use vision_autoresearch::arithmetic::Arithmetic;
use vision_autoresearch::attempt_log::{AttemptLog, NoopRatchet};
use vision_autoresearch::engine::{Run, StopCondition};
use vision_autoresearch::evaluator::{BtMetric, Evaluator};
use vision_autoresearch::metric::Direction;
use vision_autoresearch::proposer::LocalProposer;
use vision_autoresearch::scalar::Scalar;
use vision_autoresearch::strategy::Heading;
use vision_autoresearch::timesfm_walkforward::{
    forecast_direction, make_forecaster, EwmaForecaster, FoldScore, Forecaster, ForecasterKind,
    ForecasterSpec, HoltForecaster, Model, NaiveForecaster, NoModel, OnnxForecaster, WalkForward,
};

fn s(x: f64) -> Scalar {
    Scalar::from_bits(x.to_bits())
}

fn f(x: Scalar) -> f64 {
    f64::from_bits(x.to_bits())
}

fn series(xs: &[f64]) -> Vec<Scalar> {
    xs.iter().map(|x| s(*x)).collect()
}

/// The machine's own arithmetic.
#[derive(Clone, Copy)]
struct Native;

impl Arithmetic for Native {
    fn plus(&self, a: Scalar, b: Scalar) -> Scalar {
        s(f(a) + f(b))
    }
    fn minus(&self, a: Scalar, b: Scalar) -> Scalar {
        s(f(a) - f(b))
    }
    fn times(&self, a: Scalar, b: Scalar) -> Scalar {
        s(f(a) * f(b))
    }
    fn over(&self, a: Scalar, b: Scalar) -> Scalar {
        s(f(a) / f(b))
    }
    fn root(&self, a: Scalar) -> Scalar {
        s(f(a).sqrt())
    }
    fn log(&self, a: Scalar) -> Scalar {
        s(f(a).ln())
    }
    fn cosine(&self, a: Scalar) -> Scalar {
        s(f(a).cos())
    }
    fn nearest(&self, a: Scalar) -> Scalar {
        s(f(a).round())
    }
    fn whole(&self, n: u64) -> Scalar {
        s(n as f64)
    }
    fn three_places(&self, a: Scalar) -> String {
        format!("{:.3}", f(a))
    }
}

fn rising_series(n: usize) -> Vec<Scalar> {
    (0..n).map(|i| s(100.0 + i as f64)).collect()
}

fn walk(
    bt: BtMetric,
    prices: Vec<Scalar>,
    train_len: usize,
    horizon: usize,
    step: usize,
    layout: ForecasterSpec,
) -> WalkForward<Native, NoModel> {
    WalkForward::new(Native, bt, prices, true, train_len, horizon, step, layout)
}

#[test]
fn naive_ewma_holt_forecast_shapes_and_values() {
    let h = series(&[1.0, 2.0, 3.0, 4.0]);
    assert_eq!(NaiveForecaster.forecast(&h, 3), series(&[4.0, 4.0, 4.0]));
    let e = EwmaForecaster::new(&Native, s(1.0)).forecast(&h, 2);
    assert!((f(e[0]) - 4.0).abs() < 1e-9 && e.len() == 2);
    let ho: Vec<f64> =
        HoltForecaster::new(&Native, s(0.5), s(0.5)).forecast(&h, 3).iter().map(|x| f(*x)).collect();
    assert_eq!(ho.len(), 3);
    assert!(ho[2] > ho[0], "Holt should extrapolate an upward trend: {ho:?}");
    assert!(ho[0] > 4.0, "Holt next point should exceed last obs on a ramp: {ho:?}");
}

#[test]
fn fold_origins_are_strictly_out_of_sample_and_rolling() {
    let wf = walk(BtMetric::Sharpe, rising_series(40), 10, 5, 5, ForecasterSpec::default());
    let origins = wf.fold_origins(40);
    assert_eq!(origins.first().copied(), Some(10));
    assert!(origins.iter().all(|&o| o + 5 <= 40));
    assert_eq!(origins, vec![10, 15, 20, 25, 30, 35]);
    assert_eq!(wf.n_folds(), 6);
}

#[test]
fn walk_forward_aggregates_to_one_finite_scalar() {
    let wf = walk(
        BtMetric::TotalReturn,
        rising_series(60),
        12,
        6,
        3,
        ForecasterSpec::new(2, ForecasterKind::Holt),
    );
    let v = f(wf.score(&series(&[1.0, 0.0, 0.4, 0.2])));
    assert!(v.is_finite(), "walk-forward must aggregate to a finite scalar, got {v}");
    assert!(v > 0.0, "long strategy on a rising series should be profitable: {v}");
}

#[test]
fn better_forecaster_scores_at_least_as_well_as_naive_on_trend() {
    let mk = |kind| {
        walk(BtMetric::TotalReturn, rising_series(80), 16, 8, 4, ForecasterSpec::new(2, kind))
            .with_overfit_penalty(s(0.0))
    };
    let artifact = series(&[0.5, 0.0, 0.4, 0.2]);
    let holt = f(mk(ForecasterKind::Holt).score(&artifact));
    let naive = f(mk(ForecasterKind::Naive).score(&artifact));
    assert!(holt.is_finite() && naive.is_finite());
    assert!(holt >= naive - 1e-9, "trend-aware forecaster should not underperform naive on a pure trend: holt={holt} naive={naive}");
}

#[test]
fn monotonic_improvement_on_improving_strategy_knob() {
    let wf = walk(
        BtMetric::TotalReturn,
        rising_series(70),
        14,
        7,
        7,
        ForecasterSpec::new(2, ForecasterKind::Holt),
    )
    .with_fc_weight(s(0.0))
    .with_overfit_penalty(s(0.0));
    let short = f(wf.score(&series(&[-1.0, 0.0, 0.4, 0.2])));
    let flat = f(wf.score(&series(&[0.0, 0.0, 0.4, 0.2])));
    let long = f(wf.score(&series(&[1.0, 0.0, 0.4, 0.2])));
    assert!(short < flat, "short should lose on a rising series: short={short} flat={flat}");
    assert!(flat <= long, "long should win on a rising series: flat={flat} long={long}");
    assert!(long > 0.0, "long on a rising series must be profitable: {long}");
}

fn alternating_blocks() -> Vec<Scalar> {
    let mut prices = Vec::new();
    for b in 0..7 {
        let base = 100.0 + (b as f64) * 5.0;
        for i in 0..12 {
            if b % 2 == 0 {
                prices.push(s(base + i as f64 * 2.0));
            } else {
                prices.push(s(base));
            }
        }
    }
    prices
}

#[test]
fn overfit_guard_demotes_an_inconsistent_candidate() {
    let artifact = series(&[1.0, 0.0, 0.4, 0.2]);
    let mk = |penalty: f64| {
        WalkForward::from_ensemble(
            Native,
            BtMetric::TotalReturn,
            vec![alternating_blocks()],
            true,
            12,
            6,
            12,
            ForecasterSpec::new(2, ForecasterKind::Holt),
        )
        .with_overfit_penalty(s(penalty))
    };
    let g = f(mk(1.0).score(&artifact));
    let u = f(mk(0.0).score(&artifact));
    assert!(g.is_finite() && u.is_finite(), "g={g} u={u}");
    assert!(g <= u + 1e-12, "overfit guard must not inflate score: guarded={g} unguarded={u}");
    assert!(g < u, "with a real even/odd regime gap the guard must demote: guarded={g} unguarded={u}");
}

#[test]
fn forecaster_spec_splits_artifact_correctly() {
    let spec = ForecasterSpec::new(2, ForecasterKind::Holt);
    let art = series(&[0.7, -0.3, 0.55, 0.22]);
    assert_eq!(spec.strategy_params(&art), &series(&[0.7, -0.3])[..]);
    assert_eq!(spec.forecaster_knobs(&art), (s(0.55), s(0.22)));
    let bare = series(&[1.0, 0.0]);
    assert_eq!(spec.forecaster_knobs(&bare), (s(0.4), s(0.1)));
}

#[test]
fn empty_series_set_scores_nan() {
    let wf = WalkForward::from_ensemble(
        Native,
        BtMetric::Sharpe,
        vec![],
        true,
        10,
        5,
        5,
        ForecasterSpec::default(),
    );
    assert!(wf.score(&series(&[1.0, 0.0, 0.4, 0.2])).is_nan());
    assert_eq!(wf.metric().direction, Direction::Maximize);
}

#[test]
fn implements_evaluator_and_drops_into_run() {
    let wf = walk(
        BtMetric::TotalReturn,
        rising_series(60),
        12,
        6,
        6,
        ForecasterSpec::new(2, ForecasterKind::Holt),
    );
    let prop = LocalProposer::new(Native, s(0.3), 7).with_bounds(s(-1.0), s(1.0));
    let mut run = Run::new(
        series(&[-1.0, 0.0, 0.4, 0.2]),
        wf,
        prop,
        NoopRatchet::new(),
        AttemptLog::new(),
    )
    .with_goal("tune strategy+forecaster via walk-forward");
    run.establish_baseline();
    let start = f(run.baseline_value());
    let results = run.run_loop(StopCondition::MaxIterations(120));
    assert_eq!(results.len(), 120);
    assert!(f(run.baseline_value()) >= start, "walk-forward ratchet regressed: {start} -> {}", f(run.baseline_value()));
    assert!(run.n_kept() >= 1, "expected at least one kept improvement");
}

#[test]
fn forecasts_on_exact_values() {
    let h = series(&[1.0, 2.0, 4.0]);
    // level: 1, then 0.5*2 + 0.5*1 = 1.5, then 0.5*4 + 0.5*1.5 = 2.75
    assert_eq!(EwmaForecaster::new(&Native, s(0.5)).forecast(&h, 2), series(&[2.75, 2.75]));
    // level 1, trend 1; on 2: level 2, trend 1; on 4: level 3.5, trend 1.25
    assert_eq!(
        HoltForecaster::new(&Native, s(0.5), s(0.5)).forecast(&h, 2),
        series(&[4.75, 6.0])
    );
    assert_eq!(HoltForecaster::standard(&Native).forecast(&series(&[7.0]), 2), series(&[7.0, 7.0]));
    assert_eq!(HoltForecaster::standard(&Native).forecast(&[], 1), series(&[0.0]));
    assert_eq!(EwmaForecaster::standard(&Native).forecast(&[], 2), series(&[0.0, 0.0]));
    assert_eq!(NaiveForecaster::default().forecast(&[], 1), series(&[0.0]));
    assert_eq!(NaiveForecaster.forecast(&h, 0), series(&[]));
}

#[test]
fn smoothing_factors_are_confined() {
    assert_eq!(f(EwmaForecaster::new(&Native, s(-3.0)).alpha), 1e-3);
    assert_eq!(f(EwmaForecaster::new(&Native, s(3.0)).alpha), 1.0);
    assert_eq!(f(EwmaForecaster::standard(&Native).alpha), 0.3);
    let h = HoltForecaster::new(&Native, s(0.5), s(-1.0));
    assert_eq!((f(h.alpha), f(h.beta)), (0.5, 0.0));
    let h = HoltForecaster::standard(&Native);
    assert_eq!((f(h.alpha), f(h.beta)), (0.4, 0.1));
}

#[test]
fn forecaster_kinds_by_name() {
    for (word, kind, name) in [
        ("naive", ForecasterKind::Naive, "naive"),
        ("RW", ForecasterKind::Naive, "naive"),
        ("random_walk", ForecasterKind::Naive, "naive"),
        (" ema", ForecasterKind::Ewma, "ewma"),
        ("ewm", ForecasterKind::Ewma, "ewma"),
        ("holt", ForecasterKind::Holt, "holt"),
        ("what", ForecasterKind::Holt, "holt"),
        ("TimesFM", ForecasterKind::TimesFmOnnx, "timesfm-onnx"),
        ("onnx", ForecasterKind::TimesFmOnnx, "timesfm-onnx"),
    ] {
        assert_eq!(ForecasterKind::from_str(word), kind);
        assert_eq!(kind.name(), name);
    }
    let (a, b) = (s(0.5), s(0.5));
    assert_eq!(make_forecaster(&Native, ForecasterKind::Naive, a, b).name(), "naive");
    assert_eq!(make_forecaster(&Native, ForecasterKind::Ewma, a, b).name(), "ewma");
    assert_eq!(make_forecaster(&Native, ForecasterKind::Holt, a, b).name(), "holt");
    // without a model the smoothing stands in
    assert_eq!(make_forecaster(&Native, ForecasterKind::TimesFmOnnx, a, b).name(), "holt");
}

#[test]
fn forecast_directions() {
    let points = series(&[2.0, 1.0, 1.0, f64::NAN, 3.0]);
    assert_eq!(
        forecast_direction(&points, s(1.0), true),
        vec![Heading::Up, Heading::Down, Heading::Flat, Heading::Unknown, Heading::Unknown]
    );
    assert_eq!(
        forecast_direction(&series(&[0.5, -0.5, 0.0]), s(9.0), false),
        vec![Heading::Up, Heading::Down, Heading::Flat]
    );
}

struct Echo {
    out: Option<Vec<f64>>,
    context: std::sync::Mutex<Vec<Scalar>>,
}

impl Model for Echo {
    fn run(&self, context: &Vec<Scalar>) -> Option<Vec<Scalar>> {
        *self.context.lock().unwrap() = context.clone();
        self.out.as_ref().map(|v| series(v))
    }
}

fn echo(out: Option<Vec<f64>>, context_len: usize, horizon: usize) -> OnnxForecaster<Echo> {
    OnnxForecaster::new(Echo { out, context: Default::default() }, context_len, horizon)
}

#[test]
fn model_context_is_padded_or_cut() {
    let m = echo(Some(vec![9.0]), 4, 1);
    m.forecast(&series(&[1.0, 2.0]), 1);
    assert_eq!(*m.model.context.lock().unwrap(), series(&[1.0, 1.0, 1.0, 2.0]));
    m.forecast(&series(&[1.0, 2.0, 3.0, 4.0, 5.0]), 1);
    assert_eq!(*m.model.context.lock().unwrap(), series(&[2.0, 3.0, 4.0, 5.0]));
    m.forecast(&[], 1);
    assert_eq!(*m.model.context.lock().unwrap(), series(&[0.0, 0.0, 0.0, 0.0]));
}

#[test]
fn model_output_is_brought_to_length() {
    let h = series(&[5.0, 6.0]);
    // the model's horizon is two: its third point is cut, then the last one it gave is repeated
    assert_eq!(
        echo(Some(vec![1.0, 2.0, 3.0]), 1, 2).forecast(&h, 4),
        series(&[1.0, 2.0, 3.0, 3.0])
    );
    assert_eq!(echo(Some(vec![1.0, 2.0, 3.0]), 1, 9).forecast(&h, 1), series(&[1.0]));
    assert_eq!(echo(Some(vec![]), 1, 0).forecast(&h, 1), series(&[0.0]));
    assert_eq!(echo(Some(vec![1.0, 2.0]), 1, 2).forecast(&h, 0), series(&[]));
    assert_eq!(echo(None, 1, 2).forecast(&h, 0), series(&[]));
    assert_eq!(echo(None, 0, 3).forecast(&h, 2), series(&[6.0, 6.0]));
    assert_eq!(echo(None, 0, 3).context_len, 1);
    assert_eq!(echo(None, 0, 0).horizon, 1);
    assert_eq!(echo(None, 1, 1).name(), "timesfm-onnx");
}

#[test]
fn a_model_overrides_the_artifact() {
    let layout = ForecasterSpec::new(2, ForecasterKind::Holt);
    let artifact = series(&[0.0, 0.0, 0.4, 0.2]);
    let down = walk(BtMetric::TotalReturn, rising_series(40), 10, 5, 5, layout)
        .with_fc_weight(s(1.0))
        .with_overfit_penalty(s(0.0))
        .with_onnx(echo(Some(vec![50.0, 40.0, 30.0, 20.0, 10.0]), 4, 5));
    let up = walk(BtMetric::TotalReturn, rising_series(40), 10, 5, 5, layout)
        .with_fc_weight(s(1.0))
        .with_overfit_penalty(s(0.0));
    assert!(f(down.score(&artifact)) < 0.0);
    assert!(f(up.score(&artifact)) > 0.0);
}

#[test]
fn a_fold_is_scored_on_what_follows() {
    // One fold: the window is 1 and 2, the steps are 4 and 8; the strategy is fully long.
    let wf = walk(
        BtMetric::TotalReturn,
        series(&[1.0, 2.0, 4.0, 8.0]),
        2,
        2,
        1,
        ForecasterSpec::new(2, ForecasterKind::Naive),
    );
    assert_eq!(f(wf.score(&series(&[1.0, 0.0]))), 3.0);
    let prices = series(&[1.0, 2.0, 4.0, 8.0]);
    let params = series(&[1.0, 0.0]);
    assert_eq!(f(wf.score_fold(&prices, &NaiveForecaster, &params, 2)), 3.0);
    assert!(wf.score_fold(&prices, &NaiveForecaster, &params, 1).is_nan());
    assert!(wf.score_fold(&prices, &NaiveForecaster, &params, 3).is_nan());
    assert!(wf.score_fold(&prices, &NaiveForecaster, &params, 99).is_nan());
    // A series of returns is taken as it is.
    let wf = WalkForward::new(
        Native,
        BtMetric::TotalReturn,
        series(&[0.1, 0.1, 1.0, 1.0]),
        false,
        2,
        2,
        1,
        ForecasterSpec::new(2, ForecasterKind::Naive),
    );
    assert_eq!(f(wf.score(&series(&[1.0, 0.0]))), 3.0);
}

#[test]
fn what_comes_after_an_origin_is_not_forecast_from() {
    let layout = ForecasterSpec::new(2, ForecasterKind::Holt);
    let wf = walk(BtMetric::TotalReturn, vec![], 4, 2, 2, layout);
    let seen = std::sync::Mutex::new(Vec::new());
    struct Spy<'a>(&'a std::sync::Mutex<Vec<Vec<Scalar>>>);
    impl<'a> Model for Spy<'a> {
        fn run(&self, context: &Vec<Scalar>) -> Option<Vec<Scalar>> {
            self.0.lock().unwrap().push(context.clone());
            None
        }
    }
    let spy = OnnxForecaster::new(Spy(&seen), 4, 2);
    let params = series(&[1.0, 0.0]);
    let mut a = rising_series(10);
    wf.score_fold(&a, &spy, &params, 6);
    for x in a[6..].iter_mut() {
        *x = s(-1.0);
    }
    wf.score_fold(&a, &spy, &params, 6);
    let seen = seen.lock().unwrap();
    assert_eq!(seen[0], seen[1]);
    assert_eq!(seen[0], rising_series(10)[2..6].to_vec());
}

#[test]
fn guard_on_given_scores() {
    let scores: Vec<FoldScore> = [(2usize, 4.0), (3, 1.0), (4, 4.0), (5, 1.0)]
        .iter()
        .map(|(origin, v)| FoldScore { origin: *origin, metric_value: s(*v) })
        .collect();
    let mk = |bt, penalty: f64| {
        walk(bt, vec![], 2, 1, 1, ForecasterSpec::default()).with_overfit_penalty(s(penalty))
    };
    // average 2.5; even folds 4, odd folds 1
    assert_eq!(f(mk(BtMetric::Sharpe, 0.0).guarded(&scores)), 2.5);
    assert_eq!(f(mk(BtMetric::Sharpe, -1.0).guarded(&scores)), 2.5);
    assert_eq!(f(mk(BtMetric::Sharpe, f64::NAN).guarded(&scores)), 2.5);
    assert_eq!(f(mk(BtMetric::Sharpe, 0.5).guarded(&scores)), 1.0);
    assert_eq!(f(mk(BtMetric::Cvar, 0.5).guarded(&scores)), 4.0);
    // without an odd fold there is nothing to compare
    assert_eq!(f(mk(BtMetric::Sharpe, 0.5).guarded(&scores[..1])), 4.0);
    assert!(mk(BtMetric::Sharpe, 0.5).guarded(&[]).is_nan());
    let (even, odd) = mk(BtMetric::Sharpe, 0.5).even_odd_means(&scores);
    assert_eq!((f(even), f(odd)), (4.0, 1.0));
}

#[test]
fn consistent_candidates_keep_their_score() {
    let scores: Vec<FoldScore> = [(2usize, 0.1), (3, 0.3), (4, 0.3), (5, 0.1)]
        .iter()
        .map(|(origin, v)| FoldScore { origin: *origin, metric_value: s(*v) })
        .collect();
    for bt in [BtMetric::Sharpe, BtMetric::Cvar] {
        let plain = walk(bt, vec![], 2, 1, 1, ForecasterSpec::default());
        let (even, odd) = plain.even_odd_means(&scores);
        assert_eq!(even, odd);
        let base = plain.guarded(&scores);
        let strict = plain.with_overfit_penalty(s(1e300));
        assert_eq!(strict.guarded(&scores), base);
    }
}

#[test]
fn walks_are_reproducible() {
    for kind in [ForecasterKind::Naive, ForecasterKind::Ewma, ForecasterKind::Holt] {
        let wf = WalkForward::from_ensemble(
            Native,
            BtMetric::Sortino,
            vec![alternating_blocks(), rising_series(50)],
            true,
            12,
            6,
            5,
            ForecasterSpec::new(2, kind),
        );
        let artifact = series(&[0.5, 0.25, 0.3, 0.2]);
        assert_eq!(wf.score(&artifact), wf.score(&artifact));
        let scores = wf.all_fold_scores(&artifact);
        assert_eq!(scores.len(), wf.n_folds());
        // one series after the other, each from its first origin on
        assert_eq!(scores[0].origin, 12);
        let second = wf.fold_origins(84).len();
        assert_eq!(scores[second].origin, 12);
        assert_eq!(scores[second + 1].origin, 17);
    }
}

struct Constant;

impl Forecaster for Constant {
    fn forecast(&self, _history: &[Scalar], horizon: usize) -> Vec<Scalar> {
        vec![s(1e6); horizon]
    }
}

#[test]
fn a_fold_is_scored_on_itself_alone() {
    let layout = ForecasterSpec::new(2, ForecasterKind::Naive);
    let wf = walk(BtMetric::TotalReturn, vec![], 4, 2, 2, layout);
    let params = series(&[0.5, 0.5]);
    let a = rising_series(12);
    let mut b = a.clone();
    // the fold at six reaches from two to eight
    for k in [0, 1, 8, 9, 10, 11] {
        b[k] = s(777.0);
    }
    assert_eq!(
        wf.score_fold(&a, &NaiveForecaster, &params, 6),
        wf.score_fold(&b, &NaiveForecaster, &params, 6)
    );
    b[7] = s(777.0);
    assert_ne!(
        wf.score_fold(&a, &NaiveForecaster, &params, 6),
        wf.score_fold(&b, &NaiveForecaster, &params, 6)
    );
}

#[test]
fn a_forecaster_can_be_supplied() {
    let wf = walk(BtMetric::TotalReturn, vec![], 4, 2, 2, ForecasterSpec::default())
        .with_fc_weight(s(1.0));
    let prices = series(&[1.0, 1.0, 1.0, 1.0, 2.0, 4.0]);
    // the first step is forecast to rise, the second to stay
    assert_eq!(f(wf.score_fold(&prices, &Constant, &series(&[0.0, 0.0]), 4)), 1.0);
    assert_eq!(Constant.name(), "forecaster");
}

#[test]
fn windows_are_made_sound() {
    let wf = walk(BtMetric::Sharpe, rising_series(5), 0, 0, 0, ForecasterSpec::default());
    assert_eq!(wf.fold_origins(5), vec![2, 3, 4]);
    assert_eq!(wf.fold_origins(2), Vec::<usize>::new());
    assert_eq!(wf.n_folds(), 3);
    let huge = walk(
        BtMetric::Sharpe,
        rising_series(5),
        usize::MAX,
        usize::MAX,
        usize::MAX,
        ForecasterSpec::default(),
    );
    assert_eq!(huge.n_folds(), 0);
    assert!(huge.score(&series(&[1.0])).is_nan());
    let far = walk(BtMetric::Sharpe, rising_series(5), 2, 1, usize::MAX, ForecasterSpec::default());
    assert_eq!(far.fold_origins(5), vec![2]);
}

#[test]
fn artifact_layout_edges() {
    assert_eq!(ForecasterSpec::new(0, ForecasterKind::Ewma).n_strategy, 1);
    assert_eq!(ForecasterSpec::default().n_strategy, 2);
    assert_eq!(ForecasterSpec::default().kind, ForecasterKind::Holt);
    let wide = ForecasterSpec::new(usize::MAX, ForecasterKind::Holt);
    let art = series(&[0.7, -0.3, 0.55]);
    assert_eq!(wide.strategy_params(&art).len(), 3);
    assert_eq!(wide.forecaster_knobs(&art), (s(0.4), s(0.1)));
    let two = ForecasterSpec::new(2, ForecasterKind::Holt);
    assert_eq!(two.forecaster_knobs(&art), (s(0.55), s(0.1)));
    assert_eq!(two.build_forecaster(&Native, &art).name(), "holt");
}
