use vision_autoresearch::metric::{Direction, KeepOrRevert, Metric};
use vision_autoresearch::scalar::Scalar;

fn s(x: f64) -> Scalar {
    Scalar::from_bits(x.to_bits())
}

#[test]
fn minimize_strict_keep_on_lower_only() {
    let m = Metric::val_bpb();
    assert_eq!(m.decide(s(1.0), s(0.9)), KeepOrRevert::Keep);
    assert_eq!(m.decide(s(1.0), s(1.0)), KeepOrRevert::Revert);
    assert_eq!(m.decide(s(1.0), s(1.1)), KeepOrRevert::Revert);
}

#[test]
fn maximize_strict_keep_on_higher_only() {
    let m = Metric::new("sharpe", Direction::Maximize);
    assert_eq!(m.decide(s(1.0), s(1.1)), KeepOrRevert::Keep);
    assert_eq!(m.decide(s(1.0), s(1.0)), KeepOrRevert::Revert);
    assert_eq!(m.decide(s(1.0), s(0.9)), KeepOrRevert::Revert);
}

#[test]
fn nan_candidate_never_keeps_and_no_baseline_always_keeps() {
    let m = Metric::val_bpb();
    assert_eq!(m.decide(s(1.0), s(f64::NAN)), KeepOrRevert::Revert);
    assert!(m.improved(s(f64::NAN), s(5.0)));
    assert!(m.improved(m.worst(), s(5.0)));
}

#[test]
fn worst_sentinel_is_direction_aware() {
    assert_eq!(Metric::val_bpb().worst(), s(f64::INFINITY));
    assert_eq!(
        Metric::new("ret", Direction::Maximize).worst(),
        s(f64::NEG_INFINITY)
    );
}

#[test]
fn direction_parse_defaults_to_minimize() {
    assert_eq!(Direction::from_str("maximize"), Direction::Maximize);
    assert_eq!(Direction::from_str("MAX"), Direction::Maximize);
    assert_eq!(Direction::from_str("whatever"), Direction::Minimize);
    assert_eq!(Direction::from_str("minimize"), Direction::Minimize);
}

#[test]
fn direction_reads_every_keyword_in_any_case() {
    for word in ["maximize", "max", "Higher", "  UP\t"] {
        assert_eq!(Direction::from_str(word), Direction::Maximize);
    }
    assert_eq!(Direction::from_str(""), Direction::Minimize);
    assert_eq!(Direction::Maximize.as_str(), "maximize");
    assert_eq!(Direction::Minimize.as_str(), "minimize");
    assert_eq!(KeepOrRevert::Keep.as_str(), "keep");
    assert_eq!(KeepOrRevert::Revert.as_str(), "revert");
}

#[test]
fn at_least_as_good_treats_nan_as_worst() {
    let m = Metric::val_bpb();
    assert!(m.at_least_as_good(s(1.0), s(1.0)));
    assert!(m.at_least_as_good(s(0.5), s(1.0)));
    assert!(!m.at_least_as_good(s(1.5), s(1.0)));
    assert!(m.at_least_as_good(s(1.5), s(f64::NAN)));
    assert!(!m.at_least_as_good(s(f64::NAN), s(f64::NAN)));
    let up = Metric::new("sharpe", Direction::Maximize);
    assert!(up.at_least_as_good(s(1.5), s(1.0)));
    assert!(!up.at_least_as_good(s(0.5), s(1.0)));
}

#[test]
fn scalar_order_is_the_numeric_order() {
    let values = [
        f64::NEG_INFINITY,
        -1e300,
        -1.5,
        -1.0,
        -5e-324,
        -0.0,
        0.0,
        5e-324,
        2.2e-308,
        1.0,
        1.5,
        1e300,
        f64::INFINITY,
        f64::NAN,
    ];
    for a in values {
        for b in values {
            assert_eq!(s(a).below(s(b)), a < b, "{a} < {b}");
            assert_eq!(s(a).at_most(s(b)), a <= b, "{a} <= {b}");
            assert_eq!(s(a).max(s(b)).to_bits() == a.max(b).to_bits() || a == b
                || (a.is_nan() && b.is_nan()), true, "max({a}, {b})");
        }
        assert_eq!(s(a).is_nan(), a.is_nan());
        assert_eq!(s(a).is_finite(), a.is_finite());
        assert_eq!(s(a).abs().to_bits(), a.abs().to_bits());
        assert_eq!(s(a).negate().to_bits(), (-a).to_bits());
        assert_eq!(s(a).signum().to_bits(), a.signum().to_bits());
        assert_eq!(s(a).clamp(s(-1.0), s(1.0)).to_bits(), a.clamp(-1.0, 1.0).to_bits());
    }
}
