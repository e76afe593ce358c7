use vision_autoresearch::arithmetic::Arithmetic;
use vision_autoresearch::scalar::Scalar;
use vision_autoresearch::scenario::{MirofishScenarioSource, ScenarioSource};

fn s(x: f64) -> Scalar {
    Scalar::from_bits(x.to_bits())
}

fn f(x: Scalar) -> f64 {
    f64::from_bits(x.to_bits())
}

fn series(xs: &[f64]) -> Vec<Scalar> {
    xs.iter().map(|x| s(*x)).collect()
}

/// The machine's own arithmetic.
#[derive(Clone, Copy)]
struct Native;

impl Arithmetic for Native {
    fn plus(&self, a: Scalar, b: Scalar) -> Scalar {
        s(f(a) + f(b))
    }
    fn minus(&self, a: Scalar, b: Scalar) -> Scalar {
        s(f(a) - f(b))
    }
    fn times(&self, a: Scalar, b: Scalar) -> Scalar {
        s(f(a) * f(b))
    }
    fn over(&self, a: Scalar, b: Scalar) -> Scalar {
        s(f(a) / f(b))
    }
    fn root(&self, a: Scalar) -> Scalar {
        s(f(a).sqrt())
    }
    fn log(&self, a: Scalar) -> Scalar {
        s(f(a).ln())
    }
    fn cosine(&self, a: Scalar) -> Scalar {
        s(f(a).cos())
    }
    fn nearest(&self, a: Scalar) -> Scalar {
        s(f(a).round())
    }
    fn whole(&self, n: u64) -> Scalar {
        s(n as f64)
    }
    fn three_places(&self, a: Scalar) -> String {
        format!("{:.3}", f(a))
    }
}

fn source(start: f64, drift: f64, vol: f64) -> MirofishScenarioSource<Native> {
    MirofishScenarioSource::new(Native, s(start), s(drift), s(vol))
}

#[test]
fn rollout_shape_and_reproducibility() {
    let src = source(100.0, 0.001, 0.02);
    let a = src.rollout(50, 8, 42);
    let b = src.rollout(50, 8, 42);
    assert_eq!(a.len(), 50);
    assert!(a.iter().all(|p| p.len() == 8));
    for (pa, pb) in a.iter().zip(b.iter()) {
        for (x, y) in pa.iter().zip(pb.iter()) {
            assert!((f(*x) - f(*y)).abs() < 1e-12);
        }
    }
}

#[test]
fn different_seed_gives_different_paths() {
    let src = source(100.0, 0.0, 0.02);
    let a = src.rollout(10, 8, 1);
    let b = src.rollout(10, 8, 2);
    let diff = a
        .iter()
        .zip(b.iter())
        .any(|(pa, pb)| (f(*pa.last().unwrap()) - f(*pb.last().unwrap())).abs() > 1e-9);
    assert!(diff, "different seeds produced identical paths");
}

#[test]
fn from_history_estimates_drift_and_vol() {
    let hist = series(&[100.0, 101.0, 102.0, 103.0, 104.0]);
    let src = MirofishScenarioSource::from_history(Native, &hist);
    assert!(f(src.drift) > 0.0);
    assert!(f(src.vol) >= 0.0);
    let paths = src.rollout(5, 4, 7);
    assert_eq!(paths.len(), 5);
    assert!(paths.iter().all(|p| p.iter().all(|v| f(*v) > 0.0)));
}

#[test]
fn prices_stay_positive() {
    let src = source(50.0, -0.05, 0.5);
    let paths = src.rollout(20, 30, 99);
    assert!(paths.iter().all(|p| p.iter().all(|v| f(*v) > 0.0)));
}

#[test]
fn prices_are_floored() {
    // Every step wipes the price out.
    let src = source(50.0, -2.0, 0.0);
    assert_eq!(src.rollout(1, 2, 3), vec![series(&[1e-9, 1e-9])]);
}

#[test]
fn a_walk_without_volatility_compounds_the_drift() {
    let src = source(100.0, 0.5, 0.0);
    assert_eq!(src.rollout(2, 3, 9), vec![series(&[150.0, 225.0, 337.5]); 2]);
}

#[test]
fn a_path_follows_its_stream() {
    let src = source(100.0, 0.001, 0.02);
    let mut state = 42u64 ^ 1u64.wrapping_mul(0x9E3779B97F4A7C15);
    let mut next = || {
        state = state.wrapping_add(0x9E3779B97F4A7C15);
        let mut z = state;
        z = (z ^ (z >> 30)).wrapping_mul(0xBF58476D1CE4E5B9);
        z = (z ^ (z >> 27)).wrapping_mul(0x94D049BB133111EB);
        ((z ^ (z >> 31)) >> 11) as f64 / 9007199254740992.0
    };
    let mut v = 100.0f64;
    let mut expected = Vec::new();
    for _ in 0..5 {
        let u1 = next().max(1e-12);
        let u2 = next();
        let z = (-2.0 * u1.ln()).sqrt() * (2.0 * std::f64::consts::PI * u2).cos();
        v *= 1.0 + 0.001 + z * 0.02;
        expected.push(v);
    }
    assert_eq!(src.rollout(2, 5, 42)[1], series(&expected));
}

#[test]
fn rollouts_have_the_paths_and_steps_that_were_asked_for() {
    let src = source(100.0, 0.0, 0.0);
    assert!(src.rollout(0, 0, 1).is_empty());
    assert!(src.rollout(0, 5, 1).is_empty());
    assert_eq!(src.rollout(2, 0, 1), vec![series(&[]), series(&[])]);
    assert_eq!(src.rollout(1, 1, 1), vec![series(&[100.0])]);
}

#[test]
fn larger_rollouts_extend_smaller_ones() {
    let src = source(100.0, 0.001, 0.02);
    let small = src.rollout(3, 4, 42);
    let large = src.rollout(7, 9, 42);
    assert_eq!((large.len(), large[6].len()), (7, 9));
    for (a, b) in small.iter().zip(large.iter()) {
        assert_eq!(a[..], b[..4]);
        assert!(b.iter().all(|v| f(*v) >= 1e-9));
    }
}

#[test]
fn arguments_are_made_sound() {
    let src = source(-5.0, 0.25, -1.0);
    assert_eq!((f(src.start), f(src.drift), f(src.vol)), (1e-9, 0.25, 0.0));
    let src = source(f64::NAN, 0.0, f64::NAN);
    assert_eq!((f(src.start), f(src.vol)), (1e-9, 0.0));
}

#[test]
fn short_histories_get_defaults() {
    let none = MirofishScenarioSource::from_history(Native, &[]);
    assert_eq!((f(none.start), f(none.drift), f(none.vol)), (1.0, 0.0, 0.01));
    let one = MirofishScenarioSource::from_history(Native, &series(&[7.0]));
    assert_eq!((f(one.start), f(one.drift), f(one.vol)), (7.0, 0.0, 0.01));
    let flat = MirofishScenarioSource::from_history(Native, &series(&[7.0, 7.0, 7.0]));
    assert_eq!((f(flat.start), f(flat.drift), f(flat.vol)), (7.0, 0.0, 1e-6));
    // returns of one and zero: mean and deviation one half
    let two = MirofishScenarioSource::from_history(Native, &series(&[1.0, 2.0, 2.0]));
    assert_eq!((f(two.start), f(two.drift), f(two.vol)), (2.0, 0.5, 0.5));
}

#[test]
fn rollouts_are_prices() {
    let src = source(1.0, 0.0, 0.0);
    assert!(src.paths_are_prices());
    assert_eq!(src.name(), "mirofish_rollout");
}
