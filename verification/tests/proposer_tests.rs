use vision_autoresearch::arithmetic::Arithmetic;
use vision_autoresearch::proposer::{Candidate, LocalProposer, Proposer, VariationProposer};
use vision_autoresearch::rng::{next_unit, path_seed, splitmix64_next};
use vision_autoresearch::scalar::Scalar;

fn s(x: f64) -> Scalar {
    Scalar::from_bits(x.to_bits())
}

fn f(x: Scalar) -> f64 {
    f64::from_bits(x.to_bits())
}

fn series(xs: &[f64]) -> Vec<Scalar> {
    xs.iter().map(|x| s(*x)).collect()
}

/// The machine's own arithmetic.
#[derive(Clone, Copy)]
struct Native;

impl Arithmetic for Native {
    fn plus(&self, a: Scalar, b: Scalar) -> Scalar {
        s(f(a) + f(b))
    }
    fn minus(&self, a: Scalar, b: Scalar) -> Scalar {
        s(f(a) - f(b))
    }
    fn times(&self, a: Scalar, b: Scalar) -> Scalar {
        s(f(a) * f(b))
    }
    fn over(&self, a: Scalar, b: Scalar) -> Scalar {
        s(f(a) / f(b))
    }
    fn root(&self, a: Scalar) -> Scalar {
        s(f(a).sqrt())
    }
    fn log(&self, a: Scalar) -> Scalar {
        s(f(a).ln())
    }
    fn cosine(&self, a: Scalar) -> Scalar {
        s(f(a).cos())
    }
    fn nearest(&self, a: Scalar) -> Scalar {
        s(f(a).round())
    }
    fn whole(&self, n: u64) -> Scalar {
        s(n as f64)
    }
    fn three_places(&self, a: Scalar) -> String {
        format!("{:.3}", f(a))
    }
}

#[test]
fn local_proposer_is_reproducible_and_bounded() {
    let p = LocalProposer::new(Native, s(0.5), 123).with_bounds(s(-2.0), s(2.0));
    let base = series(&[0.0, 0.0, 0.0]);
    let a = p.propose(&base, &[], 0);
    let b = p.propose(&base, &[], 0);
    assert_eq!(a.artifact, b.artifact);
    let c = p.propose(&base, &[], 1);
    assert_ne!(a.artifact, c.artifact);
    assert!(a.artifact.iter().all(|v| f(*v) >= -2.0 && f(*v) <= 2.0));
}

#[test]
fn local_proposer_seeds_empty_baseline() {
    let p = LocalProposer::new(Native, s(1.0), 7);
    let c = p.propose(&vec![], &[], 3);
    assert!(!c.artifact.is_empty(), "must seed a knob for an empty baseline");
}

#[test]
fn variation_proposer_cycles() {
    let p = VariationProposer::new(vec![series(&[1.0]), series(&[2.0]), series(&[3.0])]);
    assert_eq!(p.propose(&vec![], &[], 0).artifact, series(&[1.0]));
    assert_eq!(p.propose(&vec![], &[], 1).artifact, series(&[2.0]));
    assert_eq!(p.propose(&vec![], &[], 2).artifact, series(&[3.0]));
    assert_eq!(p.propose(&vec![], &[], 3).artifact, series(&[1.0]));
}

#[test]
fn variations_are_described_by_their_number() {
    let p = VariationProposer::new(vec![series(&[1.0]), series(&[2.0])]);
    assert_eq!(p.propose(&vec![], &[], 5).description, "variation[1]");
    assert_eq!(p.name(), "variation_proposer");
    let none = VariationProposer::new(vec![]);
    let c = none.propose(&series(&[4.0]), &[], 1);
    assert_eq!(c.artifact, series(&[4.0]));
    assert_eq!(c.description, "no-op (empty variation list)");
}

#[test]
fn local_perturbation_draws_from_the_stream_of_its_iteration() {
    let p = LocalProposer::new(Native, s(0.4), 2026).with_bounds(s(-5.0), s(5.0));
    let base = [0.5, -1.0, 4.9];
    let n = 6usize;
    let mut state = 2026u64 ^ (n as u64).wrapping_mul(0x9E3779B97F4A7C15);
    let expected: Vec<f64> = base
        .iter()
        .map(|b| {
            let u = next_unit(&mut state) as f64 / 9007199254740992.0;
            (b + (u * 2.0 - 1.0) * 0.4).clamp(-5.0, 5.0)
        })
        .collect();
    let c = p.propose(&series(&base), &[], n);
    assert_eq!(c.artifact, series(&expected));
    assert_eq!(c.description, "local-perturb step=0.400 iter=6");
    assert_eq!(p.name(), "local_proposer");
    assert_eq!((f(p.lo()), f(p.hi()), f(p.step()), p.base_seed()), (-5.0, 5.0, 0.4, 2026));
}

#[test]
fn no_knob_moves_by_more_than_a_step() {
    let p = LocalProposer::new(Native, s(0.3), 11).with_bounds(s(-1.0), s(1.0));
    let base = [0.1, -1.0, 0.95];
    let mut moved = false;
    for n in 0..200 {
        let c = p.propose(&series(&base), &[], n);
        assert_eq!(c.artifact.len(), 3);
        for (b, v) in base.iter().zip(c.artifact.iter()) {
            let v = f(*v);
            assert!(b - 0.3 <= v && v <= b + 0.3 && -1.0 <= v && v <= 1.0);
            moved |= v != *b;
        }
        let first = p.propose(&vec![], &[], n);
        assert_eq!(first.artifact.len(), 1);
        assert!(f(first.artifact[0]).abs() <= 1.0);
    }
    assert!(moved);
}

#[test]
fn default_box_is_ten_either_way() {
    let p = LocalProposer::new(Native, s(100.0), 1);
    assert_eq!((f(p.lo()), f(p.hi())), (-10.0, 10.0));
    for n in 0..20 {
        let c = p.propose(&series(&[0.0]), &[], n);
        assert!(f(c.artifact[0]).abs() <= 10.0);
    }
}

#[test]
fn candidates_are_copied_whole() {
    let c = Candidate { artifact: series(&[1.0, 2.0]), description: "two".to_string() };
    let d = c.clone();
    assert_eq!(d.artifact, c.artifact);
    assert_eq!(d.description, "two");
}

#[test]
fn splitmix_reference_values() {
    // The first numbers of the stream from zero.
    let mut state = 0u64;
    assert_eq!(splitmix64_next(&mut state), 0xE220A8397B1DCDAF);
    assert_eq!(splitmix64_next(&mut state), 0x6E789E6AA1B965F4);
    assert_eq!(splitmix64_next(&mut state), 0x06C45D188009454F);
    let mut state = 0u64;
    assert_eq!(next_unit(&mut state), 0xE220A8397B1DCDAF >> 11);
}

#[test]
fn seeds_of_streams_differ() {
    let seeds: Vec<u64> = (0..100).map(|k| path_seed(42, k)).collect();
    for i in 0..100 {
        for j in 0..i {
            assert_ne!(seeds[i], seeds[j]);
        }
    }
    assert_eq!(seeds[0], 42);
}
