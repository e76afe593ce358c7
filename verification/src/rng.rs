//! SplitMix64: the reproducible stream of numbers behind perturbations and rollouts.
use vstd::prelude::*;

verus! {

/// The odd constant that the state advances by.
pub const GAMMA: u64 = 0x9E37_79B9_7F4A_7C15;

/// The output for a state.
pub open spec fn mixed(state: u64) -> u64 {
    let a = (state ^ (state >> 30u64)).wrapping_mul(0xBF58_476D_1CE4_E5B9);
    let b = (a ^ (a >> 27u64)).wrapping_mul(0x94D0_49BB_1331_11EB);
    b ^ (b >> 31u64)
}

/// The state after `k` steps from `seed`.
pub open spec fn state_after(seed: u64, k: nat) -> u64 {
    ((seed + k * GAMMA) % 0x1_0000_0000_0000_0000) as u64
}

/// The `k`-th number of the stream from `seed`, counted from 0, as a fraction of one: the
/// numerator over two to the power of 53.
pub open spec fn unit_draw(seed: u64, k: nat) -> u64 {
    mixed(state_after(seed, k + 1)) >> 11u64
}

/// A number of the stream, as a fraction of one, is below one.
pub proof fn lemma_draws_are_fractions(seed: u64, k: nat)
    ensures
        unit_draw(seed, k) < 0x20_0000_0000_0000,
{
    let z = mixed(state_after(seed, k + 1));
    assert(z >> 11u64 < 0x20_0000_0000_0000) by (bit_vector);
}

/// Advances the state and returns the next number of the stream.
pub fn splitmix64_next(state: &mut u64) -> (r: u64)
    ensures
        *final(state) == state_after(*old(state), 1),
        r == mixed(*final(state)),
{
    *state = state.wrapping_add(GAMMA);
    let mut z: u64 = *state;
    z = (z ^ (z >> 30)).wrapping_mul(0xBF58_476D_1CE4_E5B9);
    z = (z ^ (z >> 27)).wrapping_mul(0x94D0_49BB_1331_11EB);
    z ^ (z >> 31)
}

/// Stepping on by one: the state after `k + 1` steps is the one after another step.
pub proof fn lemma_state_steps(seed: u64, k: nat)
    ensures
        state_after(state_after(seed, k), 1) == state_after(seed, k + 1),
{
    let m: int = 0x1_0000_0000_0000_0000;
    let whole = seed + k * GAMMA;
    vstd::arithmetic::div_mod::lemma_add_mod_noop(whole, GAMMA as int, m);
    assert((k + 1) * GAMMA == k * GAMMA + GAMMA) by (nonlinear_arith);
}

/// Advances the state and returns the next fraction of the stream, by its numerator over two to
/// the power of 53.
pub fn next_unit(state: &mut u64) -> (r: u64)
    ensures
        *final(state) == state_after(*old(state), 1),
        r == mixed(*final(state)) >> 11u64,
        r < 0x20_0000_0000_0000,
{
    let z: u64 = splitmix64_next(state);
    let r: u64 = z >> 11;
    assert(r < 0x20_0000_0000_0000u64) by (bit_vector)
        requires
            r == z >> 11u64,
    ;
    r
}

/// The seed of the `k`-th of many streams that share one base seed.
pub open spec fn derived_seed(base: u64, k: u64) -> u64 {
    base ^ k.wrapping_mul(GAMMA)
}

/// Derives the seed of stream `k` from the base seed.
pub fn path_seed(base_seed: u64, k: usize) -> (r: u64)
    ensures
        r == derived_seed(base_seed, k as u64),
{
    base_seed ^ (k as u64).wrapping_mul(GAMMA)
}

/// Streams with different numbers start from different seeds.
pub proof fn law_derived_seeds_differ(base: u64, a: u64, b: u64)
    requires
        a != b,
    ensures
        derived_seed(base, a) != derived_seed(base, b),
{
    let x = a.wrapping_mul(GAMMA);
    let y = b.wrapping_mul(GAMMA);
    if derived_seed(base, a) == derived_seed(base, b) {
        assert(x == y) by (bit_vector)
            requires
                base ^ x == base ^ y,
        ;
        let m: int = 0x1_0000_0000_0000_0000;
        let g = GAMMA as int;
        let inverse: int = 0xF1DE_83E1_9937_733D;
        let q = (g * inverse) / m;
        assert(g * inverse == q * m + 1);
        let d = a - b;
        let s = (a * g) / m;
        let t = (b * g) / m;
        assert(a * g == m * s + x && b * g == m * t + y);
        assert(d == m * ((s - t) * inverse - d * q)) by (nonlinear_arith)
            requires
                a * g == m * s + x,
                b * g == m * t + y,
                x == y,
                d == a - b,
                g * inverse == q * m + 1,
        {
            assert(d * g == m * (s - t));
            assert(d * g * inverse == m * (s - t) * inverse);
            assert(d * (g * inverse) == d * (q * m) + d);
        }
        let k = (s - t) * inverse - d * q;
        assert(d == 0) by (nonlinear_arith)
            requires
                d == m * k,
                -m < d < m,
        ;
    }
}

} // verus!
