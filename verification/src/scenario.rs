//! Scenario paths: the ensembles that backtests run on.
use vstd::prelude::*;

use crate::arithmetic::{mean, Arithmetic};
use crate::parallel::par_map;
use crate::proposer::FRACTIONS;
use crate::rng::{next_unit, path_seed};
use crate::scalar::{Scalar, ONE};
use crate::strategy::{to_returns, TINY};

verus! {

/// A generator of scenario paths: each is a series of prices or returns, step by step.
pub trait ScenarioSource: Send + Sync {
    /// Can these paths come back from these inputs? A source that is not verified says nothing
    /// here.
    open spec fn may_roll(
        &self,
        n: nat,
        horizon: nat,
        seed: u64,
        paths: Seq<Vec<Scalar>>,
    ) -> bool {
        true
    }

    /// Generates paths.
    fn rollout(&self, n: usize, horizon: usize, seed: u64) -> (paths: Vec<Vec<Scalar>>)
        ensures
            self.may_roll(n as nat, horizon as nat, seed, paths@),
    ;

    fn name(&self) -> (r: &str)
        default_ensures
            r@ == "scenario_source"@,
    {
        "scenario_source"
    }

    /// Are the paths price levels, not step returns?
    fn paths_are_prices(&self) -> (r: bool)
        default_ensures
            r,
    {
        true
    }
}

/// The bits of the lowest price.
pub const FLOOR: u64 = 0x3E11_2E0B_E826_D695;

/// The bits of the lowest volatility that is estimated from a history.
pub const CALM: u64 = 0x3EB0_C6F7_A0B5_ED8D;

/// The bits of the volatility that is taken where there is no history.
pub const DEFAULT_VOL: u64 = 0x3F84_7AE1_47AE_147B;

/// The bits of minus two.
pub const MINUS_TWO: u64 = 0xC000_0000_0000_0000;

/// The bits of a full turn, in radians.
pub const TURN: u64 = 0x4019_21FB_5444_2D18;

/// `x`, or the bound given by `bits` where `x` is below it. A NaN stays.
pub open spec fn raised(x: Scalar, bits: u64) -> Scalar {
    if x@.lt((Scalar { bits })@) {
        Scalar { bits }
    } else {
        x
    }
}

fn raise(x: Scalar, bits: u64) -> (r: Scalar)
    ensures
        r == raised(x, bits),
{
    if x.below(Scalar::from_bits(bits)) {
        Scalar::from_bits(bits)
    } else {
        x
    }
}

/// Can a draw come out as `r`, between zero and one? `numerator` counts it in fractions of two to
/// the power of minus 53.
pub open spec fn is_unit<A: Arithmetic>(ops: &A, numerator: u64, r: Scalar) -> bool {
    exists|whole: Scalar|
        #![trigger crate::arithmetic::counts(ops, numerator as nat, whole)]
        crate::arithmetic::counts(ops, numerator as nat, whole) && crate::arithmetic::divides(
            ops,
            whole,
            Scalar { bits: FRACTIONS },
            r,
        )
}

fn unit<A: Arithmetic>(ops: &A, numerator: u64) -> (r: Scalar)
    ensures
        is_unit(ops, numerator, r),
{
    let whole = ops.whole(numerator);
    assert(crate::arithmetic::counts(ops, numerator as nat, whole));
    ops.over(whole, Scalar::from_bits(FRACTIONS))
}

/// Can two uniform draws give the standard normal draw `r`, by the cosine branch of Box and
/// Muller? The first draw is kept away from zero.
pub open spec fn is_normal<A: Arithmetic>(ops: &A, first: u64, second: u64, r: Scalar) -> bool {
    exists|
        u: Scalar,
        v: Scalar,
        ln: Scalar,
        scaled: Scalar,
        radius: Scalar,
        angle: Scalar,
        c: Scalar,
    |
        {
            &&& #[trigger] is_unit(ops, first, u)
            &&& #[trigger] is_unit(ops, second, v)
            &&& #[trigger] crate::arithmetic::takes_log(ops, raised(u, TINY), ln)
            &&& #[trigger] crate::arithmetic::multiplies(
                ops,
                Scalar { bits: MINUS_TWO },
                ln,
                scaled,
            )
            &&& #[trigger] crate::arithmetic::extracts(ops, scaled, radius)
            &&& #[trigger] crate::arithmetic::multiplies(ops, Scalar { bits: TURN }, v, angle)
            &&& #[trigger] crate::arithmetic::takes_cosine(ops, angle, c)
            &&& crate::arithmetic::multiplies(ops, radius, c, r)
        }
}

/// A standard normal draw from two uniform ones.
fn normal<A: Arithmetic>(ops: &A, first: u64, second: u64) -> (r: Scalar)
    ensures
        is_normal(ops, first, second, r),
{
    let u = unit(ops, first);
    let v = unit(ops, second);
    let ln = ops.log(raise(u, TINY));
    let scaled = ops.times(Scalar::from_bits(MINUS_TWO), ln);
    let radius = ops.root(scaled);
    let angle = ops.times(Scalar::from_bits(TURN), v);
    let c = ops.cosine(angle);
    let r = ops.times(radius, c);
    proof {
        assert(crate::arithmetic::takes_log(ops, raised(u, TINY), ln));
        assert(crate::arithmetic::multiplies(ops, Scalar { bits: MINUS_TWO }, ln, scaled));
        assert(crate::arithmetic::extracts(ops, scaled, radius));
        assert(crate::arithmetic::multiplies(ops, Scalar { bits: TURN }, v, angle));
        assert(crate::arithmetic::takes_cosine(ops, angle, c));
        assert(crate::arithmetic::multiplies(ops, radius, c, r));
    }
    r
}

/// Monte Carlo paths: a random walk on prices that starts at `start` and is multiplied at each
/// step by one plus the drift plus a normal shock, the volatility its deviation. Prices do not
/// fall below a positive floor.
pub struct MirofishScenarioSource<A: Arithmetic> {
    pub ops: A,
    pub start: Scalar,
    pub drift: Scalar,
    pub vol: Scalar,
}

/// Can the estimates of drift and volatility from step returns come out so? The drift is their
/// mean, the volatility their deviation from it, kept away from zero.
pub open spec fn are_estimates<A: Arithmetic>(
    ops: &A,
    changes: Seq<Scalar>,
    drift: Scalar,
    vol: Scalar,
) -> bool {
    exists|squares: Seq<Scalar>, variance: Scalar, deviation: Scalar|
        {
            &&& crate::arithmetic::is_mean(ops, changes, drift)
            &&& crate::evaluator::squared_gaps(ops, changes, drift, squares)
            &&& #[trigger] crate::arithmetic::is_mean(ops, squares, variance)
            &&& #[trigger] crate::arithmetic::extracts(ops, variance, deviation)
            &&& vol == crate::scalar::larger(deviation, Scalar { bits: CALM })
        }
}

impl<A: Arithmetic> MirofishScenarioSource<A> {
    /// A price that is not positive is raised to the floor, a negative volatility to zero.
    pub fn new(ops: A, start: Scalar, drift: Scalar, vol: Scalar) -> (r: MirofishScenarioSource<A>)
        ensures
            r.ops == ops,
            r.start == crate::scalar::larger(start, Scalar { bits: FLOOR }),
            r.drift == drift,
            r.vol == crate::scalar::larger(vol, Scalar { bits: 0 }),
    {
        MirofishScenarioSource {
            ops,
            start: start.max(Scalar::from_bits(FLOOR)),
            drift,
            vol: vol.max(Scalar::from_bits(0)),
        }
    }

    /// Starts at the last price of a history and estimates drift and volatility from its step
    /// returns. A history without a step gives no drift and a default volatility.
    pub fn from_history(ops: A, history: &[Scalar]) -> (r: MirofishScenarioSource<A>)
        ensures
            r.ops == ops,
            history@.len() == 0 ==> r.start == (Scalar { bits: ONE }),
            history@.len() > 0 ==> r.start == crate::scalar::larger(
                history@.last(),
                Scalar { bits: FLOOR },
            ),
            history@.len() < 2 ==> r.drift == (Scalar { bits: 0 }) && r.vol == (Scalar {
                bits: DEFAULT_VOL,
            }),
            history@.len() >= 2 ==> exists|changes: Seq<Scalar>, vol: Scalar|
                {
                    &&& crate::strategy::are_changes(&ops, history@, true, changes)
                    &&& #[trigger] are_estimates(&ops, changes, r.drift, vol)
                    &&& r.vol == crate::scalar::larger(vol, Scalar { bits: 0 })
                },
    {
        let n: usize = history.len();
        let zero = Scalar::from_bits(0);
        proof {
            crate::scalar::lemma_place_orders(
                Scalar { bits: ONE },
                Scalar { bits: FLOOR },
            );
            crate::scalar::lemma_place_orders(Scalar { bits: DEFAULT_VOL }, zero);
        }
        if n < 2 {
            let start = if n == 0 {
                Scalar::from_bits(ONE)
            } else {
                history[0]
            };
            return MirofishScenarioSource::new(ops, start, zero, Scalar::from_bits(DEFAULT_VOL));
        }
        let changes = to_returns(&ops, history, true);
        let drift = mean(&ops, changes.as_slice());
        let squares = crate::evaluator::squares_about(&ops, changes.as_slice(), drift);
        let variance = mean(&ops, squares.as_slice());
        let deviation = ops.root(variance);
        let vol = deviation.max(Scalar::from_bits(CALM));
        proof {
            assert(crate::arithmetic::is_mean(&ops, squares@, variance));
            assert(crate::arithmetic::extracts(&ops, variance, deviation));
            assert(are_estimates(&ops, changes@, drift, vol));
        }
        MirofishScenarioSource::new(ops, history[n - 1], drift, vol)
    }

    /// The price before step `i` of a path.
    pub open spec fn price_before(&self, path: Seq<Scalar>, i: int) -> Scalar {
        if i == 0 {
            self.start
        } else {
            path[i - 1]
        }
    }

    /// Can step `i` of the path with this seed lead from price `before` to price `after`?
    pub open spec fn may_step(&self, seed: u64, i: int, before: Scalar, after: Scalar) -> bool {
        exists|z: Scalar, shock: Scalar, trend: Scalar, factor: Scalar, moved: Scalar|
            {
                &&& is_normal(
                    &self.ops,
                    crate::rng::unit_draw(seed, (2 * i) as nat),
                    crate::rng::unit_draw(seed, (2 * i + 1) as nat),
                    z,
                )
                &&& #[trigger] crate::arithmetic::multiplies(&self.ops, z, self.vol, shock)
                &&& #[trigger] crate::arithmetic::adds(
                    &self.ops,
                    Scalar { bits: ONE },
                    self.drift,
                    trend,
                )
                &&& #[trigger] crate::arithmetic::adds(&self.ops, trend, shock, factor)
                &&& #[trigger] crate::arithmetic::multiplies(&self.ops, before, factor, moved)
                &&& after == raised(moved, FLOOR)
            }
    }

    /// Can the path with this seed be `path`?
    pub open spec fn may_walk(&self, seed: u64, horizon: nat, path: Seq<Scalar>) -> bool {
        &&& path.len() == horizon
        &&& forall|i: int|
            0 <= i < horizon ==> self.may_step(
                seed,
                i,
                self.price_before(path, i),
                #[trigger] path[i],
            )
    }

    /// The path with this seed, every step of it.
    pub fn one_path(&self, n: usize, seed: u64) -> (path: Vec<Scalar>)
        ensures
            self.may_walk(seed, n as nat, path@),
    {
        let ops = &self.ops;
        let mut state: u64 = seed;
        let one = Scalar::from_bits(ONE);
        let mut price = self.start;
        let mut path: Vec<Scalar> = Vec::new();
        let mut i: usize = 0;
        while i < n
            invariant
                i <= n,
                one == (Scalar { bits: ONE }),
                ops == self.ops,
                state == crate::rng::state_after(seed, (2 * i) as nat),
                path@.len() == i,
                price == self.price_before(path@, i as int),
                forall|j: int|
                    0 <= j < i ==> self.may_step(
                        seed,
                        j,
                        self.price_before(path@, j),
                        #[trigger] path@[j],
                    ),
            decreases n - i,
        {
            let ghost walked = path@;
            proof {
                crate::rng::lemma_state_steps(seed, (2 * i) as nat);
                crate::rng::lemma_state_steps(seed, (2 * i + 1) as nat);
            }
            let first: u64 = next_unit(&mut state);
            let second: u64 = next_unit(&mut state);
            let z = normal(ops, first, second);
            let shock = ops.times(z, self.vol);
            let trend = ops.plus(one, self.drift);
            let factor = ops.plus(trend, shock);
            let moved = ops.times(price, factor);
            let next = raise(moved, FLOOR);
            path.push(next);
            proof {
                assert(crate::arithmetic::multiplies(&self.ops, z, self.vol, shock));
                assert(crate::arithmetic::adds(&self.ops, one, self.drift, trend));
                assert(crate::arithmetic::adds(&self.ops, trend, shock, factor));
                assert(crate::arithmetic::multiplies(&self.ops, price, factor, moved));
                assert(self.may_step(seed, i as int, price, next));
                assert forall|j: int| 0 <= j < i + 1 implies self.may_step(
                    seed,
                    j,
                    self.price_before(path@, j),
                    #[trigger] path@[j],
                ) by {
                    assert(self.price_before(path@, j) == self.price_before(walked, j));
                    if j < i {
                        assert(path@[j] == walked[j]);
                    }
                }
            }
            price = next;
            i += 1;
        }
        path
    }
}

impl<A: Arithmetic> ScenarioSource for MirofishScenarioSource<A> {
    /// So many paths of so many prices, every path from a seed of its own.
    open spec fn may_roll(
        &self,
        n: nat,
        horizon: nat,
        seed: u64,
        paths: Seq<Vec<Scalar>>,
    ) -> bool {
        &&& paths.len() == n
        &&& forall|k: int|
            0 <= k < paths.len() ==> self.may_walk(
                crate::rng::derived_seed(seed, k as u64),
                horizon,
                (#[trigger] paths[k])@,
            )
    }

    fn rollout(&self, n: usize, horizon: usize, seed: u64) -> (paths: Vec<Vec<Scalar>>) {
        let mut seeds: Vec<u64> = Vec::new();
        let mut k: usize = 0;
        while k < n
            invariant
                k <= n,
                seeds@.len() == k,
                forall|j: int|
                    0 <= j < k ==> #[trigger] seeds@[j] == crate::rng::derived_seed(
                        seed,
                        j as u64,
                    ),
            decreases n - k,
        {
            seeds.push(path_seed(seed, k));
            k += 1;
        }
        let walk = |s: &u64| -> (path: Vec<Scalar>)
            ensures
                self.may_walk(*s, horizon as nat, path@),
            { self.one_path(horizon, *s) };
        par_map(seeds.as_slice(), walk)
    }

    fn name(&self) -> (r: &str)
        ensures
            r@ == "mirofish_rollout"@,
    {
        "mirofish_rollout"
    }

    fn paths_are_prices(&self) -> (r: bool)
        ensures
            r,
    {
        true
    }
}

/// Prices stay positive: no price of a rollout is below the floor.
pub proof fn law_prices_stay_positive<A: Arithmetic>(
    source: MirofishScenarioSource<A>,
    n: nat,
    horizon: nat,
    seed: u64,
    paths: Seq<Vec<Scalar>>,
    k: int,
    i: int,
)
    requires
        source.may_roll(n, horizon, seed, paths),
        0 <= k < paths.len(),
        0 <= i < paths[k]@.len(),
    ensures
        ({
            let price = paths[k]@[i]@;
            price is Nan || (Scalar { bits: FLOOR })@.le(price) && crate::scalar::zero().lt(price)
        }),
{
    let path = paths[k]@;
    let lowest = Scalar { bits: FLOOR };
    let none = Scalar { bits: 0 };
    let s = crate::rng::derived_seed(seed, k as u64);
    assert(source.may_step(s, i, source.price_before(path, i), path[i]));
    crate::scalar::lemma_place_orders(none, lowest);
    let moved = choose|moved: Scalar| path[i] == #[trigger] raised(moved, FLOOR);
    if !(moved@ is Nan) {
        crate::scalar::lemma_place_orders(moved, lowest);
        crate::scalar::lemma_place_orders(lowest, moved);
        crate::scalar::lemma_place_orders(none, path[i]);
    }
}

proof fn lemma_normal_is_unique<A: Arithmetic>(
    ops: &A,
    first: u64,
    second: u64,
    r: Scalar,
    s: Scalar,
)
    requires
        crate::arithmetic::reproducible(ops),
        is_normal(ops, first, second, r),
        is_normal(ops, first, second, s),
    ensures
        r == s,
{
    assert forall|n: u64, a: Scalar, b: Scalar| #[trigger]
        is_unit(ops, n, a) && #[trigger] is_unit(ops, n, b) implies a == b by {}
}

pub proof fn lemma_walk_is_unique<A: Arithmetic>(
    source: MirofishScenarioSource<A>,
    seed: u64,
    short: Seq<Scalar>,
    long: Seq<Scalar>,
    i: int,
)
    requires
        crate::arithmetic::reproducible(&source.ops),
        source.may_walk(seed, short.len(), short),
        source.may_walk(seed, long.len(), long),
        0 <= i < short.len() <= long.len(),
    ensures
        short[i] == long[i],
    decreases i,
{
    if i > 0 {
        lemma_walk_is_unique(source, seed, short, long, i - 1);
    }
    let before = source.price_before(short, i);
    assert(before == source.price_before(long, i));
    assert(source.may_step(seed, i, before, short[i]));
    assert(source.may_step(seed, i, before, long[i]));
    let first = crate::rng::unit_draw(seed, (2 * i) as nat);
    let second = crate::rng::unit_draw(seed, (2 * i + 1) as nat);
    assert forall|r: Scalar, s: Scalar| #[trigger]
        is_normal(&source.ops, first, second, r) && #[trigger] is_normal(
            &source.ops,
            first,
            second,
            s,
        ) implies r == s by {
        lemma_normal_is_unique(&source.ops, first, second, r, s);
    }
}

/// A larger rollout extends a smaller one: with a reproducible arithmetic and the same seed,
/// asking for more paths or for longer ones leaves the paths of the smaller rollout as they were,
/// and goes on from there.
pub proof fn law_larger_rollouts_extend_smaller_ones<A: Arithmetic>(
    source: MirofishScenarioSource<A>,
    seed: u64,
    n: nat,
    horizon: nat,
    small: Seq<Vec<Scalar>>,
    more: nat,
    longer: nat,
    large: Seq<Vec<Scalar>>,
    k: int,
)
    requires
        crate::arithmetic::reproducible(&source.ops),
        source.may_roll(n, horizon, seed, small),
        source.may_roll(more, longer, seed, large),
        n <= more,
        horizon <= longer,
        0 <= k < n,
    ensures
        small.len() == n,
        large.len() == more,
        small[k]@.len() == horizon,
        large[k]@.len() == longer,
        small[k]@ == large[k]@.take(horizon as int),
{
    let s = crate::rng::derived_seed(seed, k as u64);
    assert(source.may_walk(s, horizon, small[k]@));
    assert(source.may_walk(s, longer, large[k]@));
    assert forall|i: int| 0 <= i < horizon implies small[k]@[i] == large[k]@.take(
        horizon as int,
    )[i] by {
        lemma_walk_is_unique(source, s, small[k]@, large[k]@, i);
    }
}

/// Rollouts are reproducible: with a reproducible arithmetic, the same inputs give the same
/// ensemble.
pub proof fn law_rollouts_are_reproducible<A: Arithmetic>(
    source: MirofishScenarioSource<A>,
    n: nat,
    horizon: nat,
    seed: u64,
    one: Seq<Vec<Scalar>>,
    two: Seq<Vec<Scalar>>,
    k: int,
)
    requires
        crate::arithmetic::reproducible(&source.ops),
        source.may_roll(n, horizon, seed, one),
        source.may_roll(n, horizon, seed, two),
        0 <= k < one.len(),
    ensures
        one.len() == two.len(),
        one[k]@ == two[k]@,
{
    law_larger_rollouts_extend_smaller_ones(source, seed, n, horizon, one, n, horizon, two, k);
    assert(two[k]@.take(horizon as int) == two[k]@);
}

} // verus!
