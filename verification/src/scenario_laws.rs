//! What the scenarios are: what is estimated from a history, and how prices walk.
use vstd::prelude::*;

use crate::arithmetic::Arithmetic;
use crate::evaluator::{BtMetric, VectorBtEvaluator};
use crate::facade::Market;
use crate::scalar::{Scalar, ONE};
use crate::scenario::{MirofishScenarioSource, ScenarioSource};

verus! {

/// A source has the start, drift and volatility that it was given, the start a billionth at least
/// and the volatility zero.
pub proof fn law_sources_are_made_as_asked<A: Arithmetic>(
    ops: A,
    start: Scalar,
    drift: Scalar,
    vol: Scalar,
    r: MirofishScenarioSource<A>,
)
    requires
        start@.finite(),
        vol@.finite(),
        call_ensures(MirofishScenarioSource::<A>::new, (ops, start, drift, vol), r),
    ensures
        r.ops == ops,
        r.drift == drift,
        r.start@.finite(),
        crate::exact::value(r.start) == crate::exact::max(
            crate::exact::value(start),
            crate::exact::value(Scalar { bits: 0x3E11_2E0B_E826_D695 }),
        ),
        r.vol@.finite(),
        crate::exact::value(r.vol) == crate::exact::max(crate::exact::value(vol), 0real),
{
    let floor = Scalar { bits: 0x3E11_2E0B_E826_D695 };
    let none = Scalar { bits: 0 };
    crate::exact::lemma_constants();
    assert(floor@.finite());
    crate::exact::lemma_value_orders(start, floor);
    crate::exact::lemma_value_orders(vol, none);
}

/// What a history tells: the walk starts at its last price, the drift times the number of step
/// returns is their sum, and the square of the volatility times that number is the sum of the
/// squares of all their distances from the drift. The volatility is a millionth at least, so it
/// covers each single distance. A history without a step gives no drift and a volatility of a
/// hundredth.
pub proof fn law_from_history<A: Arithmetic>(
    ops: A,
    history: &[Scalar],
    r: MirofishScenarioSource<A>,
    changes: Vec<Scalar>,
)
    requires
        crate::exact::exact(&ops),
        crate::arithmetic::reproducible(&ops),
        crate::exact::all_finite(history@),
        call_ensures(MirofishScenarioSource::<A>::from_history, (ops, history), r),
        call_ensures(crate::strategy::to_returns::<A>, (&ops, history, true), changes),
    ensures
        r.ops == ops,
        history@.len() == 0 ==> crate::exact::value(r.start) == 1real,
        history@.len() > 0 ==> crate::exact::value(r.start) == crate::exact::max(
            crate::exact::value(history@[history@.len() - 1]),
            crate::exact::value(Scalar { bits: 0x3E11_2E0B_E826_D695 }),
        ),
        history@.len() < 2 ==> crate::exact::value(r.drift) == 0real && r.vol.bits
            == 0x3F84_7AE1_47AE_147B,
        history@.len() >= 2 ==> {
            let n = changes@.len() as real;
            let d = crate::exact::value(r.drift);
            let v = crate::exact::value(r.vol);
            let least = crate::exact::value(Scalar { bits: 0x3EB0_C6F7_A0B5_ED8D });
            let squares = crate::exact::total(
                Seq::new(
                    changes@.len(),
                    |i: int|
                        (crate::exact::value(changes@[i]) - d) * (crate::exact::value(changes@[i])
                            - d),
                ),
            );
            &&& changes@.len() == history@.len() - 1
            &&& r.drift@.finite()
            &&& r.vol@.finite()
            &&& d * n == crate::exact::total(crate::exact::values(changes@))
            &&& v > 0real
            &&& squares > (least * least) * n ==> (v * v) * n == squares
            &&& squares <= (least * least) * n ==> v == least
            &&& forall|i: int|
                0 <= i < changes@.len() ==> (v * v) * n >= (crate::exact::value(
                    #[trigger] changes@[i],
                ) - d) * (crate::exact::value(changes@[i]) - d)
        },
{
    let floor = Scalar { bits: 0x3E11_2E0B_E826_D695 };
    let least = Scalar { bits: 0x3EB0_C6F7_A0B5_ED8D };
    let none = Scalar { bits: 0 };
    crate::exact::lemma_constants();
    assert(floor@.finite());
    assert(least@.finite());
    if history@.len() > 0 {
        assert(history@[history@.len() - 1]@.finite());
        crate::exact::lemma_value_orders(history@[history@.len() - 1], floor);
    }
    if history@.len() >= 2 {
        let (steps, vol) = choose|steps: Seq<Scalar>, vol: Scalar|
            {
                &&& crate::strategy::are_changes(&ops, history@, true, steps)
                &&& #[trigger] crate::scenario::are_estimates(&ops, steps, r.drift, vol)
                &&& r.vol == crate::scalar::larger(vol, Scalar { bits: 0 })
            };
        crate::reproducibility::lemma_changes(&ops, history@, true, steps, changes@);
        crate::backtest_laws::law_step_returns(&ops, history, true, changes);
        lemma_estimates(&ops, changes@, r.drift, vol);
        crate::exact::lemma_value_orders(vol, none);
        let d = crate::exact::value(r.drift);
        let gaps = Seq::new(
            changes@.len(),
            |i: int|
                (crate::exact::value(changes@[i]) - d) * (crate::exact::value(changes@[i]) - d),
        );
        let n = changes@.len() as real;
        let v = crate::exact::value(r.vol);
        let l = crate::exact::value(least);
        let squares = crate::exact::total(gaps);
        assert forall|i: int| 0 <= i < changes@.len() implies (v * v) * n >= (crate::exact::value(
            #[trigger] changes@[i],
        ) - d) * (crate::exact::value(changes@[i]) - d) by {
            lemma_gaps_add_up(gaps, changes@, d, i);
        }
    }
}

proof fn lemma_gaps_add_up(gaps: Seq<real>, changes: Seq<Scalar>, d: real, i: int)
    requires
        gaps.len() == changes.len(),
        forall|k: int|
            0 <= k < gaps.len() ==> #[trigger] gaps[k] == (crate::exact::value(changes[k]) - d) * (
            crate::exact::value(changes[k]) - d),
        0 <= i < changes.len(),
    ensures
        crate::exact::total(gaps) >= (crate::exact::value(changes[i]) - d) * (crate::exact::value(
            changes[i],
        ) - d),
{
    assert forall|k: int| 0 <= k < gaps.len() implies (#[trigger] gaps[k]) >= 0real by {
        let x = crate::exact::value(changes[k]) - d;
        assert(x * x >= 0real) by (nonlinear_arith);
    }
    lemma_total_covers(gaps, i);
}

/// A sum of what is not negative is no less than any term.
proof fn lemma_total_covers(xs: Seq<real>, i: int)
    requires
        forall|k: int| 0 <= k < xs.len() ==> (#[trigger] xs[k]) >= 0real,
        0 <= i < xs.len(),
    ensures
        crate::exact::total(xs) >= xs[i],
    decreases xs.len(),
{
    let init = xs.drop_last();
    if i < init.len() {
        lemma_total_covers(init, i);
    } else {
        crate::metric_laws::lemma_total_of_squares(init);
    }
}

proof fn lemma_estimates<A: Arithmetic>(
    ops: &A,
    changes: Seq<Scalar>,
    drift: Scalar,
    vol: Scalar,
)
    requires
        crate::exact::exact(ops),
        crate::exact::all_finite(changes),
        changes.len() > 0,
        crate::scenario::are_estimates(ops, changes, drift, vol),
    ensures
        drift@.finite(),
        vol@.finite(),
        ({
            let n = changes.len() as real;
            let d = crate::exact::value(drift);
            let v = crate::exact::value(vol);
            let least = crate::exact::value(Scalar { bits: 0x3EB0_C6F7_A0B5_ED8D });
            let squares = crate::exact::total(
                Seq::new(
                    changes.len(),
                    |i: int|
                        (crate::exact::value(changes[i]) - d) * (crate::exact::value(changes[i])
                            - d),
                ),
            );
            &&& d * n == crate::exact::total(crate::exact::values(changes))
            &&& v > 0real
            &&& squares > (least * least) * n ==> (v * v) * n == squares
            &&& squares <= (least * least) * n ==> v == least
            &&& (v * v) * n >= squares
        }),
{
    let (squares, variance, deviation) = choose|
        squares: Seq<Scalar>,
        variance: Scalar,
        deviation: Scalar,
    |
        {
            &&& crate::arithmetic::is_mean(ops, changes, drift)
            &&& crate::evaluator::squared_gaps(ops, changes, drift, squares)
            &&& #[trigger] crate::arithmetic::is_mean(ops, squares, variance)
            &&& #[trigger] crate::arithmetic::extracts(ops, variance, deviation)
            &&& vol == crate::scalar::larger(
                deviation,
                Scalar { bits: crate::scenario::CALM },
            )
        };
    crate::exact::lemma_mean_is_the_mean(ops, changes, drift);
    crate::metric_laws::lemma_squared_gaps(ops, changes, drift, squares);
    crate::exact::lemma_mean_is_the_mean(ops, squares, variance);
    let d = crate::exact::value(drift);
    let gaps = Seq::new(
        changes.len(),
        |i: int| (crate::exact::value(changes[i]) - d) * (crate::exact::value(changes[i]) - d),
    );
    assert(crate::exact::values(squares) =~= gaps);
    assert forall|k: int| 0 <= k < gaps.len() implies (#[trigger] gaps[k]) >= 0real by {
        let x = crate::exact::value(changes[k]) - d;
        assert(x * x >= 0real) by (nonlinear_arith);
    }
    crate::metric_laws::lemma_total_of_squares(gaps);
    let total = crate::exact::total(gaps);
    let var = crate::exact::value(variance);
    let n = changes.len() as real;
    assert(var >= 0real) by (nonlinear_arith)
        requires
            var * n == total,
            total >= 0real,
            n > 0real,
    ;
    let least = Scalar { bits: 0x3EB0_C6F7_A0B5_ED8D };
    let none = Scalar { bits: 0 };
    crate::exact::lemma_constants();
    assert(least@.finite());
    crate::scalar::lemma_place_orders(none, least);
    crate::exact::lemma_value_orders(none, least);
    crate::exact::lemma_value_orders(deviation, least);
    let s = crate::exact::value(deviation);
    let l = crate::exact::value(least);
    assert((s < l <==> s * s < l * l)) by (nonlinear_arith)
        requires
            s >= 0real,
            l > 0real,
    ;
    let a = s * s;
    let b = l * l;
    assert((a < b <==> a * n < b * n) && (a <= b <==> a * n <= b * n)) by (nonlinear_arith)
        requires
            n > 0real,
    ;
    assert((s <= l <==> s * s <= l * l) && (s == l ==> s * s == l * l)) by (nonlinear_arith)
        requires
            s >= 0real,
            l > 0real,
    ;
}

/// Is the logarithm of a fraction a number that is not positive, and a cosine a number?
pub open spec fn sensible<A: Arithmetic>(ops: &A) -> bool {
    &&& forall|x: Scalar, r: Scalar| #[trigger]
        crate::arithmetic::takes_log(ops, x, r) && x@.finite() && 0real < crate::exact::value(x)
            <= 1real ==> r@.finite() && crate::exact::value(r) <= 0real
    &&& forall|x: Scalar, r: Scalar| #[trigger]
        crate::arithmetic::takes_cosine(ops, x, r) && x@.finite() ==> r@.finite()
}

/// A normal draw from two uniform ones: its square is minus twice the logarithm of the first, which
/// is kept away from zero, times the square of the cosine of a full turn times the second, and its
/// sign is that of the cosine.
proof fn lemma_normal<A: Arithmetic>(ops: &A, first: u64, second: u64, z: Scalar) -> (parts: (
    Scalar,
    Scalar,
    Scalar,
    Scalar,
))
    requires
        crate::exact::exact(ops),
        sensible(ops),
        first < 0x20_0000_0000_0000,
        second < 0x20_0000_0000_0000,
        crate::scenario::is_normal(ops, first, second, z),
    ensures
        ({
            let (u, ln, angle, c) = parts;
            let t = crate::exact::value(Scalar { bits: 0x3D71_9799_812D_EA11 });
            &&& crate::arithmetic::takes_log(ops, u, ln)
            &&& crate::arithmetic::takes_cosine(ops, angle, c)
            &&& crate::exact::value(u) == crate::exact::max(
                (first as real) / 9007199254740992real,
                t,
            )
            &&& crate::exact::value(angle) == crate::exact::value(
                Scalar { bits: 0x4019_21FB_5444_2D18 },
            ) * ((second as real) / 9007199254740992real)
            &&& z@.finite()
            &&& crate::exact::value(z) * crate::exact::value(z) == (-2real * crate::exact::value(
                ln,
            )) * (crate::exact::value(c) * crate::exact::value(c))
            &&& crate::exact::value(z) * crate::exact::value(c) >= 0real
        }),
{
    let (u, v, ln, scaled, radius, angle, c) = choose|
        u: Scalar,
        v: Scalar,
        ln: Scalar,
        scaled: Scalar,
        radius: Scalar,
        angle: Scalar,
        c: Scalar,
    |
        {
            &&& #[trigger] crate::scenario::is_unit(ops, first, u)
            &&& #[trigger] crate::scenario::is_unit(ops, second, v)
            &&& #[trigger] crate::arithmetic::takes_log(
                ops,
                crate::scenario::raised(u, crate::strategy::TINY),
                ln,
            )
            &&& #[trigger] crate::arithmetic::multiplies(
                ops,
                Scalar { bits: crate::scenario::MINUS_TWO },
                ln,
                scaled,
            )
            &&& #[trigger] crate::arithmetic::extracts(ops, scaled, radius)
            &&& #[trigger] crate::arithmetic::multiplies(
                ops,
                Scalar { bits: crate::scenario::TURN },
                v,
                angle,
            )
            &&& #[trigger] crate::arithmetic::takes_cosine(ops, angle, c)
            &&& crate::arithmetic::multiplies(ops, radius, c, z)
        };
    crate::exact::lemma_constants();
    crate::exact::lemma_tiny();
    lemma_unit(ops, first, u);
    lemma_unit(ops, second, v);
    let tiny = Scalar { bits: 0x3D71_9799_812D_EA11 };
    let one = Scalar { bits: ONE };
    let raised = crate::scenario::raised(u, crate::strategy::TINY);
    crate::exact::lemma_value_orders(u, tiny);
    crate::scalar::lemma_place_orders(tiny, one);
    crate::exact::lemma_value_orders(tiny, one);
    let turn = Scalar { bits: 0x4019_21FB_5444_2D18 };
    assert(turn@.finite());
    let s = crate::exact::value(scaled);
    let l = crate::exact::value(ln);
    assert(s == -2real * l);
    let p = crate::exact::value(radius);
    let q = crate::exact::value(c);
    let w = crate::exact::value(z);
    assert(w * w == (p * p) * (q * q) && w * q >= 0real) by (nonlinear_arith)
        requires
            w == p * q,
            p >= 0real,
    ;
    (raised, ln, angle, c)
}

pub proof fn lemma_unit<A: Arithmetic>(ops: &A, numerator: u64, r: Scalar)
    requires
        crate::exact::exact(ops),
        numerator < 0x20_0000_0000_0000,
        crate::scenario::is_unit(ops, numerator, r),
    ensures
        r@.finite(),
        crate::exact::value(r) == (numerator as real) / 9007199254740992real,
        0real <= crate::exact::value(r) < 1real,
{
    let fractions = Scalar { bits: 0x4340_0000_0000_0000 };
    crate::scalar::lemma_powers_of_two();
    let u = crate::scalar::one() as real;
    let f = 9007199254740992real;
    assert((0x20_0000_0000_0000 * crate::scalar::one()) as real == f * u);
    assert((f * u) / u == f) by (nonlinear_arith)
        requires
            u > 0real,
    ;
    assert(crate::exact::value(fractions) == f);
    let n = numerator as real;
    let x = crate::exact::value(r);
    assert(x * f == n);
    assert(x == n / f && 0real <= x < 1real) by (nonlinear_arith)
        requires
            x * f == n,
            f == 9007199254740992real,
            0real <= n < f,
    ;
}

/// How prices walk: step `i` multiplies the price before it, the start for the first, by one plus
/// the drift plus the volatility times a normal draw, and a billionth is the lowest price. The
/// draw is made of the numbers `2 * i` and `2 * i + 1` of the path's stream: its square is minus
/// twice the logarithm of the first, a fraction kept away from zero, times the square of the
/// cosine of a full turn times the second, and its sign that of the cosine.
pub proof fn law_prices_walk<A: Arithmetic>(
    source: MirofishScenarioSource<A>,
    n: usize,
    seed: u64,
    path: Vec<Scalar>,
    i: int,
)
    requires
        crate::exact::exact(&source.ops),
        sensible(&source.ops),
        source.start@.finite(),
        source.drift@.finite(),
        source.vol@.finite(),
        call_ensures(MirofishScenarioSource::<A>::one_path, (&source, n, seed), path),
        0 <= i < n,
    ensures
        path@.len() == n,
        path@[i]@.finite(),
        exists|z: Scalar, u: Scalar, ln: Scalar, angle: Scalar, c: Scalar|
            {
                let first = crate::rng::unit_draw(seed, (2 * i) as nat);
                let second = crate::rng::unit_draw(seed, (2 * i + 1) as nat);
                let before = if i == 0 {
                    crate::exact::value(source.start)
                } else {
                    crate::exact::value(path@[i - 1])
                };
                &&& #[trigger] crate::arithmetic::takes_log(&source.ops, u, ln)
                &&& #[trigger] crate::arithmetic::takes_cosine(&source.ops, angle, c)
                &&& crate::exact::value(u) == crate::exact::max(
                    (first as real) / 9007199254740992real,
                    crate::exact::value(Scalar { bits: 0x3D71_9799_812D_EA11 }),
                )
                &&& crate::exact::value(angle) == crate::exact::value(
                    Scalar { bits: 0x4019_21FB_5444_2D18 },
                ) * ((second as real) / 9007199254740992real)
                &&& #[trigger] z@.finite()
                &&& crate::exact::value(z) * crate::exact::value(z) == (-2real
                    * crate::exact::value(ln)) * (crate::exact::value(c) * crate::exact::value(c))
                &&& crate::exact::value(z) * crate::exact::value(c) >= 0real
                &&& crate::exact::value(path@[i]) == crate::exact::max(
                    before * (1real + crate::exact::value(source.drift) + crate::exact::value(z)
                        * crate::exact::value(source.vol)),
                    crate::exact::value(Scalar { bits: 0x3E11_2E0B_E826_D695 }),
                )
            },
{
    lemma_path_is_finite(source, seed, path@, i);
    let before = source.price_before(path@, i);
    if i > 0 {
        lemma_path_is_finite(source, seed, path@, i - 1);
    }
    assert(source.may_step(seed, i, before, path@[i]));
    let (z, u, ln, angle, c) = lemma_step(source, seed, i, before, path@[i]);
    let zv = crate::exact::value(z);
    assert(z@.finite());
    assert(crate::arithmetic::takes_log(&source.ops, u, ln));
    assert(crate::arithmetic::takes_cosine(&source.ops, angle, c));
    assert(crate::exact::value(path@[i]) == crate::exact::max(
        crate::exact::value(before) * (1real + crate::exact::value(source.drift) + zv
            * crate::exact::value(source.vol)),
        crate::exact::value(Scalar { bits: 0x3E11_2E0B_E826_D695 }),
    ));
}

proof fn lemma_path_is_finite<A: Arithmetic>(
    source: MirofishScenarioSource<A>,
    seed: u64,
    path: Seq<Scalar>,
    i: int,
)
    requires
        crate::exact::exact(&source.ops),
        sensible(&source.ops),
        source.start@.finite(),
        source.drift@.finite(),
        source.vol@.finite(),
        source.may_walk(seed, path.len(), path),
        0 <= i < path.len(),
    ensures
        path[i]@.finite(),
    decreases i,
{
    if i > 0 {
        lemma_path_is_finite(source, seed, path, i - 1);
    }
    let before = source.price_before(path, i);
    assert(source.may_step(seed, i, before, path[i]));
    let _ = lemma_step(source, seed, i, before, path[i]);
}

proof fn lemma_step<A: Arithmetic>(
    source: MirofishScenarioSource<A>,
    seed: u64,
    i: int,
    before: Scalar,
    after: Scalar,
) -> (parts: (Scalar, Scalar, Scalar, Scalar, Scalar))
    requires
        crate::exact::exact(&source.ops),
        sensible(&source.ops),
        source.drift@.finite(),
        source.vol@.finite(),
        before@.finite(),
        i >= 0,
        source.may_step(seed, i, before, after),
    ensures
        after@.finite(),
        ({
            let (z, u, ln, angle, c) = parts;
            let first = crate::rng::unit_draw(seed, (2 * i) as nat);
            let second = crate::rng::unit_draw(seed, (2 * i + 1) as nat);
            &&& z@.finite()
            &&& crate::arithmetic::takes_log(&source.ops, u, ln)
            &&& crate::arithmetic::takes_cosine(&source.ops, angle, c)
            &&& crate::exact::value(u) == crate::exact::max(
                (first as real) / 9007199254740992real,
                crate::exact::value(Scalar { bits: 0x3D71_9799_812D_EA11 }),
            )
            &&& crate::exact::value(angle) == crate::exact::value(
                Scalar { bits: 0x4019_21FB_5444_2D18 },
            ) * ((second as real) / 9007199254740992real)
            &&& crate::exact::value(z) * crate::exact::value(z) == (-2real * crate::exact::value(
                ln,
            )) * (crate::exact::value(c) * crate::exact::value(c))
            &&& crate::exact::value(z) * crate::exact::value(c) >= 0real
            &&& crate::exact::value(after) == crate::exact::max(
                crate::exact::value(before) * (1real + crate::exact::value(source.drift)
                    + crate::exact::value(z) * crate::exact::value(source.vol)),
                crate::exact::value(Scalar { bits: 0x3E11_2E0B_E826_D695 }),
            )
        }),
{
    let first = crate::rng::unit_draw(seed, (2 * i) as nat);
    let second = crate::rng::unit_draw(seed, (2 * i + 1) as nat);
    crate::rng::lemma_draws_are_fractions(seed, (2 * i) as nat);
    crate::rng::lemma_draws_are_fractions(seed, (2 * i + 1) as nat);
    let (z, shock, trend, factor, moved) = choose|
        z: Scalar,
        shock: Scalar,
        trend: Scalar,
        factor: Scalar,
        moved: Scalar,
    |
        {
            &&& crate::scenario::is_normal(&source.ops, first, second, z)
            &&& #[trigger] crate::arithmetic::multiplies(&source.ops, z, source.vol, shock)
            &&& #[trigger] crate::arithmetic::adds(
                &source.ops,
                Scalar { bits: ONE },
                source.drift,
                trend,
            )
            &&& #[trigger] crate::arithmetic::adds(&source.ops, trend, shock, factor)
            &&& #[trigger] crate::arithmetic::multiplies(&source.ops, before, factor, moved)
            &&& after == crate::scenario::raised(moved, crate::scenario::FLOOR)
        };
    let (u, ln, angle, c) = lemma_normal(&source.ops, first, second, z);
    crate::exact::lemma_constants();
    let floor = Scalar { bits: 0x3E11_2E0B_E826_D695 };
    assert(floor@.finite());
    crate::exact::lemma_value_orders(moved, floor);
    (z, u, ln, angle, c)
}

/// A rollout has the paths that were asked for, each the walk from a seed of its own.
pub proof fn law_rollout<A: Arithmetic>(
    source: MirofishScenarioSource<A>,
    n: usize,
    horizon: usize,
    seed: u64,
    paths: Vec<Vec<Scalar>>,
    k: usize,
    own: u64,
    path: Vec<Scalar>,
)
    requires
        crate::arithmetic::reproducible(&source.ops),
        call_ensures(
            MirofishScenarioSource::<A>::rollout,
            (&source, n, horizon, seed),
            paths,
        ),
        k < n,
        call_ensures(crate::rng::path_seed, (seed, k), own),
        call_ensures(MirofishScenarioSource::<A>::one_path, (&source, horizon, own), path),
    ensures
        paths@.len() == n,
        paths@[k as int]@ == path@,
{
    assert(source.may_walk(own, horizon as nat, paths@[k as int]@));
    assert forall|i: int| 0 <= i < horizon implies paths@[k as int]@[i] == path@[i] by {
        crate::scenario::lemma_walk_is_unique(source, own, paths@[k as int]@, path@, i);
    }
    assert(paths@[k as int]@ =~= path@);
}

/// The backtest of a market runs on the rollout of the source with its start, drift and volatility.
pub proof fn law_markets_roll<A: Arithmetic + Copy>(
    market: Market,
    ops: A,
    bt: BtMetric,
    seed: u64,
    evaluator: VectorBtEvaluator<A>,
    source: MirofishScenarioSource<A>,
    paths: Vec<Vec<Scalar>>,
    k: int,
)
    requires
        crate::arithmetic::reproducible(&ops),
        call_ensures(Market::backtest::<A>, (&market, ops, bt, seed), evaluator),
        call_ensures(
            MirofishScenarioSource::<A>::new,
            (ops, market.start, market.drift, market.vol),
            source,
        ),
        call_ensures(
            MirofishScenarioSource::<A>::rollout,
            (&source, market.n_scenarios, market.horizon, seed),
            paths,
        ),
        0 <= k < market.n_scenarios,
    ensures
        evaluator.arithmetic() == ops,
        evaluator.kernel() == bt,
        evaluator.prices(),
        evaluator.paths().len() == market.n_scenarios,
        evaluator.paths()[k]@ == paths@[k]@,
{
    crate::scenario::law_rollouts_are_reproducible(
        source,
        market.n_scenarios as nat,
        market.horizon as nat,
        seed,
        evaluator.paths(),
        paths@,
        k,
    );
}

} // verus!
