//! What the backtest metrics are: formulas of the returns, with an arithmetic that rounds
//! nothing.
use vstd::prelude::*;

use crate::arithmetic::Arithmetic;
use crate::evaluator::BtMetric;
use crate::metric::Direction;
use crate::scalar::{Scalar, ONE};

verus! {

/// One plus each return.
pub open spec fn factors(xs: Seq<Scalar>) -> Seq<real> {
    Seq::new(xs.len(), |i: int| 1real + crate::exact::value(xs[i]))
}

/// The equity after `k` steps: what one has become.
pub open spec fn equity(xs: Seq<Scalar>, k: int) -> real {
    crate::exact::product(factors(xs).take(k))
}

proof fn lemma_curve_compounds<A: Arithmetic>(
    ops: &A,
    xs: Seq<Scalar>,
    curve: Seq<Scalar>,
    k: int,
)
    requires
        crate::exact::exact(ops),
        crate::exact::all_finite(xs),
        crate::evaluator::is_curve(ops, xs, curve),
        0 <= k <= xs.len(),
    ensures
        crate::evaluator::equity_before(curve, k)@.finite(),
        crate::exact::value(crate::evaluator::equity_before(curve, k)) == equity(xs, k),
    decreases k,
{
    crate::exact::lemma_constants();
    if k == 0 {
        assert(factors(xs).take(0).len() == 0);
    } else {
        lemma_curve_compounds(ops, xs, curve, k - 1);
        let before = crate::evaluator::equity_before(curve, k - 1);
        assert(crate::evaluator::grows(ops, before, xs[k - 1], curve[k - 1]));
        assert(factors(xs).take(k).drop_last() =~= factors(xs).take(k - 1));
        assert(factors(xs).take(k).last() == 1real + crate::exact::value(xs[k - 1]));
        assert(xs[k - 1]@.finite());
    }
}

/// The total return is what the factors of all steps, multiplied, leave beyond one.
pub proof fn law_total_return<A: Arithmetic>(ops: &A, xs: &[Scalar], r: Scalar)
    requires
        crate::exact::exact(ops),
        crate::exact::all_finite(xs@),
        call_ensures(crate::evaluator::total_return::<A>, (ops, xs), r),
    ensures
        r@.finite(),
        crate::exact::value(r) == crate::exact::product(
            Seq::new(xs@.len(), |i: int| 1real + crate::exact::value(xs@[i])),
        ) - 1real,
{
    let curve = choose|curve: Seq<Scalar>| #[trigger]
        crate::evaluator::is_curve(ops, xs@, curve) && crate::arithmetic::subtracts(
            ops,
            crate::evaluator::equity_before(curve, curve.len() as int),
            Scalar { bits: ONE },
            r,
        );
    lemma_curve_compounds(ops, xs@, curve, xs@.len() as int);
    crate::exact::lemma_constants();
    assert(factors(xs@).take(xs@.len() as int) =~= factors(xs@));
}

proof fn lemma_product_of_parts(a: Seq<real>, b: Seq<real>)
    ensures
        crate::exact::product(a + b) == crate::exact::product(a) * crate::exact::product(b),
    decreases b.len(),
{
    if b.len() == 0 {
        assert(a + b =~= a);
    } else {
        lemma_product_of_parts(a, b.drop_last());
        assert((a + b).drop_last() =~= a + b.drop_last());
        let x = crate::exact::product(a);
        let y = crate::exact::product(b.drop_last());
        let z = b.last();
        assert((x * y) * z == x * (y * z)) by (nonlinear_arith);
    }
}

/// Total returns compound: over two stretches, one after the other, the growth is the product of
/// their growths.
pub proof fn law_total_returns_compound<A: Arithmetic>(
    ops: &A,
    first: &[Scalar],
    r: Scalar,
    second: &[Scalar],
    s: Scalar,
    whole: &[Scalar],
    t: Scalar,
)
    requires
        crate::exact::exact(ops),
        crate::exact::all_finite(first@),
        crate::exact::all_finite(second@),
        whole@ == first@ + second@,
        call_ensures(crate::evaluator::total_return::<A>, (ops, first), r),
        call_ensures(crate::evaluator::total_return::<A>, (ops, second), s),
        call_ensures(crate::evaluator::total_return::<A>, (ops, whole), t),
    ensures
        1real + crate::exact::value(t) == (1real + crate::exact::value(r)) * (1real
            + crate::exact::value(s)),
{
    assert forall|i: int| 0 <= i < whole@.len() implies (#[trigger] whole@[i])@.finite() by {
        if i < first@.len() {
            assert(whole@[i] == first@[i]);
        } else {
            assert(whole@[i] == second@[i - first@.len()]);
        }
    }
    law_total_return(ops, first, r);
    law_total_return(ops, second, s);
    law_total_return(ops, whole, t);
    let a = Seq::new(first@.len(), |i: int| 1real + crate::exact::value(first@[i]));
    let b = Seq::new(second@.len(), |i: int| 1real + crate::exact::value(second@[i]));
    assert(Seq::new(whole@.len(), |i: int| 1real + crate::exact::value(whole@[i])) =~= a + b);
    lemma_product_of_parts(a, b);
    let x = crate::exact::product(a);
    let y = crate::exact::product(b);
    let u = crate::exact::value(r);
    let v = crate::exact::value(s);
    assert(x * y == (1real + u) * (1real + v)) by (nonlinear_arith)
        requires
            u == x - 1real,
            v == y - 1real,
    ;
}

/// The highest of finite numbers is one of them and no lower than any.
proof fn lemma_highest(start: Scalar, xs: Seq<Scalar>)
    requires
        start@.finite(),
        crate::exact::all_finite(xs),
    ensures
        ({
            let h = crate::evaluator::highest(start, xs);
            &&& h@.finite()
            &&& crate::exact::value(h) >= crate::exact::value(start)
            &&& forall|i: int|
                0 <= i < xs.len() ==> crate::exact::value(h) >= crate::exact::value(
                    #[trigger] xs[i],
                )
            &&& h == start || exists|i: int| 0 <= i < xs.len() && h == #[trigger] xs[i]
        }),
    decreases xs.len(),
{
    if xs.len() > 0 {
        lemma_highest(start, xs.drop_last());
        let before = crate::evaluator::highest(start, xs.drop_last());
        assert(xs.last()@.finite());
        crate::exact::lemma_value_orders(before, xs.last());
        let h = crate::evaluator::highest(start, xs);
        assert forall|i: int| 0 <= i < xs.len() implies crate::exact::value(h)
            >= crate::exact::value(#[trigger] xs[i]) by {
            if i < xs.len() - 1 {
                assert(xs[i] == xs.drop_last()[i]);
            }
        }
        if h != start {
            if h == before {
                let i = choose|i: int|
                    0 <= i < xs.drop_last().len() && h == #[trigger] xs.drop_last()[i];
                assert(h == xs[i]);
            } else {
                assert(h == xs[xs.len() - 1]);
            }
        }
    }
}

/// The fall of the equity from its peak, at each step.
proof fn lemma_drop<A: Arithmetic>(
    ops: &A,
    xs: Seq<Scalar>,
    curve: Seq<Scalar>,
    drops: Seq<Scalar>,
    j: int,
) -> (i: int)
    requires
        crate::exact::exact(ops),
        crate::exact::all_finite(xs),
        crate::evaluator::is_curve(ops, xs, curve),
        crate::evaluator::are_drops(ops, curve, drops),
        0 <= j < xs.len(),
    ensures
        drops[j]@.finite(),
        0 <= i <= j + 1,
        equity(xs, i) >= 1real,
        forall|k: int| 0 <= k <= j + 1 ==> #[trigger] equity(xs, k) <= equity(xs, i),
        crate::exact::value(drops[j]) * equity(xs, i) == equity(xs, i) - equity(xs, j + 1),
{
    crate::exact::lemma_constants();
    let seen = curve.take(j + 1);
    assert forall|k: int| 0 <= k < seen.len() implies (#[trigger] seen[k])@.finite() by {
        lemma_curve_compounds(ops, xs, curve, k + 1);
    }
    let start = Scalar { bits: ONE };
    lemma_highest(start, seen);
    let peak = crate::evaluator::highest(start, seen);
    let i = if peak == start {
        0int
    } else {
        let k = choose|k: int| 0 <= k < seen.len() && peak == #[trigger] seen[k];
        k + 1
    };
    lemma_curve_compounds(ops, xs, curve, i);
    lemma_curve_compounds(ops, xs, curve, 0);
    lemma_curve_compounds(ops, xs, curve, j + 1);
    assert(crate::exact::value(peak) == equity(xs, i));
    assert forall|k: int| 0 <= k <= j + 1 implies #[trigger] equity(xs, k) <= equity(xs, i) by {
        lemma_curve_compounds(ops, xs, curve, k);
        if k > 0 {
            assert(seen[k - 1] == curve[k - 1]);
        }
    }
    assert(crate::evaluator::falls(ops, peak, curve[j], drops[j]));
    i
}

/// The maximum drawdown covers every fall of the equity from an earlier point to a later one, over
/// however many steps, relative to the earlier; and it is such a fall, or zero.
pub proof fn law_max_drawdown<A: Arithmetic>(ops: &A, xs: &[Scalar], r: Scalar)
    requires
        crate::exact::exact(ops),
        crate::exact::all_finite(xs@),
        call_ensures(crate::evaluator::max_drawdown::<A>, (ops, xs), r),
    ensures
        r@.finite(),
        crate::exact::value(r) >= 0real,
        forall|i: int, j: int|
            0 <= i <= j <= xs@.len() && equity(xs@, i) > 0real && equity(xs@, j) >= 0real
                ==> crate::exact::value(r) * #[trigger] equity(xs@, i) >= equity(xs@, i)
                - #[trigger] equity(xs@, j),
        crate::exact::value(r) == 0real || exists|i: int, j: int|
            0 <= i <= j <= xs@.len() && equity(xs@, i) > 0real && crate::exact::value(r)
                * #[trigger] equity(xs@, i) == equity(xs@, i) - #[trigger] equity(xs@, j),
{
    let (curve, drops) = choose|curve: Seq<Scalar>, drops: Seq<Scalar>|
        {
            &&& crate::evaluator::is_curve(ops, xs@, curve)
            &&& #[trigger] crate::evaluator::are_drops(ops, curve, drops)
            &&& r == crate::evaluator::highest(Scalar { bits: 0 }, drops)
        };
    let none = Scalar { bits: 0 };
    crate::exact::lemma_constants();
    assert forall|k: int| 0 <= k < drops.len() implies (#[trigger] drops[k])@.finite() by {
        let _ = lemma_drop(ops, xs@, curve, drops, k);
    }
    lemma_highest(none, drops);
    assert forall|i: int, j: int|
        0 <= i <= j <= xs@.len() && equity(xs@, i) > 0real && equity(xs@, j)
            >= 0real implies crate::exact::value(r) * #[trigger] equity(xs@, i) >= equity(xs@, i)
        - #[trigger] equity(xs@, j) by {
        let x = equity(xs@, i);
        let y = equity(xs@, j);
        let v = crate::exact::value(r);
        if i < j {
            let p = lemma_drop(ops, xs@, curve, drops, j - 1);
            let h = equity(xs@, p);
            let d = crate::exact::value(drops[j - 1]);
            assert(v >= d);
            assert(x <= h);
            assert(v * x >= x - y) by (nonlinear_arith)
                requires
                    v >= d,
                    d * h == h - y,
                    0real < x <= h,
                    y >= 0real,
            ;
        } else {
            assert(v * x >= 0real) by (nonlinear_arith)
                requires
                    v >= 0real,
                    x > 0real,
            ;
        }
    }
    if r != none {
        let k = choose|k: int| 0 <= k < drops.len() && r == #[trigger] drops[k];
        let i = lemma_drop(ops, xs@, curve, drops, k);
        assert(crate::exact::value(r) * equity(xs@, i) == equity(xs@, i) - equity(xs@, k + 1));
    }
}

/// The drawdown at any point, whatever the equity fell to, is measured from the highest equity so
/// far, and the maximum drawdown covers it.
pub proof fn law_drawdown_is_from_the_peak<A: Arithmetic>(
    ops: &A,
    xs: &[Scalar],
    r: Scalar,
    j: int,
) -> (i: int)
    requires
        crate::exact::exact(ops),
        crate::exact::all_finite(xs@),
        call_ensures(crate::evaluator::max_drawdown::<A>, (ops, xs), r),
        0 < j <= xs@.len(),
    ensures
        0 <= i <= j,
        forall|k: int| 0 <= k <= j ==> #[trigger] equity(xs@, k) <= equity(xs@, i),
        crate::exact::value(r) * equity(xs@, i) >= equity(xs@, i) - equity(xs@, j),
{
    let (curve, drops) = choose|curve: Seq<Scalar>, drops: Seq<Scalar>|
        {
            &&& crate::evaluator::is_curve(ops, xs@, curve)
            &&& #[trigger] crate::evaluator::are_drops(ops, curve, drops)
            &&& r == crate::evaluator::highest(Scalar { bits: 0 }, drops)
        };
    crate::exact::lemma_constants();
    assert forall|k: int| 0 <= k < drops.len() implies (#[trigger] drops[k])@.finite() by {
        let _ = lemma_drop(ops, xs@, curve, drops, k);
    }
    lemma_highest(Scalar { bits: 0 }, drops);
    let i = lemma_drop(ops, xs@, curve, drops, j - 1);
    let v = crate::exact::value(r);
    let d = crate::exact::value(drops[j - 1]);
    let h = equity(xs@, i);
    assert(v * h >= d * h) by (nonlinear_arith)
        requires
            v >= d,
            h >= 1real,
    ;
    i
}

/// A gain over a risk, both known by their squares.
proof fn lemma_ratio(r: real, risk: real, gain: real, squares: real, k: real, t: real)
    requires
        k > 0real,
        t > 0real,
        risk >= 0real,
        (risk * risk) * k == squares,
        risk <= t ==> r == 0real,
        risk > t ==> r * risk == gain,
    ensures
        squares <= (t * t) * k ==> r == 0real,
        squares > (t * t) * k ==> {
            &&& (r * r) * squares == (gain * gain) * k
            &&& (r > 0real <==> gain > 0real)
            &&& (r < 0real <==> gain < 0real)
        },
{
    assert(risk <= t <==> risk * risk <= t * t) by (nonlinear_arith)
        requires
            risk >= 0real,
            t > 0real,
    ;
    let a = risk * risk;
    let b = t * t;
    assert(a <= b <==> a * k <= b * k) by (nonlinear_arith)
        requires
            k > 0real,
    ;
    if risk > t {
        assert(gain * gain == (r * r) * a) by (nonlinear_arith)
            requires
                r * risk == gain,
                a == risk * risk,
        ;
        let q = r * r;
        assert((q * a) * k == q * (a * k)) by (nonlinear_arith);
        assert((r > 0real <==> gain > 0real) && (r < 0real <==> gain < 0real)) by (nonlinear_arith)
            requires
                r * risk == gain,
                risk > 0real,
        ;
    }
}

/// A mean is the sum over the number.
proof fn lemma_mean_divides(m: real, n: real, sum: real)
    requires
        n > 0real,
        m * n == sum,
    ensures
        m == sum / n,
{
    assert(m == sum / n) by (nonlinear_arith)
        requires
            n > 0real,
            m * n == sum,
    ;
}

/// The Sharpe ratio is the mean over the sample deviation: with `m` the mean of `n` returns and
/// `squares` the sum of the squares of their distances from it, its square is `m` squared over
/// `squares / (n - 1)`, and its sign that of `m`. It is zero where there is next to no deviation,
/// and of fewer than two returns.
pub proof fn law_sharpe<A: Arithmetic>(ops: &A, xs: &[Scalar], r: Scalar)
    requires
        crate::exact::exact(ops),
        crate::exact::all_finite(xs@),
        call_ensures(crate::evaluator::sharpe::<A>, (ops, xs), r),
    ensures
        r@.finite(),
        xs@.len() < 2 ==> crate::exact::value(r) == 0real,
        xs@.len() >= 2 ==> {
            let n = xs@.len() as real;
            let m = crate::exact::total(crate::exact::values(xs@)) / n;
            let squares = crate::exact::total(
                Seq::new(
                    xs@.len(),
                    |i: int|
                        (crate::exact::value(xs@[i]) - m) * (crate::exact::value(xs@[i]) - m),
                ),
            );
            let t = crate::exact::value(Scalar { bits: 0x3D71_9799_812D_EA11 });
            let v = crate::exact::value(r);
            &&& squares <= (t * t) * (n - 1real) ==> v == 0real
            &&& squares > (t * t) * (n - 1real) ==> {
                &&& (v * v) * squares == (m * m) * (n - 1real)
                &&& (v > 0real <==> m > 0real)
                &&& (v < 0real <==> m < 0real)
            }
        },
{
    let (m, sd) = choose|m: Scalar, sd: Scalar|
        {
            &&& crate::arithmetic::is_mean(ops, xs@, m)
            &&& #[trigger] crate::evaluator::is_deviation(ops, xs@, m, sd)
            &&& crate::evaluator::is_ratio(ops, m, sd, r)
        };
    let tiny = Scalar { bits: 0x3D71_9799_812D_EA11 };
    crate::exact::lemma_constants();
    crate::exact::lemma_tiny();
    if xs@.len() < 2 {
        crate::exact::lemma_value_orders(sd, tiny);
    } else {
        crate::exact::lemma_mean_is_the_mean(ops, xs@, m);
        let (squares, sum, n, freedom, variance) = choose|
            squares: Seq<Scalar>,
            sum: Scalar,
            n: Scalar,
            freedom: Scalar,
            variance: Scalar,
        |
            {
                &&& crate::evaluator::squared_gaps(ops, xs@, m, squares)
                &&& #[trigger] crate::arithmetic::is_sum(ops, squares, sum)
                &&& crate::arithmetic::counts(ops, xs@.len(), n)
                &&& #[trigger] crate::arithmetic::subtracts(ops, n, Scalar { bits: ONE }, freedom)
                &&& #[trigger] crate::arithmetic::divides(ops, sum, freedom, variance)
                &&& crate::arithmetic::extracts(ops, variance, sd)
            };
        lemma_squared_gaps(ops, xs@, m, squares);
        crate::exact::lemma_sum_is_the_total(ops, squares, sum);
        let count = xs@.len() as real;
        let mv = crate::exact::value(m);
        lemma_mean_divides(mv, count, crate::exact::total(crate::exact::values(xs@)));
        let gaps = Seq::new(
            xs@.len(),
            |i: int| (crate::exact::value(xs@[i]) - mv) * (crate::exact::value(xs@[i]) - mv),
        );
        assert(crate::exact::values(squares) =~= gaps);
        let total = crate::exact::total(gaps);
        assert forall|i: int| 0 <= i < gaps.len() implies (#[trigger] gaps[i]) >= 0real by {
            let d = crate::exact::value(xs@[i]) - mv;
            assert(d * d >= 0real) by (nonlinear_arith);
        }
        lemma_total_of_squares(gaps);
        let free = crate::exact::value(freedom);
        let var = crate::exact::value(variance);
        assert(var >= 0real) by (nonlinear_arith)
            requires
                var * free == total,
                total >= 0real,
                free > 0real,
        ;
        crate::exact::lemma_value_orders(sd, tiny);
        lemma_ratio(
            crate::exact::value(r),
            crate::exact::value(sd),
            mv,
            total,
            count - 1real,
            crate::exact::value(tiny),
        );
    }
}

pub proof fn lemma_squared_gaps<A: Arithmetic>(
    ops: &A,
    xs: Seq<Scalar>,
    m: Scalar,
    squares: Seq<Scalar>,
)
    requires
        crate::exact::exact(ops),
        crate::exact::all_finite(xs),
        m@.finite(),
        crate::evaluator::squared_gaps(ops, xs, m, squares),
    ensures
        squares.len() == xs.len(),
        crate::exact::all_finite(squares),
        forall|i: int|
            0 <= i < xs.len() ==> crate::exact::value(#[trigger] squares[i]) == (
            crate::exact::value(xs[i]) - crate::exact::value(m)) * (crate::exact::value(xs[i])
                - crate::exact::value(m)),
{
    assert forall|i: int| 0 <= i < xs.len() implies (#[trigger] squares[i])@.finite()
        && crate::exact::value(squares[i]) == (crate::exact::value(xs[i]) - crate::exact::value(m))
        * (crate::exact::value(xs[i]) - crate::exact::value(m)) by {
        assert(crate::evaluator::squared_gap(ops, xs[i], m, squares[i]));
        assert(xs[i]@.finite());
    }
}

/// A sum of what is not negative is not negative.
pub proof fn lemma_total_of_squares(xs: Seq<real>)
    requires
        forall|i: int| 0 <= i < xs.len() ==> (#[trigger] xs[i]) >= 0real,
    ensures
        crate::exact::total(xs) >= 0real,
    decreases xs.len(),
{
    if xs.len() > 0 {
        lemma_total_of_squares(xs.drop_last());
    }
}

/// The sum over a part of a series is that over the whole with zeros elsewhere, and the size of
/// the part is the sum of ones there.
pub proof fn lemma_part(
    xs: Seq<Scalar>,
    chosen: spec_fn(Scalar) -> bool,
    weight: spec_fn(Scalar) -> real,
)
    ensures
        ({
            let part = xs.filter(chosen);
            &&& crate::exact::total(Seq::new(part.len(), |i: int| weight(part[i])))
                == crate::exact::total(
                Seq::new(
                    xs.len(),
                    |i: int|
                        if chosen(xs[i]) {
                            weight(xs[i])
                        } else {
                            0real
                        },
                ),
            )
            &&& part.len() as real == crate::exact::total(
                Seq::new(
                    xs.len(),
                    |i: int|
                        if chosen(xs[i]) {
                            1real
                        } else {
                            0real
                        },
                ),
            )
            &&& forall|i: int| 0 <= i < part.len() ==> chosen(#[trigger] part[i])
            &&& forall|i: int| 0 <= i < part.len() ==> xs.contains(#[trigger] part[i])
        }),
    decreases xs.len(),
{
    reveal(Seq::filter);
    let part = xs.filter(chosen);
    let sums = Seq::new(
        xs.len(),
        |i: int|
            if chosen(xs[i]) {
                weight(xs[i])
            } else {
                0real
            },
    );
    let ones = Seq::new(
        xs.len(),
        |i: int|
            if chosen(xs[i]) {
                1real
            } else {
                0real
            },
    );
    if xs.len() > 0 {
        let init = xs.drop_last();
        lemma_part(init, chosen, weight);
        let before = init.filter(chosen);
        assert(sums.drop_last() =~= Seq::new(
            init.len(),
            |i: int|
                if chosen(init[i]) {
                    weight(init[i])
                } else {
                    0real
                },
        ));
        assert(ones.drop_last() =~= Seq::new(
            init.len(),
            |i: int|
                if chosen(init[i]) {
                    1real
                } else {
                    0real
                },
        ));
        let taken = Seq::new(part.len(), |i: int| weight(part[i]));
        let taken_before = Seq::new(before.len(), |i: int| weight(before[i]));
        if chosen(xs.last()) {
            assert(part == before.push(xs.last()));
            assert(taken.drop_last() =~= taken_before);
        } else {
            assert(taken =~= taken_before);
        }
        assert forall|i: int| 0 <= i < part.len() implies xs.contains(#[trigger] part[i]) by {
            if i < before.len() {
                assert(part[i] == before[i]);
                let k = choose|k: int| 0 <= k < init.len() && init[k] == before[i];
                assert(xs[k] == part[i]);
            } else {
                assert(xs[xs.len() - 1] == part[i]);
            }
        }
    } else {
        assert(part.len() == 0);
    }
}

/// The Sortino ratio is the mean over the downside deviation: with `m` the mean of all returns,
/// `k` the number of losses and `squares` the sum of their squares, its square is `m` squared
/// over `squares / k`, and its sign that of `m`. It is zero where there is next to no deviation.
/// Without a loss it is a million where the mean is positive, else zero.
pub proof fn law_sortino<A: Arithmetic>(ops: &A, xs: &[Scalar], r: Scalar)
    requires
        crate::exact::exact(ops),
        crate::exact::all_finite(xs@),
        xs@.len() > 0,
        call_ensures(crate::evaluator::sortino::<A>, (ops, xs), r),
    ensures
        r@.finite(),
        ({
            let m = crate::exact::total(crate::exact::values(xs@)) / (xs@.len() as real);
            let k = crate::exact::total(
                Seq::new(
                    xs@.len(),
                    |i: int|
                        if crate::exact::value(xs@[i]) < 0real {
                            1real
                        } else {
                            0real
                        },
                ),
            );
            let squares = crate::exact::total(
                Seq::new(
                    xs@.len(),
                    |i: int|
                        if crate::exact::value(xs@[i]) < 0real {
                            crate::exact::value(xs@[i]) * crate::exact::value(xs@[i])
                        } else {
                            0real
                        },
                ),
            );
            let t = crate::exact::value(Scalar { bits: 0x3D71_9799_812D_EA11 });
            let v = crate::exact::value(r);
            &&& k == 0real && m > 0real ==> r == (Scalar { bits: 0x412E_8480_0000_0000 })
            &&& k == 0real && m <= 0real ==> v == 0real
            &&& k > 0real && squares <= (t * t) * k ==> v == 0real
            &&& k > 0real && squares > (t * t) * k ==> {
                &&& (v * v) * squares == (m * m) * k
                &&& (v > 0real <==> m > 0real)
                &&& (v < 0real <==> m < 0real)
            }
        }),
{
    let lost = |x: Scalar| x@.lt(crate::scalar::zero());
    let square = |x: Scalar| crate::exact::value(x) * crate::exact::value(x);
    let down = xs@.filter(lost);
    assert(down == crate::evaluator::losses(xs@));
    let m = choose|m: Scalar| #[trigger]
        crate::arithmetic::is_mean(ops, xs@, m) && if down.len() == 0 {
            r == crate::evaluator::riskless(m)
        } else {
            exists|dd: Scalar| #[trigger]
                crate::evaluator::is_root_mean_square(ops, down, dd) && crate::evaluator::is_ratio(
                    ops,
                    m,
                    dd,
                    r,
                )
        };
    let tiny = Scalar { bits: 0x3D71_9799_812D_EA11 };
    crate::exact::lemma_constants();
    crate::exact::lemma_tiny();
    crate::exact::lemma_mean_is_the_mean(ops, xs@, m);
    crate::exact::lemma_signs(m);
    let mv = crate::exact::value(m);
    lemma_mean_divides(
        mv,
        xs@.len() as real,
        crate::exact::total(crate::exact::values(xs@)),
    );
    lemma_part(xs@, lost, square);
    let ones = Seq::new(
        xs@.len(),
        |i: int|
            if crate::exact::value(xs@[i]) < 0real {
                1real
            } else {
                0real
            },
    );
    let sums = Seq::new(
        xs@.len(),
        |i: int|
            if crate::exact::value(xs@[i]) < 0real {
                crate::exact::value(xs@[i]) * crate::exact::value(xs@[i])
            } else {
                0real
            },
    );
    assert forall|i: int| 0 <= i < xs@.len() implies lost(xs@[i]) == (crate::exact::value(
        #[trigger] xs@[i],
    ) < 0real) by {
        assert(xs@[i]@.finite());
        crate::exact::lemma_signs(xs@[i]);
    }
    assert(ones =~= Seq::new(
        xs@.len(),
        |i: int|
            if lost(xs@[i]) {
                1real
            } else {
                0real
            },
    ));
    assert(sums =~= Seq::new(
        xs@.len(),
        |i: int|
            if lost(xs@[i]) {
                square(xs@[i])
            } else {
                0real
            },
    ));
    if down.len() > 0 {
        let dd = choose|dd: Scalar| #[trigger]
            crate::evaluator::is_root_mean_square(ops, down, dd) && crate::evaluator::is_ratio(
                ops,
                m,
                dd,
                r,
            );
        assert forall|i: int| 0 <= i < down.len() implies (#[trigger] down[i])@.finite() by {
            let k = choose|k: int| 0 <= k < xs@.len() && xs@[k] == down[i];
            assert(xs@[k]@.finite());
        }
        let (squares, average) = choose|squares: Seq<Scalar>, average: Scalar|
            {
                &&& crate::evaluator::are_squares(ops, down, squares)
                &&& #[trigger] crate::arithmetic::is_mean(ops, squares, average)
                &&& crate::arithmetic::extracts(ops, average, dd)
            };
        assert forall|i: int| 0 <= i < squares.len() implies (#[trigger] squares[i])@.finite()
            && crate::exact::value(squares[i]) == square(down[i]) by {
            assert(down[i]@.finite());
            assert(crate::arithmetic::multiplies(ops, down[i], down[i], squares[i]));
        }
        crate::exact::lemma_mean_is_the_mean(ops, squares, average);
        let taken = Seq::new(down.len(), |i: int| square(down[i]));
        assert(crate::exact::values(squares) =~= taken);
        assert forall|i: int| 0 <= i < taken.len() implies (#[trigger] taken[i]) >= 0real by {
            let d = crate::exact::value(down[i]);
            assert(d * d >= 0real) by (nonlinear_arith);
        }
        lemma_total_of_squares(taken);
        let mean_square = crate::exact::value(average);
        let k = down.len() as real;
        let total = crate::exact::total(taken);
        assert(mean_square >= 0real) by (nonlinear_arith)
            requires
                mean_square * k == total,
                total >= 0real,
                k > 0real,
        ;
        crate::exact::lemma_value_orders(dd, tiny);
        lemma_ratio(
            crate::exact::value(r),
            crate::exact::value(dd),
            mv,
            total,
            k,
            crate::exact::value(tiny),
        );
    }
}

/// The Calmar ratio is the total return over the maximum drawdown: a million for a gain, else
/// zero, where there is next to no drawdown.
pub proof fn law_calmar<A: Arithmetic>(
    ops: &A,
    xs: &[Scalar],
    gain: Scalar,
    drawdown: Scalar,
    r: Scalar,
)
    requires
        crate::exact::exact(ops),
        crate::arithmetic::reproducible(ops),
        crate::exact::all_finite(xs@),
        call_ensures(crate::evaluator::total_return::<A>, (ops, xs), gain),
        call_ensures(crate::evaluator::max_drawdown::<A>, (ops, xs), drawdown),
        call_ensures(crate::evaluator::calmar::<A>, (ops, xs), r),
    ensures
        ({
            let t = crate::exact::value(Scalar { bits: 0x3D71_9799_812D_EA11 });
            let g = crate::exact::value(gain);
            let d = crate::exact::value(drawdown);
            &&& r@.finite()
            &&& d > t ==> crate::exact::value(r) * d == g
            &&& d <= t && g > 0real ==> r == (Scalar { bits: 0x412E_8480_0000_0000 })
            &&& d <= t && g <= 0real ==> crate::exact::value(r) == 0real
        }),
{
    law_total_return(ops, xs, gain);
    law_max_drawdown(ops, xs, drawdown);
    let (mdd, g) = choose|mdd: Scalar, g: Scalar|
        {
            &&& #[trigger] crate::evaluator::is_max_drawdown(ops, xs@, mdd)
            &&& #[trigger] crate::evaluator::is_total_return(ops, xs@, g)
            &&& if mdd@.le((Scalar { bits: crate::strategy::TINY })@) {
                r == crate::evaluator::riskless(g)
            } else {
                crate::arithmetic::divides(ops, g, mdd, r)
            }
        };
    crate::reproducibility::lemma_total_return(ops, xs@, g, gain);
    crate::reproducibility::lemma_max_drawdown(ops, xs@, mdd, drawdown);
    crate::exact::lemma_constants();
    crate::exact::lemma_tiny();
    crate::exact::lemma_signs(gain);
    crate::exact::lemma_value_orders(drawdown, Scalar { bits: 0x3D71_9799_812D_EA11 });
    assert((Scalar { bits: 0x412E_8480_0000_0000 })@.finite());
}

/// The win rate times the number of steps is the number of those with a positive return.
pub proof fn law_win_rate<A: Arithmetic>(ops: &A, xs: &[Scalar], r: Scalar)
    requires
        crate::exact::exact(ops),
        crate::exact::all_finite(xs@),
        call_ensures(crate::evaluator::win_rate::<A>, (ops, xs), r),
    ensures
        r@.finite(),
        xs@.len() == 0 ==> crate::exact::value(r) == 0real,
        crate::exact::value(r) * (xs@.len() as real) == crate::exact::total(
            Seq::new(
                xs@.len(),
                |i: int|
                    if crate::exact::value(xs@[i]) > 0real {
                        1real
                    } else {
                        0real
                    },
            ),
        ),
{
    let won = |x: Scalar| crate::scalar::zero().lt(x@);
    let up = xs@.filter(won);
    assert(up == crate::evaluator::gains(xs@));
    crate::exact::lemma_constants();
    lemma_part(xs@, won, |x: Scalar| 0real);
    assert forall|i: int| 0 <= i < xs@.len() implies won(xs@[i]) == (crate::exact::value(
        #[trigger] xs@[i],
    ) > 0real) by {
        assert(xs@[i]@.finite());
        crate::exact::lemma_signs(xs@[i]);
    }
    let ones = Seq::new(
        xs@.len(),
        |i: int|
            if crate::exact::value(xs@[i]) > 0real {
                1real
            } else {
                0real
            },
    );
    assert(ones =~= Seq::new(
        xs@.len(),
        |i: int|
            if won(xs@[i]) {
                1real
            } else {
                0real
            },
    ));
    if xs@.len() == 0 {
        let v = crate::exact::value(r);
        assert(v * 0real == 0real) by (nonlinear_arith);
        assert(crate::exact::total(ones) == 0real);
    }
}

/// The expected shortfall is the mean loss of the worst one in twenty of the returns, rounded up,
/// and zero where that is a gain: some `k` distinct returns, none of the others lower than any of
/// them, have the mean of which it is the opposite.
pub proof fn law_cvar<A: Arithmetic>(ops: &A, xs: &[Scalar], k: int, r: Scalar)
    requires
        crate::exact::exact(ops),
        crate::exact::all_finite(xs@),
        20 * (k - 1) < xs@.len() <= 20 * k,
        xs@.len() > 0,
        call_ensures(crate::evaluator::cvar::<A>, (ops, xs), r),
    ensures
        r@.finite(),
        exists|worst: Seq<int>|
            {
                &&& #[trigger] worst.no_duplicates()
                &&& worst.len() == k
                &&& forall|i: int| 0 <= i < k ==> 0 <= #[trigger] worst[i] < xs@.len()
                &&& forall|i: int, j: int|
                    0 <= i < k && 0 <= j < xs@.len() && !worst.contains(j)
                        ==> crate::exact::value(xs@[#[trigger] worst[i]]) <= crate::exact::value(
                        #[trigger] xs@[j],
                    )
                &&& crate::exact::value(r) * (k as real) == crate::exact::max(
                    0real,
                    -crate::exact::total(
                        Seq::new(k as nat, |i: int| crate::exact::value(xs@[worst[i]])),
                    ),
                )
            },
{
    let (tail, average) = choose|tail: Seq<Scalar>, average: Scalar|
        {
            &&& crate::evaluator::is_tail(xs@, tail)
            &&& #[trigger] crate::arithmetic::is_mean(ops, tail, average)
            &&& r == crate::scalar::larger(
                crate::scalar::negated(average),
                Scalar { bits: 0 },
            )
        };
    let order = choose|order: Seq<usize>| #[trigger]
        crate::ranking::is_ranking(Direction::Minimize, xs@, order) && forall|i: int|
            0 <= i < tail.len() ==> #[trigger] tail[i] == xs@[order[i] as int];
    assert(tail.len() == k);
    let worst = Seq::new(k as nat, |i: int| order[i] as int);
    assert forall|i: int| 0 <= i < k implies 0 <= #[trigger] worst[i] < xs@.len() by {
        assert((order[i] as int) < xs@.len());
    }
    assert(worst.no_duplicates()) by {
        assert forall|i: int, j: int| 0 <= i < worst.len() && 0 <= j < worst.len() && i
            != j implies worst[i] != worst[j] by {
            if i < j {
                assert(order[i] != order[j]);
            } else {
                assert(order[j] != order[i]);
            }
        }
    }
    assert forall|i: int, j: int|
        0 <= i < k && 0 <= j < xs@.len() && !worst.contains(j) implies crate::exact::value(
        xs@[#[trigger] worst[i]],
    ) <= crate::exact::value(#[trigger] xs@[j]) by {
        crate::reproducibility::lemma_ranking_is_complete(Direction::Minimize, xs@, order, j);
        let at = choose|at: int| 0 <= at < order.len() && #[trigger] order[at] as int == j;
        if at < k {
            assert(worst[at] == j);
        } else {
            assert(crate::ranking::precedes(
                Direction::Minimize,
                xs@,
                order[i] as int,
                order[at] as int,
            ));
            assert(xs@[worst[i]]@.finite() && xs@[j]@.finite());
            crate::exact::lemma_value_orders(xs@[worst[i]], xs@[j]);
            crate::exact::lemma_value_orders(xs@[j], xs@[worst[i]]);
        }
    }
    assert forall|i: int| 0 <= i < tail.len() implies (#[trigger] tail[i])@.finite() by {
        assert(0 <= worst[i] < xs@.len());
        assert(xs@[order[i] as int]@.finite());
    }
    crate::exact::lemma_mean_is_the_mean(ops, tail, average);
    let losses = Seq::new(k as nat, |i: int| crate::exact::value(xs@[worst[i]]));
    assert(crate::exact::values(tail) =~= losses);
    crate::exact::lemma_constants();
    crate::exact::lemma_signs(average);
    let none = Scalar { bits: 0 };
    let opposite = crate::scalar::negated(average);
    crate::exact::lemma_value_orders(opposite, none);
    crate::exact::lemma_value_orders(none, opposite);
    let a = crate::exact::value(average);
    let n = k as real;
    let sum = crate::exact::total(losses);
    assert(0real * n == 0real && (-a) * n == -sum && (a > 0real <==> sum > 0real)) by (
        nonlinear_arith)
        requires
            a * n == sum,
            n > 0real,
    ;
    let v = crate::exact::value(r);
    assert(v == crate::exact::max(0real, -a));
    assert(v * n == crate::exact::max(0real, -sum));
}

/// The metric of a path by its name is the metric of that name.
pub proof fn law_metrics_are_what_they_are_named<A: Arithmetic>(
    ops: &A,
    m: BtMetric,
    xs: &[Scalar],
    r: Scalar,
    s: Scalar,
)
    requires
        crate::arithmetic::reproducible(ops),
        call_ensures(crate::evaluator::bt_metric_of_path::<A>, (ops, m, xs), r),
        match m {
            BtMetric::Sharpe => call_ensures(crate::evaluator::sharpe::<A>, (ops, xs), s),
            BtMetric::Sortino => call_ensures(crate::evaluator::sortino::<A>, (ops, xs), s),
            BtMetric::TotalReturn => call_ensures(
                crate::evaluator::total_return::<A>,
                (ops, xs),
                s,
            ),
            BtMetric::MaxDrawdown => call_ensures(
                crate::evaluator::max_drawdown::<A>,
                (ops, xs),
                s,
            ),
            BtMetric::Calmar => call_ensures(crate::evaluator::calmar::<A>, (ops, xs), s),
            BtMetric::WinRate => call_ensures(crate::evaluator::win_rate::<A>, (ops, xs), s),
            BtMetric::Cvar => call_ensures(crate::evaluator::cvar::<A>, (ops, xs), s),
        },
    ensures
        r == s,
{
    crate::reproducibility::law_metrics_are_reproducible(ops, m, xs@, r, s);
}

/// An average times the number of finite values is the sum of these; where there is none, it is
/// NaN.
pub proof fn law_average<A: Arithmetic>(ops: &A, xs: &[Scalar], r: Scalar)
    requires
        crate::exact::exact(ops),
        call_ensures(crate::evaluator::average::<A>, (ops, xs), r),
    ensures
        (forall|i: int| 0 <= i < xs@.len() ==> !(#[trigger] xs@[i])@.finite()) ==> r@ is Nan,
        (exists|i: int| 0 <= i < xs@.len() && (#[trigger] xs@[i])@.finite()) ==> r@.finite()
            && crate::exact::value(r) * crate::exact::total(
            Seq::new(
                xs@.len(),
                |i: int|
                    if xs@[i]@.finite() {
                        1real
                    } else {
                        0real
                    },
            ),
        ) == crate::exact::total(
            Seq::new(
                xs@.len(),
                |i: int|
                    if xs@[i]@.finite() {
                        crate::exact::value(xs@[i])
                    } else {
                        0real
                    },
            ),
        ),
{
    lemma_average(ops, xs@, r);
}

pub proof fn lemma_average<A: Arithmetic>(ops: &A, xs: Seq<Scalar>, r: Scalar)
    requires
        crate::exact::exact(ops),
        crate::evaluator::is_average(ops, xs, r),
    ensures
        (forall|i: int| 0 <= i < xs.len() ==> !(#[trigger] xs[i])@.finite()) ==> r@ is Nan,
        (exists|i: int| 0 <= i < xs.len() && (#[trigger] xs[i])@.finite()) ==> r@.finite()
            && crate::exact::value(r) * crate::exact::total(
            Seq::new(
                xs.len(),
                |i: int|
                    if xs[i]@.finite() {
                        1real
                    } else {
                        0real
                    },
            ),
        ) == crate::exact::total(
            Seq::new(
                xs.len(),
                |i: int|
                    if xs[i]@.finite() {
                        crate::exact::value(xs[i])
                    } else {
                        0real
                    },
            ),
        ),
{
    let kept = |x: Scalar| x@.finite();
    let weight = |x: Scalar| crate::exact::value(x);
    let part = xs.filter(kept);
    assert(part == crate::evaluator::finite_part(xs));
    lemma_part(xs, kept, weight);
    assert(Seq::new(
        xs.len(),
        |i: int|
            if xs[i]@.finite() {
                1real
            } else {
                0real
            },
    ) =~= Seq::new(
        xs.len(),
        |i: int|
            if kept(xs[i]) {
                1real
            } else {
                0real
            },
    ));
    assert(Seq::new(
        xs.len(),
        |i: int|
            if xs[i]@.finite() {
                crate::exact::value(xs[i])
            } else {
                0real
            },
    ) =~= Seq::new(
        xs.len(),
        |i: int|
            if kept(xs[i]) {
                weight(xs[i])
            } else {
                0real
            },
    ));
    if part.len() > 0 {
        let k = choose|k: int| 0 <= k < xs.len() && xs[k] == part[0];
        assert(xs[k]@.finite());
        crate::exact::lemma_mean_is_the_mean(ops, part, r);
        assert(crate::exact::values(part) =~= Seq::new(part.len(), |i: int| weight(part[i])));
    } else if exists|i: int| 0 <= i < xs.len() && (#[trigger] xs[i])@.finite() {
        let i = choose|i: int| 0 <= i < xs.len() && (#[trigger] xs[i])@.finite();
        xs.lemma_filter_contains(kept, i);
    }
}

proof fn lemma_sums_agree<A: Arithmetic>(ops: &A, xs: Seq<Scalar>, r: Scalar, s: Scalar)
    requires
        crate::arithmetic::reproducible(ops),
        crate::arithmetic::is_sum(ops, xs, r),
        crate::arithmetic::is_sum(ops, xs, s),
    ensures
        r == s,
    decreases xs.len(),
{
    if xs.len() > 0 {
        let a = choose|a: Scalar|
            crate::arithmetic::is_sum(ops, xs.drop_last(), a) && #[trigger] crate::arithmetic::adds(
                ops,
                a,
                xs.last(),
                r,
            );
        let b = choose|b: Scalar|
            crate::arithmetic::is_sum(ops, xs.drop_last(), b) && #[trigger] crate::arithmetic::adds(
                ops,
                b,
                xs.last(),
                s,
            );
        lemma_sums_agree(ops, xs.drop_last(), a, b);
    }
}

/// A sum is added up from the first on, whatever the rounding: one more number is added to the
/// sum of those before it. The sum of nothing is zero.
pub proof fn law_sum_goes_on<A: Arithmetic>(
    ops: &A,
    xs: &[Scalar],
    x: Scalar,
    more: &[Scalar],
    r: Scalar,
    s: Scalar,
)
    requires
        crate::arithmetic::reproducible(ops),
        more@ == xs@.push(x),
        call_ensures(crate::arithmetic::sum::<A>, (ops, xs), r),
        call_ensures(crate::arithmetic::sum::<A>, (ops, more), s),
    ensures
        crate::arithmetic::adds(ops, r, x, s),
        xs@.len() == 0 ==> r.bits == 0,
{
    let before = choose|before: Scalar|
        crate::arithmetic::is_sum(ops, more@.drop_last(), before)
            && #[trigger] crate::arithmetic::adds(ops, before, more@.last(), s);
    assert(more@.drop_last() =~= xs@);
    lemma_sums_agree(ops, xs@, before, r);
}

/// A mean is the sum divided by the number of what was added up, whatever the rounding. The mean
/// of nothing is zero.
pub proof fn law_mean_divides_the_sum<A: Arithmetic>(
    ops: &A,
    xs: &[Scalar],
    sum: Scalar,
    n: Scalar,
    r: Scalar,
)
    requires
        crate::arithmetic::reproducible(ops),
        call_ensures(crate::arithmetic::sum::<A>, (ops, xs), sum),
        crate::arithmetic::counts(ops, xs@.len(), n),
        call_ensures(crate::arithmetic::mean::<A>, (ops, xs), r),
    ensures
        xs@.len() > 0 ==> crate::arithmetic::divides(ops, sum, n, r),
        xs@.len() == 0 ==> r.bits == 0,
{
    if xs@.len() > 0 {
        let (total, count) = choose|total: Scalar, count: Scalar|
            crate::arithmetic::is_sum(ops, xs@, total) && crate::arithmetic::counts(
                ops,
                xs@.len(),
                count,
            ) && #[trigger] crate::arithmetic::divides(ops, total, count, r);
        lemma_sums_agree(ops, xs@, total, sum);
    }
}

} // verus!
