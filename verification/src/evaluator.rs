//! The frozen evaluator, and the backtest metrics.
//!
//! The engine owns the evaluator; a proposer only ever sees artifacts, so it has no path into
//! the score.
use vstd::prelude::*;

use crate::arithmetic::{mean, sum, Arithmetic};
use crate::metric::{Direction, Metric};
use crate::parallel::par_map;
use crate::ranking::rank;
use crate::scalar::{Scalar, EXPONENT, NAN, ONE};
use crate::strategy::{strategy_returns, to_returns, Overlay, TINY};
use crate::text::{fold, same_text};

verus! {

/// The one editable thing: a vector of knobs.
pub type Artifact = Vec<Scalar>;

/// A frozen scorer. A NaN score stands for an evaluation that crashed or is not valid.
pub trait Evaluator: Send + Sync {
    /// Can an artifact with these knobs get this score? A scorer is meant to be deterministic:
    /// see [`decisive`]. One that is not verified says nothing here.
    open spec fn may_score(&self, artifact: Seq<Scalar>, value: Scalar) -> bool {
        true
    }

    /// The metric that the scores are values of. It does not change. The default is one fixed
    /// value, for scorers that are not verified; a verified one defines it.
    open spec fn frozen_metric(&self) -> Metric {
        arbitrary()
    }

    /// Scores one candidate. A scorer that fails gives NaN; it does not panic.
    fn score(&self, artifact: &Artifact) -> (r: Scalar)
        ensures
            self.may_score(artifact@, r),
    ;

    /// The metric that the scores are values of.
    fn metric(&self) -> (r: &Metric)
        ensures
            *r == self.frozen_metric(),
    ;

    /// Label for the attempt log.
    fn name(&self) -> (r: &str)
        default_ensures
            r@ == "evaluator"@,
    {
        "evaluator"
    }
}

/// Does the evaluator give every artifact one value?
pub open spec fn decisive<E: Evaluator>(evaluator: &E) -> bool {
    forall|artifact: Seq<Scalar>, v: Scalar, w: Scalar| #[trigger]
        evaluator.may_score(artifact, v) && #[trigger] evaluator.may_score(artifact, w) ==> v@ == w@
}

/// The backtest metrics.
#[derive(Debug, Clone, Copy, PartialEq, Eq, Structural)]
pub enum BtMetric {
    Sharpe,
    Sortino,
    TotalReturn,
    MaxDrawdown,
    Calmar,
    WinRate,
    Cvar,
}

impl BtMetric {
    /// The metric that a lower-case keyword names; `Sharpe` on anything unknown.
    pub open spec fn named(word: Seq<char>) -> BtMetric {
        if word == "sortino"@ {
            BtMetric::Sortino
        } else if word == "total_return"@ || word == "totalreturn"@ || word == "return"@ {
            BtMetric::TotalReturn
        } else if word == "max_drawdown"@ || word == "maxdrawdown"@ || word == "drawdown"@ || word
            == "mdd"@ {
            BtMetric::MaxDrawdown
        } else if word == "calmar"@ {
            BtMetric::Calmar
        } else if word == "win_rate"@ || word == "winrate"@ {
            BtMetric::WinRate
        } else if word == "cvar"@ || word == "es"@ {
            BtMetric::Cvar
        } else {
            BtMetric::Sharpe
        }
    }

    /// The metric's name.
    pub open spec fn label(self) -> Seq<char> {
        match self {
            BtMetric::Sharpe => "sharpe"@,
            BtMetric::Sortino => "sortino"@,
            BtMetric::TotalReturn => "total_return"@,
            BtMetric::MaxDrawdown => "max_drawdown"@,
            BtMetric::Calmar => "calmar"@,
            BtMetric::WinRate => "win_rate"@,
            BtMetric::Cvar => "cvar"@,
        }
    }

    /// Drawdown and shortfall are magnitudes of loss; the others are better when higher.
    pub open spec fn heading(self) -> Direction {
        if self is MaxDrawdown || self is Cvar {
            Direction::Minimize
        } else {
            Direction::Maximize
        }
    }

    /// Reads a metric's name, in any case and with white space around it.
    pub fn from_str(s: &str) -> (r: BtMetric)
        ensures
            r == BtMetric::named(crate::text::folded(s@)),
            crate::text::is_ascii_text(crate::text::trimmed(s@)) ==> r == BtMetric::named(
                crate::text::ascii_folded(s@),
            ),
    {
        let word = fold(s);
        BtMetric::from_keyword(word.as_str())
    }

    /// Looks up a keyword in lower case.
    pub fn from_keyword(word: &str) -> (r: BtMetric)
        ensures
            r == BtMetric::named(word@),
    {
        if same_text(word, "sortino") {
            BtMetric::Sortino
        } else if same_text(word, "total_return") || same_text(word, "totalreturn") || same_text(
            word,
            "return",
        ) {
            BtMetric::TotalReturn
        } else if same_text(word, "max_drawdown") || same_text(word, "maxdrawdown") || same_text(
            word,
            "drawdown",
        ) || same_text(word, "mdd") {
            BtMetric::MaxDrawdown
        } else if same_text(word, "calmar") {
            BtMetric::Calmar
        } else if same_text(word, "win_rate") || same_text(word, "winrate") {
            BtMetric::WinRate
        } else if same_text(word, "cvar") || same_text(word, "es") {
            BtMetric::Cvar
        } else {
            BtMetric::Sharpe
        }
    }

    pub fn name(&self) -> (r: &'static str)
        ensures
            r@ == self.label(),
    {
        match self {
            BtMetric::Sharpe => "sharpe",
            BtMetric::Sortino => "sortino",
            BtMetric::TotalReturn => "total_return",
            BtMetric::MaxDrawdown => "max_drawdown",
            BtMetric::Calmar => "calmar",
            BtMetric::WinRate => "win_rate",
            BtMetric::Cvar => "cvar",
        }
    }

    /// The direction that the metric is optimized in.
    pub fn direction(&self) -> (r: Direction)
        ensures
            r == self.heading(),
    {
        match self {
            BtMetric::MaxDrawdown | BtMetric::Cvar => Direction::Minimize,
            _ => Direction::Maximize,
        }
    }

    /// The scalar metric that this backtest metric is.
    pub fn metric(&self) -> (m: Metric)
        ensures
            m.name@ == self.label(),
            m.direction == self.heading(),
    {
        Metric::new(self.name(), self.direction())
    }
}

/// The name of the direction that the named backtest metric is optimized in.
pub fn metric_direction(metric: &str) -> (r: String)
    ensures
        r@ == BtMetric::named(crate::text::folded(metric@)).heading().label(),
        crate::text::is_ascii_text(crate::text::trimmed(metric@)) ==> r@ == BtMetric::named(
            crate::text::ascii_folded(metric@),
        ).heading().label(),
{
    BtMetric::from_str(metric).direction().as_str().to_owned()
}

/// The finite values, in order.
pub open spec fn finite_part(values: Seq<Scalar>) -> Seq<Scalar> {
    values.filter(|x: Scalar| x@.finite())
}

/// The finite values, in order: those that an average is taken over. None where there is no
/// finite value.
pub fn finite_values(values: &[Scalar]) -> (r: Option<Vec<Scalar>>)
    ensures
        match r {
            Some(v) => v@ == finite_part(values@) && v@.len() > 0,
            None => finite_part(values@).len() == 0,
        },
{
    let mut v: Vec<Scalar> = Vec::new();
    let mut i: usize = 0;
    reveal(Seq::filter);
    assert(values@.take(0) == Seq::<Scalar>::empty());
    while i < values.len()
        invariant
            i <= values@.len(),
            v@ == finite_part(values@.take(i as int)),
        decreases values@.len() - i,
    {
        reveal(Seq::filter);
        assert(values@.take(i + 1).drop_last() == values@.take(i as int));
        if values[i].is_finite() {
            v.push(values[i]);
        }
        i += 1;
    }
    assert(values@.take(i as int) == values@);
    if v.len() == 0 {
        None
    } else {
        Some(v)
    }
}

/// The losses among the returns of a series, in order.
pub open spec fn losses(series: Seq<Scalar>) -> Seq<Scalar> {
    series.filter(|x: Scalar| x@.lt(crate::scalar::zero()))
}

/// The gains among the returns of a series, in order.
pub open spec fn gains(series: Seq<Scalar>) -> Seq<Scalar> {
    series.filter(|x: Scalar| crate::scalar::zero().lt(x@))
}

/// The losses among the returns of a series, in order: those that the downside deviation is
/// taken over.
pub fn downside(series: &[Scalar]) -> (v: Vec<Scalar>)
    ensures
        v@ == losses(series@),
{
    let none = Scalar::from_bits(0);
    let mut v: Vec<Scalar> = Vec::new();
    let mut i: usize = 0;
    reveal(Seq::filter);
    assert(series@.take(0) == Seq::<Scalar>::empty());
    while i < series.len()
        invariant
            i <= series@.len(),
            none@ == crate::scalar::zero(),
            v@ == losses(series@.take(i as int)),
        decreases series@.len() - i,
    {
        reveal(Seq::filter);
        assert(series@.take(i + 1).drop_last() == series@.take(i as int));
        if series[i].below(none) {
            v.push(series[i]);
        }
        i += 1;
    }
    assert(series@.take(i as int) == series@);
    v
}

/// The number of steps with a positive return.
pub fn wins(series: &[Scalar]) -> (n: usize)
    ensures
        n == gains(series@).len(),
        n <= series@.len(),
{
    let none = Scalar::from_bits(0);
    let mut n: usize = 0;
    let mut i: usize = 0;
    reveal(Seq::filter);
    assert(series@.take(0) == Seq::<Scalar>::empty());
    while i < series.len()
        invariant
            n <= i <= series@.len(),
            none@ == crate::scalar::zero(),
            n == gains(series@.take(i as int)).len(),
        decreases series@.len() - i,
    {
        reveal(Seq::filter);
        assert(series@.take(i + 1).drop_last() == series@.take(i as int));
        if none.below(series[i]) {
            n += 1;
        }
        i += 1;
    }
    assert(series@.take(i as int) == series@);
    n
}

/// One in twenty, rounded up, and at least one.
pub open spec fn tail_count(n: int) -> int {
    if n <= 20 {
        1
    } else {
        (n + 19) / 20
    }
}

/// Is `tail` the worst one in twenty of the returns, lowest first?
pub open spec fn is_tail(series: Seq<Scalar>, tail: Seq<Scalar>) -> bool {
    &&& tail.len() == tail_count(series.len() as int)
    &&& exists|order: Seq<usize>| #[trigger]
        crate::ranking::is_ranking(Direction::Minimize, series, order) && forall|k: int|
            0 <= k < tail.len() ==> #[trigger] tail[k] == series[order[k] as int]
}

/// The worst one in twenty of the returns, lowest first: those that the expected shortfall is
/// taken over.
pub fn worst_tail(series: &[Scalar]) -> (v: Vec<Scalar>)
    requires
        series@.len() > 0,
    ensures
        is_tail(series@, v@),
{
    let order = rank(Direction::Minimize, series);
    let n: usize = series.len();
    let count: usize = if n <= 20 {
        1
    } else if n % 20 == 0 {
        n / 20
    } else {
        n / 20 + 1
    };
    let mut v: Vec<Scalar> = Vec::new();
    let mut i: usize = 0;
    while i < count
        invariant
            i <= count <= n,
            n == series@.len(),
            v@.len() == i,
            crate::ranking::is_ranking(Direction::Minimize, series@, order@),
            forall|k: int| 0 <= k < i ==> #[trigger] v@[k] == series@[order@[k] as int],
        decreases count - i,
    {
        v.push(series[order[i]]);
        i += 1;
    }
    v
}

/// The bits of a million, the value of a ratio that knows no risk.
pub const CAP: u64 = 0x412E_8480_0000_0000;

/// Can the square of `x - m` come out as `r`?
pub open spec fn squared_gap<A: Arithmetic>(ops: &A, x: Scalar, m: Scalar, r: Scalar) -> bool {
    exists|d: Scalar|
        #![trigger crate::arithmetic::subtracts(ops, x, m, d)]
        crate::arithmetic::subtracts(ops, x, m, d) && crate::arithmetic::multiplies(ops, d, d, r)
}

/// Can the squares of the distances of `xs` from `m` come out as `squares`?
pub open spec fn squared_gaps<A: Arithmetic>(
    ops: &A,
    xs: Seq<Scalar>,
    m: Scalar,
    squares: Seq<Scalar>,
) -> bool {
    &&& squares.len() == xs.len()
    &&& forall|i: int|
        0 <= i < xs.len() ==> squared_gap(ops, xs[i], m, #[trigger] squares[i])
}

pub fn squares_about<A: Arithmetic>(ops: &A, xs: &[Scalar], m: Scalar) -> (squares: Vec<Scalar>)
    ensures
        squared_gaps(ops, xs@, m, squares@),
{
    let mut squares: Vec<Scalar> = Vec::new();
    let mut i: usize = 0;
    while i < xs.len()
        invariant
            i <= xs@.len(),
            squares@.len() == i,
            forall|j: int| 0 <= j < i ==> squared_gap(ops, xs@[j], m, #[trigger] squares@[j]),
        decreases xs@.len() - i,
    {
        let d = ops.minus(xs[i], m);
        let square = ops.times(d, d);
        assert(crate::arithmetic::subtracts(ops, xs@[i as int], m, d));
        squares.push(square);
        i += 1;
    }
    squares
}

/// Can the standard deviation of a sample with mean `m` come out as `r`? It takes two at least;
/// that of fewer is zero.
pub open spec fn is_deviation<A: Arithmetic>(
    ops: &A,
    xs: Seq<Scalar>,
    m: Scalar,
    r: Scalar,
) -> bool {
    if xs.len() < 2 {
        r == (Scalar { bits: 0 })
    } else {
        exists|squares: Seq<Scalar>, total: Scalar, n: Scalar, freedom: Scalar, variance: Scalar|
            {
                &&& squared_gaps(ops, xs, m, squares)
                &&& #[trigger] crate::arithmetic::is_sum(ops, squares, total)
                &&& crate::arithmetic::counts(ops, xs.len(), n)
                &&& #[trigger] crate::arithmetic::subtracts(ops, n, Scalar { bits: ONE }, freedom)
                &&& #[trigger] crate::arithmetic::divides(ops, total, freedom, variance)
                &&& crate::arithmetic::extracts(ops, variance, r)
            }
    }
}

/// The standard deviation of a sample with mean `m`.
fn std_dev<A: Arithmetic>(ops: &A, xs: &[Scalar], m: Scalar) -> (r: Scalar)
    ensures
        is_deviation(ops, xs@, m, r),
{
    if xs.len() < 2 {
        return Scalar::from_bits(0);
    }
    let squares = squares_about(ops, xs, m);
    let total = sum(ops, squares.as_slice());
    let n = ops.whole(xs.len() as u64);
    let one = Scalar::from_bits(ONE);
    let freedom = ops.minus(n, one);
    let variance = ops.over(total, freedom);
    let r = ops.root(variance);
    assert(crate::arithmetic::is_sum(ops, squares@, total));
    assert(crate::arithmetic::counts(ops, xs@.len(), n));
    assert(crate::arithmetic::subtracts(ops, n, one, freedom));
    assert(crate::arithmetic::divides(ops, total, freedom, variance));
    assert(crate::arithmetic::extracts(ops, variance, r));
    r
}

/// Can the quotient of `gain` and `risk` come out as `r`? Where there is next to no risk it is
/// zero.
pub open spec fn is_ratio<A: Arithmetic>(
    ops: &A,
    gain: Scalar,
    risk: Scalar,
    r: Scalar,
) -> bool {
    if risk@.le((Scalar { bits: TINY })@) {
        r == (Scalar { bits: 0 })
    } else {
        crate::arithmetic::divides(ops, gain, risk, r)
    }
}

fn ratio<A: Arithmetic>(ops: &A, gain: Scalar, risk: Scalar) -> (r: Scalar)
    ensures
        is_ratio(ops, gain, risk, r),
{
    if risk.at_most(Scalar::from_bits(TINY)) {
        Scalar::from_bits(0)
    } else {
        ops.over(gain, risk)
    }
}

/// The value of a ratio that knows no risk: a cap where there is a gain, else zero.
pub open spec fn riskless(gain: Scalar) -> Scalar {
    if crate::scalar::zero().lt(gain@) {
        Scalar { bits: CAP }
    } else {
        Scalar { bits: 0 }
    }
}

fn without_risk(gain: Scalar) -> (r: Scalar)
    ensures
        r == riskless(gain),
{
    if Scalar::from_bits(0).below(gain) {
        Scalar::from_bits(CAP)
    } else {
        Scalar::from_bits(0)
    }
}

/// Can the Sharpe ratio of a series come out as `r`?
pub open spec fn is_sharpe<A: Arithmetic>(ops: &A, series: Seq<Scalar>, r: Scalar) -> bool {
    exists|m: Scalar, sd: Scalar|
        {
            &&& crate::arithmetic::is_mean(ops, series, m)
            &&& #[trigger] is_deviation(ops, series, m, sd)
            &&& is_ratio(ops, m, sd, r)
        }
}

/// The Sharpe ratio of a series of returns, per step and without a riskless rate: the mean over
/// the deviation, zero where there is next to no deviation.
pub fn sharpe<A: Arithmetic>(ops: &A, series: &[Scalar]) -> (r: Scalar)
    ensures
        is_sharpe(ops, series@, r),
{
    let m = mean(ops, series);
    let sd = std_dev(ops, series, m);
    ratio(ops, m, sd)
}

/// Can the squares of `xs` come out as `squares`?
pub open spec fn are_squares<A: Arithmetic>(
    ops: &A,
    xs: Seq<Scalar>,
    squares: Seq<Scalar>,
) -> bool {
    &&& squares.len() == xs.len()
    &&& forall|i: int|
        0 <= i < xs.len() ==> crate::arithmetic::multiplies(
            ops,
            xs[i],
            xs[i],
            #[trigger] squares[i],
        )
}

/// Can the root of the mean square of `xs` come out as `r`?
pub open spec fn is_root_mean_square<A: Arithmetic>(
    ops: &A,
    xs: Seq<Scalar>,
    r: Scalar,
) -> bool {
    exists|squares: Seq<Scalar>, average: Scalar|
        {
            &&& are_squares(ops, xs, squares)
            &&& #[trigger] crate::arithmetic::is_mean(ops, squares, average)
            &&& crate::arithmetic::extracts(ops, average, r)
        }
}

fn root_mean_square<A: Arithmetic>(ops: &A, xs: &[Scalar]) -> (r: Scalar)
    ensures
        is_root_mean_square(ops, xs@, r),
{
    let mut squares: Vec<Scalar> = Vec::new();
    let mut i: usize = 0;
    while i < xs.len()
        invariant
            i <= xs@.len(),
            squares@.len() == i,
            forall|j: int|
                0 <= j < i ==> crate::arithmetic::multiplies(
                    ops,
                    xs@[j],
                    xs@[j],
                    #[trigger] squares@[j],
                ),
        decreases xs@.len() - i,
    {
        squares.push(ops.times(xs[i], xs[i]));
        i += 1;
    }
    let average = mean(ops, squares.as_slice());
    let r = ops.root(average);
    assert(crate::arithmetic::is_mean(ops, squares@, average));
    assert(crate::arithmetic::extracts(ops, average, r));
    r
}

/// Can the Sortino ratio of a series come out as `r`?
pub open spec fn is_sortino<A: Arithmetic>(ops: &A, series: Seq<Scalar>, r: Scalar) -> bool {
    let down = losses(series);
    exists|m: Scalar| #[trigger]
        crate::arithmetic::is_mean(ops, series, m) && if down.len() == 0 {
            r == riskless(m)
        } else {
            exists|dd: Scalar| #[trigger]
                is_root_mean_square(ops, down, dd) && is_ratio(ops, m, dd, r)
        }
}

/// The Sortino ratio of a series of returns: the mean over the root mean square of the losses. A
/// series without a loss is favorable, and its ratio is capped.
pub fn sortino<A: Arithmetic>(ops: &A, series: &[Scalar]) -> (r: Scalar)
    ensures
        is_sortino(ops, series@, r),
{
    let m = mean(ops, series);
    let down = downside(series);
    if down.len() == 0 {
        return without_risk(m);
    }
    let dd = root_mean_square(ops, down.as_slice());
    ratio(ops, m, dd)
}

/// Can one step with return `x` take the equity from `before` to `after`?
pub open spec fn grows<A: Arithmetic>(
    ops: &A,
    before: Scalar,
    x: Scalar,
    after: Scalar,
) -> bool {
    exists|factor: Scalar|
        #![trigger crate::arithmetic::adds(ops, Scalar { bits: ONE }, x, factor)]
        crate::arithmetic::adds(ops, Scalar { bits: ONE }, x, factor)
            && crate::arithmetic::multiplies(ops, before, factor, after)
}

/// The equity before step `i` of a curve that starts at one.
pub open spec fn equity_before(curve: Seq<Scalar>, i: int) -> Scalar {
    if i == 0 {
        Scalar { bits: ONE }
    } else {
        curve[i - 1]
    }
}

/// Can compounding a series give the equity curve `curve`, one entry after each step?
pub open spec fn is_curve<A: Arithmetic>(
    ops: &A,
    series: Seq<Scalar>,
    curve: Seq<Scalar>,
) -> bool {
    &&& curve.len() == series.len()
    &&& forall|i: int|
        0 <= i < series.len() ==> grows(
            ops,
            equity_before(curve, i),
            series[i],
            #[trigger] curve[i],
        )
}

/// The equity curve of a series of returns, compounded from one.
fn equity_curve<A: Arithmetic>(ops: &A, series: &[Scalar]) -> (curve: Vec<Scalar>)
    ensures
        is_curve(ops, series@, curve@),
{
    let one = Scalar::from_bits(ONE);
    let mut equity = one;
    let mut curve: Vec<Scalar> = Vec::new();
    let mut i: usize = 0;
    while i < series.len()
        invariant
            i <= series@.len(),
            one.bits == ONE,
            curve@.len() == i,
            equity == equity_before(curve@, i as int),
            forall|j: int|
                0 <= j < i ==> grows(
                    ops,
                    equity_before(curve@, j),
                    series@[j],
                    #[trigger] curve@[j],
                ),
        decreases series@.len() - i,
    {
        let ghost before = curve@;
        let factor = ops.plus(one, series[i]);
        assert(crate::arithmetic::adds(ops, one, series@[i as int], factor));
        let after = ops.times(equity, factor);
        curve.push(after);
        proof {
            assert(grows(ops, equity, series@[i as int], after));
            assert forall|j: int| 0 <= j < i + 1 implies grows(
                ops,
                equity_before(curve@, j),
                series@[j],
                #[trigger] curve@[j],
            ) by {
                assert(equity_before(curve@, j) == equity_before(before, j));
                if j < i {
                    assert(curve@[j] == before[j]);
                }
            }
        }
        equity = after;
        i += 1;
    }
    curve
}

/// Can the compounded return of a series come out as `r`?
pub open spec fn is_total_return<A: Arithmetic>(ops: &A, series: Seq<Scalar>, r: Scalar) -> bool {
    exists|curve: Seq<Scalar>| #[trigger]
        is_curve(ops, series, curve) && crate::arithmetic::subtracts(
            ops,
            equity_before(curve, curve.len() as int),
            Scalar { bits: ONE },
            r,
        )
}

/// The compounded return over a series of returns.
pub fn total_return<A: Arithmetic>(ops: &A, series: &[Scalar]) -> (r: Scalar)
    ensures
        is_total_return(ops, series@, r),
{
    let curve = equity_curve(ops, series);
    let one = Scalar::from_bits(ONE);
    let equity = if curve.len() == 0 {
        one
    } else {
        curve[curve.len() - 1]
    };
    assert(is_curve(ops, series@, curve@));
    ops.minus(equity, one)
}

/// The highest of a starting value and the numbers after it, which a NaN does not raise.
pub open spec fn highest(start: Scalar, xs: Seq<Scalar>) -> Scalar
    decreases xs.len(),
{
    if xs.len() == 0 {
        start
    } else {
        let before = highest(start, xs.drop_last());
        if before@.lt(xs.last()@) {
            xs.last()
        } else {
            before
        }
    }
}

/// Can falling from `peak` to `equity` come out as a drawdown of `r`?
pub open spec fn falls<A: Arithmetic>(
    ops: &A,
    peak: Scalar,
    equity: Scalar,
    r: Scalar,
) -> bool {
    exists|gap: Scalar|
        #![trigger crate::arithmetic::subtracts(ops, peak, equity, gap)]
        crate::arithmetic::subtracts(ops, peak, equity, gap) && crate::arithmetic::divides(
            ops,
            gap,
            peak,
            r,
        )
}

/// Can the drawdowns along an equity curve, each from the highest equity so far, come out as
/// `drops`?
pub open spec fn are_drops<A: Arithmetic>(
    ops: &A,
    curve: Seq<Scalar>,
    drops: Seq<Scalar>,
) -> bool {
    &&& drops.len() == curve.len()
    &&& forall|i: int|
        0 <= i < curve.len() ==> falls(
            ops,
            highest(Scalar { bits: ONE }, curve.take(i + 1)),
            curve[i],
            #[trigger] drops[i],
        )
}

/// Can the maximum drawdown of a series come out as `r`?
pub open spec fn is_max_drawdown<A: Arithmetic>(ops: &A, series: Seq<Scalar>, r: Scalar) -> bool {
    exists|curve: Seq<Scalar>, drops: Seq<Scalar>|
        {
            &&& is_curve(ops, series, curve)
            &&& #[trigger] are_drops(ops, curve, drops)
            &&& r == highest(Scalar { bits: 0 }, drops)
        }
}

/// The maximum drawdown of a series of returns, as a magnitude: the deepest fall of the equity
/// below its highest point so far, relative to that point.
pub fn max_drawdown<A: Arithmetic>(ops: &A, series: &[Scalar]) -> (r: Scalar)
    ensures
        is_max_drawdown(ops, series@, r),
{
    let curve = equity_curve(ops, series);
    let mut peak = Scalar::from_bits(ONE);
    let mut deepest = Scalar::from_bits(0);
    let ghost mut drops: Seq<Scalar> = Seq::empty();
    let mut i: usize = 0;
    while i < curve.len()
        invariant
            i <= curve@.len(),
            drops.len() == i,
            peak == highest(Scalar { bits: ONE }, curve@.take(i as int)),
            deepest == highest(Scalar { bits: 0 }, drops),
            forall|j: int|
                0 <= j < i ==> falls(
                    ops,
                    highest(Scalar { bits: ONE }, curve@.take(j + 1)),
                    curve@[j],
                    #[trigger] drops[j],
                ),
        decreases curve@.len() - i,
    {
        let equity = curve[i];
        assert(curve@.take(i + 1).drop_last() == curve@.take(i as int));
        if peak.below(equity) {
            peak = equity;
        }
        let gap = ops.minus(peak, equity);
        assert(crate::arithmetic::subtracts(ops, peak, equity, gap));
        let drop = ops.over(gap, peak);
        assert(falls(ops, peak, equity, drop));
        proof {
            assert(drops.push(drop).drop_last() == drops);
            drops = drops.push(drop);
        }
        if deepest.below(drop) {
            deepest = drop;
        }
        i += 1;
    }
    assert(are_drops(ops, curve@, drops));
    deepest
}

/// Can the Calmar ratio of a series come out as `r`?
pub open spec fn is_calmar<A: Arithmetic>(ops: &A, series: Seq<Scalar>, r: Scalar) -> bool {
    exists|mdd: Scalar, gain: Scalar|
        {
            &&& #[trigger] is_max_drawdown(ops, series, mdd)
            &&& #[trigger] is_total_return(ops, series, gain)
            &&& if mdd@.le((Scalar { bits: TINY })@) {
                r == riskless(gain)
            } else {
                crate::arithmetic::divides(ops, gain, mdd, r)
            }
        }
}

/// The Calmar ratio of a series of returns: the compounded return over the maximum drawdown. A
/// series with next to no drawdown is favorable, and its ratio is capped.
pub fn calmar<A: Arithmetic>(ops: &A, series: &[Scalar]) -> (r: Scalar)
    ensures
        is_calmar(ops, series@, r),
{
    let mdd = max_drawdown(ops, series);
    let gain = total_return(ops, series);
    if mdd.at_most(Scalar::from_bits(TINY)) {
        without_risk(gain)
    } else {
        ops.over(gain, mdd)
    }
}

/// Can the win rate of a series come out as `r`?
pub open spec fn is_win_rate<A: Arithmetic>(ops: &A, series: Seq<Scalar>, r: Scalar) -> bool {
    if series.len() == 0 {
        r == (Scalar { bits: 0 })
    } else {
        exists|won: Scalar, n: Scalar|
            {
                &&& crate::arithmetic::counts(ops, gains(series).len(), won)
                &&& crate::arithmetic::counts(ops, series.len(), n)
                &&& #[trigger] crate::arithmetic::divides(ops, won, n, r)
            }
    }
}

/// The fraction of the steps with a positive return.
pub fn win_rate<A: Arithmetic>(ops: &A, series: &[Scalar]) -> (r: Scalar)
    ensures
        is_win_rate(ops, series@, r),
{
    if series.len() == 0 {
        return Scalar::from_bits(0);
    }
    let count: usize = wins(series);
    let won = ops.whole(count as u64);
    let n = ops.whole(series.len() as u64);
    let r = ops.over(won, n);
    assert(crate::arithmetic::counts(ops, gains(series@).len(), won));
    assert(crate::arithmetic::counts(ops, series@.len(), n));
    assert(crate::arithmetic::divides(ops, won, n, r));
    r
}

/// Can the expected shortfall of a series come out as `r`?
pub open spec fn is_cvar<A: Arithmetic>(ops: &A, series: Seq<Scalar>, r: Scalar) -> bool {
    if series.len() == 0 {
        r == (Scalar { bits: 0 })
    } else {
        exists|tail: Seq<Scalar>, average: Scalar|
            {
                &&& is_tail(series, tail)
                &&& #[trigger] crate::arithmetic::is_mean(ops, tail, average)
                &&& r == crate::scalar::larger(
                    crate::scalar::negated(average),
                    Scalar { bits: 0 },
                )
            }
    }
}

/// The expected shortfall of a series of returns: the mean of the worst one in twenty, as a
/// magnitude of loss, and zero where it is a gain.
pub fn cvar<A: Arithmetic>(ops: &A, series: &[Scalar]) -> (r: Scalar)
    ensures
        is_cvar(ops, series@, r),
{
    if series.len() == 0 {
        return Scalar::from_bits(0);
    }
    let tail = worst_tail(series);
    let average = mean(ops, tail.as_slice());
    assert(crate::arithmetic::is_mean(ops, tail@, average));
    average.negate().max(Scalar::from_bits(0))
}

/// Can backtest metric `m` of a series come out as `r`?
pub open spec fn is_metric<A: Arithmetic>(
    ops: &A,
    m: BtMetric,
    series: Seq<Scalar>,
    r: Scalar,
) -> bool {
    match m {
        BtMetric::Sharpe => is_sharpe(ops, series, r),
        BtMetric::Sortino => is_sortino(ops, series, r),
        BtMetric::TotalReturn => is_total_return(ops, series, r),
        BtMetric::MaxDrawdown => is_max_drawdown(ops, series, r),
        BtMetric::Calmar => is_calmar(ops, series, r),
        BtMetric::WinRate => is_win_rate(ops, series, r),
        BtMetric::Cvar => is_cvar(ops, series, r),
    }
}

/// One backtest metric of one series of returns.
pub fn bt_metric_of_path<A: Arithmetic>(ops: &A, m: BtMetric, series: &[Scalar]) -> (r: Scalar)
    ensures
        is_metric(ops, m, series@, r),
{
    match m {
        BtMetric::Sharpe => sharpe(ops, series),
        BtMetric::Sortino => sortino(ops, series),
        BtMetric::TotalReturn => total_return(ops, series),
        BtMetric::MaxDrawdown => max_drawdown(ops, series),
        BtMetric::Calmar => calmar(ops, series),
        BtMetric::WinRate => win_rate(ops, series),
        BtMetric::Cvar => cvar(ops, series),
    }
}

proof fn lemma_highest_is_no_lower(start: Scalar, xs: Seq<Scalar>)
    requires
        !(start@ is Nan),
    ensures
        start@.le(highest(start, xs)@),
    decreases xs.len(),
{
    if xs.len() > 0 {
        lemma_highest_is_no_lower(start, xs.drop_last());
    }
}

/// Drawdown and shortfall are magnitudes: they are never negative and never NaN, whatever the
/// series.
pub proof fn law_losses_are_magnitudes<A: Arithmetic>(ops: &A, series: Seq<Scalar>, r: Scalar)
    requires
        is_max_drawdown(ops, series, r) || is_cvar(ops, series, r),
    ensures
        crate::scalar::zero().le(r@),
{
    let none = Scalar { bits: 0 };
    assert(none@ == crate::scalar::zero());
    if is_max_drawdown(ops, series, r) {
        let (curve, drops) = choose|curve: Seq<Scalar>, drops: Seq<Scalar>|
            {
                &&& is_curve(ops, series, curve)
                &&& #[trigger] are_drops(ops, curve, drops)
                &&& r == highest(Scalar { bits: 0 }, drops)
            };
        lemma_highest_is_no_lower(none, drops);
    } else if series.len() > 0 {
        let (tail, average) = choose|tail: Seq<Scalar>, average: Scalar|
            {
                &&& is_tail(series, tail)
                &&& #[trigger] crate::arithmetic::is_mean(ops, tail, average)
                &&& r == crate::scalar::larger(
                    crate::scalar::negated(average),
                    Scalar { bits: 0 },
                )
            };
        let x = crate::scalar::negated(average);
        if !(x@ is Nan) {
            crate::scalar::lemma_place_orders(x, none);
            crate::scalar::lemma_place_orders(none, x);
        }
    }
}

/// A series without a loss has the capped Sortino ratio where its mean is positive, and zero
/// where it is not.
pub proof fn law_no_downside_is_favorable<A: Arithmetic>(
    ops: &A,
    series: Seq<Scalar>,
    r: Scalar,
)
    requires
        losses(series).len() == 0,
        is_sortino(ops, series, r),
    ensures
        r == (Scalar { bits: CAP }) || r == (Scalar { bits: 0 }),
        exists|m: Scalar| #[trigger]
            crate::arithmetic::is_mean(ops, series, m) && (r == (Scalar { bits: CAP })
                <==> crate::scalar::zero().lt(m@)),
{
    let m = choose|m: Scalar| #[trigger]
        crate::arithmetic::is_mean(ops, series, m) && r == riskless(m);
    assert(CAP != 0);
}

/// Can the average of `values` come out as `r`? It is the mean of the finite ones, and NaN where
/// there is none.
pub open spec fn is_average<A: Arithmetic>(ops: &A, values: Seq<Scalar>, r: Scalar) -> bool {
    if finite_part(values).len() == 0 {
        r@ is Nan
    } else {
        crate::arithmetic::is_mean(ops, finite_part(values), r)
    }
}

/// The mean of the finite values, NaN where there is none.
pub fn average<A: Arithmetic>(ops: &A, values: &[Scalar]) -> (r: Scalar)
    ensures
        is_average(ops, values@, r),
{
    match finite_values(values) {
        Some(finite) => mean(ops, finite.as_slice()),
        None => Scalar::from_bits(NAN),
    }
}

/// A scorer given by a function of the artifact. Where the function cannot score an artifact, it
/// gives NaN.
pub struct ScalarEvaluator<F: Fn(&Artifact) -> Scalar + Send + Sync> {
    metric: Metric,
    name: String,
    f: F,
}

impl<F: Fn(&Artifact) -> Scalar + Send + Sync> ScalarEvaluator<F> {
    /// The function.
    pub closed spec fn fitness(&self) -> F {
        self.f
    }

    /// The metric.
    pub closed spec fn given_metric(&self) -> Metric {
        self.metric
    }

    /// The label.
    pub closed spec fn label(&self) -> Seq<char> {
        self.name@
    }

    #[verifier::type_invariant]
    closed spec fn total(&self) -> bool {
        forall|a: &Artifact| #[trigger] call_requires(self.f, (a,))
    }

    pub fn new(name: &str, metric: Metric, f: F) -> (r: ScalarEvaluator<F>)
        requires
            forall|a: &Artifact| #[trigger] call_requires(f, (a,)),
        ensures
            r.fitness() == f,
            r.given_metric() == metric,
            r.label() == name@,
    {
        ScalarEvaluator { metric, name: name.to_owned(), f }
    }
}

impl<F: Fn(&Artifact) -> Scalar + Send + Sync> Evaluator for ScalarEvaluator<F> {
    open spec fn may_score(&self, artifact: Seq<Scalar>, value: Scalar) -> bool {
        exists|a: Artifact|
            a@ == artifact && #[trigger] call_ensures(self.fitness(), (&a,), value)
    }

    open spec fn frozen_metric(&self) -> Metric {
        self.given_metric()
    }

    fn score(&self, artifact: &Artifact) -> (r: Scalar) {
        proof {
            use_type_invariant(self);
        }
        let r = (self.f)(artifact);
        assert(call_ensures(self.fitness(), (artifact,), r));
        r
    }

    fn metric(&self) -> (r: &Metric) {
        &self.metric
    }

    fn name(&self) -> (r: &str)
        ensures
            r@ == self.label(),
    {
        self.name.as_str()
    }
}

/// Can the squares of the distances of an artifact from each knob of the target come out as
/// `squares`?
pub open spec fn squared_distances<A: Arithmetic>(
    ops: &A,
    artifact: Seq<Scalar>,
    target: Seq<Scalar>,
    squares: Seq<Scalar>,
) -> bool {
    &&& squares.len() == target.len()
    &&& forall|i: int|
        0 <= i < squares.len() ==> squared_gap(
            ops,
            artifact[i],
            target[i],
            #[trigger] squares[i],
        )
}

/// Can the squared error of an artifact against a target come out as `r`? Knobs beyond those of
/// the target are charged one each on top of the sum of the squares. An artifact that lacks a
/// knob of the target is infinitely far from it, so that nothing is gained by shrinking.
pub open spec fn is_squared_error<A: Arithmetic>(
    ops: &A,
    artifact: Seq<Scalar>,
    target: Seq<Scalar>,
    r: Scalar,
) -> bool {
    if artifact.len() < target.len() {
        r.bits == EXPONENT
    } else {
        is_full_squared_error(ops, artifact, target, r)
    }
}

/// Can the squared error of an artifact that lacks no knob of the target come out as `r`?
pub open spec fn is_full_squared_error<A: Arithmetic>(
    ops: &A,
    artifact: Seq<Scalar>,
    target: Seq<Scalar>,
    r: Scalar,
) -> bool {
    exists|squares: Seq<Scalar>, total: Scalar, m: Scalar, n: Scalar, d: Scalar|
        {
            &&& squared_distances(ops, artifact, target, squares)
            &&& #[trigger] crate::arithmetic::is_sum(ops, squares, total)
            &&& crate::arithmetic::counts(ops, artifact.len(), m)
            &&& crate::arithmetic::counts(ops, target.len(), n)
            &&& #[trigger] crate::arithmetic::subtracts(ops, m, n, d)
            &&& crate::arithmetic::adds(ops, total, crate::scalar::absolute(d), r)
        }
}

/// The frozen parabola around a target: the squared error of an artifact against it.
pub struct SseEvaluator<A: Arithmetic> {
    ops: A,
    target: Artifact,
    metric: Metric,
}

impl<A: Arithmetic> SseEvaluator<A> {
    pub closed spec fn arithmetic(&self) -> A {
        self.ops
    }

    pub closed spec fn aim(&self) -> Seq<Scalar> {
        self.target@
    }

    pub closed spec fn given_metric(&self) -> Metric {
        self.metric
    }
}

/// An evaluator that measures the squared error against a target, to be minimized.
pub fn sse_to_target<A: Arithmetic>(ops: A, target: Artifact) -> (r: SseEvaluator<A>)
    ensures
        r.arithmetic() == ops,
        r.aim() == target@,
        r.frozen_metric().name@ == "sse"@,
        r.frozen_metric().direction == Direction::Minimize,
{
    SseEvaluator { ops, target, metric: Metric::new("sse", Direction::Minimize) }
}

impl<A: Arithmetic> Evaluator for SseEvaluator<A> {
    open spec fn may_score(&self, artifact: Seq<Scalar>, value: Scalar) -> bool {
        is_squared_error(&self.arithmetic(), artifact, self.aim(), value)
    }

    closed spec fn frozen_metric(&self) -> Metric {
        self.metric
    }

    fn score(&self, artifact: &Artifact) -> (r: Scalar) {
        let ops = &self.ops;
        let n: usize = self.target.len();
        if artifact.len() < n {
            return Scalar::from_bits(EXPONENT);
        }
        let mut squares: Vec<Scalar> = Vec::new();
        let mut i: usize = 0;
        while i < n
            invariant
                i <= n,
                n <= artifact@.len(),
                n <= self.target@.len(),
                squares@.len() == i,
                forall|j: int|
                    0 <= j < i ==> squared_gap(
                        ops,
                        artifact@[j],
                        self.target@[j],
                        #[trigger] squares@[j],
                    ),
            decreases n - i,
        {
            let d = ops.minus(artifact[i], self.target[i]);
            let square = ops.times(d, d);
            assert(crate::arithmetic::subtracts(
                ops,
                artifact@[i as int],
                self.target@[i as int],
                d,
            ));
            squares.push(square);
            i += 1;
        }
        let total = sum(ops, squares.as_slice());
        let ours = ops.whole(artifact.len() as u64);
        let theirs = ops.whole(self.target.len() as u64);
        let d = ops.minus(ours, theirs);
        let r = ops.plus(total, d.abs());
        proof {
            assert(squared_distances(ops, artifact@, self.aim(), squares@));
            assert(crate::arithmetic::is_sum(ops, squares@, total));
            assert(crate::arithmetic::counts(ops, artifact@.len(), ours));
            assert(crate::arithmetic::counts(ops, self.target@.len(), theirs));
            assert(crate::arithmetic::subtracts(ops, ours, theirs, d));
            assert(crate::arithmetic::adds(ops, total, crate::scalar::absolute(d), r));
        }
        r
    }

    fn metric(&self) -> (r: &Metric) {
        &self.metric
    }

    fn name(&self) -> (r: &str)
        ensures
            r@ == "sse_to_target"@,
    {
        "sse_to_target"
    }
}

/// Nothing is gained by shrinking: an artifact that lacks a knob of the target scores no better
/// than any other artifact whose score is a number, and its score is never kept.
pub proof fn law_shrinking_never_wins<A: Arithmetic>(
    evaluator: SseEvaluator<A>,
    shrunk: Seq<Scalar>,
    v: Scalar,
    other: Seq<Scalar>,
    w: Scalar,
)
    requires
        shrunk.len() < evaluator.aim().len(),
        evaluator.may_score(shrunk, v),
        evaluator.may_score(other, w),
    ensures
        !v@.finite(),
        w@ is Nan || w@.le(v@),
        w@ is Nan || !crate::metric::better(Direction::Minimize, w@, v@),
{
    assert(v@ is PosInf);
}

/// The score of an artifact that lacks no knob is a number: finite knobs and a target without a
/// NaN never score NaN, where the arithmetic respects the signs of numbers.
pub proof fn law_full_artifacts_score_a_number<A: Arithmetic>(
    evaluator: SseEvaluator<A>,
    artifact: Seq<Scalar>,
    v: Scalar,
)
    requires
        crate::arithmetic::respects_signs(&evaluator.arithmetic()),
        artifact.len() >= evaluator.aim().len(),
        forall|i: int| 0 <= i < artifact.len() ==> (#[trigger] artifact[i])@.finite(),
        forall|i: int|
            0 <= i < evaluator.aim().len() ==> !((#[trigger] evaluator.aim()[i])@ is Nan),
        evaluator.may_score(artifact, v),
    ensures
        crate::scalar::zero().le(v@),
{
    let ops = evaluator.arithmetic();
    let target = evaluator.aim();
    let (squares, total, m, n, d) = choose|
        squares: Seq<Scalar>,
        total: Scalar,
        m: Scalar,
        n: Scalar,
        d: Scalar,
    |
        {
            &&& squared_distances(&ops, artifact, target, squares)
            &&& #[trigger] crate::arithmetic::is_sum(&ops, squares, total)
            &&& crate::arithmetic::counts(&ops, artifact.len(), m)
            &&& crate::arithmetic::counts(&ops, target.len(), n)
            &&& #[trigger] crate::arithmetic::subtracts(&ops, m, n, d)
            &&& crate::arithmetic::adds(&ops, total, crate::scalar::absolute(d), v)
        };
    assert forall|i: int| 0 <= i < squares.len() implies crate::scalar::zero().le(
        (#[trigger] squares[i])@,
    ) by {
        assert(squared_gap(&ops, artifact[i], target[i], squares[i]));
        let gap = choose|gap: Scalar|
            #![trigger crate::arithmetic::subtracts(&ops, artifact[i], target[i], gap)]
            crate::arithmetic::subtracts(&ops, artifact[i], target[i], gap)
                && crate::arithmetic::multiplies(&ops, gap, gap, squares[i]);
        assert(!(gap@ is Nan));
    }
    crate::arithmetic::lemma_sum_is_not_negative(&ops, squares, total);
    crate::scalar::lemma_absolute_is_not_negative(d);
}

/// An artifact cannot shrink to win: the score of a strict prefix of an artifact that has the
/// target's length, and finite knobs, is at least that of the whole artifact.
pub proof fn law_prefixes_score_no_better<A: Arithmetic>(
    evaluator: SseEvaluator<A>,
    artifact: Seq<Scalar>,
    w: Scalar,
    k: int,
    v: Scalar,
)
    requires
        crate::arithmetic::respects_signs(&evaluator.arithmetic()),
        artifact.len() == evaluator.aim().len(),
        0 <= k < artifact.len(),
        forall|i: int| 0 <= i < artifact.len() ==> (#[trigger] artifact[i])@.finite(),
        forall|i: int|
            0 <= i < evaluator.aim().len() ==> !((#[trigger] evaluator.aim()[i])@ is Nan),
        evaluator.may_score(artifact, w),
        evaluator.may_score(artifact.take(k), v),
    ensures
        w@.le(v@),
{
    law_full_artifacts_score_a_number(evaluator, artifact, w);
    law_shrinking_never_wins(evaluator, artifact.take(k), v, artifact, w);
}

/// Can a backtest of the strategy with these knobs on one path come out as `r`?
pub open spec fn is_path_score<A: Arithmetic>(
    ops: &A,
    bt: BtMetric,
    params: Seq<Scalar>,
    path: Seq<Scalar>,
    prices: bool,
    r: Scalar,
) -> bool {
    exists|market: Seq<Scalar>, series: Seq<Scalar>|
        {
            &&& crate::strategy::are_changes(ops, path, prices, market)
            &&& #[trigger] crate::strategy::are_strategy_returns(
                ops,
                params,
                market,
                None::<Overlay>,
                series,
            )
            &&& is_metric(ops, bt, series, r)
        }
}

/// A vectorized backtest: the metric and the scenario paths that every candidate is scored
/// against. Both are fixed at construction; a candidate's knobs parametrize the strategy. The
/// score is the mean over the paths.
pub struct VectorBtEvaluator<A: Arithmetic> {
    ops: A,
    metric: Metric,
    bt: BtMetric,
    scenarios: Vec<Vec<Scalar>>,
    paths_are_prices: bool,
}

impl<A: Arithmetic> VectorBtEvaluator<A> {
    pub closed spec fn arithmetic(&self) -> A {
        self.ops
    }

    pub closed spec fn kernel(&self) -> BtMetric {
        self.bt
    }

    pub closed spec fn paths(&self) -> Seq<Vec<Scalar>> {
        self.scenarios@
    }

    pub closed spec fn prices(&self) -> bool {
        self.paths_are_prices
    }

    /// `paths_are_prices` says whether the paths hold price levels or step returns.
    pub fn new(ops: A, bt: BtMetric, scenarios: Vec<Vec<Scalar>>, paths_are_prices: bool) -> (r:
        VectorBtEvaluator<A>)
        ensures
            r.arithmetic() == ops,
            r.kernel() == bt,
            r.paths() == scenarios@,
            r.prices() == paths_are_prices,
            r.frozen_metric().name@ == bt.label(),
            r.frozen_metric().direction == bt.heading(),
    {
        VectorBtEvaluator { ops, metric: bt.metric(), bt, scenarios, paths_are_prices }
    }

    /// The backtest of one path.
    pub fn score_path(&self, artifact: &Artifact, path: &Vec<Scalar>) -> (r: Scalar)
        ensures
            is_path_score(
                &self.arithmetic(),
                self.kernel(),
                artifact@,
                path@,
                self.prices(),
                r,
            ),
    {
        let market = to_returns(&self.ops, path.as_slice(), self.paths_are_prices);
        let none: Option<Overlay> = None;
        let series = strategy_returns(&self.ops, artifact.as_slice(), market.as_slice(), &none);
        bt_metric_of_path(&self.ops, self.bt, series.as_slice())
    }
}

impl<A: Arithmetic> Evaluator for VectorBtEvaluator<A> {
    open spec fn may_score(&self, artifact: Seq<Scalar>, value: Scalar) -> bool {
        exists|scores: Seq<Scalar>|
            {
                &&& scores.len() == self.paths().len()
                &&& forall|i: int|
                    0 <= i < scores.len() ==> is_path_score(
                        &self.arithmetic(),
                        self.kernel(),
                        artifact,
                        self.paths()[i]@,
                        self.prices(),
                        #[trigger] scores[i],
                    )
                &&& #[trigger] is_average(&self.arithmetic(), scores, value)
            }
    }

    closed spec fn frozen_metric(&self) -> Metric {
        self.metric
    }

    fn score(&self, artifact: &Artifact) -> (r: Scalar) {
        let one = |path: &Vec<Scalar>| -> (v: Scalar)
            ensures
                is_path_score(
                    &self.arithmetic(),
                    self.kernel(),
                    artifact@,
                    path@,
                    self.prices(),
                    v,
                ),
            { self.score_path(artifact, path) };
        let scores = par_map(self.scenarios.as_slice(), one);
        let r = average(&self.ops, scores.as_slice());
        assert(is_average(&self.arithmetic(), scores@, r));
        r
    }

    fn metric(&self) -> (r: &Metric) {
        &self.metric
    }

    fn name(&self) -> (r: &str)
        ensures
            r@ == self.kernel().label(),
    {
        self.bt.name()
    }
}

/// Without a scenario there is no score: it is NaN for every artifact.
pub proof fn law_no_scenarios_score_nan<A: Arithmetic>(
    evaluator: VectorBtEvaluator<A>,
    artifact: Seq<Scalar>,
    value: Scalar,
)
    requires
        evaluator.paths().len() == 0,
        evaluator.may_score(artifact, value),
    ensures
        value@ is Nan,
{
    let scores = choose|scores: Seq<Scalar>|
        scores.len() == 0 && #[trigger] is_average(&evaluator.arithmetic(), scores, value);
    reveal(Seq::filter);
    assert(finite_part(scores).len() == 0);
}

} // verus!
