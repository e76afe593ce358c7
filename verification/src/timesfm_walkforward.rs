//! Walk-forward evaluation: forecasters, and strategies scored strictly out of sample.
//!
//! A window of fixed length rolls over a series. At each origin a forecaster sees the window
//! before it and nothing else; the strategy, tilted by the forecast, is then scored on the steps
//! after it. The scores of all folds are averaged, and a candidate whose even and odd folds
//! disagree is demoted.
use std::sync::Arc;

use vstd::prelude::*;

use crate::arithmetic::Arithmetic;
use crate::evaluator::{average, bt_metric_of_path, Artifact, BtMetric, Evaluator};
use crate::metric::{Direction, Metric};
use crate::parallel::par_map;
use crate::scalar::{Scalar, HALF, NAN, ONE};
use crate::strategy::{strategy_returns, to_returns, Heading, Overlay};
use crate::text::{fold, same_text};

verus! {

/// A point forecaster. It is given what came before and tells the points that come next.
pub trait Forecaster: Send + Sync {
    /// Can these points be forecast from this history? A forecaster that is not verified says
    /// nothing here.
    open spec fn may_forecast(
        &self,
        history: Seq<Scalar>,
        horizon: nat,
        points: Seq<Scalar>,
    ) -> bool {
        true
    }

    /// Forecasts the next `horizon` points.
    fn forecast(&self, history: &[Scalar], horizon: usize) -> (points: Vec<Scalar>)
        ensures
            self.may_forecast(history@, horizon as nat, points@),
    ;

    fn name(&self) -> (r: &str)
        default_ensures
            r@ == "forecaster"@,
    {
        "forecaster"
    }
}

/// The same value over and over.
pub open spec fn flat(value: Scalar, horizon: nat) -> Seq<Scalar> {
    Seq::new(horizon, |i: int| value)
}

fn repeat(value: Scalar, horizon: usize) -> (points: Vec<Scalar>)
    ensures
        points@ == flat(value, horizon as nat),
{
    let mut points: Vec<Scalar> = Vec::new();
    let mut i: usize = 0;
    while i < horizon
        invariant
            i <= horizon,
            points@ == flat(value, i as nat),
        decreases horizon - i,
    {
        points.push(value);
        i += 1;
    }
    points
}

/// The last value of a series, zero where it is empty.
pub open spec fn last_or_zero(series: Seq<Scalar>) -> Scalar {
    if series.len() == 0 {
        Scalar { bits: 0 }
    } else {
        series.last()
    }
}

fn final_value(series: &[Scalar]) -> (r: Scalar)
    ensures
        r == last_or_zero(series@),
{
    if series.len() == 0 {
        Scalar::from_bits(0)
    } else {
        series[series.len() - 1]
    }
}

/// The random walk: the last value, repeated. Any model has to beat it.
#[derive(Debug, Clone, Copy, PartialEq, Eq, Structural)]
pub struct NaiveForecaster;

impl Default for NaiveForecaster {
    fn default() -> (r: NaiveForecaster)
        ensures
            r == NaiveForecaster,
    {
        NaiveForecaster
    }
}

impl Forecaster for NaiveForecaster {
    open spec fn may_forecast(
        &self,
        history: Seq<Scalar>,
        horizon: nat,
        points: Seq<Scalar>,
    ) -> bool {
        points == flat(last_or_zero(history), horizon)
    }

    fn forecast(&self, history: &[Scalar], horizon: usize) -> (points: Vec<Scalar>) {
        repeat(final_value(history), horizon)
    }

    fn name(&self) -> (r: &str)
        ensures
            r@ == "naive"@,
    {
        "naive"
    }
}

/// The bits of the lowest smoothing factor of a level.
pub const SLOWEST: u64 = 0x3F50_624D_D2F1_A9FC;

/// The bits of the default smoothing factor of a moving average.
pub const DEFAULT_EWMA: u64 = 0x3FD3_3333_3333_3333;

/// The bits of the default smoothing factor of a level with a trend.
pub const DEFAULT_ALPHA: u64 = 0x3FD9_9999_9999_999A;

/// The bits of the default smoothing factor of a trend.
pub const DEFAULT_BETA: u64 = 0x3FB9_9999_9999_999A;

/// The smoothing factor of a level, between a thousandth and one.
pub open spec fn level_factor(alpha: Scalar) -> Scalar {
    crate::scalar::clamped(alpha, Scalar { bits: SLOWEST }, Scalar { bits: ONE })
}

/// The smoothing factor of a trend, between zero and one.
pub open spec fn trend_factor(beta: Scalar) -> Scalar {
    crate::scalar::clamped(beta, Scalar { bits: 0 }, Scalar { bits: ONE })
}

fn confined_level(alpha: Scalar) -> (r: Scalar)
    ensures
        r == level_factor(alpha),
{
    proof {
        crate::scalar::lemma_place_orders(Scalar { bits: SLOWEST }, Scalar { bits: ONE });
    }
    alpha.clamp(Scalar::from_bits(SLOWEST), Scalar::from_bits(ONE))
}

fn confined_trend(beta: Scalar) -> (r: Scalar)
    ensures
        r == trend_factor(beta),
{
    proof {
        crate::scalar::lemma_place_orders(Scalar { bits: 0 }, Scalar { bits: ONE });
    }
    beta.clamp(Scalar::from_bits(0), Scalar::from_bits(ONE))
}

/// Can blending `old` and `new`, `new` with weight `a` and `old` with the rest, come out as `r`?
pub open spec fn blends<A: Arithmetic>(
    ops: &A,
    a: Scalar,
    new: Scalar,
    old: Scalar,
    r: Scalar,
) -> bool {
    exists|p: Scalar, rest: Scalar, q: Scalar|
        {
            &&& #[trigger] crate::arithmetic::multiplies(ops, a, new, p)
            &&& crate::arithmetic::subtracts(ops, Scalar { bits: ONE }, a, rest)
            &&& #[trigger] crate::arithmetic::multiplies(ops, rest, old, q)
            &&& crate::arithmetic::adds(ops, p, q, r)
        }
}

fn blend<A: Arithmetic>(ops: &A, a: Scalar, new: Scalar, old: Scalar) -> (r: Scalar)
    ensures
        blends(ops, a, new, old, r),
{
    let p = ops.times(a, new);
    let rest = ops.minus(Scalar::from_bits(ONE), a);
    let q = ops.times(rest, old);
    let r = ops.plus(p, q);
    proof {
        assert(crate::arithmetic::multiplies(ops, a, new, p));
        assert(crate::arithmetic::subtracts(ops, Scalar { bits: ONE }, a, rest));
        assert(crate::arithmetic::multiplies(ops, rest, old, q));
        assert(crate::arithmetic::adds(ops, p, q, r));
    }
    r
}

/// Can the exponentially weighted level of a series come out as `level`? It starts at the first
/// value.
pub open spec fn is_level<A: Arithmetic>(
    ops: &A,
    alpha: Scalar,
    series: Seq<Scalar>,
    level: Scalar,
) -> bool
    recommends
        series.len() > 0,
    decreases series.len(),
{
    if series.len() <= 1 {
        level == series[0]
    } else {
        exists|before: Scalar|
            is_level(ops, alpha, series.drop_last(), before) && #[trigger] blends(
                ops,
                alpha,
                series.last(),
                before,
                level,
            )
    }
}

/// The exponentially weighted moving average: a level that follows the series, the faster the
/// larger `alpha` is, repeated.
pub struct EwmaForecaster<'a, A: Arithmetic> {
    pub ops: &'a A,
    pub alpha: Scalar,
}

impl<'a, A: Arithmetic> EwmaForecaster<'a, A> {
    /// `alpha` is confined to the interval from a thousandth to one.
    pub fn new(ops: &'a A, alpha: Scalar) -> (r: EwmaForecaster<'a, A>)
        ensures
            r.ops == ops,
            r.alpha == level_factor(alpha),
    {
        EwmaForecaster { ops, alpha: confined_level(alpha) }
    }

    /// The average with the default factor.
    pub fn standard(ops: &'a A) -> (r: EwmaForecaster<'a, A>)
        ensures
            r.ops == ops,
            r.alpha == level_factor(Scalar { bits: DEFAULT_EWMA }),
    {
        EwmaForecaster::new(ops, Scalar::from_bits(DEFAULT_EWMA))
    }
}

impl<'a, A: Arithmetic> Forecaster for EwmaForecaster<'a, A> {
    open spec fn may_forecast(
        &self,
        history: Seq<Scalar>,
        horizon: nat,
        points: Seq<Scalar>,
    ) -> bool {
        if history.len() == 0 {
            points == flat(Scalar { bits: 0 }, horizon)
        } else {
            exists|level: Scalar| #[trigger]
                is_level(self.ops, self.alpha, history, level) && points == flat(level, horizon)
        }
    }

    fn forecast(&self, history: &[Scalar], horizon: usize) -> (points: Vec<Scalar>) {
        if history.len() == 0 {
            return repeat(Scalar::from_bits(0), horizon);
        }
        let mut level = history[0];
        let mut i: usize = 1;
        while i < history.len()
            invariant
                1 <= i <= history@.len(),
                is_level(self.ops, self.alpha, history@.take(i as int), level),
            decreases history@.len() - i,
        {
            let ghost before = level;
            level = blend(self.ops, self.alpha, history[i], level);
            proof {
                assert(history@.take(i + 1).drop_last() == history@.take(i as int));
                assert(blends(
                    self.ops,
                    self.alpha,
                    history@.take(i + 1).last(),
                    before,
                    level,
                ));
            }
            i += 1;
        }
        assert(history@.take(i as int) == history@);
        repeat(level, horizon)
    }

    fn name(&self) -> (r: &str)
        ensures
            r@ == "ewma"@,
    {
        "ewma"
    }
}

/// Can one step of double smoothing lead from `level` and `trend`, on seeing `x`, to the new
/// ones? The level is blended from `x` and where the trend led; the trend from the level's move
/// and the old trend.
pub open spec fn smooths<A: Arithmetic>(
    ops: &A,
    alpha: Scalar,
    beta: Scalar,
    level: Scalar,
    trend: Scalar,
    x: Scalar,
    new_level: Scalar,
    new_trend: Scalar,
) -> bool {
    exists|led: Scalar, rise: Scalar|
        {
            &&& #[trigger] crate::arithmetic::adds(ops, level, trend, led)
            &&& blends(ops, alpha, x, led, new_level)
            &&& #[trigger] crate::arithmetic::subtracts(ops, new_level, level, rise)
            &&& blends(ops, beta, rise, trend, new_trend)
        }
}

/// Can double smoothing, begun at `first` with slope `slope`, come to this level and trend after
/// `rest`?
pub open spec fn is_trend<A: Arithmetic>(
    ops: &A,
    alpha: Scalar,
    beta: Scalar,
    first: Scalar,
    slope: Scalar,
    rest: Seq<Scalar>,
    level: Scalar,
    trend: Scalar,
) -> bool
    decreases rest.len(),
{
    if rest.len() == 0 {
        level == first && trend == slope
    } else {
        exists|l: Scalar, t: Scalar|
            is_trend(ops, alpha, beta, first, slope, rest.drop_last(), l, t) && #[trigger] smooths(
                ops,
                alpha,
                beta,
                l,
                t,
                rest.last(),
                level,
                trend,
            )
    }
}

/// Can the point `steps` ahead on the line from `level` along `trend` come out as `r`?
pub open spec fn is_ahead<A: Arithmetic>(
    ops: &A,
    level: Scalar,
    trend: Scalar,
    steps: nat,
    r: Scalar,
) -> bool {
    exists|n: Scalar, climb: Scalar|
        {
            &&& crate::arithmetic::counts(ops, steps, n)
            &&& #[trigger] crate::arithmetic::multiplies(ops, n, trend, climb)
            &&& crate::arithmetic::adds(ops, level, climb, r)
        }
}

/// Double smoothing after Holt: a level and a trend, extrapolated along the trend.
pub struct HoltForecaster<'a, A: Arithmetic> {
    pub ops: &'a A,
    pub alpha: Scalar,
    pub beta: Scalar,
}

impl<'a, A: Arithmetic> HoltForecaster<'a, A> {
    /// `alpha` is confined to the interval from a thousandth to one, `beta` to that from zero to
    /// one.
    pub fn new(ops: &'a A, alpha: Scalar, beta: Scalar) -> (r: HoltForecaster<'a, A>)
        ensures
            r.ops == ops,
            r.alpha == level_factor(alpha),
            r.beta == trend_factor(beta),
    {
        HoltForecaster { ops, alpha: confined_level(alpha), beta: confined_trend(beta) }
    }

    /// Smoothing with the default factors.
    pub fn standard(ops: &'a A) -> (r: HoltForecaster<'a, A>)
        ensures
            r.ops == ops,
            r.alpha == level_factor(Scalar { bits: DEFAULT_ALPHA }),
            r.beta == trend_factor(Scalar { bits: DEFAULT_BETA }),
    {
        HoltForecaster::new(
            ops,
            Scalar::from_bits(DEFAULT_ALPHA),
            Scalar::from_bits(DEFAULT_BETA),
        )
    }

    /// Can the points of a line come out as `points`, one step ahead and on?
    pub open spec fn are_ahead(&self, level: Scalar, trend: Scalar, points: Seq<Scalar>) -> bool {
        forall|i: int|
            0 <= i < points.len() ==> is_ahead(
                self.ops,
                level,
                trend,
                (i + 1) as nat,
                #[trigger] points[i],
            )
    }
}

impl<'a, A: Arithmetic> Forecaster for HoltForecaster<'a, A> {
    open spec fn may_forecast(
        &self,
        history: Seq<Scalar>,
        horizon: nat,
        points: Seq<Scalar>,
    ) -> bool {
        if history.len() < 2 {
            points == flat(last_or_zero(history), horizon)
        } else {
            &&& points.len() == horizon
            &&& exists|slope: Scalar, level: Scalar, trend: Scalar|
                {
                    &&& crate::arithmetic::subtracts(self.ops, history[1], history[0], slope)
                    &&& #[trigger] is_trend(
                        self.ops,
                        self.alpha,
                        self.beta,
                        history[0],
                        slope,
                        history.skip(1),
                        level,
                        trend,
                    )
                    &&& self.are_ahead(level, trend, points)
                }
        }
    }

    fn forecast(&self, history: &[Scalar], horizon: usize) -> (points: Vec<Scalar>) {
        let n: usize = history.len();
        if n < 2 {
            return repeat(final_value(history), horizon);
        }
        let ops = self.ops;
        let first = history[0];
        let slope = ops.minus(history[1], first);
        let mut level = first;
        let mut trend = slope;
        let mut i: usize = 1;
        let ghost rest = history@.skip(1);
        assert(rest.take(0) == Seq::<Scalar>::empty());
        while i < n
            invariant
                1 <= i <= n,
                n == history@.len(),
                ops == self.ops,
                rest == history@.skip(1),
                is_trend(
                    self.ops,
                    self.alpha,
                    self.beta,
                    first,
                    slope,
                    rest.take(i - 1),
                    level,
                    trend,
                ),
            decreases n - i,
        {
            let ghost l = level;
            let ghost t = trend;
            let before = level;
            let led = ops.plus(level, trend);
            level = blend(ops, self.alpha, history[i], led);
            let rise = ops.minus(level, before);
            trend = blend(ops, self.beta, rise, trend);
            proof {
                assert(crate::arithmetic::adds(self.ops, l, t, led));
                assert(crate::arithmetic::subtracts(self.ops, level, l, rise));
                assert(rest.take(i as int).drop_last() == rest.take(i - 1));
                assert(rest.take(i as int).last() == history@[i as int]);
                assert(smooths(
                    self.ops,
                    self.alpha,
                    self.beta,
                    l,
                    t,
                    rest.take(i as int).last(),
                    level,
                    trend,
                ));
            }
            i += 1;
        }
        assert(rest.take(n - 1) == rest);
        let mut points: Vec<Scalar> = Vec::new();
        let mut h: usize = 0;
        while h < horizon
            invariant
                h <= horizon,
                ops == self.ops,
                points@.len() == h,
                forall|j: int|
                    0 <= j < h ==> is_ahead(
                        self.ops,
                        level,
                        trend,
                        (j + 1) as nat,
                        #[trigger] points@[j],
                    ),
            decreases horizon - h,
        {
            let steps = ops.whole((h as u64) + 1);
            let climb = ops.times(steps, trend);
            let point = ops.plus(level, climb);
            proof {
                assert(crate::arithmetic::counts(self.ops, (h + 1) as nat, steps));
                assert(crate::arithmetic::multiplies(self.ops, steps, trend, climb));
                assert(crate::arithmetic::adds(self.ops, level, climb, point));
            }
            points.push(point);
            h += 1;
        }
        points
    }

    fn name(&self) -> (r: &str)
        ensures
            r@ == "holt"@,
    {
        "holt"
    }
}

/// Which forecaster an evaluator drives.
#[derive(Debug, Clone, Copy, PartialEq, Eq, Structural)]
pub enum ForecasterKind {
    Naive,
    Ewma,
    Holt,
    TimesFmOnnx,
}

impl ForecasterKind {
    /// The kind that a lower-case keyword names; `Holt` on anything unknown.
    pub open spec fn named(word: Seq<char>) -> ForecasterKind {
        if word == "naive"@ || word == "rw"@ || word == "random_walk"@ {
            ForecasterKind::Naive
        } else if word == "ewma"@ || word == "ewm"@ || word == "ema"@ {
            ForecasterKind::Ewma
        } else if word == "timesfm"@ || word == "timesfm-onnx"@ || word == "onnx"@ {
            ForecasterKind::TimesFmOnnx
        } else {
            ForecasterKind::Holt
        }
    }

    /// The kind's name.
    pub open spec fn label(self) -> Seq<char> {
        match self {
            ForecasterKind::Naive => "naive"@,
            ForecasterKind::Ewma => "ewma"@,
            ForecasterKind::Holt => "holt"@,
            ForecasterKind::TimesFmOnnx => "timesfm-onnx"@,
        }
    }

    /// Reads a kind's name, in any case and with white space around it.
    pub fn from_str(s: &str) -> (r: ForecasterKind)
        ensures
            r == ForecasterKind::named(crate::text::folded(s@)),
            crate::text::is_ascii_text(crate::text::trimmed(s@)) ==> r == ForecasterKind::named(
                crate::text::ascii_folded(s@),
            ),
    {
        let word = fold(s);
        ForecasterKind::from_keyword(word.as_str())
    }

    /// Looks up a keyword in lower case.
    pub fn from_keyword(word: &str) -> (r: ForecasterKind)
        ensures
            r == ForecasterKind::named(word@),
    {
        if same_text(word, "naive") || same_text(word, "rw") || same_text(word, "random_walk") {
            ForecasterKind::Naive
        } else if same_text(word, "ewma") || same_text(word, "ewm") || same_text(word, "ema") {
            ForecasterKind::Ewma
        } else if same_text(word, "timesfm") || same_text(word, "timesfm-onnx") || same_text(
            word,
            "onnx",
        ) {
            ForecasterKind::TimesFmOnnx
        } else {
            ForecasterKind::Holt
        }
    }

    pub fn name(&self) -> (r: &'static str)
        ensures
            r@ == self.label(),
    {
        match self {
            ForecasterKind::Naive => "naive",
            ForecasterKind::Ewma => "ewma",
            ForecasterKind::Holt => "holt",
            ForecasterKind::TimesFmOnnx => "timesfm-onnx",
        }
    }
}

/// One of the forecasters that need no model.
pub enum NativeForecaster<'a, A: Arithmetic> {
    Naive(NaiveForecaster),
    Ewma(EwmaForecaster<'a, A>),
    Holt(HoltForecaster<'a, A>),
}

impl<'a, A: Arithmetic> NativeForecaster<'a, A> {
    /// Is this the forecaster of the given kind and factors? A kind that needs a model falls
    /// back to double smoothing.
    pub open spec fn fits(
        &self,
        ops: &A,
        kind: ForecasterKind,
        alpha: Scalar,
        beta: Scalar,
    ) -> bool {
        match (kind, *self) {
            (ForecasterKind::Naive, NativeForecaster::Naive(_)) => true,
            (ForecasterKind::Ewma, NativeForecaster::Ewma(f)) => {
                &&& f.ops == ops
                &&& f.alpha == level_factor(alpha)
            },
            (ForecasterKind::Holt, NativeForecaster::Holt(f)) => {
                &&& f.ops == ops
                &&& f.alpha == level_factor(alpha)
                &&& f.beta == trend_factor(beta)
            },
            (ForecasterKind::TimesFmOnnx, NativeForecaster::Holt(f)) => {
                &&& f.ops == ops
                &&& f.alpha == level_factor(alpha)
                &&& f.beta == trend_factor(beta)
            },
            _ => false,
        }
    }
}

/// Builds the forecaster of a kind with these factors.
pub fn make_forecaster<'a, A: Arithmetic>(
    ops: &'a A,
    kind: ForecasterKind,
    alpha: Scalar,
    beta: Scalar,
) -> (r: NativeForecaster<'a, A>)
    ensures
        r.fits(ops, kind, alpha, beta),
{
    match kind {
        ForecasterKind::Naive => NativeForecaster::Naive(NaiveForecaster),
        ForecasterKind::Ewma => NativeForecaster::Ewma(EwmaForecaster::new(ops, alpha)),
        ForecasterKind::Holt | ForecasterKind::TimesFmOnnx => NativeForecaster::Holt(
            HoltForecaster::new(ops, alpha, beta),
        ),
    }
}

impl<'a, A: Arithmetic> Forecaster for NativeForecaster<'a, A> {
    open spec fn may_forecast(
        &self,
        history: Seq<Scalar>,
        horizon: nat,
        points: Seq<Scalar>,
    ) -> bool {
        match self {
            NativeForecaster::Naive(f) => f.may_forecast(history, horizon, points),
            NativeForecaster::Ewma(f) => f.may_forecast(history, horizon, points),
            NativeForecaster::Holt(f) => f.may_forecast(history, horizon, points),
        }
    }

    fn forecast(&self, history: &[Scalar], horizon: usize) -> (points: Vec<Scalar>) {
        match self {
            NativeForecaster::Naive(f) => f.forecast(history, horizon),
            NativeForecaster::Ewma(f) => f.forecast(history, horizon),
            NativeForecaster::Holt(f) => f.forecast(history, horizon),
        }
    }

    fn name(&self) -> (r: &str)
        ensures
            r@ == (match self {
                NativeForecaster::Naive(_) => "naive"@,
                NativeForecaster::Ewma(_) => "ewma"@,
                NativeForecaster::Holt(_) => "holt"@,
            }),
    {
        match self {
            NativeForecaster::Naive(f) => f.name(),
            NativeForecaster::Ewma(f) => f.name(),
            NativeForecaster::Holt(f) => f.name(),
        }
    }
}

/// A model that forecasts a fixed number of points from a context of fixed length: whoever can
/// load one.
pub trait Model: Send + Sync {
    /// Runs the model on a context, if that works.
    fn run(&self, context: &Vec<Scalar>) -> Option<Vec<Scalar>>;
}

/// No model at all.
#[derive(Debug, Clone, Copy)]
pub struct NoModel;

impl Model for NoModel {
    fn run(&self, context: &Vec<Scalar>) -> (r: Option<Vec<Scalar>>)
        ensures
            r is None,
    {
        None
    }
}

/// The context of a history: its last `len` values, padded at the front with the first one.
pub open spec fn context_of(history: Seq<Scalar>, len: nat) -> Seq<Scalar> {
    Seq::new(
        len,
        |i: int|
            if history.len() == 0 {
                Scalar { bits: 0 }
            } else if i + history.len() < len {
                history[0]
            } else {
                history[history.len() - len + i]
            },
    )
}

fn build_context(history: &[Scalar], len: usize) -> (context: Vec<Scalar>)
    ensures
        context@ == context_of(history@, len as nat),
{
    let n: usize = history.len();
    let pad: usize = if n < len {
        len - n
    } else {
        0
    };
    let skip: usize = if n < len {
        0
    } else {
        n - len
    };
    let front = if n == 0 {
        Scalar::from_bits(0)
    } else {
        history[0]
    };
    let mut context: Vec<Scalar> = Vec::new();
    let mut i: usize = 0;
    while i < len
        invariant
            i <= len,
            n == history@.len(),
            pad == (if n < len {
                len - n
            } else {
                0
            }),
            skip == (if n < len {
                0
            } else {
                n - len
            }),
            n == 0 ==> front == (Scalar { bits: 0 }),
            n > 0 ==> front == history@[0],
            context@.len() == i,
            forall|j: int| 0 <= j < i ==> #[trigger] context@[j] == context_of(
                history@,
                len as nat,
            )[j],
        decreases len - i,
    {
        if i < pad {
            context.push(front);
        } else {
            context.push(history[skip + (i - pad)]);
        }
        i += 1;
    }
    context
}

/// A series cut or padded with `fill` to length `len`.
pub open spec fn resized(series: Seq<Scalar>, len: nat, fill: Scalar) -> Seq<Scalar> {
    Seq::new(
        len,
        |i: int|
            if i < series.len() {
                series[i]
            } else {
                fill
            },
    )
}

fn resize(series: &[Scalar], len: usize, fill: Scalar) -> (r: Vec<Scalar>)
    ensures
        r@ == resized(series@, len as nat, fill),
{
    let mut r: Vec<Scalar> = Vec::new();
    let mut i: usize = 0;
    while i < len
        invariant
            i <= len,
            r@ == resized(series@, i as nat, fill),
        decreases len - i,
    {
        if i < series.len() {
            r.push(series[i]);
        } else {
            r.push(fill);
        }
        i += 1;
    }
    r
}

/// A forecaster over a model with a fixed context and a fixed horizon. What the model gives is
/// first brought to the model's own horizon, then to the one that is asked for, by cutting or by
/// repeating the last point that it gave. Where it gives nothing, the forecast is the last value
/// of the history, repeated.
pub struct OnnxForecaster<M: Model> {
    pub model: M,
    pub context_len: usize,
    pub horizon: usize,
}

impl<M: Model> OnnxForecaster<M> {
    /// The context and the horizon hold one value at least.
    pub fn new(model: M, context_len: usize, horizon: usize) -> (r: OnnxForecaster<M>)
        ensures
            r.model == model,
            r.context_len == (if context_len == 0 {
                1
            } else {
                context_len
            }),
            r.horizon == (if horizon == 0 {
                1
            } else {
                horizon
            }),
    {
        OnnxForecaster {
            model,
            context_len: if context_len == 0 {
                1
            } else {
                context_len
            },
            horizon: if horizon == 0 {
                1
            } else {
                horizon
            },
        }
    }
}

impl<M: Model> Forecaster for OnnxForecaster<M> {
    open spec fn may_forecast(
        &self,
        history: Seq<Scalar>,
        horizon: nat,
        points: Seq<Scalar>,
    ) -> bool {
        exists|context: Vec<Scalar>, out: Option<Vec<Scalar>>|
            {
                &&& context@ == context_of(history, self.context_len as nat)
                &&& #[trigger] call_ensures(M::run, (&self.model, &context), out)
                &&& match out {
                    Some(v) => points == resized(
                        resized(v@, self.horizon as nat, last_or_zero(v@)),
                        horizon,
                        last_or_zero(v@),
                    ),
                    None => points == flat(last_or_zero(history), horizon),
                }
            }
    }

    fn forecast(&self, history: &[Scalar], horizon: usize) -> (points: Vec<Scalar>) {
        let context = build_context(history, self.context_len);
        let out = self.model.run(&context);
        assert(call_ensures(M::run, (&self.model, &context), out));
        match out {
            Some(v) => {
                let last = final_value(v.as_slice());
                let own = resize(v.as_slice(), self.horizon, last);
                resize(own.as_slice(), horizon, last)
            },
            None => repeat(final_value(history), horizon),
        }
    }

    fn name(&self) -> (r: &str)
        ensures
            r@ == "timesfm-onnx"@,
    {
        "timesfm-onnx"
    }
}

/// A model's forecaster that is shared between threads.
pub struct ArcForecaster<M: Model>(pub Arc<OnnxForecaster<M>>);

impl<M: Model> Forecaster for ArcForecaster<M> {
    open spec fn may_forecast(
        &self,
        history: Seq<Scalar>,
        horizon: nat,
        points: Seq<Scalar>,
    ) -> bool {
        self.0.may_forecast(history, horizon, points)
    }

    fn forecast(&self, history: &[Scalar], horizon: usize) -> (points: Vec<Scalar>) {
        self.0.forecast(history, horizon)
    }

    fn name(&self) -> (r: &str)
        ensures
            r@ == "timesfm-onnx-arc"@,
    {
        "timesfm-onnx-arc"
    }
}

/// How an artifact is laid out: the knobs of the strategy first, then the two factors of the
/// forecaster.
#[derive(Debug, Clone, Copy)]
pub struct ForecasterSpec {
    /// The number of strategy knobs.
    pub n_strategy: usize,
    pub kind: ForecasterKind,
}

impl Default for ForecasterSpec {
    fn default() -> (r: ForecasterSpec)
        ensures
            r.n_strategy == 2,
            r.kind == ForecasterKind::Holt,
    {
        ForecasterSpec { n_strategy: 2, kind: ForecasterKind::Holt }
    }
}

impl ForecasterSpec {
    /// A strategy has one knob at least.
    pub fn new(n_strategy: usize, kind: ForecasterKind) -> (r: ForecasterSpec)
        ensures
            r.n_strategy == (if n_strategy == 0 {
                1
            } else {
                n_strategy
            }),
            r.kind == kind,
    {
        ForecasterSpec {
            n_strategy: if n_strategy == 0 {
                1
            } else {
                n_strategy
            },
            kind,
        }
    }

    /// The strategy's knobs: as many of the first ones as there are.
    pub open spec fn strategy_part(&self, artifact: Seq<Scalar>) -> Seq<Scalar> {
        if self.n_strategy < artifact.len() {
            artifact.take(self.n_strategy as int)
        } else {
            artifact
        }
    }

    /// The forecaster's first factor, or its default.
    pub open spec fn alpha(&self, artifact: Seq<Scalar>) -> Scalar {
        if self.n_strategy < artifact.len() {
            artifact[self.n_strategy as int]
        } else {
            Scalar { bits: DEFAULT_ALPHA }
        }
    }

    /// The forecaster's second factor, or its default.
    pub open spec fn beta(&self, artifact: Seq<Scalar>) -> Scalar {
        if self.n_strategy + 1 < artifact.len() {
            artifact[self.n_strategy + 1]
        } else {
            Scalar { bits: DEFAULT_BETA }
        }
    }

    /// The strategy's knobs of an artifact.
    pub fn strategy_params<'a>(&self, artifact: &'a Artifact) -> (r: &'a [Scalar])
        ensures
            r@ == self.strategy_part(artifact@),
    {
        let k: usize = if self.n_strategy < artifact.len() {
            self.n_strategy
        } else {
            artifact.len()
        };
        let r = vstd::slice::slice_subrange(artifact.as_slice(), 0, k);
        assert(r@ == self.strategy_part(artifact@));
        r
    }

    /// The forecaster's factors of an artifact.
    pub fn forecaster_knobs(&self, artifact: &Artifact) -> (r: (Scalar, Scalar))
        ensures
            r.0 == self.alpha(artifact@),
            r.1 == self.beta(artifact@),
    {
        let alpha = if self.n_strategy < artifact.len() {
            artifact[self.n_strategy]
        } else {
            Scalar::from_bits(DEFAULT_ALPHA)
        };
        let beta = if self.n_strategy < artifact.len() && self.n_strategy + 1 < artifact.len() {
            artifact[self.n_strategy + 1]
        } else {
            Scalar::from_bits(DEFAULT_BETA)
        };
        (alpha, beta)
    }

    /// The forecaster that an artifact specifies.
    pub fn build_forecaster<'a, A: Arithmetic>(&self, ops: &'a A, artifact: &Artifact) -> (r:
        NativeForecaster<'a, A>)
        ensures
            r.fits(ops, self.kind, self.alpha(artifact@), self.beta(artifact@)),
    {
        let (alpha, beta) = self.forecaster_knobs(artifact);
        make_forecaster(ops, self.kind, alpha, beta)
    }
}

/// An artifact is laid out without loss: with the strategy's knobs and the two factors it is
/// whole again.
pub proof fn law_artifact_splits(layout: ForecasterSpec, artifact: Seq<Scalar>)
    requires
        artifact.len() == layout.n_strategy + 2,
    ensures
        artifact == layout.strategy_part(artifact).push(layout.alpha(artifact)).push(
            layout.beta(artifact),
        ),
{
}

/// The directions of a forecast: for prices from point to point, the first from the anchor; for
/// returns from zero.
pub open spec fn headings_of(points: Seq<Scalar>, anchor: Scalar, prices: bool) -> Seq<Heading> {
    Seq::new(
        points.len(),
        |i: int|
            Heading::between(
                if !prices {
                    crate::scalar::zero()
                } else if i == 0 {
                    anchor@
                } else {
                    points[i - 1]@
                },
                points[i]@,
            ),
    )
}

/// The direction of every step of a forecast; `anchor` is the last value before it.
pub fn forecast_direction(points: &[Scalar], anchor: Scalar, are_prices: bool) -> (headings: Vec<
    Heading,
>)
    ensures
        headings@ == headings_of(points@, anchor, are_prices),
{
    let mut prev = if are_prices {
        anchor
    } else {
        Scalar::from_bits(0)
    };
    let mut headings: Vec<Heading> = Vec::new();
    let mut i: usize = 0;
    while i < points.len()
        invariant
            i <= points@.len(),
            prev@ == (if !are_prices {
                crate::scalar::zero()
            } else if i == 0 {
                anchor@
            } else {
                points@[i - 1]@
            }),
            headings@.len() == i,
            forall|j: int| 0 <= j < i ==> #[trigger] headings@[j] == headings_of(
                points@,
                anchor,
                are_prices,
            )[j],
        decreases points@.len() - i,
    {
        headings.push(Heading::of(prev, points[i]));
        if are_prices {
            prev = points[i];
        }
        i += 1;
    }
    headings
}

/// The score of one fold; `origin` is the first step that it is scored on.
#[derive(Debug, Clone, Copy)]
pub struct FoldScore {
    pub origin: usize,
    pub metric_value: Scalar,
}

/// The number of folds of a series of length `len`: origins from `window` on, `step` apart, as
/// long as `horizon` steps follow.
pub open spec fn fold_count(window: int, horizon: int, step: int, len: int) -> int {
    if window + horizon > len {
        0
    } else {
        (len - window - horizon) / step + 1
    }
}

/// The values of some folds, in order.
pub open spec fn values_of(scores: Seq<FoldScore>) -> Seq<Scalar> {
    scores.map_values(|f: FoldScore| f.metric_value)
}

/// All the folds of several series, one series after the other.
pub open spec fn joined(parts: Seq<Vec<FoldScore>>) -> Seq<FoldScore>
    decreases parts.len(),
{
    if parts.len() == 0 {
        Seq::empty()
    } else {
        joined(parts.drop_last()) + parts.last()@
    }
}

/// A frozen walk-forward evaluator. A candidate's artifact holds the strategy's knobs and the
/// forecaster's factors; the series, the windows and the metric are fixed at construction.
pub struct WalkForward<A: Arithmetic, M: Model> {
    ops: A,
    metric: Metric,
    bt: BtMetric,
    series_set: Vec<Vec<Scalar>>,
    are_prices: bool,
    train_len: usize,
    horizon: usize,
    step: usize,
    layout: ForecasterSpec,
    fc_weight: Scalar,
    overfit_penalty: Scalar,
    onnx: Option<Arc<OnnxForecaster<M>>>,
}

impl<A: Arithmetic> WalkForward<A, NoModel> {
    /// Walks over one series.
    pub fn new(
        ops: A,
        bt: BtMetric,
        series: Vec<Scalar>,
        are_prices: bool,
        train_len: usize,
        horizon: usize,
        step: usize,
        layout: ForecasterSpec,
    ) -> (r: WalkForward<A, NoModel>)
        ensures
            r.set_up(ops, bt, seq![series], are_prices, train_len, horizon, step, layout),
    {
        let mut series_set: Vec<Vec<Scalar>> = Vec::new();
        series_set.push(series);
        assert(series_set@ == seq![series]);
        WalkForward::from_ensemble(
            ops,
            bt,
            series_set,
            are_prices,
            train_len,
            horizon,
            step,
            layout,
        )
    }

    /// Walks over every series of an ensemble.
    pub fn from_ensemble(
        ops: A,
        bt: BtMetric,
        series_set: Vec<Vec<Scalar>>,
        are_prices: bool,
        train_len: usize,
        horizon: usize,
        step: usize,
        layout: ForecasterSpec,
    ) -> (r: WalkForward<A, NoModel>)
        ensures
            r.set_up(ops, bt, series_set@, are_prices, train_len, horizon, step, layout),
    {
        WalkForward {
            ops,
            metric: bt.metric(),
            bt,
            series_set,
            are_prices,
            train_len: if train_len < 2 {
                2
            } else {
                train_len
            },
            horizon: if horizon == 0 {
                1
            } else {
                horizon
            },
            step: if step == 0 {
                1
            } else {
                step
            },
            layout,
            fc_weight: Scalar::from_bits(HALF),
            overfit_penalty: Scalar::from_bits(HALF),
            onnx: None,
        }
    }
}

impl<A: Arithmetic, M: Model> WalkForward<A, M> {
    pub closed spec fn arithmetic(&self) -> A {
        self.ops
    }

    pub closed spec fn kernel(&self) -> BtMetric {
        self.bt
    }

    pub closed spec fn series(&self) -> Seq<Vec<Scalar>> {
        self.series_set@
    }

    pub closed spec fn prices(&self) -> bool {
        self.are_prices
    }

    /// The length of the window that the forecaster sees.
    pub closed spec fn window(&self) -> int {
        self.train_len as int
    }

    /// The number of steps that a fold is scored on.
    pub closed spec fn reach(&self) -> int {
        self.horizon as int
    }

    /// The distance between origins.
    pub closed spec fn stride(&self) -> int {
        self.step as int
    }

    pub closed spec fn artifact_layout(&self) -> ForecasterSpec {
        self.layout
    }

    /// The weight of the forecast in the strategy's exposure.
    pub closed spec fn weight(&self) -> Scalar {
        self.fc_weight
    }

    /// The weight of the disagreement between even and odd folds.
    pub closed spec fn penalty(&self) -> Scalar {
        self.overfit_penalty
    }

    /// The model that overrides the artifact's forecaster.
    pub closed spec fn model(&self) -> Option<Arc<OnnxForecaster<M>>> {
        self.onnx
    }

    /// The windows and steps hold something, and the penalty is a number that is not negative.
    #[verifier::type_invariant]
    closed spec fn sound(&self) -> bool {
        &&& self.train_len >= 2
        &&& self.horizon >= 1
        &&& self.step >= 1
        &&& crate::scalar::zero().le(self.overfit_penalty@)
    }

    /// Is this the evaluator that these arguments set up? Too short a window, horizon or step is
    /// raised to the shortest that makes sense.
    pub open spec fn set_up(
        &self,
        ops: A,
        bt: BtMetric,
        series_set: Seq<Vec<Scalar>>,
        are_prices: bool,
        train_len: usize,
        horizon: usize,
        step: usize,
        layout: ForecasterSpec,
    ) -> bool {
        &&& self.arithmetic() == ops
        &&& self.kernel() == bt
        &&& self.frozen_metric().name@ == bt.label()
        &&& self.frozen_metric().direction == bt.heading()
        &&& self.series() == series_set
        &&& self.prices() == are_prices
        &&& self.window() == (if train_len < 2 {
            2
        } else {
            train_len as int
        })
        &&& self.reach() == (if horizon == 0 {
            1
        } else {
            horizon as int
        })
        &&& self.stride() == (if step == 0 {
            1
        } else {
            step as int
        })
        &&& self.artifact_layout() == layout
        &&& self.weight() == (Scalar { bits: HALF })
        &&& self.penalty() == (Scalar { bits: HALF })
        &&& self.model() is None
    }

    /// Does `other` agree with this evaluator in everything but the two weights and the model?
    pub open spec fn same_folds<N: Model>(&self, other: &WalkForward<A, N>) -> bool {
        &&& other.arithmetic() == self.arithmetic()
        &&& other.kernel() == self.kernel()
        &&& other.frozen_metric() == self.frozen_metric()
        &&& other.series() == self.series()
        &&& other.prices() == self.prices()
        &&& other.window() == self.window()
        &&& other.reach() == self.reach()
        &&& other.stride() == self.stride()
        &&& other.artifact_layout() == self.artifact_layout()
    }

    /// Sets the weight of the forecast.
    pub fn with_fc_weight(self, w: Scalar) -> (r: WalkForward<A, M>)
        ensures
            self.same_folds(&r),
            r.weight() == w,
            r.penalty() == self.penalty(),
            r.model() == self.model(),
    {
        proof {
            use_type_invariant(&self);
        }
        WalkForward { fc_weight: w, ..self }
    }

    /// Sets the weight of the disagreement between even and odd folds. A negative one, or NaN,
    /// counts as zero.
    pub fn with_overfit_penalty(self, p: Scalar) -> (r: WalkForward<A, M>)
        ensures
            self.same_folds(&r),
            r.weight() == self.weight(),
            r.penalty() == crate::scalar::larger(p, Scalar { bits: 0 }),
            r.model() == self.model(),
    {
        proof {
            use_type_invariant(&self);
        }
        let none = Scalar::from_bits(0);
        assert(none@ == crate::scalar::zero());
        let penalty = p.max(none);
        WalkForward { overfit_penalty: penalty, ..self }
    }

    /// Forecasts with a model from now on, whatever the artifact says.
    pub fn with_onnx<N: Model>(self, onnx: OnnxForecaster<N>) -> (r: WalkForward<A, N>)
        ensures
            self.same_folds(&r),
            r.weight() == self.weight(),
            r.penalty() == self.penalty(),
            r.model() == Some(Arc::new(onnx)),
    {
        proof {
            use_type_invariant(&self);
        }
        WalkForward {
            ops: self.ops,
            metric: self.metric,
            bt: self.bt,
            series_set: self.series_set,
            are_prices: self.are_prices,
            train_len: self.train_len,
            horizon: self.horizon,
            step: self.step,
            layout: self.layout,
            fc_weight: self.fc_weight,
            overfit_penalty: self.overfit_penalty,
            onnx: Some(Arc::new(onnx)),
        }
    }

    /// The origins of the folds of a series of length `t`, in order.
    pub fn fold_origins(&self, t: usize) -> (origins: Vec<usize>)
        ensures
            origins@.len() == fold_count(self.window(), self.reach(), self.stride(), t as int),
            forall|k: int|
                0 <= k < origins@.len() ==> #[trigger] origins@[k] == self.window() + k
                    * self.stride(),
    {
        proof {
            use_type_invariant(self);
        }
        let mut origins: Vec<usize> = Vec::new();
        if self.train_len > t || self.horizon > t - self.train_len {
            return origins;
        }
        let last: usize = t - self.horizon;
        let mut o: usize = self.train_len;
        assert(0 * (self.step as int) == 0) by (nonlinear_arith);
        loop
            invariant_except_break
                o == self.train_len + origins@.len() * self.step,
            invariant
                self.step >= 1,
                self.train_len <= o <= last,
                forall|k: int|
                    0 <= k < origins@.len() ==> #[trigger] origins@[k] == self.train_len + k
                        * self.step,
            ensures
                self.train_len <= o <= last,
                o + self.step > last,
                origins@.len() > 0,
                o == self.train_len + (origins@.len() - 1) * self.step,
                forall|k: int|
                    0 <= k < origins@.len() ==> #[trigger] origins@[k] == self.train_len + k
                        * self.step,
            decreases last - o,
        {
            origins.push(o);
            if self.step > last - o {
                break;
            }
            proof {
                let n = origins@.len() as int;
                let step = self.step as int;
                assert((n - 1) * step + step == n * step) by (nonlinear_arith);
            }
            o += self.step;
        }
        proof {
            let n = origins@.len() as int;
            let step = self.step as int;
            let span = last - self.train_len;
            assert(span / step == n - 1) by (nonlinear_arith)
                requires
                    step >= 1,
                    (n - 1) * step <= span < (n - 1) * step + step,
            ;
        }
        origins
    }

    /// What the forecaster sees of a series at origin `o`.
    pub open spec fn in_sample(&self, series: Seq<Scalar>, o: int) -> Seq<Scalar> {
        series.subrange(o - self.window(), o)
    }

    /// What a fold with origin `o` is scored on.
    pub open spec fn out_of_sample(&self, series: Seq<Scalar>, o: int) -> Seq<Scalar> {
        series.subrange(o, o + self.reach())
    }

    /// The path whose step returns the strategy is scored on: for prices it begins with the last
    /// one that the forecaster saw.
    pub open spec fn realized(&self, series: Seq<Scalar>, o: int) -> Seq<Scalar> {
        if self.prices() {
            seq![series[o - 1]] + self.out_of_sample(series, o)
        } else {
            self.out_of_sample(series, o)
        }
    }

    /// Does a series have the fold with origin `o`?
    pub open spec fn has_fold(&self, series: Seq<Scalar>, o: int) -> bool {
        self.window() <= o && o + self.reach() <= series.len()
    }

    /// Can the fold with origin `o` get the score `r`? One that the series does not have gets
    /// NaN.
    pub open spec fn is_fold_score<F: Forecaster>(
        &self,
        forecaster: &F,
        series: Seq<Scalar>,
        params: Seq<Scalar>,
        o: int,
        r: Scalar,
    ) -> bool {
        if !self.has_fold(series, o) {
            r@ is Nan
        } else {
            exists|points: Seq<Scalar>, market: Seq<Scalar>, overlay: Overlay, earned: Seq<Scalar>|
                {
                    &&& #[trigger] forecaster.may_forecast(
                        self.in_sample(series, o),
                        self.reach() as nat,
                        points,
                    )
                    &&& overlay.headings@ == headings_of(points, series[o - 1], self.prices())
                    &&& overlay.weight == self.weight()
                    &&& crate::strategy::are_changes(
                        &self.arithmetic(),
                        self.realized(series, o),
                        self.prices(),
                        market,
                    )
                    &&& #[trigger] crate::strategy::are_strategy_returns(
                        &self.arithmetic(),
                        params,
                        market,
                        Some(overlay),
                        earned,
                    )
                    &&& crate::evaluator::is_metric(
                        &self.arithmetic(),
                        self.kernel(),
                        earned,
                        r,
                    )
                }
        }
    }

    /// Scores one fold of one series: the forecaster is given the window before the origin, and
    /// the strategy under its forecast is scored on the steps after it.
    pub fn score_fold<F: Forecaster>(
        &self,
        series: &[Scalar],
        forecaster: &F,
        params: &[Scalar],
        o: usize,
    ) -> (r: Scalar)
        ensures
            self.is_fold_score(forecaster, series@, params@, o as int, r),
    {
        proof {
            use_type_invariant(self);
        }
        let w: usize = self.train_len;
        if o < w || o > series.len() || self.horizon > series.len() - o {
            return Scalar::from_bits(NAN);
        }
        let in_sample = vstd::slice::slice_subrange(series, o - w, o);
        let out_of_sample = vstd::slice::slice_subrange(series, o, o + self.horizon);
        let points = forecaster.forecast(in_sample, self.horizon);
        let anchor = series[o - 1];
        let headings = forecast_direction(points.as_slice(), anchor, self.are_prices);
        let market = if self.are_prices {
            let mut path: Vec<Scalar> = Vec::new();
            path.push(anchor);
            let mut i: usize = 0;
            while i < out_of_sample.len()
                invariant
                    i <= out_of_sample@.len(),
                    path@ == seq![anchor] + out_of_sample@.take(i as int),
                decreases out_of_sample@.len() - i,
            {
                path.push(out_of_sample[i]);
                assert(out_of_sample@.take(i + 1) == out_of_sample@.take(i as int).push(
                    out_of_sample@[i as int],
                ));
                i += 1;
            }
            assert(out_of_sample@.take(i as int) == out_of_sample@);
            assert(path@ == self.realized(series@, o as int));
            to_returns(&self.ops, path.as_slice(), true)
        } else {
            to_returns(&self.ops, out_of_sample, false)
        };
        let overlay = Some(Overlay { headings, weight: self.fc_weight });
        let earned = strategy_returns(&self.ops, params, market.as_slice(), &overlay);
        let r = bt_metric_of_path(&self.ops, self.bt, earned.as_slice());
        proof {
            assert(forecaster.may_forecast(
                self.in_sample(series@, o as int),
                self.reach() as nat,
                points@,
            ));
            assert(crate::strategy::are_strategy_returns(
                &self.arithmetic(),
                params@,
                market@,
                Some(overlay->0),
                earned@,
            ));
        }
        r
    }
}

/// The place of a fold among those of its series: how many strides its origin lies behind the
/// first one.
pub open spec fn ordinal(window: int, stride: int, origin: int) -> int {
    if origin < window {
        0
    } else {
        (origin - window) / stride
    }
}

/// The values of the folds with an even place, or of those with an odd one, in order.
pub open spec fn half_of(
    scores: Seq<FoldScore>,
    window: int,
    stride: int,
    even: bool,
) -> Seq<Scalar>
    decreases scores.len(),
{
    if scores.len() == 0 {
        Seq::empty()
    } else {
        let before = half_of(scores.drop_last(), window, stride, even);
        if (ordinal(window, stride, scores.last().origin as int) % 2 == 0) == even {
            before.push(scores.last().metric_value)
        } else {
            before
        }
    }
}

impl<A: Arithmetic, M: Model> WalkForward<A, M> {
    /// Can the folds of one series get these scores?
    pub open spec fn are_series_scores<F: Forecaster>(
        &self,
        forecaster: &F,
        series: Seq<Scalar>,
        params: Seq<Scalar>,
        part: Seq<FoldScore>,
    ) -> bool {
        &&& part.len() == fold_count(
            self.window(),
            self.reach(),
            self.stride(),
            series.len() as int,
        )
        &&& forall|k: int|
            0 <= k < part.len() ==> {
                &&& (#[trigger] part[k]).origin == self.window() + k * self.stride()
                &&& self.is_fold_score(
                    forecaster,
                    series,
                    params,
                    part[k].origin as int,
                    part[k].metric_value,
                )
            }
    }

    /// Can all the folds, forecast by `forecaster`, get these scores?
    pub open spec fn are_scores_by<F: Forecaster>(
        &self,
        forecaster: &F,
        params: Seq<Scalar>,
        scores: Seq<FoldScore>,
    ) -> bool {
        exists|parts: Seq<Vec<FoldScore>>|
            {
                &&& parts.len() == self.series().len()
                &&& forall|i: int|
                    0 <= i < parts.len() ==> self.are_series_scores(
                        forecaster,
                        self.series()[i]@,
                        params,
                        (#[trigger] parts[i])@,
                    )
                &&& scores == #[trigger] joined(parts)
            }
    }

    /// Can all the folds of a candidate get these scores? The model forecasts, if there is one,
    /// else the forecaster that the artifact specifies.
    pub open spec fn are_fold_scores(&self, artifact: Seq<Scalar>, scores: Seq<FoldScore>) -> bool {
        let layout = self.artifact_layout();
        let params = layout.strategy_part(artifact);
        match self.model() {
            Some(onnx) => self.are_scores_by(&ArcForecaster(onnx), params, scores),
            None => exists|native: NativeForecaster<A>|
                {
                    &&& #[trigger] native.fits(
                        &self.arithmetic(),
                        layout.kind,
                        layout.alpha(artifact),
                        layout.beta(artifact),
                    )
                    &&& self.are_scores_by(&native, params, scores)
                },
        }
    }

    fn series_scores<F: Forecaster>(
        &self,
        forecaster: &F,
        series: &Vec<Scalar>,
        params: &[Scalar],
    ) -> (part: Vec<FoldScore>)
        ensures
            self.are_series_scores(forecaster, series@, params@, part@),
    {
        let origins = self.fold_origins(series.len());
        let mut part: Vec<FoldScore> = Vec::new();
        let mut k: usize = 0;
        while k < origins.len()
            invariant
                k <= origins@.len(),
                forall|j: int|
                    0 <= j < origins@.len() ==> #[trigger] origins@[j] == self.window() + j
                        * self.stride(),
                part@.len() == k,
                forall|j: int|
                    0 <= j < k ==> {
                        &&& (#[trigger] part@[j]).origin == origins@[j]
                        &&& self.is_fold_score(
                            forecaster,
                            series@,
                            params@,
                            part@[j].origin as int,
                            part@[j].metric_value,
                        )
                    },
            decreases origins@.len() - k,
        {
            let origin: usize = origins[k];
            let metric_value = self.score_fold(series.as_slice(), forecaster, params, origin);
            part.push(FoldScore { origin, metric_value });
            k += 1;
        }
        part
    }

    fn scores_by<F: Forecaster>(&self, forecaster: &F, params: &[Scalar]) -> (scores: Vec<
        FoldScore,
    >)
        ensures
            self.are_scores_by(forecaster, params@, scores@),
    {
        let walk = |series: &Vec<Scalar>| -> (part: Vec<FoldScore>)
            ensures
                self.are_series_scores(forecaster, series@, params@, part@),
            { self.series_scores(forecaster, series, params) };
        let parts = par_map(self.series_set.as_slice(), walk);
        let mut scores: Vec<FoldScore> = Vec::new();
        let mut i: usize = 0;
        assert(parts@.take(0) == Seq::<Vec<FoldScore>>::empty());
        while i < parts.len()
            invariant
                i <= parts@.len(),
                scores@ == joined(parts@.take(i as int)),
            decreases parts@.len() - i,
        {
            let ghost before = scores@;
            let mut k: usize = 0;
            while k < parts[i].len()
                invariant
                    i < parts@.len(),
                    k <= parts@[i as int]@.len(),
                    scores@ == before + parts@[i as int]@.take(k as int),
                decreases parts@[i as int]@.len() - k,
            {
                let f = parts[i][k];
                scores.push(f);
                assert(parts@[i as int]@.take(k + 1) == parts@[i as int]@.take(k as int).push(f));
                k += 1;
            }
            assert(parts@[i as int]@.take(k as int) == parts@[i as int]@);
            assert(parts@.take(i + 1).drop_last() == parts@.take(i as int));
            i += 1;
        }
        assert(parts@.take(i as int) == parts@);
        scores
    }

    /// The scores of all the folds of a candidate, in parallel over the series.
    pub fn all_fold_scores(&self, artifact: &Artifact) -> (scores: Vec<FoldScore>)
        ensures
            self.are_fold_scores(artifact@, scores@),
    {
        let params = self.layout.strategy_params(artifact);
        match &self.onnx {
            Some(onnx) => {
                let shared = ArcForecaster(onnx.clone());
                self.scores_by(&shared, params)
            },
            None => {
                let native = self.layout.build_forecaster(&self.ops, artifact);
                let scores = self.scores_by(&native, params);
                assert(native.fits(
                    &self.arithmetic(),
                    self.artifact_layout().kind,
                    self.artifact_layout().alpha(artifact@),
                    self.artifact_layout().beta(artifact@),
                ));
                scores
            },
        }
    }

    /// The average of some folds.
    fn mean_finite(&self, scores: &[FoldScore]) -> (r: Scalar)
        ensures
            crate::evaluator::is_average(&self.arithmetic(), values_of(scores@), r),
    {
        let mut values: Vec<Scalar> = Vec::new();
        let mut i: usize = 0;
        while i < scores.len()
            invariant
                i <= scores@.len(),
                values@ == values_of(scores@.take(i as int)),
            decreases scores@.len() - i,
        {
            values.push(scores[i].metric_value);
            assert(scores@.take(i + 1) == scores@.take(i as int).push(scores@[i as int]));
            i += 1;
        }
        assert(scores@.take(i as int) == scores@);
        average(&self.ops, values.as_slice())
    }

    fn half(&self, scores: &[FoldScore], even: bool) -> (values: Vec<Scalar>)
        ensures
            values@ == half_of(scores@, self.window(), self.stride(), even),
    {
        proof {
            use_type_invariant(self);
        }
        let mut values: Vec<Scalar> = Vec::new();
        let mut i: usize = 0;
        assert(scores@.take(0) == Seq::<FoldScore>::empty());
        while i < scores.len()
            invariant
                i <= scores@.len(),
                self.step >= 1,
                values@ == half_of(
                    scores@.take(i as int),
                    self.window(),
                    self.stride(),
                    even,
                ),
            decreases scores@.len() - i,
        {
            let f = scores[i];
            let behind: usize = if f.origin < self.train_len {
                0
            } else {
                f.origin - self.train_len
            };
            let place: usize = behind / self.step;
            proof {
                assert(scores@.take(i + 1).drop_last() == scores@.take(i as int));
                assert(scores@.take(i + 1).last() == f);
                let step = self.step as int;
                assert(0int / step == 0) by (nonlinear_arith)
                    requires
                        step >= 1,
                ;
                assert(place as int == ordinal(self.window(), self.stride(), f.origin as int));
            }
            if (place % 2 == 0) == even {
                values.push(f.metric_value);
            }
            i += 1;
        }
        assert(scores@.take(i as int) == scores@);
        values
    }

    /// The averages of the even and of the odd folds.
    pub fn even_odd_means(&self, scores: &[FoldScore]) -> (r: (Scalar, Scalar))
        ensures
            crate::evaluator::is_average(
                &self.arithmetic(),
                half_of(scores@, self.window(), self.stride(), true),
                r.0,
            ),
            crate::evaluator::is_average(
                &self.arithmetic(),
                half_of(scores@, self.window(), self.stride(), false),
                r.1,
            ),
    {
        let even = self.half(scores, true);
        let odd = self.half(scores, false);
        (average(&self.ops, even.as_slice()), average(&self.ops, odd.as_slice()))
    }

    /// Can demoting `base` for the disagreement between `even` and `odd` come out as `r`? The
    /// weighted gap makes the score worse in the metric's direction.
    pub open spec fn is_demoted(
        &self,
        base: Scalar,
        even: Scalar,
        odd: Scalar,
        r: Scalar,
    ) -> bool {
        exists|gap: Scalar, loss: Scalar|
            {
                &&& #[trigger] crate::arithmetic::subtracts(&self.arithmetic(), even, odd, gap)
                &&& #[trigger] crate::arithmetic::multiplies(
                    &self.arithmetic(),
                    crate::scalar::absolute(gap),
                    self.penalty(),
                    loss,
                )
                &&& match self.frozen_metric().direction {
                    Direction::Maximize => crate::arithmetic::subtracts(
                        &self.arithmetic(),
                        base,
                        loss,
                        r,
                    ),
                    Direction::Minimize => crate::arithmetic::adds(
                        &self.arithmetic(),
                        base,
                        loss,
                        r,
                    ),
                }
            }
    }

    /// Can folds with these scores give the score `r`? It is their average; where there is a
    /// penalty, and both the even and the odd folds have an average, it is demoted.
    pub open spec fn is_guarded(&self, scores: Seq<FoldScore>, r: Scalar) -> bool {
        exists|base: Scalar|
            {
                &&& #[trigger] crate::evaluator::is_average(
                    &self.arithmetic(),
                    values_of(scores),
                    base,
                )
                &&& if !base@.finite() {
                    r@ is Nan
                } else if self.penalty()@.le(crate::scalar::zero()) {
                    r == base
                } else {
                    exists|even: Scalar, odd: Scalar|
                        {
                            &&& #[trigger] crate::evaluator::is_average(
                                &self.arithmetic(),
                                half_of(scores, self.window(), self.stride(), true),
                                even,
                            )
                            &&& #[trigger] crate::evaluator::is_average(
                                &self.arithmetic(),
                                half_of(scores, self.window(), self.stride(), false),
                                odd,
                            )
                            &&& if even@.finite() && odd@.finite() {
                                self.is_demoted(base, even, odd, r)
                            } else {
                                r == base
                            }
                        }
                }
            }
    }

    /// The score of folds with these scores.
    pub fn guarded(&self, scores: &[FoldScore]) -> (r: Scalar)
        ensures
            self.is_guarded(scores@, r),
    {
        let base = self.mean_finite(scores);
        if !base.is_finite() {
            return Scalar::from_bits(NAN);
        }
        let none = Scalar::from_bits(0);
        assert(none@ == crate::scalar::zero());
        if self.overfit_penalty.at_most(none) {
            return base;
        }
        let (even, odd) = self.even_odd_means(scores);
        if !even.is_finite() || !odd.is_finite() {
            return base;
        }
        let gap = self.ops.minus(even, odd);
        let loss = self.ops.times(gap.abs(), self.overfit_penalty);
        let r = match self.metric.direction {
            Direction::Maximize => self.ops.minus(base, loss),
            Direction::Minimize => self.ops.plus(base, loss),
        };
        proof {
            assert(crate::arithmetic::subtracts(&self.arithmetic(), even, odd, gap));
            assert(crate::arithmetic::multiplies(
                &self.arithmetic(),
                crate::scalar::absolute(gap),
                self.penalty(),
                loss,
            ));
            assert(self.is_demoted(base, even, odd, r));
        }
        r
    }

    /// The score of a candidate: strictly out of sample, and with a candidate demoted that does
    /// well in one phase only.
    pub fn walk_forward_score(&self, artifact: &Artifact) -> (r: Scalar)
        ensures
            self.may_score(artifact@, r),
    {
        let scores = self.all_fold_scores(artifact);
        self.guarded(scores.as_slice())
    }

    /// The number of folds of the first `n` series.
    pub open spec fn folds_of(&self, n: nat) -> int
        decreases n,
    {
        if n == 0 {
            0
        } else {
            self.folds_of((n - 1) as nat) + fold_count(
                self.window(),
                self.reach(),
                self.stride(),
                self.series()[n - 1]@.len() as int,
            )
        }
    }

    /// The number of folds over the whole ensemble.
    pub fn n_folds(&self) -> (n: usize)
        requires
            self.folds_of(self.series().len()) <= usize::MAX,
        ensures
            n == self.folds_of(self.series().len()),
    {
        proof {
            use_type_invariant(self);
        }
        let mut n: usize = 0;
        let mut i: usize = 0;
        while i < self.series_set.len()
            invariant
                i <= self.series_set@.len(),
                self.series_set@ == self.series(),
                self.folds_of(self.series().len()) <= usize::MAX,
                self.stride() >= 1,
                n == self.folds_of(i as nat),
            decreases self.series_set@.len() - i,
        {
            let origins = self.fold_origins(self.series_set[i].len());
            proof {
                self.lemma_folds_grow((i + 1) as nat, self.series().len());
            }
            n += origins.len();
            i += 1;
        }
        n
    }

    proof fn lemma_folds_grow(&self, n: nat, m: nat)
        requires
            n <= m,
            self.stride() >= 1,
        ensures
            self.folds_of(n) <= self.folds_of(m),
        decreases m,
    {
        if n < m {
            self.lemma_folds_grow(n, (m - 1) as nat);
            let len = self.series()[m - 1]@.len() as int;
            if self.window() + self.reach() <= len {
                let span = len - self.window() - self.reach();
                let stride = self.stride();
                assert(span / stride >= 0) by (nonlinear_arith)
                    requires
                        span >= 0,
                        stride >= 1,
                ;
            }
        }
    }
}

impl<A: Arithmetic, M: Model> Evaluator for WalkForward<A, M> {
    open spec fn may_score(&self, artifact: Seq<Scalar>, value: Scalar) -> bool {
        exists|scores: Seq<FoldScore>| #[trigger]
            self.are_fold_scores(artifact, scores) && self.is_guarded(scores, value)
    }

    closed spec fn frozen_metric(&self) -> Metric {
        self.metric
    }

    fn score(&self, artifact: &Artifact) -> (r: Scalar) {
        self.walk_forward_score(artifact)
    }

    fn metric(&self) -> (r: &Metric) {
        &self.metric
    }

    fn name(&self) -> (r: &str)
        ensures
            r@ == self.kernel().label(),
    {
        self.bt.name()
    }
}

/// The folds of a series roll: the first origin is the window's length, each next one a stride
/// further, every fold has its window before it and its steps after it, and there is no room for
/// one fold more.
pub proof fn law_folds_roll<A: Arithmetic, M: Model>(
    wf: WalkForward<A, M>,
    series: Seq<Scalar>,
    k: int,
)
    requires
        wf.window() >= 0,
        wf.reach() >= 0,
        wf.stride() >= 1,
        k >= 0,
    ensures
        wf.has_fold(series, wf.window() + k * wf.stride()) <==> k < fold_count(
            wf.window(),
            wf.reach(),
            wf.stride(),
            series.len() as int,
        ),
{
    let stride = wf.stride();
    let span = series.len() - wf.window() - wf.reach();
    assert(k * stride >= 0) by (nonlinear_arith)
        requires
            k >= 0,
            stride >= 1,
    ;
    if span >= 0 {
        let q = span / stride;
        assert(k * stride <= span <==> k <= q) by (nonlinear_arith)
            requires
                q == span / stride,
                stride >= 1,
        ;
    }
}

/// Scoring is strictly out of sample: what the forecaster sees at an origin is the same for two
/// series that agree before it, whatever they do from there on, and what the fold is scored on
/// is the same for two series that agree from there on.
pub proof fn law_folds_are_out_of_sample<A: Arithmetic, M: Model>(
    wf: WalkForward<A, M>,
    one: Seq<Scalar>,
    two: Seq<Scalar>,
    o: int,
)
    requires
        wf.window() >= 0,
        wf.reach() >= 0,
        wf.has_fold(one, o),
        wf.has_fold(two, o),
    ensures
        one.take(o) == two.take(o) ==> wf.in_sample(one, o) == wf.in_sample(two, o),
        one.skip(o) == two.skip(o) ==> wf.out_of_sample(one, o) == wf.out_of_sample(two, o),
        wf.in_sample(one, o).len() == wf.window(),
        wf.out_of_sample(one, o).len() == wf.reach(),
{
    if one.take(o) == two.take(o) {
        assert forall|i: int| o - wf.window() <= i < o implies one[i] == two[i] by {
            assert(one.take(o)[i] == two.take(o)[i]);
        }
        assert(wf.in_sample(one, o) =~= wf.in_sample(two, o));
    }
    if one.skip(o) == two.skip(o) {
        assert forall|i: int| o <= i < o + wf.reach() implies one[i] == two[i] by {
            assert(one.skip(o)[i - o] == two.skip(o)[i - o]);
        }
        assert(wf.out_of_sample(one, o) =~= wf.out_of_sample(two, o));
    }
}

/// Every fold counts in exactly one half.
pub proof fn law_halves_share_the_folds(scores: Seq<FoldScore>, window: int, stride: int)
    ensures
        half_of(scores, window, stride, true).len() + half_of(scores, window, stride, false).len()
            == scores.len(),
    decreases scores.len(),
{
    if scores.len() > 0 {
        law_halves_share_the_folds(scores.drop_last(), window, stride);
    }
}

/// Neighbouring folds of a series count in different halves.
pub proof fn law_neighbours_count_in_different_halves(window: int, stride: int, k: int)
    requires
        stride >= 1,
        k >= 0,
    ensures
        ordinal(window, stride, window + k * stride) == k,
        ordinal(window, stride, window + (k + 1) * stride) == k + 1,
{
    assert(k * stride >= 0 && (k + 1) * stride >= 0) by (nonlinear_arith)
        requires
            stride >= 1,
            k >= 0,
    ;
    vstd::arithmetic::div_mod::lemma_div_by_multiple(k, stride);
    vstd::arithmetic::div_mod::lemma_div_by_multiple(k + 1, stride);
}

/// Without a penalty the score is the plain average over the folds, or NaN where that is not
/// finite.
pub proof fn law_without_penalty_the_average<A: Arithmetic, M: Model>(
    wf: WalkForward<A, M>,
    scores: Seq<FoldScore>,
    r: Scalar,
)
    requires
        wf.penalty()@.le(crate::scalar::zero()),
        wf.is_guarded(scores, r),
    ensures
        r@ is Nan || crate::evaluator::is_average(&wf.arithmetic(), values_of(scores), r),
{
}

/// Without a series there is no score: it is NaN for every artifact.
pub proof fn law_empty_ensemble_scores_nan<A: Arithmetic, M: Model>(
    wf: WalkForward<A, M>,
    artifact: Seq<Scalar>,
    value: Scalar,
)
    requires
        wf.series().len() == 0,
        wf.may_score(artifact, value),
    ensures
        value@ is Nan,
{
    let scores = choose|scores: Seq<FoldScore>| #[trigger]
        wf.are_fold_scores(artifact, scores) && wf.is_guarded(scores, value);
    assert(scores.len() == 0);
    reveal(Seq::filter);
    assert(crate::evaluator::finite_part(values_of(scores)).len() == 0);
}

/// The guard never inflates a score: with an arithmetic that respects the order of numbers, the
/// score is no better than the plain average over the folds.
pub proof fn law_guard_never_inflates<A: Arithmetic, M: Model>(
    wf: WalkForward<A, M>,
    scores: Seq<FoldScore>,
    r: Scalar,
)
    requires
        crate::arithmetic::orderly(&wf.arithmetic()),
        wf.penalty()@.finite(),
        crate::scalar::zero().le(wf.penalty()@),
        wf.is_guarded(scores, r),
    ensures
        r@ is Nan || exists|base: Scalar| #[trigger]
            crate::evaluator::is_average(&wf.arithmetic(), values_of(scores), base)
                && !crate::metric::better(wf.frozen_metric().direction, base@, r@),
{
    let ops = wf.arithmetic();
    let base = choose|base: Scalar|
        {
            &&& #[trigger] crate::evaluator::is_average(&ops, values_of(scores), base)
            &&& if !base@.finite() {
                r@ is Nan
            } else if wf.penalty()@.le(crate::scalar::zero()) {
                r == base
            } else {
                exists|even: Scalar, odd: Scalar|
                    {
                        &&& #[trigger] crate::evaluator::is_average(
                            &ops,
                            half_of(scores, wf.window(), wf.stride(), true),
                            even,
                        )
                        &&& #[trigger] crate::evaluator::is_average(
                            &ops,
                            half_of(scores, wf.window(), wf.stride(), false),
                            odd,
                        )
                        &&& if even@.finite() && odd@.finite() {
                            wf.is_demoted(base, even, odd, r)
                        } else {
                            r == base
                        }
                    }
            }
        };
    if base@.finite() && r != base {
        let (even, odd) = choose|even: Scalar, odd: Scalar|
            even@.finite() && odd@.finite() && #[trigger] wf.is_demoted(base, even, odd, r);
        let (gap, loss) = choose|gap: Scalar, loss: Scalar|
            {
                &&& #[trigger] crate::arithmetic::subtracts(&ops, even, odd, gap)
                &&& #[trigger] crate::arithmetic::multiplies(
                    &ops,
                    crate::scalar::absolute(gap),
                    wf.penalty(),
                    loss,
                )
                &&& match wf.frozen_metric().direction {
                    Direction::Maximize => crate::arithmetic::subtracts(&ops, base, loss, r),
                    Direction::Minimize => crate::arithmetic::adds(&ops, base, loss, r),
                }
            };
        crate::scalar::lemma_absolute_is_not_negative(gap);
        assert(crate::scalar::zero().lt(wf.penalty()@));
        assert(crate::scalar::zero().le(loss@));
    }
}

} // verus!
