//! The scalar metric and the direction-aware keep-or-revert decision.
//!
//! Every run is reduced to one scalar with a fixed direction. A candidate is kept exactly when
//! it strictly improved on the baseline: an equal or worse one is reverted, and a NaN never
//! wins.
use vstd::prelude::*;

use crate::scalar::{Extended, Scalar};
use crate::text::{fold, same_text};

verus! {

/// Optimization direction for a scalar metric.
#[derive(Debug, Clone, Copy, PartialEq, Eq, Structural)]
pub enum Direction {
    /// Lower is better (val_bpb, max_drawdown, validation loss).
    Minimize,
    /// Higher is better (sharpe, total_return, accuracy).
    Maximize,
}

impl Direction {
    /// The direction's name.
    pub open spec fn label(self) -> Seq<char> {
        match self {
            Direction::Minimize => "minimize"@,
            Direction::Maximize => "maximize"@,
        }
    }

    /// The direction that a lower-case keyword names: four words mean up, anything else means
    /// down.
    pub open spec fn named(word: Seq<char>) -> Direction {
        if word == "maximize"@ || word == "max"@ || word == "higher"@ || word == "up"@ {
            Direction::Maximize
        } else {
            Direction::Minimize
        }
    }

    pub fn as_str(&self) -> (r: &'static str)
        ensures
            r@ == self.label(),
    {
        match self {
            Direction::Minimize => "minimize",
            Direction::Maximize => "maximize",
        }
    }

    /// Reads a direction, in any case and with white space around it; `Minimize` on anything
    /// unknown.
    pub fn from_str(s: &str) -> (r: Direction)
        ensures
            r == Direction::named(crate::text::folded(s@)),
            crate::text::is_ascii_text(crate::text::trimmed(s@)) ==> r == Direction::named(
                crate::text::ascii_folded(s@),
            ),
    {
        let word = fold(s);
        Direction::from_keyword(word.as_str())
    }

    /// Looks up a keyword in lower case.
    pub fn from_keyword(word: &str) -> (r: Direction)
        ensures
            r == Direction::named(word@),
    {
        if same_text(word, "maximize") || same_text(word, "max") || same_text(word, "higher")
            || same_text(word, "up") {
            Direction::Maximize
        } else {
            Direction::Minimize
        }
    }
}

/// The verdict on one candidate.
#[derive(Debug, Clone, Copy, PartialEq, Eq, Structural)]
pub enum KeepOrRevert {
    /// Strictly improved: the candidate becomes the new baseline.
    Keep,
    /// Equal or worse: back to where we started.
    Revert,
}

impl KeepOrRevert {
    /// The verdict's name.
    pub open spec fn label(self) -> Seq<char> {
        match self {
            KeepOrRevert::Keep => "keep"@,
            KeepOrRevert::Revert => "revert"@,
        }
    }

    pub fn as_str(&self) -> (r: &'static str)
        ensures
            r@ == self.label(),
    {
        match self {
            KeepOrRevert::Keep => "keep",
            KeepOrRevert::Revert => "revert",
        }
    }

    pub fn is_keep(&self) -> (r: bool)
        ensures
            r == (*self is Keep),
    {
        matches!(self, KeepOrRevert::Keep)
    }
}

/// A named scalar metric with an optimization direction.
#[derive(Debug)]
pub struct Metric {
    pub name: String,
    pub direction: Direction,
}

impl Clone for Metric {
    fn clone(&self) -> (r: Metric)
        ensures
            r == *self,
    {
        Metric { name: self.name.clone(), direction: self.direction }
    }
}

/// Is `new` strictly better than `prev`? A NaN is never better; anything else is better than a
/// NaN.
pub open spec fn better(direction: Direction, prev: Extended, new: Extended) -> bool {
    &&& !(new is Nan)
    &&& prev is Nan || match direction {
        Direction::Minimize => new.lt(prev),
        Direction::Maximize => prev.lt(new),
    }
}

/// Is `a` at least as good as `b`? A NaN is worse than anything, another NaN included.
pub open spec fn good_as(direction: Direction, a: Extended, b: Extended) -> bool {
    &&& !(a is Nan)
    &&& b is Nan || match direction {
        Direction::Minimize => a.le(b),
        Direction::Maximize => b.le(a),
    }
}

/// The verdict on `new` against the baseline `prev`.
pub open spec fn verdict(direction: Direction, prev: Extended, new: Extended) -> KeepOrRevert {
    if better(direction, prev, new) {
        KeepOrRevert::Keep
    } else {
        KeepOrRevert::Revert
    }
}

/// The value that every finite one beats.
pub open spec fn worst_value(direction: Direction) -> Extended {
    match direction {
        Direction::Minimize => Extended::PosInf,
        Direction::Maximize => Extended::NegInf,
    }
}

impl Metric {
    pub fn new(name: &str, direction: Direction) -> (m: Metric)
        ensures
            m.name@ == name@,
            m.direction == direction,
    {
        Metric { name: name.to_owned(), direction }
    }

    /// The canonical metric: validation bits per byte, lower is better.
    pub fn val_bpb() -> (m: Metric)
        ensures
            m.name@ == "val_bpb"@,
            m.direction == Direction::Minimize,
    {
        Metric::new("val_bpb", Direction::Minimize)
    }

    /// The strict improvement gate.
    pub fn improved(&self, prev: Scalar, new: Scalar) -> (r: bool)
        ensures
            r == better(self.direction, prev@, new@),
    {
        if new.is_nan() {
            return false;
        }
        if prev.is_nan() {
            return true;
        }
        match self.direction {
            Direction::Minimize => new.below(prev),
            Direction::Maximize => prev.below(new),
        }
    }

    /// The keep-or-revert decision on (previous baseline, new candidate).
    pub fn decide(&self, prev: Scalar, new: Scalar) -> (r: KeepOrRevert)
        ensures
            r == verdict(self.direction, prev@, new@),
    {
        if self.improved(prev, new) {
            KeepOrRevert::Keep
        } else {
            KeepOrRevert::Revert
        }
    }

    /// Is `a` at least as good as `b`?
    pub fn at_least_as_good(&self, a: Scalar, b: Scalar) -> (r: bool)
        ensures
            r == good_as(self.direction, a@, b@),
    {
        if a.is_nan() {
            return false;
        }
        if b.is_nan() {
            return true;
        }
        match self.direction {
            Direction::Minimize => a.at_most(b),
            Direction::Maximize => b.at_most(a),
        }
    }

    /// The seed baseline where there is no result yet: positive infinity to minimize, negative
    /// infinity to maximize.
    pub fn worst(&self) -> (r: Scalar)
        ensures
            r@ == worst_value(self.direction),
    {
        match self.direction {
            Direction::Minimize => Scalar::from_bits(crate::scalar::EXPONENT),
            Direction::Maximize => Scalar::from_bits(
                crate::scalar::SIGN + crate::scalar::EXPONENT,
            ),
        }
    }
}

/// An equal value is reverted, whatever the direction.
pub proof fn law_equal_is_reverted(direction: Direction, value: Extended)
    requires
        !(value is Nan),
    ensures
        verdict(direction, value, value) is Revert,
{
}

/// A NaN is never kept, whatever the baseline.
pub proof fn law_nan_is_never_kept(direction: Direction, prev: Extended)
    ensures
        verdict(direction, prev, Extended::Nan) is Revert,
{
}

/// Where there is no baseline yet, every finite value is kept.
pub proof fn law_first_finite_value_is_kept(direction: Direction, value: Extended)
    requires
        value.finite(),
    ensures
        verdict(direction, worst_value(direction), value) is Keep,
        verdict(direction, Extended::Nan, value) is Keep,
{
}

/// Improvements add up: what is better than something better is better.
pub proof fn law_better_is_transitive(direction: Direction, a: Extended, b: Extended, c: Extended)
    requires
        better(direction, a, b),
        better(direction, b, c),
    ensures
        better(direction, a, c),
{
}

/// An improvement cannot be undone by another one: what was beaten does not beat.
pub proof fn law_better_is_asymmetric(direction: Direction, a: Extended, b: Extended)
    requires
        better(direction, a, b),
    ensures
        !better(direction, b, a),
{
}

/// Of two values that are not NaN, one is at least as good as the other exactly when the other
/// does not improve on it.
pub proof fn law_good_as_is_not_beaten(direction: Direction, a: Extended, b: Extended)
    requires
        !(a is Nan),
        !(b is Nan),
    ensures
        good_as(direction, a, b) <==> !better(direction, a, b),
        good_as(direction, a, b) || good_as(direction, b, a),
{
}

} // verus!
