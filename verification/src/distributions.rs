//! The latency distributions. Each yields one sample at a time, a span of
//! time that is never negative.
use vstd::prelude::*;
use crate::decimal::{Decimal, Delay};

pub mod exponential;
pub mod fixed;
pub mod log_normal;
pub mod normal;
pub mod uniform;

verus! {

/// A source of draws from the continuous distributions, in milliseconds.
/// A draw is `None` where it is no finite number. A source says itself, by
/// its three predicates, which draws it can give; one that says nothing can
/// give any. The distributions keep what they can use of a draw and discard
/// the rest.
pub trait VariateSource {
    /// Whether `draw` can come from the normal distribution with this mean
    /// and deviation.
    open spec fn yields_normal(
        &self,
        mean_ms: Decimal,
        stddev_ms: Decimal,
        draw: Option<Decimal>,
    ) -> bool {
        true
    }

    /// Whether `draw` can come from the exponential distribution with this
    /// rate.
    open spec fn yields_exponential(&self, rate: Decimal, draw: Option<Decimal>) -> bool {
        true
    }

    /// Whether `draw` can come from the log-normal distribution whose
    /// samples have this mean and deviation.
    open spec fn yields_log_normal(
        &self,
        mean_ms: Decimal,
        stddev_ms: Decimal,
        draw: Option<Decimal>,
    ) -> bool {
        true
    }

    /// A draw from the normal distribution with this mean and deviation.
    fn normal(&self, mean_ms: Decimal, stddev_ms: Decimal) -> (draw: Option<Decimal>)
        ensures
            self.yields_normal(mean_ms, stddev_ms, draw),
    ;

    /// A draw from the exponential distribution with this positive rate.
    fn exponential(&self, rate: Decimal) -> (draw: Option<Decimal>)
        requires
            rate.raw > 0,
        ensures
            self.yields_exponential(rate, draw),
    ;

    /// A draw from the log-normal distribution whose samples have this
    /// positive mean and deviation.
    fn log_normal(&self, mean_ms: Decimal, stddev_ms: Decimal) -> (draw: Option<Decimal>)
        requires
            mean_ms.raw > 0,
            stddev_ms.raw > 0,
        ensures
            self.yields_log_normal(mean_ms, stddev_ms, draw),
    ;
}

/// The source without chance: every draw is the mean of its distribution.
#[derive(Debug, Clone, Copy)]
pub struct MeanSource;

/// The mean of the exponential distribution with a positive rate: one
/// divided by the rate, rounded down to the raw unit and kept in range.
pub open spec fn exponential_mean(rate: int) -> int {
    let mean = 1_000_000_000_000int / rate;
    if mean > i64::MAX {
        i64::MAX as int
    } else {
        mean
    }
}

impl VariateSource for MeanSource {
    open spec fn yields_normal(
        &self,
        mean_ms: Decimal,
        stddev_ms: Decimal,
        draw: Option<Decimal>,
    ) -> bool {
        draw == Some(mean_ms)
    }

    open spec fn yields_exponential(&self, rate: Decimal, draw: Option<Decimal>) -> bool {
        draw is Some && draw->0.raw == exponential_mean(rate.raw as int)
    }

    open spec fn yields_log_normal(
        &self,
        mean_ms: Decimal,
        stddev_ms: Decimal,
        draw: Option<Decimal>,
    ) -> bool {
        draw == Some(mean_ms)
    }

    fn normal(&self, mean_ms: Decimal, stddev_ms: Decimal) -> (draw: Option<Decimal>) {
        Some(mean_ms)
    }

    fn exponential(&self, rate: Decimal) -> (draw: Option<Decimal>) {
        let unit: i128 = 1_000_000_000_000;
        let mean: i128 = unit / (rate.raw as i128);
        if mean > i64::MAX as i128 {
            Some(Decimal { raw: i64::MAX })
        } else {
            Some(Decimal { raw: mean as i64 })
        }
    }

    fn log_normal(&self, mean_ms: Decimal, stddev_ms: Decimal) -> (draw: Option<Decimal>) {
        Some(mean_ms)
    }
}

/// What is kept of a draw: its value where that is a number and not
/// negative, and nothing otherwise.
pub open spec fn kept(draw: Option<Decimal>) -> int {
    match draw {
        Some(value) => if value.raw < 0 {
            0
        } else {
            value.raw as int
        },
        None => 0,
    }
}

/// The span of time that a draw in milliseconds stands for.
pub fn keep(draw: Option<Decimal>) -> (delay: Delay)
    ensures
        delay.nanos == kept(draw),
{
    match draw {
        Some(value) => value.as_delay(),
        None => Delay::zero(),
    }
}

/// A latency distribution.
pub trait Distribution<S: VariateSource> {
    /// Whether a sample of this distribution can be `delay` where the
    /// draws come from `source`.
    spec fn may_yield(&self, source: &S, delay: Delay) -> bool;

    /// One sample. Where the distribution is continuous, the draw comes
    /// from `source`.
    fn sample(&self, source: &S) -> (delay: Delay)
        ensures
            self.may_yield(source, delay),
    ;
}

} // verus!
