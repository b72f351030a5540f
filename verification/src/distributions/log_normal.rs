//! The log-normal distribution, given by the mean and the deviation of its
//! samples.
use vstd::prelude::*;
use crate::decimal::{Decimal, Delay};
use crate::distributions::{keep, kept, Distribution, VariateSource};

verus! {

/// Whether a sample of the log-normal distribution can be `delay`: it is
/// what is kept of a draw of the source. Without a positive mean, or with a
/// negative deviation, there is no delay at all, and without deviation
/// every sample is the mean.
pub open spec fn log_normal_may_yield<S: VariateSource>(
    mean_ms: Decimal,
    stddev_ms: Decimal,
    source: &S,
    delay: Delay,
) -> bool {
    if mean_ms.raw <= 0 || stddev_ms.raw < 0 {
        delay.nanos == 0
    } else if stddev_ms.raw == 0 {
        delay.nanos == mean_ms.raw
    } else {
        exists|draw: Option<Decimal>| #[trigger]
            source.yields_log_normal(mean_ms, stddev_ms, draw) && delay.nanos == kept(draw)
    }
}

/// The log-normal distribution whose samples have a given mean and
/// deviation.
#[derive(Debug, Clone, Copy)]
pub struct LogNormalDistribution {
    mean_ms: Decimal,
    stddev_ms: Decimal,
}

impl LogNormalDistribution {
    /// The mean of the samples.
    pub closed spec fn mean(&self) -> Decimal {
        self.mean_ms
    }

    /// The deviation of the samples.
    pub closed spec fn stddev(&self) -> Decimal {
        self.stddev_ms
    }

    /// The distribution whose samples have the given mean and deviation.
    pub fn new(mean_ms: Decimal, stddev_ms: Decimal) -> (dist: LogNormalDistribution)
        ensures
            dist.mean() == mean_ms,
            dist.stddev() == stddev_ms,
    {
        LogNormalDistribution { mean_ms, stddev_ms }
    }
}

impl<S: VariateSource> Distribution<S> for LogNormalDistribution {
    open spec fn may_yield(&self, source: &S, delay: Delay) -> bool {
        log_normal_may_yield(self.mean(), self.stddev(), source, delay)
    }

    fn sample(&self, source: &S) -> (delay: Delay) {
        if self.mean_ms.raw <= 0 || self.stddev_ms.raw < 0 {
            return Delay::zero();
        }
        if self.stddev_ms.raw == 0 {
            return self.mean_ms.as_delay();
        }
        keep(source.log_normal(self.mean_ms, self.stddev_ms))
    }
}

} // verus!
