//! The distribution that always yields the same delay.
use vstd::prelude::*;
use crate::decimal::{at_least_zero, Decimal, Delay};
use crate::distributions::{Distribution, VariateSource};

verus! {

/// Whether a sample of the fixed distribution of `delay_ms` can be `delay`:
/// it is that delay, or none at all where that is negative.
pub open spec fn fixed_may_yield(delay_ms: Decimal, delay: Delay) -> bool {
    delay.nanos == at_least_zero(delay_ms.raw as int)
}

/// The distribution of one delay.
#[derive(Debug, Clone, Copy)]
pub struct FixedDistribution {
    delay: Delay,
}

impl FixedDistribution {
    /// The delay that every sample has.
    pub closed spec fn delay(&self) -> Delay {
        self.delay
    }

    /// The distribution of a delay in milliseconds; a negative delay is
    /// none at all.
    pub fn new(delay_ms: Decimal) -> (dist: FixedDistribution)
        ensures
            dist.delay().nanos == at_least_zero(delay_ms.raw as int),
    {
        FixedDistribution { delay: delay_ms.as_delay() }
    }
}

impl<S: VariateSource> Distribution<S> for FixedDistribution {
    /// Every sample is the delay of the distribution.
    open spec fn may_yield(&self, source: &S, delay: Delay) -> bool {
        delay == self.delay()
    }

    fn sample(&self, source: &S) -> (delay: Delay) {
        self.delay
    }
}

} // verus!
