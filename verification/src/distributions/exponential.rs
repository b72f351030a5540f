//! The exponential distribution.
use vstd::prelude::*;
use crate::decimal::{Decimal, Delay};
use crate::distributions::{keep, kept, Distribution, VariateSource};

verus! {

/// Whether a sample of the exponential distribution can be `delay`: it is
/// what is kept of a draw of the source; without a positive rate it is no
/// delay at all.
pub open spec fn exponential_may_yield<S: VariateSource>(rate: Decimal, source: &S, delay: Delay)
    -> bool {
    if rate.raw <= 0 {
        delay.nanos == 0
    } else {
        exists|draw: Option<Decimal>| #[trigger]
            source.yields_exponential(rate, draw) && delay.nanos == kept(draw)
    }
}

/// The exponential distribution with a rate per millisecond.
#[derive(Debug, Clone, Copy)]
pub struct ExponentialDistribution {
    rate: Decimal,
}

impl ExponentialDistribution {
    /// The rate of the distribution.
    pub closed spec fn rate(&self) -> Decimal {
        self.rate
    }

    /// The distribution with the given rate.
    pub fn new(rate: Decimal) -> (dist: ExponentialDistribution)
        ensures
            dist.rate() == rate,
    {
        ExponentialDistribution { rate }
    }
}

impl<S: VariateSource> Distribution<S> for ExponentialDistribution {
    open spec fn may_yield(&self, source: &S, delay: Delay) -> bool {
        exponential_may_yield(self.rate(), source, delay)
    }

    fn sample(&self, source: &S) -> (delay: Delay) {
        if self.rate.raw <= 0 {
            return Delay::zero();
        }
        keep(source.exponential(self.rate))
    }
}

} // verus!
