//! The uniform distribution on a half-open interval.
use vstd::prelude::*;
use crate::decimal::{at_least_zero, Decimal, Delay};
use crate::distributions::{Distribution, VariateSource};
use crate::random::random_below;

verus! {

/// Whether a sample of the uniform distribution between `min` and `max`
/// can be `delay`: it lies in the interval, or is zero where a point of
/// the interval is negative; an empty interval yields no delay at all.
pub open spec fn uniform_may_yield(min: int, max: int, delay: Delay) -> bool {
    if min < max {
        exists|value: int| min <= value < max && delay.nanos == #[trigger] at_least_zero(value)
    } else {
        delay.nanos == 0
    }
}

/// The uniform distribution on the interval from a least delay up to,
/// and not including, a greatest one.
#[derive(Debug, Clone, Copy)]
pub struct UniformDistribution {
    min_ms: Decimal,
    max_ms: Decimal,
}

impl UniformDistribution {
    /// The lower end of the interval, which a sample can be.
    pub closed spec fn min(&self) -> int {
        self.min_ms.raw as int
    }

    /// The upper end of the interval, which no sample is.
    pub closed spec fn max(&self) -> int {
        self.max_ms.raw as int
    }

    /// The distribution on the interval between the two delays.
    pub fn new(min_ms: Decimal, max_ms: Decimal) -> (dist: UniformDistribution)
        ensures
            dist.min() == min_ms.raw,
            dist.max() == max_ms.raw,
    {
        UniformDistribution { min_ms, max_ms }
    }

    /// The sample that lies `offset` raw units above the lower end, where
    /// that is inside the interval; what falls below zero is no delay at
    /// all.
    pub fn sample_at(&self, offset: u128) -> (delay: Option<Delay>)
        ensures
            offset < self.max() - self.min() ==> delay is Some && delay->0.nanos == at_least_zero(
                self.min() + offset,
            ),
            offset >= self.max() - self.min() ==> delay is None,
    {
        if self.min_ms.raw >= self.max_ms.raw {
            return None;
        }
        let width: u128 = (self.max_ms.raw as i128 - self.min_ms.raw as i128) as u128;
        if offset >= width {
            return None;
        }
        let value: i128 = self.min_ms.raw as i128 + offset as i128;
        if value < 0 {
            Some(Delay::zero())
        } else {
            Some(Delay::from_nanos(value as u128))
        }
    }
}

impl<S: VariateSource> Distribution<S> for UniformDistribution {
    open spec fn may_yield(&self, source: &S, delay: Delay) -> bool {
        uniform_may_yield(self.min(), self.max(), delay)
    }

    fn sample(&self, source: &S) -> (delay: Delay) {
        if self.min_ms.raw >= self.max_ms.raw {
            return Delay::zero();
        }
        let width: u128 = (self.max_ms.raw as i128 - self.min_ms.raw as i128) as u128;
        let offset: u128 = random_below(width);
        match self.sample_at(offset) {
            Some(delay) => {
                assert(delay.nanos == at_least_zero(self.min() + offset));
                delay
            },
            None => Delay::zero(),
        }
    }
}

} // verus!
