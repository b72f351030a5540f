//! Exact fixed-point numbers and non-negative time spans.
use vstd::prelude::*;

verus! {

/// Number of raw units in one whole.
pub const SCALE: i64 = 1_000_000;

/// A signed decimal number with six fractional digits, held as a count of
/// millionths. Every value is finite. A quantity in milliseconds therefore
/// counts nanoseconds in `raw`.
#[derive(Clone, Copy, Debug, PartialEq, Eq, PartialOrd, Ord, Hash, Structural)]
pub struct Decimal {
    pub raw: i64,
}

/// A non-negative span of time in whole nanoseconds.
#[derive(Clone, Copy, Debug, PartialEq, Eq, PartialOrd, Ord, Hash, Structural)]
pub struct Delay {
    pub nanos: u128,
}

/// `value` limited to the interval from `low` to `high`.
pub open spec fn clamp(value: int, low: int, high: int) -> int {
    if value < low {
        low
    } else if value > high {
        high
    } else {
        value
    }
}

/// The larger of `value` and zero.
pub open spec fn at_least_zero(value: int) -> int {
    if value < 0 {
        0
    } else {
        value
    }
}

impl Decimal {
    /// The decimal that stands for `raw` millionths.
    pub fn from_millionths(raw: i64) -> (d: Decimal)
        ensures
            d.raw == raw,
    {
        Decimal { raw }
    }

    /// The decimal that stands for the whole number `n`.
    pub fn from_int(n: i32) -> (d: Decimal)
        ensures
            d.raw == n * SCALE,
    {
        let wide: i64 = n as i64;
        Decimal { raw: wide * SCALE }
    }

    /// The number zero.
    pub fn zero() -> (d: Decimal)
        ensures
            d.raw == 0,
    {
        Decimal { raw: 0 }
    }

    /// The number one.
    pub fn one() -> (d: Decimal)
        ensures
            d.raw == SCALE,
    {
        Decimal { raw: SCALE }
    }

    /// This value limited to the unit interval, zero to one.
    pub fn clamp_unit(self) -> (d: Decimal)
        ensures
            d.raw == clamp(self.raw as int, 0, SCALE as int),
    {
        if self.raw < 0 {
            Decimal { raw: 0 }
        } else if self.raw > SCALE {
            Decimal { raw: SCALE }
        } else {
            self
        }
    }

    /// The larger of this value and zero.
    pub fn max_zero(self) -> (d: Decimal)
        ensures
            d.raw == at_least_zero(self.raw as int),
    {
        if self.raw < 0 {
            Decimal { raw: 0 }
        } else {
            self
        }
    }

    /// A count of milliseconds as a span of time; a negative count is no
    /// time at all.
    pub fn as_delay(self) -> (d: Delay)
        ensures
            d.nanos == at_least_zero(self.raw as int),
    {
        if self.raw < 0 {
            Delay { nanos: 0 }
        } else {
            Delay { nanos: self.raw as u128 }
        }
    }
}

impl Delay {
    /// No time at all.
    pub fn zero() -> (d: Delay)
        ensures
            d.nanos == 0,
    {
        Delay { nanos: 0 }
    }

    /// The span of a count of nanoseconds.
    pub fn from_nanos(nanos: u128) -> (d: Delay)
        ensures
            d.nanos == nanos,
    {
        Delay { nanos }
    }

    /// The span of a count of milliseconds.
    pub fn from_millis(millis: u64) -> (d: Delay)
        ensures
            d.nanos == millis * 1_000_000,
    {
        let wide: u128 = millis as u128;
        Delay { nanos: wide * 1_000_000 }
    }

    /// The span in nanoseconds.
    pub fn as_nanos(&self) -> (n: u128)
        ensures
            n == self.nanos,
    {
        self.nanos
    }

    /// Whether the span is no time at all.
    pub fn is_zero(&self) -> (z: bool)
        ensures
            z == (self.nanos == 0),
    {
        self.nanos == 0
    }
}

} // verus!
