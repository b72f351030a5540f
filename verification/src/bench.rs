//! The rules of the benchmark server: a request counter, and errors that
//! come in a fixed pattern instead of by chance.
use vstd::prelude::*;
use crate::decimal::Decimal;

verus! {

/// The length of the pattern in which the errors of the benchmark come.
pub const PATTERN: u64 = 100;

/// The state of the benchmark server: how many requests it has counted.
#[derive(Debug, Clone, Copy)]
pub struct AppState {
    request_count: u64,
}

/// The count that follows `count`; after the largest count comes zero.
pub open spec fn next_count(count: u64) -> u64 {
    if count == u64::MAX {
        0
    } else {
        (count + 1) as u64
    }
}

impl AppState {
    /// The requests counted so far.
    pub closed spec fn count(&self) -> u64 {
        self.request_count
    }

    /// The state in which no request is counted.
    pub fn new() -> (state: AppState)
        ensures
            state.count() == 0,
    {
        AppState { request_count: 0 }
    }

    /// Counts one more request; gives the count before it.
    pub fn increment_requests(&mut self) -> (before: u64)
        ensures
            before == old(self).count(),
            final(self).count() == next_count(old(self).count()),
    {
        let before: u64 = self.request_count;
        self.request_count = if before == u64::MAX {
            0
        } else {
            before + 1
        };
        before
    }
}

/// How many of a hundred requests in a row fail at an error rate: the
/// rate in whole hundredths, and none where the rate is not positive.
pub open spec fn failures_per_pattern(error_rate: int) -> int {
    if error_rate <= 0 {
        0
    } else {
        error_rate / 10_000
    }
}

/// Whether the request with the given count fails: the first requests of
/// each hundred do, as many as the rate has whole hundredths.
pub open spec fn fails_in_pattern(count: u64, error_rate: int) -> bool {
    (count % PATTERN) < failures_per_pattern(error_rate)
}

/// Whether the benchmark server answers the request with the given count
/// by an error.
pub fn error_due(count: u64, error_rate: Decimal) -> (due: bool)
    ensures
        due == fails_in_pattern(count, error_rate.raw as int),
{
    if error_rate.raw <= 0 {
        return false;
    }
    let threshold: i64 = error_rate.raw / 10_000;
    ((count % PATTERN) as i64) < threshold
}

} // verus!
