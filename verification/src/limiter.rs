//! The token bucket that admits or rejects the requests of one endpoint.
//!
//! Tokens are counted in units of one part in ten to the fifteenth, the
//! product of the raw unit of a rate and a nanosecond, so that refilling is
//! exact.
use vstd::prelude::*;
use crate::decimal::{at_least_zero, Decimal};

verus! {

/// One token, in the units in which a bucket counts.
pub const TOKEN: u128 = 1_000_000_000_000_000;

/// The units of a bucket in one raw unit of a decimal count of tokens.
pub const UNITS_PER_RAW: u128 = 1_000_000_000;

/// What a bucket holds, as plain numbers: the most and the current count
/// of tokens in units, the units gained in a nanosecond, and the reading of
/// the clock at the last refill.
pub struct BucketState {
    pub capacity: nat,
    pub tokens: nat,
    pub refill_rate: nat,
    pub last_refill: nat,
}

/// A fractional token bucket. It starts full.
#[derive(Debug, Clone, Copy)]
pub struct TokenBucket {
    capacity: u128,
    tokens: u128,
    refill_rate: u64,
    last_refill: u64,
}

/// Whether a state is one that a bucket can be in: it holds no more than
/// its capacity, and capacity and rate come from decimals.
pub open spec fn bucket_sound(state: BucketState) -> bool {
    &&& state.tokens <= state.capacity
    &&& state.capacity <= i64::MAX * UNITS_PER_RAW
    &&& state.refill_rate <= i64::MAX
    &&& state.last_refill <= u64::MAX
}

/// The state of a new bucket: full, with the burst as capacity, or the
/// rate where no burst is given; negative numbers count as zero.
pub open spec fn new_bucket(requests_per_second: Decimal, burst: Option<Decimal>, now: u64)
    -> BucketState {
    let capacity = at_least_zero(
        match burst {
            Some(burst) => burst.raw as int,
            None => requests_per_second.raw as int,
        },
    ) * UNITS_PER_RAW;
    BucketState {
        capacity: capacity as nat,
        tokens: capacity as nat,
        refill_rate: at_least_zero(requests_per_second.raw as int) as nat,
        last_refill: now as nat,
    }
}

/// The time that has passed between the last refill and `now`; none where
/// the clock has not moved on.
pub open spec fn time_passed(state: BucketState, now: nat) -> nat {
    if now > state.last_refill {
        (now - state.last_refill) as nat
    } else {
        0
    }
}

/// The tokens of a bucket once it is refilled at time `now`: what it held
/// and what it gained since the last refill, up to its capacity.
#[verifier::opaque]
pub open spec fn refilled(state: BucketState, now: nat) -> nat {
    let gained = state.tokens + time_passed(state, now) * state.refill_rate;
    if gained > state.capacity {
        state.capacity
    } else {
        gained
    }
}

/// Whether a request at time `now` is admitted: after the refill there is
/// a whole token.
pub open spec fn admits(state: BucketState, now: nat) -> bool {
    refilled(state, now) >= TOKEN
}

/// The state of a bucket after a request at time `now`: refilled, and one
/// token short where the request was admitted.
pub open spec fn after_request(state: BucketState, now: nat) -> BucketState {
    BucketState {
        capacity: state.capacity,
        tokens: if admits(state, now) {
            (refilled(state, now) - TOKEN) as nat
        } else {
            refilled(state, now)
        },
        refill_rate: state.refill_rate,
        last_refill: now,
    }
}

impl View for TokenBucket {
    type V = BucketState;

    closed spec fn view(&self) -> BucketState {
        BucketState {
            capacity: self.capacity as nat,
            tokens: self.tokens as nat,
            refill_rate: self.refill_rate as nat,
            last_refill: self.last_refill as nat,
        }
    }
}

impl TokenBucket {
    #[verifier::type_invariant]
    spec fn sound(self) -> bool {
        bucket_sound(self@)
    }

    /// A full bucket for a rate in requests per second and an optional
    /// burst size, made at time `now`.
    pub fn new(requests_per_second: Decimal, burst: Option<Decimal>, now: u64) -> (bucket:
        TokenBucket)
        ensures
            bucket@ == new_bucket(requests_per_second, burst, now),
            bucket_sound(bucket@),
    {
        let size: Decimal = match burst {
            Some(burst) => burst,
            None => requests_per_second,
        };
        let capacity: u128 = (size.max_zero().raw as u128) * UNITS_PER_RAW;
        let refill_rate: u64 = requests_per_second.max_zero().raw as u64;
        TokenBucket { capacity, tokens: capacity, refill_rate, last_refill: now }
    }

    /// Refills the bucket up to time `now` and takes one token if there is
    /// one; says whether the request is admitted.
    pub fn try_take(&mut self, now: u64) -> (admitted: bool)
        ensures
            admitted == admits(old(self)@, now as nat),
            final(self)@ == after_request(old(self)@, now as nat),
            bucket_sound(old(self)@),
            bucket_sound(final(self)@),
    {
        proof {
            use_type_invariant(&*self);
            reveal(refilled);
        }
        let elapsed: u64 = if now > self.last_refill {
            now - self.last_refill
        } else {
            0
        };
        assert(elapsed * self.refill_rate <= 0xffff_ffff_ffff_ffff * 0x7fff_ffff_ffff_ffff)
            by (nonlinear_arith)
            requires
                0 <= elapsed <= 0xffff_ffff_ffff_ffff,
                0 <= self.refill_rate <= 0x7fff_ffff_ffff_ffff,
        ;
        let gained: u128 = self.tokens + (elapsed as u128) * (self.refill_rate as u128);
        let refilled: u128 = if gained > self.capacity {
            self.capacity
        } else {
            gained
        };
        if refilled >= TOKEN {
            self.tokens = refilled - TOKEN;
            self.last_refill = now;
            true
        } else {
            self.tokens = refilled;
            self.last_refill = now;
            false
        }
    }
}

/// How many of the requests at the given times a bucket admits, one after
/// the other.
pub open spec fn admitted_count(state: BucketState, times: Seq<nat>) -> nat
    decreases times.len(),
{
    if times.len() == 0 {
        0
    } else {
        (if admits(state, times[0]) {
            1nat
        } else {
            0nat
        }) + admitted_count(after_request(state, times[0]), times.drop_first())
    }
}

/// Whether the times never go back, and none is before `from`.
pub open spec fn times_ordered(times: Seq<nat>, from: nat) -> bool {
    &&& forall|i: int| 0 <= i < times.len() ==> from <= #[trigger] times[i]
    &&& forall|i: int, j: int| 0 <= i <= j < times.len() ==> times[i] <= times[j]
}

/// A request leaves a sound bucket sound, and what it takes and leaves is
/// no more than what the bucket held and gained.
pub proof fn lemma_request(state: BucketState, now: nat)
    requires
        bucket_sound(state),
        now <= u64::MAX,
    ensures
        bucket_sound(after_request(state, now)),
        (if admits(state, now) {
            TOKEN as int
        } else {
            0
        }) + after_request(state, now).tokens <= state.tokens + time_passed(state, now)
            * state.refill_rate,
{
    reveal(refilled);
    assert(time_passed(state, now) * state.refill_rate >= 0) by (nonlinear_arith)
        requires
            time_passed(state, now) >= 0,
            state.refill_rate >= 0,
    ;
}

/// Over any run of requests at times that never go back, a bucket admits
/// no more than the tokens it held at the start and those it gained until
/// the last request: at most its capacity and its rate times the time that
/// passed.
pub proof fn lemma_admission_bound(state: BucketState, times: Seq<nat>)
    requires
        bucket_sound(state),
        times.len() > 0,
        times_ordered(times, state.last_refill),
        forall|i: int| 0 <= i < times.len() ==> #[trigger] times[i] <= u64::MAX,
    ensures
        admitted_count(state, times) * TOKEN <= state.tokens + state.refill_rate * (times.last()
            - state.last_refill),
        admitted_count(state, times) * TOKEN <= state.capacity + state.refill_rate * (times.last()
            - state.last_refill),
    decreases times.len(),
{
    let first = times[0];
    let next = after_request(state, first);
    let rest = times.drop_first();
    let span = times.last() - state.last_refill;
    lemma_request(state, first);
    let taken: int = if admits(state, first) {
        1
    } else {
        0
    };
    assert(time_passed(state, first) == first - state.last_refill);
    if rest.len() == 0 {
        assert(admitted_count(next, rest) == 0);
        assert(admitted_count(state, times) == taken);
        assert(taken * TOKEN == (if admits(state, first) {
            TOKEN as int
        } else {
            0
        })) by (nonlinear_arith)
            requires
                taken == (if admits(state, first) {
                    1int
                } else {
                    0int
                }),
        ;
        assert(times.last() == first);
        assert((first - state.last_refill) * state.refill_rate == state.refill_rate * span)
            by (nonlinear_arith)
            requires
                span == first - state.last_refill,
        ;
    } else {
        assert(times_ordered(rest, first)) by {
            assert forall|i: int| 0 <= i < rest.len() implies first <= #[trigger] rest[i] by {
                assert(rest[i] == times[i + 1]);
            }
            assert forall|i: int, j: int| 0 <= i <= j < rest.len() implies rest[i] <= rest[j] by {
                assert(rest[i] == times[i + 1]);
                assert(rest[j] == times[j + 1]);
            }
        }
        assert forall|i: int| 0 <= i < rest.len() implies #[trigger] rest[i] <= u64::MAX by {
            assert(rest[i] == times[i + 1]);
        }
        lemma_admission_bound(next, rest);
        assert(rest.last() == times.last());
        let later = admitted_count(next, rest);
        assert(admitted_count(state, times) == taken + later);
        assert((taken + later) * TOKEN == taken * TOKEN + later * TOKEN) by (nonlinear_arith);
        assert(taken * TOKEN == (if admits(state, first) {
            TOKEN as int
        } else {
            0
        })) by (nonlinear_arith)
            requires
                taken == (if admits(state, first) {
                    1int
                } else {
                    0int
                }),
        ;
        assert((first - state.last_refill) * state.refill_rate + state.refill_rate * (
        times.last() - first) == state.refill_rate * span) by (nonlinear_arith)
            requires
                span == times.last() - state.last_refill,
        ;
    }
    assert(state.refill_rate * span >= 0) by (nonlinear_arith)
        requires
            state.refill_rate >= 0,
            span >= 0,
    ;
}

} // verus!
