//! What becomes of a response once the latency is served: whether an error
//! fires, which status it has, how the payload is corrupted, and how long
//! the bandwidth cap holds the body back.
use vstd::prelude::*;
use vstd::set_lib::{lemma_int_range, set_int_range};
use vstd::string::*;
use vstd::utf8::encode_utf8;
use crate::config::schema::{
    BandwidthCap, CorruptionMode, CorruptionModel, ErrorProfile, PayloadCorruption, ProfileModel,
};
use crate::config::validator::owned;
use crate::decimal::{clamp, Decimal, Delay, SCALE};
use crate::engine::response::copy_bytes;
use crate::random::{random_below, random_unit};

verus! {

/// The status of an error whose profile names no status code.
pub const FALLBACK_STATUS: u16 = 500;

/// The truncate ratio of a corruption that names none: one half.
pub const DEFAULT_TRUNCATE_RATIO: i64 = 500_000;

/// Whether an event with the given rate happens for a roll from the unit
/// interval: never at rate zero, always at rate one, and otherwise where
/// the roll falls below the rate.
pub open spec fn rate_hit(rate: int, roll: int) -> bool {
    rate > 0 && (rate >= SCALE || roll < rate)
}

/// Of the million rolls of the unit interval, those on which an event of a
/// given rate happens are as many as the rate, limited to the unit
/// interval, has raw units: the event is as likely as its rate says.
pub proof fn lemma_hits_match_rate(rate: int)
    ensures
        Set::new(|roll: int| 0 <= roll < SCALE && rate_hit(rate, roll)).finite(),
        Set::new(|roll: int| 0 <= roll < SCALE && rate_hit(rate, roll)).len() == clamp(
            rate,
            0,
            SCALE as int,
        ),
{
    let hits = Set::new(|roll: int| 0 <= roll < SCALE && rate_hit(rate, roll));
    let bound = clamp(rate, 0, SCALE as int);
    lemma_int_range(0, bound);
    assert(hits =~= set_int_range(0, bound));
}

/// Whether an error fires for a roll from the unit interval.
pub fn error_fires(profile: &ErrorProfile, roll: i64) -> (fires: bool)
    ensures
        fires == rate_hit(profile.rate.raw as int, roll as int),
{
    profile.rate.raw > 0 && (profile.rate.raw >= SCALE || roll < profile.rate.raw)
}

/// Whether an error fires: never at rate zero, always at rate one, and by
/// chance in between.
pub fn should_error(profile: &ErrorProfile) -> (fires: bool)
    ensures
        exists|roll: int| 0 <= roll < SCALE && fires == #[trigger] rate_hit(
            profile.rate.raw as int,
            roll,
        ),
{
    if profile.rate.raw <= 0 {
        assert(!rate_hit(profile.rate.raw as int, 0));
        return false;
    }
    if profile.rate.raw >= SCALE {
        assert(rate_hit(profile.rate.raw as int, 0));
        return true;
    }
    let roll: i64 = random_unit();
    let fires = error_fires(profile, roll);
    assert(fires == rate_hit(profile.rate.raw as int, roll as int));
    fires
}

/// The status of an error for a pick among the codes of the profile, and
/// 500 where the pick names no code, as it does where there are none.
pub open spec fn status_picked(codes: Seq<u16>, pick: int) -> u16 {
    if 0 <= pick < codes.len() {
        codes[pick]
    } else {
        FALLBACK_STATUS
    }
}

/// The status of an error for a pick among the codes of its profile.
pub fn status_at(profile: &ErrorProfile, pick: usize) -> (status: u16)
    ensures
        status == status_picked(profile.codes@, pick as int),
{
    if pick < profile.codes.len() {
        profile.codes[pick]
    } else {
        FALLBACK_STATUS
    }
}

/// One of the status codes of the profile, each as likely as the other,
/// and 500 where it has none.
pub fn pick_error_status(profile: &ErrorProfile) -> (status: u16)
    ensures
        exists|pick: int|
            0 <= pick && (pick < profile.codes@.len() || profile.codes@.len() == 0) && status
                == #[trigger] status_picked(profile.codes@, pick),
{
    if profile.codes.len() == 0 {
        assert(FALLBACK_STATUS == status_picked(profile.codes@, 0));
        return FALLBACK_STATUS;
    }
    let pick: usize = random_below(profile.codes.len() as u128) as usize;
    let status = status_at(profile, pick);
    assert(status == status_picked(profile.codes@, pick as int));
    status
}

/// How many bytes a truncation leaves of a body of `length` bytes: the
/// length times the ratio, limited to the unit interval, rounded down.
#[verifier::opaque]
pub open spec fn truncated_length(length: int, ratio: int) -> int {
    length * clamp(ratio, 0, SCALE as int) / (SCALE as int)
}

fn length_after_truncation(length: usize, ratio: Decimal) -> (kept: usize)
    ensures
        kept == truncated_length(length as int, ratio.raw as int),
        kept <= length,
{
    reveal(truncated_length);
    let share: u128 = ratio.clamp_unit().raw as u128;
    let whole: u128 = length as u128;
    assert(0 <= whole * share <= whole * 1_000_000) by (nonlinear_arith)
        requires
            0 <= share <= 1_000_000,
            0 <= whole,
    ;
    let kept: u128 = (whole * share) / (SCALE as u128);
    assert(kept <= whole) by (nonlinear_arith)
        requires
            kept == (whole * share) / 1_000_000,
            0 <= whole * share <= whole * 1_000_000,
    ;
    kept as usize
}

/// The body that a corruption makes of a body: its first bytes up to the
/// truncated length, or the replacement, which is empty where none is
/// declared.
pub open spec fn corrupted(body: Seq<u8>, corruption: CorruptionModel) -> Seq<u8> {
    match corruption.mode {
        CorruptionMode::Truncate => body.subrange(
            0,
            truncated_length(
                body.len() as int,
                match corruption.truncate_ratio {
                    Some(ratio) => ratio,
                    None => DEFAULT_TRUNCATE_RATIO as int,
                },
            ),
        ),
        CorruptionMode::Replace => match corruption.replacement {
            Some(text) => encode_utf8(text),
            None => Seq::empty(),
        },
    }
}

/// Corrupts a body.
pub fn corrupt(body: &[u8], corruption: &PayloadCorruption) -> (result: Vec<u8>)
    ensures
        result@ == corrupted(body@, corruption@),
{
    match corruption.mode {
        CorruptionMode::Truncate => {
            let ratio: Decimal = match corruption.truncate_ratio {
                Some(ratio) => ratio,
                None => Decimal { raw: DEFAULT_TRUNCATE_RATIO },
            };
            let kept: usize = length_after_truncation(body.len(), ratio);
            let mut result: Vec<u8> = Vec::new();
            let mut i: usize = 0;
            while i < kept
                invariant
                    i <= kept <= body@.len(),
                    result@ == body@.subrange(0, i as int),
                decreases kept - i,
            {
                result.push(body[i]);
                assert(result@ =~= body@.subrange(0, i + 1));
                i += 1;
            }
            result
        },
        CorruptionMode::Replace => match &corruption.replacement {
            Some(text) => copy_bytes(text.as_str().as_bytes()),
            None => Vec::new(),
        },
    }
}

/// The body that leaves the pipeline: the corrupted body where the profile
/// has a corruption and it hits, the body itself otherwise.
pub open spec fn body_sent(body: Seq<u8>, profile: ProfileModel, roll: int) -> Seq<u8> {
    match profile.payload_corruption {
        Some(corruption) => if corruption.rate > 0 && roll < corruption.rate {
            corrupted(body, corruption)
        } else {
            body
        },
        None => body,
    }
}

/// The body that leaves the pipeline for a roll from the unit interval.
pub fn corrupt_at(body: &[u8], profile: &ErrorProfile, roll: i64) -> (result: Vec<u8>)
    ensures
        result@ == body_sent(body@, profile@, roll as int),
{
    match &profile.payload_corruption {
        Some(corruption) => {
            if corruption.rate.raw > 0 && roll < corruption.rate.raw {
                corrupt(body, corruption)
            } else {
                copy_bytes(body)
            }
        },
        None => copy_bytes(body),
    }
}

/// Applies the payload corruption of a profile to a body, with the
/// probability that the corruption declares.
pub fn apply_payload_corruption(body: &[u8], profile: &ErrorProfile) -> (result: Vec<u8>)
    ensures
        exists|roll: int| 0 <= roll < SCALE && result@ == #[trigger] body_sent(
            body@,
            profile@,
            roll,
        ),
{
    let needs_roll = match &profile.payload_corruption {
        Some(corruption) => corruption.rate.raw > 0,
        None => false,
    };
    if !needs_roll {
        let result = corrupt_at(body, profile, 0);
        assert(result@ == body_sent(body@, profile@, 0));
        return result;
    }
    let roll: i64 = random_unit();
    let result = corrupt_at(body, profile, roll);
    assert(result@ == body_sent(body@, profile@, roll as int));
    result
}

/// The time for which a bandwidth cap holds back a body of `length` bytes:
/// the length divided by the bytes per second, in whole nanoseconds; none
/// without a cap or where the cap is not positive.
pub open spec fn pacing_delay(length: int, cap: Option<BandwidthCap>) -> int {
    match cap {
        Some(cap) => if cap.bytes_per_second.raw <= 0 {
            0
        } else {
            length * 1_000_000_000_000_000 / (cap.bytes_per_second.raw as int)
        },
        None => 0,
    }
}

/// The time for which a bandwidth cap holds back a body.
pub fn compute_bandwidth_delay(body: &[u8], cap: Option<&BandwidthCap>) -> (delay: Delay)
    ensures
        delay.nanos == pacing_delay(body@.len() as int, owned(cap)),
{
    let Some(cap) = cap else {
        return Delay::zero();
    };
    if cap.bytes_per_second.raw <= 0 {
        return Delay::zero();
    }
    let bytes: u128 = body.len() as u128;
    let scaled: u128 = bytes * 1_000_000_000_000_000;
    Delay::from_nanos(scaled / (cap.bytes_per_second.raw as u128))
}

} // verus!
