//! The effective-profile merger: how a base error profile combines with the
//! override of a window or the spike of a burst.
use vstd::prelude::*;
use vstd::arithmetic::div_mod::lemma_div_is_ordered;
use crate::config::schema::{
    CorruptionModel, Endpoint, ErrorMix, ErrorProfile, PayloadCorruption, ProfileModel,
};
use crate::config::validator::copy_text;
use crate::decimal::{at_least_zero, clamp, Decimal, SCALE};
use crate::engine::behavior::{
    active_burst, active_window, burst_factor, first_active_burst, first_active_window,
    window_factor, EndpointBehaviors,
};

verus! {

/// The weights of the base and of the override under a mix, for an
/// intensity limited to the unit interval: the override counts by the
/// intensity; the base counts in full when the two add up, and by what the
/// intensity leaves otherwise.
pub open spec fn mix_weights(mix: ErrorMix, factor: int) -> (int, int) {
    let f = clamp(factor, 0, SCALE as int);
    match mix {
        ErrorMix::Additive => (SCALE as int, f),
        _ => (SCALE - f, f),
    }
}

/// The combined error rate: the weighted sum of the two rates, negative
/// rates counting as zero, rounded down to the raw unit and at most one.
#[verifier::opaque]
pub open spec fn merged_rate(base: int, over: int, base_weight: int, over_weight: int) -> int {
    let sum = (at_least_zero(base) * base_weight + at_least_zero(over) * over_weight) / (
    SCALE as int);
    if sum > SCALE {
        SCALE as int
    } else {
        sum
    }
}

/// The status codes of a base list followed by those of the first `count`
/// codes of an override list that were not yet there.
pub open spec fn merged_codes(base: Seq<u16>, over: Seq<u16>, count: nat) -> Seq<u16>
    decreases count,
{
    if count == 0 {
        base
    } else {
        let listed = merged_codes(base, over, (count - 1) as nat);
        if listed.contains(over[count - 1]) {
            listed
        } else {
            listed.push(over[count - 1])
        }
    }
}

/// Whether the override outweighs one half.
pub open spec fn override_leads(over_weight: int) -> bool {
    2 * over_weight > SCALE
}

/// The profile that results from a base profile and an override under a
/// mix at a given intensity. The rate is the weighted sum; the codes are
/// those of the base followed by the new ones of the override; body, place
/// of the error and corruption are those of the side that leads, the
/// corruption falling back to the other side where the leading side has
/// none.
pub open spec fn merged_profile(base: ProfileModel, over: ProfileModel, mix: ErrorMix, factor: int)
    -> ProfileModel {
    let (base_weight, over_weight) = mix_weights(mix, factor);
    let leads = override_leads(over_weight);
    ProfileModel {
        rate: merged_rate(base.rate, over.rate, base_weight, over_weight),
        codes: merged_codes(base.codes, over.codes, over.codes.len()),
        body: if leads {
            over.body
        } else {
            base.body
        },
        error_in_payload: if leads {
            over.error_in_payload
        } else {
            base.error_in_payload
        },
        payload_corruption: if leads {
            if over.payload_corruption is Some {
                over.payload_corruption
            } else {
                base.payload_corruption
            }
        } else {
            if base.payload_corruption is Some {
                base.payload_corruption
            } else {
                over.payload_corruption
            }
        },
    }
}

fn merge_rates(base: Decimal, over: Decimal, base_weight: i64, over_weight: i64) -> (rate: Decimal)
    requires
        0 <= base_weight <= SCALE,
        0 <= over_weight <= SCALE,
    ensures
        rate.raw == merged_rate(
            base.raw as int,
            over.raw as int,
            base_weight as int,
            over_weight as int,
        ),
        0 <= rate.raw <= SCALE,
{
    reveal(merged_rate);
    let b: i128 = base.max_zero().raw as i128;
    let o: i128 = over.max_zero().raw as i128;
    let bw: i128 = base_weight as i128;
    let ow: i128 = over_weight as i128;
    assert(0 <= b * bw <= 0x7fff_ffff_ffff_ffff * 1_000_000) by (nonlinear_arith)
        requires
            0 <= b <= 0x7fff_ffff_ffff_ffff,
            0 <= bw <= 1_000_000,
    ;
    assert(0 <= o * ow <= 0x7fff_ffff_ffff_ffff * 1_000_000) by (nonlinear_arith)
        requires
            0 <= o <= 0x7fff_ffff_ffff_ffff,
            0 <= ow <= 1_000_000,
    ;
    let sum: i128 = (b * bw + o * ow) / (SCALE as i128);
    if sum > SCALE as i128 {
        Decimal { raw: SCALE }
    } else {
        Decimal { raw: sum as i64 }
    }
}

/// A combined error rate is a probability: it lies in the unit interval,
/// whatever the rates it is combined from.
pub proof fn lemma_merged_rate_is_probability(base: int, over: int, mix: ErrorMix, factor: int)
    ensures
        0 <= merged_rate(base, over, mix_weights(mix, factor).0, mix_weights(mix, factor).1)
            <= SCALE,
{
    reveal(merged_rate);
    let (base_weight, over_weight) = mix_weights(mix, factor);
    let b = at_least_zero(base);
    let o = at_least_zero(over);
    assert(b * base_weight >= 0 && o * over_weight >= 0) by (nonlinear_arith)
        requires
            b >= 0,
            o >= 0,
            base_weight >= 0,
            over_weight >= 0,
    ;
    lemma_div_is_ordered(0, b * base_weight + o * over_weight, SCALE as int);
}

fn has_code(codes: &Vec<u16>, code: u16) -> (found: bool)
    ensures
        found == codes@.contains(code),
{
    let mut i: usize = 0;
    while i < codes.len()
        invariant
            i <= codes@.len(),
            forall|j: int| 0 <= j < i ==> codes@[j] != code,
        decreases codes@.len() - i,
    {
        if codes[i] == code {
            return true;
        }
        i += 1;
    }
    false
}

fn merge_codes(base: &Vec<u16>, over: &Vec<u16>) -> (codes: Vec<u16>)
    ensures
        codes@ == merged_codes(base@, over@, over@.len()),
{
    let mut codes: Vec<u16> = Vec::new();
    let mut i: usize = 0;
    while i < base.len()
        invariant
            i <= base@.len(),
            codes@ == base@.subrange(0, i as int),
        decreases base@.len() - i,
    {
        codes.push(base[i]);
        assert(codes@ =~= base@.subrange(0, i + 1));
        i += 1;
    }
    assert(codes@ =~= base@);
    let mut k: usize = 0;
    while k < over.len()
        invariant
            k <= over@.len(),
            codes@ == merged_codes(base@, over@, k as nat),
        decreases over@.len() - k,
    {
        if !has_code(&codes, over[k]) {
            codes.push(over[k]);
        }
        k += 1;
    }
    codes
}

/// A copy of a payload corruption.
pub fn copy_corruption(corruption: &PayloadCorruption) -> (copy: PayloadCorruption)
    ensures
        copy@ == corruption@,
{
    PayloadCorruption {
        rate: corruption.rate,
        mode: corruption.mode,
        truncate_ratio: corruption.truncate_ratio,
        replacement: copy_text(&corruption.replacement),
    }
}

/// The model of an optional payload corruption.
pub open spec fn corruption_model(corruption: Option<PayloadCorruption>) -> Option<
    CorruptionModel,
> {
    match corruption {
        Some(c) => Some(c@),
        None => None,
    }
}

fn copy_first_corruption(first: &Option<PayloadCorruption>, second: &Option<PayloadCorruption>)
    -> (copy: Option<PayloadCorruption>)
    ensures
        corruption_model(copy) == (if first is Some {
            corruption_model(*first)
        } else {
            corruption_model(*second)
        }),
{
    match first {
        Some(c) => Some(copy_corruption(c)),
        None => match second {
            Some(c) => Some(copy_corruption(c)),
            None => None,
        },
    }
}

/// A copy of an error profile.
pub fn copy_profile(profile: &ErrorProfile) -> (copy: ErrorProfile)
    ensures
        copy@ == profile@,
{
    let mut codes: Vec<u16> = Vec::new();
    let mut i: usize = 0;
    while i < profile.codes.len()
        invariant
            i <= profile.codes@.len(),
            codes@ == profile.codes@.subrange(0, i as int),
        decreases profile.codes@.len() - i,
    {
        codes.push(profile.codes[i]);
        assert(codes@ =~= profile.codes@.subrange(0, i + 1));
        i += 1;
    }
    assert(codes@ =~= profile.codes@);
    ErrorProfile {
        rate: profile.rate,
        codes,
        body: profile.body.clone(),
        error_in_payload: profile.error_in_payload,
        payload_corruption: copy_first_corruption(&profile.payload_corruption, &None),
    }
}

/// Combines a base profile with an override under a mix at an intensity.
pub fn merge_error_profiles(
    base: &ErrorProfile,
    override_profile: &ErrorProfile,
    mix: ErrorMix,
    factor: Decimal,
) -> (combined: ErrorProfile)
    ensures
        combined@ == merged_profile(base@, override_profile@, mix, factor.raw as int),
{
    let factor: i64 = factor.clamp_unit().raw;
    let (base_weight, override_weight): (i64, i64) = match mix {
        ErrorMix::Override => (SCALE - factor, factor),
        ErrorMix::Additive => (SCALE, factor),
        ErrorMix::Blend => (SCALE - factor, factor),
    };
    let rate = merge_rates(base.rate, override_profile.rate, base_weight, override_weight);
    let codes = merge_codes(&base.codes, &override_profile.codes);
    let leads: bool = 2 * override_weight > SCALE;
    let body = if leads {
        override_profile.body.clone()
    } else {
        base.body.clone()
    };
    let error_in_payload = if leads {
        override_profile.error_in_payload
    } else {
        base.error_in_payload
    };
    let payload_corruption = if leads {
        copy_first_corruption(&override_profile.payload_corruption, &base.payload_corruption)
    } else {
        copy_first_corruption(&base.payload_corruption, &override_profile.payload_corruption)
    };
    ErrorProfile { rate, codes, body, error_in_payload, payload_corruption }
}

/// The profile of an endpoint at time `elapsed`: its base profile, merged
/// with the override of the active window where it has one, and then with
/// the error spike of the active burst where it has one.
pub open spec fn effective_profile(
    endpoint: &Endpoint,
    behaviors: &EndpointBehaviors,
    elapsed: int,
) -> ProfileModel {
    let base = endpoint.error_profile@;
    let in_window = match first_active_window(behaviors.windows@, elapsed, 0) {
        Some(index) => {
            let window = behaviors.windows@[index];
            match window.error_profile_override {
                Some(over) => merged_profile(
                    base,
                    over@,
                    window.error_mix,
                    window_factor(&*window, elapsed),
                ),
                None => base,
            }
        },
        None => base,
    };
    match first_active_burst(behaviors.bursts@, elapsed, 0) {
        Some(index) => {
            let burst = behaviors.bursts@[index];
            match burst.error_spike {
                Some(spike) => merged_profile(
                    in_window,
                    spike.error_profile@,
                    spike.error_mix,
                    burst_factor(&*burst, elapsed),
                ),
                None => in_window,
            }
        },
        None => in_window,
    }
}

/// The error profile of an endpoint that is in effect at the given time.
pub fn effective_error_profile(
    endpoint: &Endpoint,
    behaviors: &EndpointBehaviors,
    elapsed_ms: Decimal,
) -> (profile: ErrorProfile)
    ensures
        profile@ == effective_profile(endpoint, behaviors, elapsed_ms.raw as int),
{
    let mut profile = copy_profile(&endpoint.error_profile);
    if let Some((index, factor)) = active_window(behaviors, elapsed_ms) {
        let window = &behaviors.windows[index];
        if let Some(override_profile) = window.error_profile_override.as_ref() {
            profile = merge_error_profiles(&profile, override_profile, window.error_mix, factor);
        }
    }
    if let Some((index, factor)) = active_burst(behaviors, elapsed_ms) {
        let burst = &behaviors.bursts[index];
        if let Some(error_spike) = burst.error_spike.as_ref() {
            profile = merge_error_profiles(
                &profile,
                &error_spike.error_profile,
                error_spike.error_mix,
                factor,
            );
        }
    }
    profile
}

} // verus!
