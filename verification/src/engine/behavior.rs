//! The behaviour resolver: which window and which burst are active at a
//! given time since the configuration was loaded, and with what intensity.
//!
//! Times are raw counts: a millisecond holds a million of them.
use vstd::prelude::*;
use vstd::arithmetic::div_mod::{
    lemma_div_is_ordered, lemma_div_multiples_vanish, lemma_fundamental_div_mod, lemma_mod_bound,
};
use vstd::string::*;
use vstd::std_specs::hash::DefaultHasherAdditionalSpecFns;
use vstd::utf8::encode_utf8;
use std::collections::hash_map::DefaultHasher;
use std::hash::Hasher;
use std::sync::Arc;
use crate::config::schema::{
    BehaviorSchedule, BehaviorScope, BehaviorWindow, BurstEvent, BurstFrequency, RampConfig,
    RampCurve, ScheduleMode,
};
use crate::decimal::{at_least_zero, clamp, Decimal, SCALE};
use crate::text::join2;

verus! {

/// A bound on the time from the first occurrence of a rule to any later
/// one: two to the power of ninety-five.
pub const PERIOD_LIMIT: i128 = 39_614_081_257_132_168_796_771_975_168;

/// The number of steps into which the jitter of one occurrence is divided.
pub const JITTER_STEPS: u64 = 10_000;

/// The windows and bursts whose scope matches one endpoint, in the order of
/// their declaration.
#[derive(Debug)]
pub struct EndpointBehaviors {
    pub windows: Vec<Arc<BehaviorWindow>>,
    pub bursts: Vec<Arc<BurstEvent>>,
}

/// The quotient of `a` by a positive `b`, rounded toward zero.
pub open spec fn toward_zero(a: int, b: int) -> int {
    if a >= 0 {
        a / b
    } else {
        -((-a) / b)
    }
}

/// The key that seeds the jitter of a rule: its id where it has one, else
/// a text made from its scope, else `fallback`.
pub open spec fn rule_key(id: Option<String>, scope: &BehaviorScope, fallback: Seq<char>) -> Seq<
    char,
> {
    if id is Some {
        id->0@
    } else if scope.global {
        "global"@
    } else if scope.endpoint_id is Some {
        "endpoint:"@ + scope.endpoint_id->0@
    } else if scope.group_id is Some {
        "group:"@ + scope.group_id->0@
    } else {
        fallback
    }
}

fn key_of(id: &Option<String>, scope: &BehaviorScope, fallback: &str) -> (key: String)
    ensures
        key@ == rule_key(*id, scope, fallback@),
{
    if let Some(id) = id {
        return id.clone();
    }
    if scope.global {
        return "global".to_string();
    }
    if let Some(endpoint_id) = &scope.endpoint_id {
        return join2("endpoint:", endpoint_id.as_str());
    }
    if let Some(group_id) = &scope.group_id {
        return join2("group:", group_id.as_str());
    }
    fallback.to_string()
}

/// The key that seeds the jitter of a window.
pub open spec fn window_key_text(window: &BehaviorWindow) -> Seq<char> {
    rule_key(window.id, &window.scope, "window"@)
}

/// The key that seeds the jitter of a window.
pub fn window_key(window: &BehaviorWindow) -> (key: String)
    ensures
        key@ == window_key_text(window),
{
    key_of(&window.id, &window.scope, "window")
}

/// The key that seeds the jitter of a burst.
pub open spec fn burst_key_text(burst: &BurstEvent) -> Seq<char> {
    rule_key(burst.id, &burst.scope, "burst"@)
}

/// The key that seeds the jitter of a burst.
pub fn burst_key(burst: &BurstEvent) -> (key: String)
    ensures
        key@ == burst_key_text(burst),
{
    key_of(&burst.id, &burst.scope, "burst")
}

/// The four bytes of an occurrence index, lowest first.
pub open spec fn occurrence_bytes(occurrence: u32) -> Seq<u8> {
    seq![
        (occurrence % 256) as u8,
        ((occurrence / 256) % 256) as u8,
        ((occurrence / 65536) % 256) as u8,
        (occurrence / 16777216) as u8,
    ]
}

/// The hash of a key and an occurrence index: that of the key's UTF-8
/// bytes, a closing byte, and the bytes of the index, fed in this order to
/// the standard library's default hasher in its initial state.
pub open spec fn occurrence_hash(key: Seq<char>, occurrence: u32) -> u64 {
    DefaultHasher::spec_finish(seq![encode_utf8(key), seq![0xffu8], occurrence_bytes(occurrence)])
}

/// The hash of a key and an occurrence index.
pub fn hash_occurrence(key: &str, occurrence: u32) -> (hash: u64)
    ensures
        hash == occurrence_hash(key@, occurrence),
{
    let mut hasher = DefaultHasher::new();
    hasher.write(key.as_bytes());
    let mut closing: Vec<u8> = Vec::new();
    closing.push(0xffu8);
    hasher.write(closing.as_slice());
    let mut index: Vec<u8> = Vec::new();
    index.push((occurrence % 256) as u8);
    index.push(((occurrence / 256) % 256) as u8);
    index.push(((occurrence / 65536) % 256) as u8);
    index.push((occurrence / 16777216) as u8);
    hasher.write(index.as_slice());
    proof {
        assert(closing@ =~= seq![0xffu8]);
        assert(index@ =~= occurrence_bytes(occurrence));
        assert(hasher@ =~= seq![
            encode_utf8(key@),
            seq![0xffu8],
            occurrence_bytes(occurrence),
        ]);
    }
    hasher.finish()
}

/// The signed shift of one occurrence of a rule: the hash picks one of ten
/// thousand steps from `-jitter` up to, and not including, `jitter`. The
/// same key and occurrence always give the same shift.
pub open spec fn jitter_offset(key: Seq<char>, occurrence: u32, jitter: int) -> int {
    if jitter <= 0 {
        0
    } else {
        let step = (occurrence_hash(key, occurrence) % JITTER_STEPS) as int;
        toward_zero((2 * step - JITTER_STEPS) * jitter, JITTER_STEPS as int)
    }
}

fn jitter_for_key(key: &str, occurrence: u32, jitter_ms: Decimal) -> (shift: i128)
    ensures
        shift == jitter_offset(key@, occurrence, jitter_ms.raw as int),
        -jitter_ms.raw <= shift <= jitter_ms.raw || jitter_ms.raw <= 0,
{
    if jitter_ms.raw <= 0 {
        return 0;
    }
    let hash: u64 = hash_occurrence(key, occurrence);
    let step: i128 = (hash % JITTER_STEPS) as i128;
    let jitter: i128 = jitter_ms.raw as i128;
    let steps: i128 = JITTER_STEPS as i128;
    if 2 * step >= steps {
        let share: i128 = 2 * step - steps;
        assert(0 <= share * jitter <= 10_000 * jitter) by (nonlinear_arith)
            requires
                0 <= share <= 10_000,
                jitter > 0,
        ;
        let shift: i128 = (share * jitter) / steps;
        assert(0 <= shift <= jitter) by (nonlinear_arith)
            requires
                shift == (share * jitter) / 10_000,
                0 <= share * jitter <= 10_000 * jitter,
        ;
        shift
    } else {
        let share: i128 = steps - 2 * step;
        assert(0 <= share * jitter <= 10_000 * jitter) by (nonlinear_arith)
            requires
                0 <= share <= 10_000,
                jitter > 0,
        ;
        let shift: i128 = (share * jitter) / steps;
        assert(0 <= shift <= jitter) by (nonlinear_arith)
            requires
                shift == (share * jitter) / 10_000,
                0 <= share * jitter <= 10_000 * jitter,
        ;
        assert((2 * step - steps) * jitter == -(share * jitter)) by (nonlinear_arith)
            requires
                share == steps - 2 * step,
        ;
        -shift
    }
}

/// The jitter of occurrence `occurrence` of a window.
pub fn jitter_for_window(window: &BehaviorWindow, occurrence: u32, jitter_ms: Decimal) -> (shift:
    i128)
    ensures
        shift == jitter_offset(window_key_text(window), occurrence, jitter_ms.raw as int),
        -jitter_ms.raw <= shift <= jitter_ms.raw || jitter_ms.raw <= 0,
{
    let key = window_key(window);
    jitter_for_key(key.as_str(), occurrence, jitter_ms)
}

/// The jitter of occurrence `occurrence` of a burst.
pub fn jitter_for_burst(burst: &BurstEvent, occurrence: u32, jitter_ms: Decimal) -> (shift: i128)
    ensures
        shift == jitter_offset(burst_key_text(burst), occurrence, jitter_ms.raw as int),
        -jitter_ms.raw <= shift <= jitter_ms.raw || jitter_ms.raw <= 0,
{
    let key = burst_key(burst);
    jitter_for_key(key.as_str(), occurrence, jitter_ms)
}

/// The raw value of an optional decimal, zero where there is none.
pub open spec fn raw_or_zero(value: Option<Decimal>) -> int {
    match value {
        Some(d) => d.raw as int,
        None => 0,
    }
}

fn value_or_zero(value: Option<Decimal>) -> (d: Decimal)
    ensures
        d.raw == raw_or_zero(value),
{
    match value {
        Some(d) => d,
        None => Decimal { raw: 0 },
    }
}

/// The index of the occurrence that a time falls into: how many whole
/// periods have passed, at most the largest index there is.
#[verifier::opaque]
pub open spec fn occurrence_index(since: int, every: int) -> u32 {
    if since < 0 {
        0u32
    } else if since / every > u32::MAX {
        u32::MAX
    } else {
        (since / every) as u32
    }
}

fn index_of_occurrence(since: i128, every: i64) -> (occurrence: u32)
    requires
        every > 0,
    ensures
        occurrence == occurrence_index(since as int, every as int),
{
    reveal(occurrence_index);
    if since < 0 {
        return 0;
    }
    let whole: i128 = since / (every as i128);
    if whole > u32::MAX as i128 {
        u32::MAX
    } else {
        whole as u32
    }
}

/// The time from the first occurrence to occurrence `occurrence` of a rule
/// with period `every`.
#[verifier::opaque]
pub open spec fn period_start(occurrence: u32, every: int) -> int {
    occurrence * every
}

fn start_of_period(occurrence: u32, every: i64) -> (start: i128)
    requires
        every > 0,
    ensures
        start == period_start(occurrence, every as int),
        0 <= start <= PERIOD_LIMIT,
{
    reveal(period_start);
    assert(0 <= occurrence * every <= 0x1_0000_0000 * 0x8000_0000_0000_0000) by (nonlinear_arith)
        requires
            0 <= occurrence <= 0xffff_ffff,
            0 < every <= 0x7fff_ffff_ffff_ffff,
    ;
    (occurrence as i128) * (every as i128)
}

/// The interval of a fixed schedule: from its start offset for the length
/// of its duration.
pub open spec fn fixed_range(schedule: &BehaviorSchedule) -> (int, int) {
    let start = raw_or_zero(schedule.start_offset_ms);
    (start, start + schedule.duration_ms.raw)
}

/// The interval of the occurrence of a recurring schedule that `elapsed`
/// falls into; none before the first occurrence, after the last one, or
/// where the schedule has no positive period. The occurrence starts at a
/// multiple of the period after the delay, shifted by its jitter, and
/// never before the delay.
pub open spec fn recurring_range(schedule: &BehaviorSchedule, elapsed: int, key: Seq<char>)
    -> Option<(int, int)> {
    let every = raw_or_zero(schedule.every_ms);
    let min_delay = raw_or_zero(schedule.min_delay_ms);
    let occurrence = occurrence_index(elapsed - min_delay, every);
    if every <= 0 || elapsed < min_delay {
        None
    } else if schedule.max_occurrences is Some && occurrence >= schedule.max_occurrences->0 {
        None
    } else {
        let shifted = min_delay + period_start(occurrence, every) + jitter_offset(
            key,
            occurrence,
            raw_or_zero(schedule.jitter_ms),
        );
        let start = at_least_zero(
            if shifted < min_delay {
                min_delay
            } else {
                shifted
            },
        );
        Some((start, start + schedule.duration_ms.raw))
    }
}

/// The interval in which a schedule is or was last due at time `elapsed`,
/// for a rule with the given key.
pub open spec fn schedule_range_at(schedule: &BehaviorSchedule, elapsed: int, key: Seq<char>)
    -> Option<(int, int)> {
    match schedule.mode {
        ScheduleMode::Fixed => Some(fixed_range(schedule)),
        ScheduleMode::Recurring => recurring_range(schedule, elapsed, key),
    }
}

/// The interval in which a window is or was last due at time `elapsed`.
pub open spec fn window_range(window: &BehaviorWindow, elapsed: int) -> Option<(int, int)> {
    schedule_range_at(&window.schedule, elapsed, window_key_text(window))
}

/// The interval in which a schedule is or was last due at the given time;
/// the window lends its key to the jitter.
pub fn schedule_range(schedule: &BehaviorSchedule, elapsed_ms: Decimal, window: &BehaviorWindow)
    -> (range: Option<(i128, i128)>)
    ensures
        match range {
            Some((start, end)) => schedule_range_at(
                schedule,
                elapsed_ms.raw as int,
                window_key_text(window),
            ) == Some((start as int, end as int)),
            None => schedule_range_at(
                schedule,
                elapsed_ms.raw as int,
                window_key_text(window),
            ) is None,
        },
{
    match schedule.mode {
        ScheduleMode::Fixed => {
            let start: i128 = value_or_zero(schedule.start_offset_ms).raw as i128;
            let end: i128 = start + schedule.duration_ms.raw as i128;
            Some((start, end))
        },
        ScheduleMode::Recurring => {
            let every: i64 = value_or_zero(schedule.every_ms).raw;
            if every <= 0 {
                return None;
            }
            let min_delay: i128 = value_or_zero(schedule.min_delay_ms).raw as i128;
            let elapsed: i128 = elapsed_ms.raw as i128;
            if elapsed < min_delay {
                return None;
            }
            let occurrence: u32 = index_of_occurrence(elapsed - min_delay, every);
            if let Some(max_occurrences) = schedule.max_occurrences {
                if occurrence >= max_occurrences {
                    return None;
                }
            }
            let base_start: i128 = min_delay + start_of_period(occurrence, every);
            let jitter: i128 = jitter_for_window(
                window,
                occurrence,
                value_or_zero(schedule.jitter_ms),
            );
            let shifted: i128 = base_start + jitter;
            let held: i128 = if shifted < min_delay {
                min_delay
            } else {
                shifted
            };
            let start: i128 = if held < 0 {
                0
            } else {
                held
            };
            let end: i128 = start + schedule.duration_ms.raw as i128;
            Some((start, end))
        },
    }
}

/// The interval of the occurrence that `elapsed` falls into, for a rule
/// with the given frequency, duration and key; none without a positive
/// period. The occurrence starts at a multiple of the period, shifted by
/// its jitter, and never before zero.
pub open spec fn frequency_range_at(
    frequency: &BurstFrequency,
    duration: int,
    elapsed: int,
    key: Seq<char>,
) -> Option<(int, int)> {
    let every = frequency.every_ms.raw as int;
    let occurrence = occurrence_index(elapsed, every);
    if every <= 0 {
        None
    } else {
        let start = at_least_zero(
            period_start(occurrence, every) + jitter_offset(
                key,
                occurrence,
                raw_or_zero(frequency.jitter_ms),
            ),
        );
        Some((start, start + duration))
    }
}

/// The interval of the occurrence of a burst that `elapsed` falls into.
pub open spec fn burst_range_at(burst: &BurstEvent, elapsed: int) -> Option<(int, int)> {
    frequency_range_at(
        &burst.frequency,
        burst.duration_ms.raw as int,
        elapsed,
        burst_key_text(burst),
    )
}

/// The interval of the occurrence of a burst that the given time falls
/// into; the burst lends its key to the jitter.
pub fn burst_range(
    frequency: &BurstFrequency,
    duration_ms: Decimal,
    elapsed_ms: Decimal,
    burst: &BurstEvent,
) -> (range: Option<(i128, i128)>)
    ensures
        match range {
            Some((start, end)) => frequency_range_at(
                frequency,
                duration_ms.raw as int,
                elapsed_ms.raw as int,
                burst_key_text(burst),
            ) == Some((start as int, end as int)),
            None => frequency_range_at(
                frequency,
                duration_ms.raw as int,
                elapsed_ms.raw as int,
                burst_key_text(burst),
            ) is None,
        },
{
    let every: i64 = frequency.every_ms.raw;
    if every <= 0 {
        return None;
    }
    let occurrence: u32 = index_of_occurrence(elapsed_ms.raw as i128, every);
    let base_start: i128 = start_of_period(occurrence, every);
    let jitter: i128 = jitter_for_burst(burst, occurrence, value_or_zero(frequency.jitter_ms));
    let shifted: i128 = base_start + jitter;
    let start: i128 = if shifted < 0 {
        0
    } else {
        shifted
    };
    let end: i128 = start + duration_ms.raw as i128;
    Some((start, end))
}


/// The part `part` of a positive `whole` as a fraction, limited to the unit
/// interval and rounded down to the raw unit.
#[verifier::opaque]
pub open spec fn share_of(part: int, whole: int) -> int {
    clamp(part * SCALE / whole, 0, SCALE as int)
}

fn share(part: i128, whole: i64) -> (fraction: i64)
    requires
        whole > 0,
    ensures
        fraction == share_of(part as int, whole as int),
        0 <= fraction <= SCALE,
{
    reveal(share_of);
    if part <= 0 {
        assert(part * SCALE / (whole as int) <= 0) by (nonlinear_arith)
            requires
                part <= 0,
                whole > 0,
                SCALE > 0,
        ;
        return 0;
    }
    if part >= whole as i128 {
        assert(part * SCALE / (whole as int) >= SCALE) by (nonlinear_arith)
            requires
                part >= whole,
                whole > 0,
                SCALE > 0,
        ;
        return SCALE;
    }
    assert(0 <= part * SCALE <= 0x7fff_ffff_ffff_ffff * 1_000_000) by (nonlinear_arith)
        requires
            0 < part < whole,
            whole <= 0x7fff_ffff_ffff_ffff,
            SCALE == 1_000_000,
    ;
    let scaled: i128 = part * (SCALE as i128);
    let fraction: i128 = scaled / (whole as i128);
    assert(0 <= fraction <= SCALE) by (nonlinear_arith)
        requires
            fraction == (part * SCALE) / (whole as int),
            0 < part < whole,
            SCALE > 0,
    ;
    fraction as i64
}

/// The smooth step of a fraction: `f * f * (3 - 2 * f)` of the fraction
/// limited to the unit interval, rounded down to the raw unit.
#[verifier::opaque]
pub open spec fn smoothstep_of(value: int) -> int {
    smooth_numerator(clamp(value, 0, SCALE as int)) / (SCALE * SCALE)
}

/// The smooth step of a fraction.
pub fn smoothstep(value: Decimal) -> (smooth: Decimal)
    ensures
        smooth.raw == smoothstep_of(value.raw as int),
        0 <= smooth.raw <= SCALE,
{
    reveal(smoothstep_of);
    let v: i128 = value.clamp_unit().raw as i128;
    let scale: i128 = SCALE as i128;
    assert(0 <= v * v <= 1_000_000 * 1_000_000) by (nonlinear_arith)
        requires
            0 <= v <= 1_000_000,
    ;
    let square: i128 = v * v;
    let rest: i128 = 3 * scale - 2 * v;
    assert(0 <= square * rest <= 1_000_000_000_000 * 3_000_000) by (nonlinear_arith)
        requires
            0 <= square <= 1_000_000_000_000,
            0 <= rest <= 3_000_000,
    ;
    let smooth: i128 = (square * rest) / (scale * scale);
    proof {
        lemma_smoothstep_range(value.raw as int);
        reveal(smooth_numerator);
        assert(smooth_numerator(v as int) == square * rest);
    }
    Decimal { raw: smooth as i64 }
}

/// The numerator of the smooth step of a fraction `v` of the unit interval.
#[verifier::opaque]
pub open spec fn smooth_numerator(v: int) -> int {
    v * v * (3 * SCALE - 2 * v)
}

/// What the numerator of the smooth step gains for each raw unit between
/// two fractions `v` and `w`.
spec fn smooth_slope(v: int, w: int) -> int {
    3 * SCALE * (v + w) - 2 * (v * v + v * w + w * w)
}

/// The numerator of the smooth step gains the slope for each raw unit
/// between two fractions.
proof fn lemma_numerator_difference(v: int, w: int)
    ensures
        smooth_numerator(w) - smooth_numerator(v) == (w - v) * smooth_slope(v, w),
{
    reveal(smooth_numerator);
    let s = SCALE as int;
    let ww = w * w;
    let vv = v * v;
    let wv = w * v;
    let www = ww * w;
    let vvv = vv * v;
    let side = w - v;
    assert(smooth_numerator(w) == 3 * (s * ww) - 2 * www) by (nonlinear_arith)
        requires
            smooth_numerator(w) == ww * (3 * s - 2 * w),
            www == ww * w,
    ;
    assert(smooth_numerator(v) == 3 * (s * vv) - 2 * vvv) by (nonlinear_arith)
        requires
            smooth_numerator(v) == vv * (3 * s - 2 * v),
            vvv == vv * v,
    ;
    assert(side * (w + v) == ww - vv) by (nonlinear_arith)
        requires
            side == w - v,
            ww == w * w,
            vv == v * v,
    ;
    assert(w * wv == ww * v && v * wv == vv * w) by (nonlinear_arith)
        requires
            wv == w * v,
            ww == w * w,
            vv == v * v,
    ;
    assert(side * (ww + wv + vv) == www - vvv) by (nonlinear_arith)
        requires
            side == w - v,
            www == ww * w,
            vvv == vv * v,
            w * wv == ww * v,
            v * wv == vv * w,
    ;
    let cube = side * (ww + wv + vv);
    let square = side * (w + v);
    assert(side * (3 * s * (v + w) - 2 * (vv + wv + ww)) == 3 * (s * square) - 2 * cube)
        by (nonlinear_arith)
        requires
            cube == side * (ww + wv + vv),
            square == side * (w + v),
    ;
    assert(s * square == s * ww - s * vv) by (nonlinear_arith)
        requires
            square == ww - vv,
    ;
    assert(v * w == wv) by (nonlinear_arith)
        requires
            wv == w * v,
    ;
}

/// Between two fractions of the unit interval the slope is not negative,
/// and it is at most one and a half times the square of the scale.
proof fn lemma_slope_bounds(v: int, w: int)
    requires
        0 <= v <= w <= SCALE,
    ensures
        0 <= smooth_slope(v, w),
        2 * smooth_slope(v, w) <= 3 * (SCALE * SCALE),
{
    let s = SCALE as int;
    let ww = w * w;
    let vv = v * v;
    let wv = v * w;
    let sw = s * w;
    let sv = s * v;
    let ss = s * s;
    assert(3 * s * (v + w) == 3 * sv + 3 * sw) by (nonlinear_arith)
        requires
            sw == s * w,
            sv == s * v,
    ;
    assert(vv <= wv <= ww <= sw && wv <= sv) by (nonlinear_arith)
        requires
            0 <= v <= w <= s,
            ww == w * w,
            vv == v * v,
            wv == v * w,
            sw == s * w,
            sv == s * v,
    ;
    let gap = s - v - w;
    let apart = v - w;
    assert(gap * gap == ss - 2 * sv - 2 * sw + vv + 2 * wv + ww) by (nonlinear_arith)
        requires
            gap == s - v - w,
            ww == w * w,
            vv == v * v,
            wv == v * w,
            sw == s * w,
            sv == s * v,
            ss == s * s,
    ;
    assert(apart * apart == vv - 2 * wv + ww) by (nonlinear_arith)
        requires
            apart == v - w,
            ww == w * w,
            vv == v * v,
            wv == v * w,
    ;
    assert(gap * gap >= 0 && apart * apart >= 0) by (nonlinear_arith);
}

/// The numerator of the smooth step does not fall as the fraction rises.
proof fn lemma_smooth_numerator_rises(v: int, w: int)
    requires
        0 <= v <= w <= SCALE,
    ensures
        0 <= smooth_numerator(v) <= smooth_numerator(w) <= SCALE * SCALE * SCALE,
{
    let s = SCALE as int;
    lemma_numerator_difference(0, v);
    lemma_slope_bounds(0, v);
    lemma_numerator_difference(v, w);
    lemma_slope_bounds(v, w);
    lemma_numerator_difference(w, s);
    lemma_slope_bounds(w, s);
    assert(smooth_numerator(0) == 0 && smooth_numerator(s) == s * s * s) by {
        reveal(smooth_numerator);
        assert(s * s * (3 * s - 2 * s) == s * s * s) by (nonlinear_arith);
        assert(0int * 0int * (3 * s - 2 * 0int) == 0) by (nonlinear_arith);
    }
    assert((v - 0) * smooth_slope(0, v) >= 0) by (nonlinear_arith)
        requires
            v >= 0,
            smooth_slope(0, v) >= 0,
    ;
    assert((w - v) * smooth_slope(v, w) >= 0) by (nonlinear_arith)
        requires
            w - v >= 0,
            smooth_slope(v, w) >= 0,
    ;
    assert((s - w) * smooth_slope(w, s) >= 0) by (nonlinear_arith)
        requires
            s - w >= 0,
            smooth_slope(w, s) >= 0,
    ;
}

/// The smooth step of any value lies in the unit interval.
pub proof fn lemma_smoothstep_range(value: int)
    ensures
        0 <= smoothstep_of(value) <= SCALE,
{
    reveal(smoothstep_of);
    let v = clamp(value, 0, SCALE as int);
    let s = SCALE as int;
    lemma_smooth_numerator_rises(v, v);
    let n = smooth_numerator(v);
    assert(0 <= n / (s * s) <= s) by (nonlinear_arith)
        requires
            0 <= n <= s * s * s,
            s > 0,
    ;
}

/// The smooth step maps zero to zero and one to one, and it never falls as
/// its argument rises; so it maps the unit interval into itself, from end
/// to end.
pub proof fn lemma_smoothstep_monotone(v: int, w: int)
    requires
        v <= w,
    ensures
        smoothstep_of(0) == 0,
        smoothstep_of(SCALE as int) == SCALE,
        0 <= smoothstep_of(v) <= smoothstep_of(w) <= SCALE,
{
    reveal(smoothstep_of);
    reveal(smooth_numerator);
    let s = SCALE as int;
    let a = clamp(v, 0, s);
    let b = clamp(w, 0, s);
    lemma_smooth_numerator_rises(a, b);
    lemma_smoothstep_range(v);
    lemma_smoothstep_range(w);
    let x = smooth_numerator(a);
    let y = smooth_numerator(b);
    assert(x / (s * s) <= y / (s * s)) by (nonlinear_arith)
        requires
            0 <= x <= y,
            s > 0,
    ;
    assert(smoothstep_of(0) == 0) by {
        assert(smooth_numerator(0) == 0) by (nonlinear_arith)
            requires
                smooth_numerator(0) == 0 * 0 * (3 * s - 2 * 0),
        ;
        assert(0int / (s * s) == 0) by (nonlinear_arith)
            requires
                s > 0,
        ;
    }
    assert(smoothstep_of(s) == s) by {
        assert(smooth_numerator(s) == s * (s * s)) by (nonlinear_arith)
            requires
                smooth_numerator(s) == s * s * (3 * s - 2 * s),
        ;
        assert((s * (s * s)) / (s * s) == s) by (nonlinear_arith)
            requires
                s > 0,
        ;
    }
}

/// The intensity of an event along a straight ramp: it rises from zero
/// over the first `up` units after `start`, falls to zero over the last
/// `down` units before `end`, and is one in between. Where the two ramps
/// meet, rising comes first.
pub open spec fn linear_factor(elapsed: int, start: int, end: int, up: int, down: int) -> int {
    if up > 0 && elapsed - start < up {
        share_of(elapsed - start, up)
    } else if down > 0 && elapsed > end - down {
        share_of(end - elapsed, down)
    } else {
        SCALE as int
    }
}

/// The intensity of an event at time `elapsed`: one without a ramp or for
/// an empty interval, else the ramp's straight or smooth curve.
pub open spec fn ramp_factor_at(elapsed: int, start: int, end: int, ramp: Option<RampConfig>)
    -> int {
    match ramp {
        None => SCALE as int,
        Some(ramp) => if end - start <= 0 {
            SCALE as int
        } else {
            let linear = linear_factor(
                elapsed,
                start,
                end,
                at_least_zero(raw_or_zero(ramp.up_ms)),
                at_least_zero(raw_or_zero(ramp.down_ms)),
            );
            if ramp.curve == Some(RampCurve::SCurve) {
                smoothstep_of(linear)
            } else {
                linear
            }
        },
    }
}

/// The intensity of an event with the given interval and ramp at the
/// given time.
pub fn ramp_factor(elapsed_ms: Decimal, start_ms: i128, end_ms: i128, ramp: Option<&RampConfig>)
    -> (factor: Decimal)
    ensures
        factor.raw == ramp_factor_at(
            elapsed_ms.raw as int,
            start_ms as int,
            end_ms as int,
            match ramp {
                Some(r) => Some(*r),
                None => None,
            },
        ),
        0 <= factor.raw <= SCALE,
{
    let Some(ramp) = ramp else {
        return Decimal { raw: SCALE };
    };
    if end_ms <= start_ms {
        return Decimal { raw: SCALE };
    }
    let up: i64 = value_or_zero(ramp.up_ms).max_zero().raw;
    let down: i64 = value_or_zero(ramp.down_ms).max_zero().raw;
    let elapsed: i128 = elapsed_ms.raw as i128;
    let linear: i64 = if up > 0 && elapsed - (up as i128) < start_ms {
        if elapsed <= start_ms {
            proof {
                lemma_share_ends(elapsed - start_ms, up as int);
            }
            0
        } else {
            share(elapsed - start_ms, up)
        }
    } else if down > 0 && elapsed + (down as i128) > end_ms {
        if end_ms <= elapsed {
            proof {
                lemma_share_ends(end_ms - elapsed, down as int);
            }
            0
        } else {
            share(end_ms - elapsed, down)
        }
    } else {
        SCALE
    };
    match ramp.curve {
        Some(RampCurve::SCurve) => smoothstep(Decimal { raw: linear }),
        _ => Decimal { raw: linear },
    }
}


/// The sum of two quotients by one positive divisor falls short of the
/// quotient of the sum by at most one.
proof fn lemma_quotient_of_sum(a: int, b: int, d: int)
    requires
        d > 0,
    ensures
        a / d + b / d <= (a + b) / d <= a / d + b / d + 1,
{
    lemma_fundamental_div_mod(a, d);
    lemma_fundamental_div_mod(b, d);
    lemma_fundamental_div_mod(a + b, d);
    lemma_mod_bound(a, d);
    lemma_mod_bound(b, d);
    lemma_mod_bound(a + b, d);
    let qa = a / d;
    let qb = b / d;
    let q = (a + b) / d;
    let r = a % d + b % d - (a + b) % d;
    assert(d * (q - qa - qb) == r) by (nonlinear_arith)
        requires
            a == d * qa + a % d,
            b == d * qb + b % d,
            a + b == d * q + (a + b) % d,
            r == a % d + b % d - (a + b) % d,
    ;
    assert(0 <= q - qa - qb <= 1) by (nonlinear_arith)
        requires
            d * (q - qa - qb) == r,
            -d < r < 2 * d,
            d > 0,
    ;
}

/// A share lies in the unit interval; it is zero for no part and one for
/// the whole.
pub proof fn lemma_share_ends(part: int, whole: int)
    requires
        whole > 0,
    ensures
        0 <= share_of(part, whole) <= SCALE,
        part <= 0 ==> share_of(part, whole) == 0,
        part >= whole ==> share_of(part, whole) == SCALE,
{
    reveal(share_of);
    if part <= 0 {
        lemma_div_is_ordered(part * SCALE, 0, whole);
    }
    if part >= whole {
        lemma_div_multiples_vanish(SCALE as int, whole);
        assert(whole * SCALE == SCALE * whole) by (nonlinear_arith);
        lemma_div_is_ordered(whole * SCALE, part * SCALE, whole);
    }
}

/// The most that a share of `whole` can grow when its part grows by
/// `span` raw units: the share of the span, rounded down, and one raw unit
/// for the rounding; nothing where there is no ramp.
pub open spec fn span_bound(whole: int, span: int) -> int {
    if whole > 0 {
        span * SCALE / whole + 1
    } else {
        0
    }
}

/// A share never falls as its part grows, and it grows by no more than the
/// span bound of what the part grows by.
pub proof fn lemma_share_span(part: int, later: int, whole: int)
    requires
        whole > 0,
        part <= later,
    ensures
        0 <= share_of(later, whole) - share_of(part, whole) <= span_bound(whole, later - part),
        1 <= span_bound(whole, later - part),
{
    reveal(share_of);
    let span = later - part;
    lemma_quotient_of_sum(part * SCALE, span * SCALE, whole);
    assert(part * SCALE + span * SCALE == later * SCALE);
    lemma_div_is_ordered(part * SCALE, later * SCALE, whole);
    lemma_div_is_ordered(0, span * SCALE, whole);
}

/// On the plateau, after the rise and before the fall, the intensity of an
/// event is one, whatever the curve of its ramp.
pub proof fn lemma_ramp_plateau(elapsed: int, start: int, end: int, ramp: Option<RampConfig>)
    requires
        ramp is Some ==> start + at_least_zero(raw_or_zero(ramp->0.up_ms)) <= elapsed <= end
            - at_least_zero(raw_or_zero(ramp->0.down_ms)),
    ensures
        ramp_factor_at(elapsed, start, end, ramp) == SCALE,
{
    lemma_smoothstep_monotone(0, 0);
}

/// The intensity of an event lies in the unit interval, and an event with
/// a rise starts at nothing.
pub proof fn lemma_ramp_factor_range(elapsed: int, start: int, end: int, ramp: Option<RampConfig>)
    ensures
        0 <= ramp_factor_at(elapsed, start, end, ramp) <= SCALE,
        ramp is Some && raw_or_zero(ramp->0.up_ms) > 0 && start < end ==> ramp_factor_at(
            start,
            start,
            end,
            ramp,
        ) == 0,
{
    if ramp is Some {
        let up = at_least_zero(raw_or_zero(ramp->0.up_ms));
        let down = at_least_zero(raw_or_zero(ramp->0.down_ms));
        if up > 0 {
            lemma_share_ends(elapsed - start, up);
            lemma_share_ends(0, up);
        }
        if down > 0 {
            lemma_share_ends(end - elapsed, down);
        }
        lemma_smoothstep_monotone(0, linear_factor(elapsed, start, end, up, down));
    }
}

/// Along a straight ramp the intensity has no jumps: between any two times
/// inside the interval it rises by at most the span bound of the rise, and
/// falls by at most the span bound of the fall, for the time between the
/// two. So it changes by no more than the time that passes, divided by the
/// length of the ramp, and one raw unit for the rounding. The two ramps
/// together must fit into the interval.
pub proof fn lemma_ramp_has_no_jumps(
    earlier: int,
    later: int,
    start: int,
    end: int,
    up: int,
    down: int,
)
    requires
        start <= earlier <= later < end,
        0 <= up,
        0 <= down,
        up + down <= end - start,
    ensures
        -span_bound(down, later - earlier) <= linear_factor(later, start, end, up, down)
            - linear_factor(earlier, start, end, up, down) <= span_bound(up, later - earlier),
        0 <= linear_factor(earlier, start, end, up, down) <= SCALE,
        0 <= linear_factor(later, start, end, up, down) <= SCALE,
{
    if up > 0 {
        lemma_share_span(earlier - start, later - start, up);
        lemma_share_ends(earlier - start, up);
        lemma_share_ends(later - start, up);
    }
    if down > 0 {
        lemma_share_span(end - later, end - earlier, down);
        lemma_share_ends(end - earlier, down);
        lemma_share_ends(end - later, down);
    }
}

/// The smooth step is gentle: where its argument rises within the unit
/// interval, it rises by no more than one and a half times as much, and one
/// raw unit for the rounding.
pub proof fn lemma_smoothstep_gentle(v: int, w: int)
    requires
        0 <= v <= w <= SCALE,
    ensures
        0 <= 2 * (smoothstep_of(w) - smoothstep_of(v)) <= 3 * (w - v) + 2,
{
    reveal(smoothstep_of);
    lemma_smoothstep_monotone(v, w);
    lemma_numerator_difference(v, w);
    lemma_slope_bounds(v, w);
    let unit = SCALE * SCALE;
    let low = smooth_numerator(v);
    let rise = smooth_numerator(w) - low;
    let slope = smooth_slope(v, w);
    assert(2 * rise <= 3 * (w - v) * unit) by (nonlinear_arith)
        requires
            rise == (w - v) * slope,
            2 * slope <= 3 * unit,
            w - v >= 0,
    ;
    lemma_quotient_of_sum(low, rise, unit);
    lemma_fundamental_div_mod(rise, unit);
    lemma_mod_bound(rise, unit);
    let whole = rise / unit;
    assert(2 * whole <= 3 * (w - v)) by (nonlinear_arith)
        requires
            rise == unit * whole + rise % unit,
            0 <= rise % unit,
            2 * rise <= 3 * (w - v) * unit,
            unit > 0,
    ;
}

/// Along a smooth ramp the intensity has no jumps either: between any two
/// times inside the interval, twice its rise is at most three times the
/// span bound of the rise and two raw units, and likewise for its fall. So
/// it changes by no more than one and a half times the time that passes,
/// divided by the length of the ramp, and two and a half raw units for the
/// rounding. The two ramps together must fit into the interval.
pub proof fn lemma_smooth_ramp_has_no_jumps(
    earlier: int,
    later: int,
    start: int,
    end: int,
    up: int,
    down: int,
)
    requires
        start <= earlier <= later < end,
        0 <= up,
        0 <= down,
        up + down <= end - start,
    ensures
        -(3 * span_bound(down, later - earlier) + 2) <= 2 * (smoothstep_of(
            linear_factor(later, start, end, up, down),
        ) - smoothstep_of(linear_factor(earlier, start, end, up, down))) <= 3 * span_bound(
            up,
            later - earlier,
        ) + 2,
{
    let before = linear_factor(earlier, start, end, up, down);
    let after = linear_factor(later, start, end, up, down);
    lemma_ramp_has_no_jumps(earlier, later, start, end, up, down);
    if before <= after {
        lemma_smoothstep_gentle(before, after);
    } else {
        lemma_smoothstep_gentle(after, before);
    }
}

/// The intensity of an event has no jumps, whatever the curve of its
/// ramp: between any two times inside the interval, twice its rise is at
/// most three times the span bound of the rise and two raw units, and
/// likewise for its fall; along a straight ramp the span bound alone is the
/// most. The two ramps together must fit into the interval; a ramp whose
/// rise and fall meet makes the intensity jump where the rise ends.
pub proof fn lemma_ramp_factor_has_no_jumps(
    earlier: int,
    later: int,
    start: int,
    end: int,
    ramp: RampConfig,
)
    requires
        start <= earlier <= later < end,
        at_least_zero(raw_or_zero(ramp.up_ms)) + at_least_zero(raw_or_zero(ramp.down_ms)) <= end
            - start,
    ensures
        -(3 * span_bound(at_least_zero(raw_or_zero(ramp.down_ms)), later - earlier) + 2) <= 2 * (
        ramp_factor_at(later, start, end, Some(ramp)) - ramp_factor_at(
            earlier,
            start,
            end,
            Some(ramp),
        )) <= 3 * span_bound(at_least_zero(raw_or_zero(ramp.up_ms)), later - earlier) + 2,
        ramp.curve != Some(RampCurve::SCurve) ==> -span_bound(
            at_least_zero(raw_or_zero(ramp.down_ms)),
            later - earlier,
        ) <= ramp_factor_at(later, start, end, Some(ramp)) - ramp_factor_at(
            earlier,
            start,
            end,
            Some(ramp),
        ) <= span_bound(at_least_zero(raw_or_zero(ramp.up_ms)), later - earlier),
{
    let up = at_least_zero(raw_or_zero(ramp.up_ms));
    let down = at_least_zero(raw_or_zero(ramp.down_ms));
    lemma_ramp_has_no_jumps(earlier, later, start, end, up, down);
    lemma_smooth_ramp_has_no_jumps(earlier, later, start, end, up, down);
    if up > 0 {
        lemma_share_span(earlier - start, later - start, up);
    }
    if down > 0 {
        lemma_share_span(end - later, end - earlier, down);
    }
}

/// Whether a window is active at time `elapsed`: the interval of its
/// current occurrence holds the time.
pub open spec fn window_active(window: &BehaviorWindow, elapsed: int) -> bool {
    match window_range(window, elapsed) {
        Some((start, end)) => start <= elapsed < end,
        None => false,
    }
}

/// The intensity of a window at time `elapsed`.
pub open spec fn window_factor(window: &BehaviorWindow, elapsed: int) -> int {
    match window_range(window, elapsed) {
        Some((start, end)) => ramp_factor_at(elapsed, start, end, window.ramp),
        None => SCALE as int,
    }
}

/// The index of the first window from `from` on that is active at time
/// `elapsed`.
pub open spec fn first_active_window(windows: Seq<Arc<BehaviorWindow>>, elapsed: int, from: int)
    -> Option<int>
    decreases windows.len() - from,
{
    if from < 0 || from >= windows.len() {
        None
    } else if window_active(&*windows[from], elapsed) {
        Some(from)
    } else {
        first_active_window(windows, elapsed, from + 1)
    }
}

/// The first window in the order of declaration that is active at the
/// given time, by its index, with its intensity.
pub fn active_window(behaviors: &EndpointBehaviors, elapsed_ms: Decimal) -> (found: Option<
    (usize, Decimal),
>)
    ensures
        match found {
            Some((index, factor)) => {
                &&& first_active_window(behaviors.windows@, elapsed_ms.raw as int, 0) == Some(
                    index as int,
                )
                &&& index < behaviors.windows@.len()
                &&& factor.raw == window_factor(
                    &*behaviors.windows@[index as int],
                    elapsed_ms.raw as int,
                )
                &&& 0 <= factor.raw <= SCALE
            },
            None => first_active_window(behaviors.windows@, elapsed_ms.raw as int, 0) is None,
        },
{
    let mut index: usize = 0;
    while index < behaviors.windows.len()
        invariant
            index <= behaviors.windows@.len(),
            first_active_window(behaviors.windows@, elapsed_ms.raw as int, 0)
                == first_active_window(behaviors.windows@, elapsed_ms.raw as int, index as int),
        decreases behaviors.windows@.len() - index,
    {
        let window: &BehaviorWindow = &behaviors.windows[index];
        if let Some((start_ms, end_ms)) = schedule_range(&window.schedule, elapsed_ms, window) {
            if elapsed_ms.raw as i128 >= start_ms && (elapsed_ms.raw as i128) < end_ms {
                let factor = ramp_factor(elapsed_ms, start_ms, end_ms, window.ramp.as_ref());
                return Some((index, factor));
            }
        }
        index += 1;
    }
    None
}

/// Whether a burst is active at time `elapsed`.
pub open spec fn burst_active(burst: &BurstEvent, elapsed: int) -> bool {
    match burst_range_at(burst, elapsed) {
        Some((start, end)) => start <= elapsed < end,
        None => false,
    }
}

/// The intensity of a burst at time `elapsed`.
pub open spec fn burst_factor(burst: &BurstEvent, elapsed: int) -> int {
    match burst_range_at(burst, elapsed) {
        Some((start, end)) => ramp_factor_at(elapsed, start, end, burst.ramp),
        None => SCALE as int,
    }
}

/// The index of the first burst from `from` on that is active at time
/// `elapsed`.
pub open spec fn first_active_burst(bursts: Seq<Arc<BurstEvent>>, elapsed: int, from: int)
    -> Option<int>
    decreases bursts.len() - from,
{
    if from < 0 || from >= bursts.len() {
        None
    } else if burst_active(&*bursts[from], elapsed) {
        Some(from)
    } else {
        first_active_burst(bursts, elapsed, from + 1)
    }
}

/// The first burst in the order of declaration that is active at the given
/// time, by its index, with its intensity.
pub fn active_burst(behaviors: &EndpointBehaviors, elapsed_ms: Decimal) -> (found: Option<
    (usize, Decimal),
>)
    ensures
        match found {
            Some((index, factor)) => {
                &&& first_active_burst(behaviors.bursts@, elapsed_ms.raw as int, 0) == Some(
                    index as int,
                )
                &&& index < behaviors.bursts@.len()
                &&& factor.raw == burst_factor(
                    &*behaviors.bursts@[index as int],
                    elapsed_ms.raw as int,
                )
                &&& 0 <= factor.raw <= SCALE
            },
            None => first_active_burst(behaviors.bursts@, elapsed_ms.raw as int, 0) is None,
        },
{
    let mut index: usize = 0;
    while index < behaviors.bursts.len()
        invariant
            index <= behaviors.bursts@.len(),
            first_active_burst(behaviors.bursts@, elapsed_ms.raw as int, 0) == first_active_burst(
                behaviors.bursts@,
                elapsed_ms.raw as int,
                index as int,
            ),
        decreases behaviors.bursts@.len() - index,
    {
        let burst: &BurstEvent = &behaviors.bursts[index];
        if let Some((start_ms, end_ms)) = burst_range(
            &burst.frequency,
            burst.duration_ms,
            elapsed_ms,
            burst,
        ) {
            if elapsed_ms.raw as i128 >= start_ms && (elapsed_ms.raw as i128) < end_ms {
                let factor = ramp_factor(elapsed_ms, start_ms, end_ms, burst.ramp.as_ref());
                return Some((index, factor));
            }
        }
        index += 1;
    }
    None
}

/// The first active window is active, and no window before it is.
pub proof fn lemma_first_active_window(windows: Seq<Arc<BehaviorWindow>>, elapsed: int, from: int)
    requires
        0 <= from,
    ensures
        match first_active_window(windows, elapsed, from) {
            Some(index) => {
                &&& from <= index < windows.len()
                &&& window_active(&*windows[index], elapsed)
                &&& forall|j: int| from <= j < index ==> !window_active(&*windows[j], elapsed)
            },
            None => forall|j: int| from <= j < windows.len() ==> !window_active(
                &*windows[j],
                elapsed,
            ),
        },
    decreases windows.len() - from,
{
    if from < windows.len() && !window_active(&*windows[from], elapsed) {
        lemma_first_active_window(windows, elapsed, from + 1);
    }
}

/// Two fixed windows whose intervals do not overlap are never active at the
/// same time.
pub proof fn lemma_disjoint_windows_share_no_instant(
    first: &BehaviorWindow,
    second: &BehaviorWindow,
    elapsed: int,
)
    requires
        first.schedule.mode == ScheduleMode::Fixed,
        second.schedule.mode == ScheduleMode::Fixed,
        fixed_range(&first.schedule).1 <= fixed_range(&second.schedule).0 || fixed_range(
            &second.schedule,
        ).1 <= fixed_range(&first.schedule).0,
    ensures
        !(window_active(first, elapsed) && window_active(second, elapsed)),
{
}

/// The jitter of an occurrence depends on nothing but the key of the rule,
/// the index of the occurrence and the size of the jitter: two rules with
/// the same key are shifted alike, and so is one rule asked twice. It never
/// exceeds the size of the jitter.
pub proof fn lemma_jitter_repeats(
    first: &BehaviorWindow,
    second: &BehaviorWindow,
    occurrence: u32,
    jitter: int,
)
    requires
        window_key_text(first) == window_key_text(second),
    ensures
        jitter_offset(window_key_text(first), occurrence, jitter) == jitter_offset(
            window_key_text(second),
            occurrence,
            jitter,
        ),
        jitter > 0 ==> -jitter <= jitter_offset(window_key_text(first), occurrence, jitter)
            < jitter,
{
    if jitter > 0 {
        let step = (occurrence_hash(window_key_text(first), occurrence) % JITTER_STEPS) as int;
        let share = 2 * step - JITTER_STEPS;
        if share >= 0 {
            assert(0 <= share * jitter < 10_000 * jitter) by (nonlinear_arith)
                requires
                    0 <= share < 10_000,
                    jitter > 0,
            ;
            assert(0 <= (share * jitter) / 10_000 < jitter) by (nonlinear_arith)
                requires
                    0 <= share * jitter < 10_000 * jitter,
            ;
        } else {
            assert(0 < (-share) * jitter <= 10_000 * jitter) by (nonlinear_arith)
                requires
                    0 < -share <= 10_000,
                    jitter > 0,
            ;
            assert(-(share * jitter) == (-share) * jitter) by (nonlinear_arith);
            assert(0 <= ((-share) * jitter) / 10_000 <= jitter) by (nonlinear_arith)
                requires
                    0 < (-share) * jitter <= 10_000 * jitter,
            ;
        }
    }
}

/// The time since a configuration was loaded, in whole milliseconds, from
/// two readings of one clock in nanoseconds; zero where nothing was loaded
/// or the clock has not moved on.
pub open spec fn elapsed_since(loaded_at: Option<u64>, now: u64) -> int {
    match loaded_at {
        Some(origin) => if now <= origin {
            0
        } else {
            let whole = (now - origin) / 1_000_000 * 1_000_000;
            if whole > i64::MAX {
                i64::MAX as int
            } else {
                whole
            }
        },
        None => 0,
    }
}

/// The time since a configuration was loaded, in whole milliseconds.
pub fn elapsed_ms(loaded_at: Option<u64>, now: u64) -> (elapsed: Decimal)
    ensures
        elapsed.raw == elapsed_since(loaded_at, now),
        elapsed.raw >= 0,
{
    match loaded_at {
        Some(origin) => {
            if now <= origin {
                return Decimal { raw: 0 };
            }
            let millis: u64 = (now - origin) / 1_000_000;
            let whole: u64 = millis * 1_000_000;
            if whole > i64::MAX as u64 {
                Decimal { raw: i64::MAX }
            } else {
                Decimal { raw: whole as i64 }
            }
        },
        None => Decimal { raw: 0 },
    }
}

} // verus!
