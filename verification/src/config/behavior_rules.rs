//! Validation of behaviour windows and burst events: scopes, schedules,
//! ramps, and the rules that relate the windows of one scope to each other.
use vstd::prelude::*;
use crate::config::error::{records, ErrorRecord, ValidationError};
use crate::config::overlap::{
    lemma_no_overlap_means_apart, overlap_errors, proper, report_overlaps, same_scope, spans,
    FixedEntry, FixedSpan,
};
use crate::config::schema::{
    BehaviorSchedule, BehaviorScope, BehaviorWindow, BurstEvent, EndpointGroup, ErrorMix,
    ErrorProfile, ErrorSpike, LatencyConfig, RampConfig, ScheduleMode,
};
use crate::config::validator::{
    contains_text, copy_text, distribution_errors, error_profile_errors, group_ids_of,
    lemma_found_more, lemma_texts_grow, lemma_found_none, owned, push_error, ramp_errors, record, report, text_of,
    texts,
    validate_error_profile, validate_latency, validate_ramp, found_if,
};
use crate::engine::behavior::{fixed_range, window_active};
use crate::text::{decimal_digits, decimal_text, is_blank, join2, join3, text_is_blank};

verus! {

/// Whether an optional id names something: it is there and not blank.
pub open spec fn names_something(id: Option<String>) -> bool {
    id is Some && !is_blank(id->0@)
}

/// How many of the three targets a scope names.
pub open spec fn scope_count(scope: &BehaviorScope) -> nat {
    (if names_something(scope.endpoint_id) {
        1nat
    } else {
        0nat
    }) + (if names_something(scope.group_id) {
        1nat
    } else {
        0nat
    }) + (if scope.global {
        1nat
    } else {
        0nat
    })
}

/// The key under which the rules of a scope are grouped; none where the
/// scope does not name exactly one target.
pub open spec fn scope_key(scope: &BehaviorScope) -> Option<Seq<char>> {
    if scope_count(scope) != 1 {
        None
    } else if scope.global {
        Some("global"@)
    } else if scope.endpoint_id is Some {
        Some("endpoint: "@ + scope.endpoint_id->0@)
    } else {
        match scope.group_id {
            Some(group_id) => Some("group: "@ + group_id@),
            None => None,
        }
    }
}

/// The findings about a scope: a named endpoint or group must exist, and
/// exactly one target must be named.
pub open spec fn scope_errors(
    scope: &BehaviorScope,
    group_ids: Seq<Seq<char>>,
    endpoint_ids: Seq<Seq<char>>,
) -> Seq<ErrorRecord> {
    found_if(
        names_something(scope.endpoint_id) && !endpoint_ids.contains(scope.endpoint_id->0@),
        record("scope.endpoint_id"@, "endpoint id does not exist"@, text_of(scope.endpoint_id)),
    ) + found_if(
        names_something(scope.group_id) && !group_ids.contains(scope.group_id->0@),
        record("scope.group_id"@, "group id does not exist"@, text_of(scope.group_id)),
    ) + found_if(
        scope_count(scope) != 1,
        record(
            "scope"@,
            "must define exactly one of endpoint_id, group_id, or global"@,
            None,
        ),
    )
}

fn id_names_something(id: &Option<String>) -> (r: bool)
    ensures
        r == names_something(*id),
{
    match id {
        Some(text) => !text_is_blank(text.as_str()),
        None => false,
    }
}

/// Checks a scope; gives the key under which its rules are grouped.
pub fn validate_scope(
    scope: &BehaviorScope,
    group_ids: &Vec<String>,
    endpoint_ids: &Vec<String>,
    errors: &mut Vec<ValidationError>,
) -> (key: Option<String>)
    ensures
        records(final(errors)@) == records(old(errors)@) + scope_errors(
            scope,
            texts(group_ids@),
            texts(endpoint_ids@),
        ),
        text_of(key) == scope_key(scope),
{
    let ghost base = records(errors@);
    let mut count: u8 = 0;
    let has_endpoint = id_names_something(&scope.endpoint_id);
    let mut unknown_endpoint = false;
    if has_endpoint {
        count += 1;
        if let Some(endpoint_id) = &scope.endpoint_id {
            unknown_endpoint = !contains_text(endpoint_ids, endpoint_id);
        }
    }
    report(
        errors,
        unknown_endpoint,
        "scope.endpoint_id",
        "endpoint id does not exist",
        copy_text(&scope.endpoint_id),
    );
    let ghost found1 = found_if(
        names_something(scope.endpoint_id) && !texts(endpoint_ids@).contains(
            scope.endpoint_id->0@,
        ),
        record("scope.endpoint_id"@, "endpoint id does not exist"@, text_of(scope.endpoint_id)),
    );
    let has_group = id_names_something(&scope.group_id);
    let mut unknown_group = false;
    if has_group {
        count += 1;
        if let Some(group_id) = &scope.group_id {
            unknown_group = !contains_text(group_ids, group_id);
        }
    }
    report(
        errors,
        unknown_group,
        "scope.group_id",
        "group id does not exist",
        copy_text(&scope.group_id),
    );
    let ghost more = found_if(
        names_something(scope.group_id) && !texts(group_ids@).contains(scope.group_id->0@),
        record("scope.group_id"@, "group id does not exist"@, text_of(scope.group_id)),
    );
    let ghost found2 = found1 + more;
    proof {
        lemma_found_more(base, found1, more);
    }
    if scope.global {
        count += 1;
    }
    assert(count == scope_count(scope));
    report(
        errors,
        count != 1,
        "scope",
        "must define exactly one of endpoint_id, group_id, or global",
        None,
    );
    let ghost more = found_if(
        scope_count(scope) != 1,
        record(
            "scope"@,
            "must define exactly one of endpoint_id, group_id, or global"@,
            None,
        ),
    );
    proof {
        lemma_found_more(base, found2, more);
        assert(found2 + more == scope_errors(scope, texts(group_ids@), texts(endpoint_ids@)));
    }
    if count != 1 {
        return None;
    }
    if scope.global {
        return Some("global".to_string());
    }
    if let Some(endpoint_id) = &scope.endpoint_id {
        return Some(join2("endpoint: ", endpoint_id.as_str()));
    }
    match &scope.group_id {
        Some(group_id) => Some(join2("group: ", group_id.as_str())),
        None => None,
    }
}

/// The first rule that a schedule breaks, as field and message; none where
/// it breaks no rule. A schedule needs a positive duration; a fixed one a
/// start offset that is not negative; a recurring one a positive period at
/// least as long as the duration, a jitter between zero and the gap that the
/// duration leaves in the period, a delay that is not negative, and a limit
/// that is not zero.
pub open spec fn schedule_problem(schedule: &BehaviorSchedule) -> Option<(Seq<char>, Seq<char>)> {
    if schedule.duration_ms.raw <= 0 {
        Some(("behavior_windows.schedule.duration_ms"@, "duration_ms must be > 0"@))
    } else {
        match schedule.mode {
            ScheduleMode::Fixed => fixed_problem(schedule),
            ScheduleMode::Recurring => recurring_problem(schedule),
        }
    }
}

/// The first rule that a fixed schedule of positive duration breaks.
pub open spec fn fixed_problem(schedule: &BehaviorSchedule) -> Option<(Seq<char>, Seq<char>)> {
    match schedule.start_offset_ms {
        None => Some(
            (
                "behavior_windows.schedule.start_offset_ms"@,
                "start_offset_ms is required for fixed schedules"@,
            ),
        ),
        Some(start) => if start.raw < 0 {
            Some(("behavior_windows.schedule.start_offset_ms"@, "start_offset_ms must be >= 0"@))
        } else {
            None
        },
    }
}

/// The first rule that a recurring schedule of positive duration breaks.
pub open spec fn recurring_problem(schedule: &BehaviorSchedule) -> Option<(Seq<char>, Seq<char>)> {
    match schedule.every_ms {
        None => Some(
            (
                "behavior_windows.schedule.every_ms"@,
                "every_ms is required for recurring schedules"@,
            ),
        ),
        Some(every) => if every.raw <= 0 {
            Some(("behavior_windows.schedule.every_ms"@, "every_ms must be > 0"@))
        } else if schedule.duration_ms.raw > every.raw {
            Some(("behavior_windows.schedule.duration_ms"@, "duration_ms must be <= every_ms"@))
        } else if schedule.jitter_ms is Some && schedule.jitter_ms->0.raw < 0 {
            Some(("behavior_windows.schedule.jitter_ms"@, "jitter_ms must be >= 0"@))
        } else if schedule.jitter_ms is Some && schedule.jitter_ms->0.raw > every.raw
            - schedule.duration_ms.raw {
            Some(
                (
                    "behavior_windows.schedule.jitter_ms"@,
                    "jitter_ms must be <= every_ms - duration_ms"@,
                ),
            )
        } else if schedule.min_delay_ms is Some && schedule.min_delay_ms->0.raw < 0 {
            Some(("behavior_windows.schedule.min_delay_ms"@, "min_delay_ms must be >= 0"@))
        } else if schedule.max_occurrences == Some(0u32) {
            Some(("behavior_windows.schedule.max_occurrences"@, "max_occurrences must be > 0"@))
        } else {
            None
        },
    }
}

/// The findings about a schedule: its first broken rule, if it breaks one.
pub open spec fn schedule_errors(schedule: &BehaviorSchedule, location: Option<Seq<char>>) -> Seq<
    ErrorRecord,
> {
    match schedule_problem(schedule) {
        Some((field, error)) => seq![record(field, error, location)],
        None => Seq::empty(),
    }
}

/// The text behind an optional string slice.
pub open spec fn slice_text(text: Option<&str>) -> Option<Seq<char>> {
    match text {
        Some(s) => Some(s@),
        None => None,
    }
}

fn own_text(text: Option<&str>) -> (r: Option<String>)
    ensures
        text_of(r) == slice_text(text),
{
    match text {
        Some(s) => Some(s.to_string()),
        None => None,
    }
}

fn find_schedule_problem(schedule: &BehaviorSchedule) -> (problem: Option<
    (&'static str, &'static str),
>)
    ensures
        match problem {
            Some((field, error)) => schedule_problem(schedule) == Some((field@, error@)),
            None => schedule_problem(schedule) is None,
        },
{
    if schedule.duration_ms.raw <= 0 {
        return Some(("behavior_windows.schedule.duration_ms", "duration_ms must be > 0"));
    }
    match schedule.mode {
        ScheduleMode::Fixed => {
            let Some(start_ms) = schedule.start_offset_ms else {
                return Some(
                    (
                        "behavior_windows.schedule.start_offset_ms",
                        "start_offset_ms is required for fixed schedules",
                    ),
                );
            };
            if start_ms.raw < 0 {
                return Some(
                    ("behavior_windows.schedule.start_offset_ms", "start_offset_ms must be >= 0"),
                );
            }
        },
        ScheduleMode::Recurring => {
            let Some(every_ms) = schedule.every_ms else {
                return Some(
                    (
                        "behavior_windows.schedule.every_ms",
                        "every_ms is required for recurring schedules",
                    ),
                );
            };
            if every_ms.raw <= 0 {
                return Some(("behavior_windows.schedule.every_ms", "every_ms must be > 0"));
            }
            if schedule.duration_ms.raw > every_ms.raw {
                return Some(
                    ("behavior_windows.schedule.duration_ms", "duration_ms must be <= every_ms"),
                );
            }
            if let Some(jitter_ms) = schedule.jitter_ms {
                if jitter_ms.raw < 0 {
                    return Some(
                        ("behavior_windows.schedule.jitter_ms", "jitter_ms must be >= 0"),
                    );
                }
                if jitter_ms.raw > every_ms.raw - schedule.duration_ms.raw {
                    return Some(
                        (
                            "behavior_windows.schedule.jitter_ms",
                            "jitter_ms must be <= every_ms - duration_ms",
                        ),
                    );
                }
            }
            if let Some(min_delay_ms) = schedule.min_delay_ms {
                if min_delay_ms.raw < 0 {
                    return Some(
                        ("behavior_windows.schedule.min_delay_ms", "min_delay_ms must be >= 0"),
                    );
                }
            }
            if let Some(max_occurrences) = schedule.max_occurrences {
                if max_occurrences == 0 {
                    return Some(
                        (
                            "behavior_windows.schedule.max_occurrences",
                            "max_occurrences must be > 0",
                        ),
                    );
                }
            }
        },
    }
    None
}

/// Checks a schedule; says whether it breaks no rule.
pub fn validate_schedule(
    schedule: &BehaviorSchedule,
    errors: &mut Vec<ValidationError>,
    location: Option<&str>,
) -> (sound: bool)
    ensures
        sound == (schedule_problem(schedule) is None),
        records(final(errors)@) == records(old(errors)@) + schedule_errors(
            schedule,
            slice_text(location),
        ),
{
    match find_schedule_problem(schedule) {
        Some((field, error)) => {
            push_error(errors, field, error, own_text(location));
            assert(records(errors@) =~= records(old(errors)@) + schedule_errors(
                schedule,
                slice_text(location),
            ));
            false
        },
        None => {
            proof {
                lemma_found_none(records(errors@));
            }
            true
        },
    }
}


/// The findings about an optional latency configuration.
pub open spec fn optional_latency_errors(latency: Option<LatencyConfig>, location: Option<Seq<char>>)
    -> Seq<ErrorRecord> {
    match latency {
        Some(latency) => distribution_errors(latency.distribution, latency.params, location),
        None => Seq::empty(),
    }
}

fn validate_optional_latency(
    latency: &Option<LatencyConfig>,
    errors: &mut Vec<ValidationError>,
    location: Option<String>,
)
    ensures
        records(final(errors)@) == records(old(errors)@) + optional_latency_errors(
            *latency,
            text_of(location),
        ),
{
    match latency {
        Some(latency) => {
            validate_latency(latency, errors, location);
        },
        None => {
            proof {
                lemma_found_none(records(errors@));
            }
        },
    }
}

/// The findings about an optional error profile.
pub open spec fn optional_profile_errors(profile: Option<ErrorProfile>, location: Option<Seq<char>>)
    -> Seq<ErrorRecord> {
    match profile {
        Some(profile) => error_profile_errors(&profile, location),
        None => Seq::empty(),
    }
}

fn validate_optional_profile(
    profile: Option<&ErrorProfile>,
    errors: &mut Vec<ValidationError>,
    location: Option<String>,
)
    ensures
        records(final(errors)@) == records(old(errors)@) + optional_profile_errors(
            owned(profile),
            text_of(location),
        ),
{
    match profile {
        Some(profile) => {
            validate_error_profile(profile, errors, location);
        },
        None => {
            proof {
                lemma_found_none(records(errors@));
            }
        },
    }
}

/// The findings about an optional ramp of the rule that `prefix` names.
pub open spec fn optional_ramp_errors(
    ramp: Option<RampConfig>,
    prefix: Seq<char>,
    location: Option<Seq<char>>,
) -> Seq<ErrorRecord> {
    match ramp {
        Some(ramp) => ramp_errors(&ramp, prefix, location),
        None => Seq::empty(),
    }
}

fn validate_optional_ramp(
    ramp: &Option<RampConfig>,
    prefix: &str,
    errors: &mut Vec<ValidationError>,
    location: Option<String>,
)
    ensures
        records(final(errors)@) == records(old(errors)@) + optional_ramp_errors(
            *ramp,
            prefix@,
            text_of(location),
        ),
{
    match ramp {
        Some(ramp) => {
            validate_ramp(ramp, prefix, errors, location);
        },
        None => {
            proof {
                lemma_found_none(records(errors@));
            }
        },
    }
}

/// Whether a window takes part in the rules that relate windows: its
/// schedule breaks no rule.
pub open spec fn window_sound(window: &BehaviorWindow) -> bool {
    schedule_problem(&window.schedule) is None
}

/// The scope keys of the sound recurring windows among the first `count`.
pub open spec fn recurring_keys(windows: Seq<BehaviorWindow>, count: nat) -> Seq<Seq<char>>
    decreases count,
{
    if count == 0 {
        Seq::empty()
    } else {
        let window = windows[count - 1];
        let rest = recurring_keys(windows, (count - 1) as nat);
        if window_sound(&window) && window.schedule.mode == ScheduleMode::Recurring && scope_key(
            &window.scope,
        ) is Some {
            rest.push(scope_key(&window.scope)->0)
        } else {
            rest
        }
    }
}

/// The span in which a fixed window is active: from its start offset for
/// the length of its duration.
pub open spec fn fixed_span(window: &BehaviorWindow, key: Seq<char>) -> FixedSpan {
    let start = match window.schedule.start_offset_ms {
        Some(start) => start.raw as int,
        None => 0,
    };
    FixedSpan { scope: key, start, end: start + window.schedule.duration_ms.raw }
}

/// The spans of the sound fixed windows with a scope key among the first
/// `count`, in the order of declaration.
pub open spec fn fixed_spans(windows: Seq<BehaviorWindow>, count: nat) -> Seq<FixedSpan>
    decreases count,
{
    if count == 0 {
        Seq::empty()
    } else {
        let window = windows[count - 1];
        let rest = fixed_spans(windows, (count - 1) as nat);
        if window_sound(&window) && window.schedule.mode == ScheduleMode::Fixed && scope_key(
            &window.scope,
        ) is Some {
            rest.push(fixed_span(&window, scope_key(&window.scope)->0))
        } else {
            rest
        }
    }
}

/// The message about the window at `index` whose scope has no key.
pub open spec fn window_scope_message(index: nat) -> Seq<char> {
    "window "@ + decimal_digits(index) + " scope is invalid"@
}

/// The findings about the parts of a sound window at `index`, located by
/// its scope key: valid overrides, an override profile for the additive
/// mix, no earlier recurring window of the same scope, a valid ramp, and a
/// scope that has a key.
pub open spec fn window_detail_errors(windows: Seq<BehaviorWindow>, index: int) -> Seq<
    ErrorRecord,
> {
    let window = windows[index];
    let key = scope_key(&window.scope);
    optional_latency_errors(window.latency_override, key) + optional_profile_errors(
        window.error_profile_override,
        key,
    ) + found_if(
        window.error_mix == ErrorMix::Additive && window.error_profile_override is None,
        record(
            "behavior_windows.error_profile_override"@,
            "error_profile_override required for additive mix"@,
            key,
        ),
    ) + found_if(
        window.schedule.mode == ScheduleMode::Recurring && key is Some && recurring_keys(
            windows,
            index as nat,
        ).contains(key->0),
        record(
            "behavior_windows.schedule"@,
            "multiple recurring windows for the same scope"@,
            key,
        ),
    ) + optional_ramp_errors(window.ramp, "behavior_windows.ramp"@, key) + found_if(
        key is None,
        record("behavior_windows.scope"@, window_scope_message(index as nat), None),
    )
}

/// The findings about the window at `index`: those about its scope and its
/// schedule and, where the schedule is sound, those about its parts.
pub open spec fn window_errors(
    windows: Seq<BehaviorWindow>,
    index: int,
    group_ids: Seq<Seq<char>>,
    endpoint_ids: Seq<Seq<char>>,
) -> Seq<ErrorRecord> {
    let window = windows[index];
    scope_errors(&window.scope, group_ids, endpoint_ids) + schedule_errors(
        &window.schedule,
        scope_key(&window.scope),
    ) + (if window_sound(&window) {
        window_detail_errors(windows, index)
    } else {
        Seq::empty()
    })
}

/// The findings about the first `count` windows, each taken alone and
/// against the windows before it.
pub open spec fn windows_errors(
    windows: Seq<BehaviorWindow>,
    count: nat,
    group_ids: Seq<Seq<char>>,
    endpoint_ids: Seq<Seq<char>>,
) -> Seq<ErrorRecord>
    decreases count,
{
    if count == 0 {
        Seq::empty()
    } else {
        windows_errors(windows, (count - 1) as nat, group_ids, endpoint_ids) + window_errors(
            windows,
            count - 1,
            group_ids,
            endpoint_ids,
        )
    }
}

/// The findings about the behaviour windows of a configuration: those about
/// each window, then those about fixed windows of one scope that overlap.
pub open spec fn behavior_windows_errors(
    windows: Seq<BehaviorWindow>,
    group_ids: Seq<Seq<char>>,
    endpoint_ids: Seq<Seq<char>>,
) -> Seq<ErrorRecord> {
    windows_errors(windows, windows.len(), group_ids, endpoint_ids) + overlap_errors(
        fixed_spans(windows, windows.len()),
    )
}

fn slice_of(text: &Option<String>) -> (r: Option<&str>)
    ensures
        slice_text(r) == text_of(*text),
{
    match text {
        Some(s) => Some(s.as_str()),
        None => None,
    }
}

fn validate_window_details(
    windows: &Vec<BehaviorWindow>,
    index: usize,
    key: &Option<String>,
    seen_recurring: &Vec<String>,
    errors: &mut Vec<ValidationError>,
)
    requires
        index < windows@.len(),
        text_of(*key) == scope_key(&windows@[index as int].scope),
        texts(seen_recurring@) == recurring_keys(windows@, index as nat),
    ensures
        records(final(errors)@) == records(old(errors)@) + window_detail_errors(
            windows@,
            index as int,
        ),
{
    let ghost base = records(errors@);
    let ghost place = text_of(*key);
    let window = &windows[index];
    validate_optional_latency(&window.latency_override, errors, copy_text(key));
    let ghost found1 = optional_latency_errors(window.latency_override, place);
    let profile = window.error_profile_override.as_ref();
    validate_optional_profile(profile, errors, copy_text(key));
    let ghost more = optional_profile_errors(window.error_profile_override, place);
    let ghost found2 = found1 + more;
    proof {
        assert(owned(profile) == window.error_profile_override);
        lemma_found_more(base, found1, more);
    }
    report(
        errors,
        window.error_mix == ErrorMix::Additive && window.error_profile_override.is_none(),
        "behavior_windows.error_profile_override",
        "error_profile_override required for additive mix",
        copy_text(key),
    );
    let ghost more = found_if(
        window.error_mix == ErrorMix::Additive && window.error_profile_override is None,
        record(
            "behavior_windows.error_profile_override"@,
            "error_profile_override required for additive mix"@,
            place,
        ),
    );
    let ghost found3 = found2 + more;
    proof {
        lemma_found_more(base, found2, more);
    }
    let repeated = match key {
        Some(key) => window.schedule.mode == ScheduleMode::Recurring && contains_text(
            seen_recurring,
            key,
        ),
        None => false,
    };
    report(
        errors,
        repeated,
        "behavior_windows.schedule",
        "multiple recurring windows for the same scope",
        copy_text(key),
    );
    let ghost more = found_if(
        window.schedule.mode == ScheduleMode::Recurring && place is Some && recurring_keys(
            windows@,
            index as nat,
        ).contains(place->0),
        record(
            "behavior_windows.schedule"@,
            "multiple recurring windows for the same scope"@,
            place,
        ),
    );
    let ghost found4 = found3 + more;
    proof {
        lemma_found_more(base, found3, more);
    }
    validate_optional_ramp(&window.ramp, "behavior_windows.ramp", errors, copy_text(key));
    let ghost more = optional_ramp_errors(window.ramp, "behavior_windows.ramp"@, place);
    let ghost found5 = found4 + more;
    proof {
        lemma_found_more(base, found4, more);
    }
    let digits = decimal_text(index);
    let message = join3("window ", digits.as_str(), " scope is invalid");
    report(errors, key.is_none(), "behavior_windows.scope", message.as_str(), None);
    let ghost more = found_if(
        place is None,
        record("behavior_windows.scope"@, window_scope_message(index as nat), None),
    );
    proof {
        lemma_found_more(base, found5, more);
        assert(found5 + more == window_detail_errors(windows@, index as int));
    }
}

fn validate_window(
    windows: &Vec<BehaviorWindow>,
    index: usize,
    group_ids: &Vec<String>,
    endpoint_ids: &Vec<String>,
    seen_recurring: &mut Vec<String>,
    fixed: &mut Vec<FixedEntry>,
    errors: &mut Vec<ValidationError>,
)
    requires
        index < windows@.len(),
        texts(old(seen_recurring)@) == recurring_keys(windows@, index as nat),
        spans(old(fixed)@) == fixed_spans(windows@, index as nat),
    ensures
        texts(final(seen_recurring)@) == recurring_keys(windows@, (index + 1) as nat),
        spans(final(fixed)@) == fixed_spans(windows@, (index + 1) as nat),
        records(final(errors)@) == records(old(errors)@) + window_errors(
            windows@,
            index as int,
            texts(group_ids@),
            texts(endpoint_ids@),
        ),
{
    let ghost base = records(errors@);
    let window = &windows[index];
    let key = validate_scope(&window.scope, group_ids, endpoint_ids, errors);
    let ghost found1 = scope_errors(&window.scope, texts(group_ids@), texts(endpoint_ids@));
    let sound = validate_schedule(&window.schedule, errors, slice_of(&key));
    let ghost more = schedule_errors(&window.schedule, text_of(key));
    let ghost found2 = found1 + more;
    proof {
        lemma_found_more(base, found1, more);
    }
    if !sound {
        proof {
            lemma_found_none(found2);
            lemma_found_none(base + found2);
        }
        return ;
    }
    validate_window_details(windows, index, &key, seen_recurring, errors);
    proof {
        lemma_found_more(base, found2, window_detail_errors(windows@, index as int));
    }
    if let Some(key) = key {
        match window.schedule.mode {
            ScheduleMode::Fixed => {
                let start: i128 = match window.schedule.start_offset_ms {
                    Some(start) => start.raw as i128,
                    None => 0,
                };
                let end: i128 = start + window.schedule.duration_ms.raw as i128;
                fixed.push(FixedEntry { scope: key, start, end });
                assert(spans(fixed@) =~= spans(old(fixed)@).push(fixed_span(window, key@)));
            },
            ScheduleMode::Recurring => {
                seen_recurring.push(key);
                assert(texts(seen_recurring@) =~= texts(old(seen_recurring)@).push(key@));
            },
        }
    }
}

/// The ids of the groups, in order.
pub fn collect_group_ids(groups: &Vec<EndpointGroup>) -> (ids: Vec<String>)
    ensures
        texts(ids@) == group_ids_of(groups@),
{
    let mut ids: Vec<String> = Vec::new();
    let mut i: usize = 0;
    assert(texts(ids@) =~= group_ids_of(groups@).subrange(0, 0));
    while i < groups.len()
        invariant
            i <= groups@.len(),
            texts(ids@) == group_ids_of(groups@).subrange(0, i as int),
        decreases groups@.len() - i,
    {
        let ghost earlier = ids@;
        ids.push(groups[i].id.clone());
        proof {
            lemma_texts_grow(group_ids_of(groups@), i as int, earlier, ids@);
        }
        i += 1;
    }
    assert(group_ids_of(groups@).subrange(0, groups@.len() as int) =~= group_ids_of(groups@));
    ids
}

/// Checks the behaviour windows, each alone and against the others.
pub fn validate_behavior_windows(
    windows: &Vec<BehaviorWindow>,
    groups: &Vec<EndpointGroup>,
    endpoint_ids: &Vec<String>,
    errors: &mut Vec<ValidationError>,
)
    ensures
        records(final(errors)@) == records(old(errors)@) + behavior_windows_errors(
            windows@,
            group_ids_of(groups@),
            texts(endpoint_ids@),
        ),
{
    let ghost base = records(errors@);
    let group_ids = collect_group_ids(groups);
    let mut fixed: Vec<FixedEntry> = Vec::new();
    let mut seen_recurring: Vec<String> = Vec::new();
    let mut index: usize = 0;
    proof {
        lemma_found_none(base);
        assert(texts(seen_recurring@) =~= recurring_keys(windows@, 0));
        assert(spans(fixed@) =~= fixed_spans(windows@, 0));
    }
    while index < windows.len()
        invariant
            index <= windows@.len(),
            texts(group_ids@) == group_ids_of(groups@),
            texts(seen_recurring@) == recurring_keys(windows@, index as nat),
            spans(fixed@) == fixed_spans(windows@, index as nat),
            records(errors@) == base + windows_errors(
                windows@,
                index as nat,
                group_ids_of(groups@),
                texts(endpoint_ids@),
            ),
        decreases windows@.len() - index,
    {
        validate_window(
            windows,
            index,
            &group_ids,
            endpoint_ids,
            &mut seen_recurring,
            &mut fixed,
            errors,
        );
        proof {
            lemma_found_more(
                base,
                windows_errors(
                    windows@,
                    index as nat,
                    group_ids_of(groups@),
                    texts(endpoint_ids@),
                ),
                window_errors(
                    windows@,
                    index as int,
                    group_ids_of(groups@),
                    texts(endpoint_ids@),
                ),
            );
        }
        index += 1;
    }
    report_overlaps(fixed, errors);
    proof {
        lemma_found_more(
            base,
            windows_errors(
                windows@,
                windows@.len(),
                group_ids_of(groups@),
                texts(endpoint_ids@),
            ),
            overlap_errors(fixed_spans(windows@, windows@.len())),
        );
    }
}


/// The findings about the error spike of a burst.
pub open spec fn spike_errors(spike: Option<ErrorSpike>, location: Option<Seq<char>>) -> Seq<
    ErrorRecord,
> {
    match spike {
        Some(spike) => error_profile_errors(&spike.error_profile, location),
        None => Seq::empty(),
    }
}

/// The findings about one burst event, located by its scope key: a valid
/// scope, a positive duration and period, a jitter between zero and the gap
/// that the duration leaves in the period, a duration within the period,
/// valid spikes, a valid ramp, and a scope that has a key.
pub open spec fn burst_errors(
    burst: &BurstEvent,
    group_ids: Seq<Seq<char>>,
    endpoint_ids: Seq<Seq<char>>,
) -> Seq<ErrorRecord> {
    let key = scope_key(&burst.scope);
    let every = burst.frequency.every_ms.raw;
    let jitter = burst.frequency.jitter_ms;
    scope_errors(&burst.scope, group_ids, endpoint_ids) + found_if(
        burst.duration_ms.raw <= 0,
        record("burst_events.duration_ms"@, "duration_ms must be > 0"@, key),
    ) + found_if(
        every <= 0,
        record("burst_events.frequency.every_ms"@, "every_ms must be > 0"@, key),
    ) + found_if(
        jitter is Some && jitter->0.raw < 0,
        record("burst_events.frequency.jitter_ms"@, "jitter_ms must be >= 0"@, key),
    ) + found_if(
        jitter is Some && jitter->0.raw > 0 && jitter->0.raw > every - burst.duration_ms.raw,
        record(
            "burst_events.frequency.jitter_ms"@,
            "jitter_ms must be <= every_ms - duration_ms"@,
            key,
        ),
    ) + found_if(
        burst.duration_ms.raw > every,
        record("burst_events.duration_ms"@, "duration_ms must be <= every_ms"@, key),
    ) + optional_latency_errors(burst.latency_spike, key) + spike_errors(burst.error_spike, key)
        + optional_ramp_errors(burst.ramp, "burst_events.ramp"@, key) + found_if(
        key is None,
        record("burst_events.scope"@, "scope is invalid"@, None),
    )
}

/// The findings about the first `count` burst events, in order.
pub open spec fn burst_events_errors(
    bursts: Seq<BurstEvent>,
    count: nat,
    group_ids: Seq<Seq<char>>,
    endpoint_ids: Seq<Seq<char>>,
) -> Seq<ErrorRecord>
    decreases count,
{
    if count == 0 {
        Seq::empty()
    } else {
        burst_events_errors(bursts, (count - 1) as nat, group_ids, endpoint_ids) + burst_errors(
            &bursts[count - 1],
            group_ids,
            endpoint_ids,
        )
    }
}

fn validate_spike(
    spike: &Option<ErrorSpike>,
    errors: &mut Vec<ValidationError>,
    location: Option<String>,
)
    ensures
        records(final(errors)@) == records(old(errors)@) + spike_errors(*spike, text_of(location)),
{
    match spike {
        Some(spike) => {
            validate_error_profile(&spike.error_profile, errors, location);
        },
        None => {
            proof {
                lemma_found_none(records(errors@));
            }
        },
    }
}

fn validate_burst(
    burst: &BurstEvent,
    group_ids: &Vec<String>,
    endpoint_ids: &Vec<String>,
    errors: &mut Vec<ValidationError>,
)
    ensures
        records(final(errors)@) == records(old(errors)@) + burst_errors(
            burst,
            texts(group_ids@),
            texts(endpoint_ids@),
        ),
{
    let ghost base = records(errors@);
    let key = validate_scope(&burst.scope, group_ids, endpoint_ids, errors);
    let ghost place = text_of(key);
    let ghost found1 = scope_errors(&burst.scope, texts(group_ids@), texts(endpoint_ids@));
    let every: i64 = burst.frequency.every_ms.raw;
    let duration: i64 = burst.duration_ms.raw;
    report(
        errors,
        duration <= 0,
        "burst_events.duration_ms",
        "duration_ms must be > 0",
        copy_text(&key),
    );
    let ghost more = found_if(
        duration <= 0,
        record("burst_events.duration_ms"@, "duration_ms must be > 0"@, place),
    );
    let ghost found2 = found1 + more;
    proof {
        lemma_found_more(base, found1, more);
    }
    report(
        errors,
        every <= 0,
        "burst_events.frequency.every_ms",
        "every_ms must be > 0",
        copy_text(&key),
    );
    let ghost more = found_if(
        every <= 0,
        record("burst_events.frequency.every_ms"@, "every_ms must be > 0"@, place),
    );
    let ghost found3 = found2 + more;
    proof {
        lemma_found_more(base, found2, more);
    }
    let negative_jitter = match burst.frequency.jitter_ms {
        Some(jitter) => jitter.raw < 0,
        None => false,
    };
    report(
        errors,
        negative_jitter,
        "burst_events.frequency.jitter_ms",
        "jitter_ms must be >= 0",
        copy_text(&key),
    );
    let ghost jitter = burst.frequency.jitter_ms;
    let ghost more = found_if(
        jitter is Some && jitter->0.raw < 0,
        record("burst_events.frequency.jitter_ms"@, "jitter_ms must be >= 0"@, place),
    );
    let ghost found4 = found3 + more;
    proof {
        lemma_found_more(base, found3, more);
    }
    let wide_jitter = match burst.frequency.jitter_ms {
        Some(jitter) => jitter.raw > 0 && (jitter.raw as i128) > (every as i128) - (
        duration as i128),
        None => false,
    };
    report(
        errors,
        wide_jitter,
        "burst_events.frequency.jitter_ms",
        "jitter_ms must be <= every_ms - duration_ms",
        copy_text(&key),
    );
    let ghost more = found_if(
        jitter is Some && jitter->0.raw > 0 && jitter->0.raw > every - duration,
        record(
            "burst_events.frequency.jitter_ms"@,
            "jitter_ms must be <= every_ms - duration_ms"@,
            place,
        ),
    );
    let ghost found5 = found4 + more;
    proof {
        lemma_found_more(base, found4, more);
    }
    report(
        errors,
        duration > every,
        "burst_events.duration_ms",
        "duration_ms must be <= every_ms",
        copy_text(&key),
    );
    let ghost more = found_if(
        duration > every,
        record("burst_events.duration_ms"@, "duration_ms must be <= every_ms"@, place),
    );
    let ghost found6 = found5 + more;
    proof {
        lemma_found_more(base, found5, more);
    }
    validate_optional_latency(&burst.latency_spike, errors, copy_text(&key));
    let ghost more = optional_latency_errors(burst.latency_spike, place);
    let ghost found7 = found6 + more;
    proof {
        lemma_found_more(base, found6, more);
    }
    validate_spike(&burst.error_spike, errors, copy_text(&key));
    let ghost more = spike_errors(burst.error_spike, place);
    let ghost found8 = found7 + more;
    proof {
        lemma_found_more(base, found7, more);
    }
    validate_optional_ramp(&burst.ramp, "burst_events.ramp", errors, copy_text(&key));
    let ghost more = optional_ramp_errors(burst.ramp, "burst_events.ramp"@, place);
    let ghost found9 = found8 + more;
    proof {
        lemma_found_more(base, found8, more);
    }
    report(errors, key.is_none(), "burst_events.scope", "scope is invalid", None);
    let ghost more = found_if(
        place is None,
        record("burst_events.scope"@, "scope is invalid"@, None),
    );
    proof {
        lemma_found_more(base, found9, more);
        assert(found9 + more == burst_errors(burst, texts(group_ids@), texts(endpoint_ids@)));
    }
}

/// Checks the burst events.
pub fn validate_burst_events(
    bursts: &Vec<BurstEvent>,
    groups: &Vec<EndpointGroup>,
    endpoint_ids: &Vec<String>,
    errors: &mut Vec<ValidationError>,
)
    ensures
        records(final(errors)@) == records(old(errors)@) + burst_events_errors(
            bursts@,
            bursts@.len(),
            group_ids_of(groups@),
            texts(endpoint_ids@),
        ),
{
    let ghost base = records(errors@);
    let group_ids = collect_group_ids(groups);
    let mut index: usize = 0;
    proof {
        lemma_found_none(base);
    }
    while index < bursts.len()
        invariant
            index <= bursts@.len(),
            texts(group_ids@) == group_ids_of(groups@),
            records(errors@) == base + burst_events_errors(
                bursts@,
                index as nat,
                group_ids_of(groups@),
                texts(endpoint_ids@),
            ),
        decreases bursts@.len() - index,
    {
        validate_burst(&bursts[index], &group_ids, endpoint_ids, errors);
        proof {
            lemma_found_more(
                base,
                burst_events_errors(
                    bursts@,
                    index as nat,
                    group_ids_of(groups@),
                    texts(endpoint_ids@),
                ),
                burst_errors(&bursts@[index as int], group_ids_of(groups@), texts(endpoint_ids@)),
            );
        }
        index += 1;
    }
}


/// Whether a window is one whose span the validation holds against the
/// others: a fixed window with a sound schedule and a scope key.
pub open spec fn keyed_fixed(window: &BehaviorWindow) -> bool {
    &&& window_sound(window)
    &&& window.schedule.mode == ScheduleMode::Fixed
    &&& scope_key(&window.scope) is Some
}

/// The spans of the first windows grow with the windows, and the span of a
/// keyed fixed window stands among them where the spans before it end.
proof fn lemma_fixed_span_listed(windows: Seq<BehaviorWindow>, count: nat, index: int)
    requires
        0 <= index < count <= windows.len(),
        keyed_fixed(&windows[index]),
    ensures
        fixed_spans(windows, index as nat).len() < fixed_spans(windows, count).len(),
        fixed_spans(windows, count)[fixed_spans(windows, index as nat).len() as int] == fixed_span(
            &windows[index],
            scope_key(&windows[index].scope)->0,
        ),
    decreases count,
{
    if index < count - 1 {
        lemma_fixed_span_listed(windows, (count - 1) as nat, index);
    }
}

/// Every listed span of a window ends after it starts.
proof fn lemma_fixed_spans_proper(windows: Seq<BehaviorWindow>, count: nat)
    requires
        count <= windows.len(),
    ensures
        proper(fixed_spans(windows, count)),
    decreases count,
{
    if count > 0 {
        lemma_fixed_spans_proper(windows, (count - 1) as nat);
        let earlier = fixed_spans(windows, (count - 1) as nat);
        let listed = fixed_spans(windows, count);
        assert forall|i: int| 0 <= i < listed.len() implies (#[trigger] listed[i]).start
            < listed[i].end by {
            if i < earlier.len() {
                assert(listed[i] == earlier[i]);
            }
        }
    }
}

/// Where the validation finds no two fixed windows of one scope that
/// overlap, there are none: of every two fixed windows with a sound
/// schedule and the same scope key one has ended before the other starts,
/// and at no time are both active.
pub proof fn lemma_fixed_windows_apart(
    windows: Seq<BehaviorWindow>,
    first: int,
    second: int,
    elapsed: int,
)
    requires
        overlap_errors(fixed_spans(windows, windows.len())).len() == 0,
        0 <= first < second < windows.len(),
        keyed_fixed(&windows[first]),
        keyed_fixed(&windows[second]),
        scope_key(&windows[first].scope) == scope_key(&windows[second].scope),
    ensures
        fixed_range(&windows[first].schedule).1 <= fixed_range(&windows[second].schedule).0
            || fixed_range(&windows[second].schedule).1 <= fixed_range(
            &windows[first].schedule,
        ).0,
        !(window_active(&windows[first], elapsed) && window_active(&windows[second], elapsed)),
{
    let listed = fixed_spans(windows, windows.len());
    lemma_fixed_spans_proper(windows, windows.len());
    lemma_fixed_span_listed(windows, windows.len(), first);
    lemma_fixed_span_listed(windows, windows.len(), second);
    lemma_fixed_span_listed(windows, second as nat, first);
    let p = fixed_spans(windows, first as nat).len() as int;
    let q = fixed_spans(windows, second as nat).len() as int;
    assert(same_scope(listed[p], listed[q]));
    lemma_no_overlap_means_apart(listed, p, q);
}

/// Where the validation of the behaviour windows has no findings, no two
/// fixed windows of one scope overlap.
pub proof fn lemma_accepted_windows_apart(
    windows: Seq<BehaviorWindow>,
    group_ids: Seq<Seq<char>>,
    endpoint_ids: Seq<Seq<char>>,
    first: int,
    second: int,
    elapsed: int,
)
    requires
        behavior_windows_errors(windows, group_ids, endpoint_ids).len() == 0,
        0 <= first < second < windows.len(),
        keyed_fixed(&windows[first]),
        keyed_fixed(&windows[second]),
        scope_key(&windows[first].scope) == scope_key(&windows[second].scope),
    ensures
        !(window_active(&windows[first], elapsed) && window_active(&windows[second], elapsed)),
{
    lemma_fixed_windows_apart(windows, first, second, elapsed);
}

} // verus!
