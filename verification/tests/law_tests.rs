use std::collections::hash_map::DefaultHasher;
use std::hash::{Hash, Hasher};
use std::sync::Arc;
use web_simulant::bench::{error_due, AppState};
use web_simulant::config::parser::{both_failed, first_guess, format_for_content_type, other_format, Format};
use web_simulant::config::error::ConfigError;
use web_simulant::config::schema::{
    default_body_match, default_error_mix, default_headers, distribution_name, BehaviorSchedule,
    BehaviorScope, BehaviorWindow, BodyMatchType, BurstEvent, BurstFrequency, Configuration,
    DistributionParams, DistributionType, Endpoint, ErrorMix, ErrorProfile, HttpMethod,
    LatencyConfig, Metadata, RampConfig, RampCurve, RateLimit, Response, ScheduleMode,
};
use web_simulant::config::validator::{is_valid_status, method_to_str};
use web_simulant::decimal::{Decimal, Delay};
use web_simulant::engine::behavior::{
    active_burst, active_window, burst_key, burst_range, elapsed_ms, hash_occurrence,
    jitter_for_burst, jitter_for_window, ramp_factor, schedule_range, smoothstep, window_key,
    EndpointBehaviors,
};
use web_simulant::engine::registry::EndpointRegistry;
use web_simulant::limiter::TokenBucket;
use web_simulant::text::{
    bytes_contain, bytes_equal, char_is_white_space, decimal_text, join2, join3,
    text_begins_with_slash, text_equal, text_is_blank,
};

fn whole(n: i32) -> Decimal {
    Decimal::from_int(n)
}

fn millionths(n: i64) -> Decimal {
    Decimal::from_millionths(n)
}

fn endpoint(id: &str, method: HttpMethod, path: &str) -> Endpoint {
    Endpoint {
        id: id.to_string(),
        method,
        path: path.to_string(),
        request: None,
        latency: LatencyConfig {
            distribution: DistributionType::Fixed,
            params: DistributionParams::Fixed { delay_ms: whole(1) },
        },
        response: Response { status: 200, headers: Vec::new(), body: "{}".to_string() },
        error_profile: ErrorProfile::default(),
        rate_limit: None,
        bandwidth_cap: None,
    }
}

fn config(endpoints: Vec<Endpoint>) -> Configuration {
    Configuration {
        version: "1.0".to_string(),
        metadata: Metadata::default(),
        endpoints,
        endpoint_groups: vec![],
        behavior_windows: vec![],
        burst_events: vec![],
        workflows: vec![],
    }
}

fn schedule(mode: ScheduleMode, duration_ms: i32) -> BehaviorSchedule {
    BehaviorSchedule {
        mode,
        start_offset_ms: None,
        duration_ms: whole(duration_ms),
        every_ms: None,
        jitter_ms: None,
        max_occurrences: None,
        min_delay_ms: None,
    }
}

fn window(id: Option<&str>, schedule: BehaviorSchedule) -> BehaviorWindow {
    BehaviorWindow {
        id: id.map(|s| s.to_string()),
        scope: BehaviorScope { endpoint_id: None, group_id: None, global: true },
        schedule,
        ramp: None,
        error_mix: ErrorMix::Override,
        latency_override: None,
        error_profile_override: None,
    }
}

fn fixed_window(start_ms: i32, duration_ms: i32) -> BehaviorWindow {
    let mut s = schedule(ScheduleMode::Fixed, duration_ms);
    s.start_offset_ms = Some(whole(start_ms));
    window(None, s)
}

fn recurring_window(id: &str, every_ms: i32, duration_ms: i32) -> BehaviorWindow {
    let mut s = schedule(ScheduleMode::Recurring, duration_ms);
    s.every_ms = Some(whole(every_ms));
    window(Some(id), s)
}

const MILLI: i128 = 1_000_000;

#[test]
fn registry_answers_exactly_the_configured_routes() {
    let routes = vec![
        (HttpMethod::Get, "/a"),
        (HttpMethod::Post, "/a"),
        (HttpMethod::Get, "/b"),
        (HttpMethod::Delete, "/c"),
    ];
    let endpoints: Vec<Endpoint> = routes
        .iter()
        .enumerate()
        .map(|(i, (method, path))| endpoint(&format!("e{}", i), *method, path))
        .collect();
    let mut registry = EndpointRegistry::new();
    registry.set_config(config(endpoints), 0);
    let methods = vec![
        HttpMethod::Get,
        HttpMethod::Post,
        HttpMethod::Put,
        HttpMethod::Delete,
        HttpMethod::Patch,
        HttpMethod::Head,
        HttpMethod::Options,
    ];
    for method in &methods {
        for path in ["/a", "/b", "/c", "/d", "/", "a"] {
            let configured = routes.iter().any(|(m, p)| m == method && *p == path);
            assert_eq!(registry.get(method, path).is_some(), configured);
        }
    }
}

#[test]
fn compiling_twice_answers_alike() {
    let build = || {
        let mut configuration = config(vec![
            endpoint("a", HttpMethod::Get, "/a"),
            endpoint("b", HttpMethod::Post, "/b"),
        ]);
        configuration.behavior_windows = vec![fixed_window(0, 10), recurring_window("r", 100, 10)];
        configuration
    };
    let mut first = EndpointRegistry::new();
    first.set_config(build(), 10);
    let mut second = EndpointRegistry::new();
    second.set_config(build(), 20);
    for method in [HttpMethod::Get, HttpMethod::Post, HttpMethod::Put] {
        for path in ["/a", "/b", "/c"] {
            let one = first.get(&method, path);
            let two = second.get(&method, path);
            assert_eq!(one.is_some(), two.is_some());
            if let (Some(one), Some(two)) = (one, two) {
                assert_eq!(one.endpoint.id, two.endpoint.id);
                assert_eq!(one.behaviors.windows.len(), two.behaviors.windows.len());
                assert_eq!(one.behaviors.windows[1].id, two.behaviors.windows[1].id);
                assert_eq!(one.loaded_at, Some(10));
                assert_eq!(two.loaded_at, Some(20));
            }
        }
    }
}

#[test]
fn admissions_stay_within_capacity_and_refill() {
    let second: u64 = 1_000_000_000;
    let mut bucket = TokenBucket::new(whole(10), Some(whole(5)), 0);
    let mut admitted = 0;
    let requests = 1000u64;
    for request in 0..requests {
        if bucket.try_take(request * 2 * second / requests) {
            admitted += 1;
        }
    }
    assert!(admitted <= 5 + 10 * 2);
    assert!(admitted >= 5 + 10 * 2 - 1);
}

#[test]
fn bucket_refills_by_fractions() {
    let mut bucket = TokenBucket::new(millionths(500_000), Some(whole(1)), 0);
    assert!(bucket.try_take(0));
    assert!(!bucket.try_take(1_999_999_999));
    assert!(!bucket.try_take(1_999_999_999));
    assert!(bucket.try_take(2_000_000_001));
    assert!(!bucket.try_take(3_000_000_000));
    let mut empty = TokenBucket::new(whole(-3), None, 0);
    assert!(!empty.try_take(0));
    assert!(!empty.try_take(u64::MAX));
    let mut steady = TokenBucket::new(whole(1), Some(whole(0)), 0);
    assert!(!steady.try_take(u64::MAX));
}

#[test]
fn disjoint_fixed_windows_share_no_instant() {
    let first = EndpointBehaviors { windows: vec![Arc::new(fixed_window(0, 100))], bursts: vec![] };
    let second =
        EndpointBehaviors { windows: vec![Arc::new(fixed_window(100, 50))], bursts: vec![] };
    for t in -10..200 {
        let in_first = active_window(&first, whole(t)).is_some();
        let in_second = active_window(&second, whole(t)).is_some();
        assert!(!(in_first && in_second));
        assert_eq!(in_first, (0..100).contains(&t));
        assert_eq!(in_second, (100..150).contains(&t));
    }
}

#[test]
fn first_declared_window_wins() {
    let behaviors = EndpointBehaviors {
        windows: vec![
            Arc::new(fixed_window(50, 10)),
            Arc::new(fixed_window(0, 100)),
            Arc::new(fixed_window(0, 200)),
        ],
        bursts: vec![],
    };
    assert_eq!(active_window(&behaviors, whole(55)), Some((0, whole(1))));
    assert_eq!(active_window(&behaviors, whole(60)), Some((1, whole(1))));
    assert_eq!(active_window(&behaviors, whole(100)), Some((2, whole(1))));
    assert_eq!(active_window(&behaviors, whole(200)), None);
}

fn ramp(up: i32, down: i32, curve: Option<RampCurve>) -> RampConfig {
    RampConfig { up_ms: Some(whole(up)), down_ms: Some(whole(down)), curve }
}

#[test]
fn ramp_rises_holds_and_falls() {
    let r = ramp(100, 200, None);
    let at = |t: i32| ramp_factor(whole(t), 1000 * MILLI, 2000 * MILLI, Some(&r));
    assert_eq!(at(1000), whole(0));
    assert_eq!(at(1025), millionths(250_000));
    assert_eq!(at(1050), millionths(500_000));
    assert_eq!(at(1100), whole(1));
    assert_eq!(at(1500), whole(1));
    assert_eq!(at(1800), whole(1));
    assert_eq!(at(1900), millionths(500_000));
    assert_eq!(at(1999), millionths(5_000));
    assert_eq!(at(900), whole(0));
    assert_eq!(ramp_factor(whole(1050), 1000 * MILLI, 2000 * MILLI, None), whole(1));
    assert_eq!(ramp_factor(whole(1050), 2000 * MILLI, 1000 * MILLI, Some(&r)), whole(1));
    let third = ramp(3, 0, None);
    assert_eq!(ramp_factor(whole(1), 0, 10 * MILLI, Some(&third)), millionths(333_333));
    let negative = ramp(-5, -5, None);
    assert_eq!(ramp_factor(whole(1), 0, 10 * MILLI, Some(&negative)), whole(1));
}

#[test]
fn ramp_has_no_jumps() {
    let r = ramp(100, 200, None);
    let mut last = ramp_factor(whole(1000), 1000 * MILLI, 2000 * MILLI, Some(&r));
    for t in 1001..2000 {
        let next = ramp_factor(whole(t), 1000 * MILLI, 2000 * MILLI, Some(&r));
        let step = next.raw - last.raw;
        assert!(step <= 10_000 && step >= -5_000, "jump at {}: {}", t, step);
        last = next;
    }
}

#[test]
fn s_curve_is_smooth_on_the_ramp() {
    let r = ramp(100, 0, Some(RampCurve::SCurve));
    let at = |t: i32| ramp_factor(whole(t), 0, 1000 * MILLI, Some(&r));
    assert_eq!(at(0), whole(0));
    assert_eq!(at(50), millionths(500_000));
    assert_eq!(at(25), millionths(156_250));
    assert_eq!(at(100), whole(1));
    assert_eq!(at(999), whole(1));
}

#[test]
fn smoothstep_maps_the_unit_interval_onto_itself() {
    assert_eq!(smoothstep(whole(0)), whole(0));
    assert_eq!(smoothstep(whole(1)), whole(1));
    assert_eq!(smoothstep(millionths(500_000)), millionths(500_000));
    assert_eq!(smoothstep(millionths(250_000)), millionths(156_250));
    assert_eq!(smoothstep(millionths(100_000)), millionths(28_000));
    assert_eq!(smoothstep(whole(-3)), whole(0));
    assert_eq!(smoothstep(whole(3)), whole(1));
    let mut last = whole(0);
    for v in 0..=1000 {
        let next = smoothstep(millionths(v * 1000));
        assert!(next >= last);
        assert!(next >= whole(0) && next <= whole(1));
        last = next;
    }
}

#[test]
fn jitter_repeats_for_the_same_occurrence() {
    let w = recurring_window("nightly", 1000, 100);
    let same = recurring_window("nightly", 500, 10);
    let size = whole(50);
    let mut differing = 0;
    for occurrence in 0..200u32 {
        let once = jitter_for_window(&w, occurrence, size);
        let again = jitter_for_window(&w, occurrence, size);
        let other = jitter_for_window(&same, occurrence, size);
        assert_eq!(once, again);
        assert_eq!(once, other);
        assert!(once >= -50 * MILLI && once < 50 * MILLI);
        if once != jitter_for_window(&w, occurrence + 1, size) {
            differing += 1;
        }
    }
    assert!(differing > 150);
    assert_eq!(jitter_for_window(&w, 3, whole(0)), 0);
    assert_eq!(jitter_for_window(&w, 3, whole(-1)), 0);
    assert_eq!(hash_occurrence("nightly", 3), hash_occurrence("nightly", 3));
    assert!(hash_occurrence("nightly", 3) != hash_occurrence("nightly", 4));
    assert!(hash_occurrence("nightly", 3) != hash_occurrence("nightlz", 3));
}

#[test]
fn rule_keys() {
    let mut w = fixed_window(0, 1);
    assert_eq!(window_key(&w), "global");
    w.scope = BehaviorScope {
        endpoint_id: Some("e".to_string()),
        group_id: Some("g".to_string()),
        global: false,
    };
    assert_eq!(window_key(&w), "endpoint:e");
    w.scope.endpoint_id = None;
    assert_eq!(window_key(&w), "group:g");
    w.scope.group_id = None;
    assert_eq!(window_key(&w), "window");
    w.id = Some("named".to_string());
    assert_eq!(window_key(&w), "named");
    let b = BurstEvent {
        id: None,
        scope: BehaviorScope { endpoint_id: None, group_id: None, global: false },
        frequency: BurstFrequency { every_ms: whole(10), jitter_ms: None },
        duration_ms: whole(1),
        ramp: None,
        latency_spike: None,
        error_spike: None,
    };
    assert_eq!(burst_key(&b), "burst");
    assert_eq!(jitter_for_burst(&b, 1, whole(0)), 0);
}

#[test]
fn recurring_schedule_occurrences() {
    let mut w = recurring_window("r", 1000, 100);
    w.schedule.min_delay_ms = Some(whole(500));
    w.schedule.max_occurrences = Some(2);
    let range = |t: i32| schedule_range(&w.schedule, whole(t), &w);
    assert_eq!(range(499), None);
    assert_eq!(range(500), Some((500 * MILLI, 600 * MILLI)));
    assert_eq!(range(1499), Some((500 * MILLI, 600 * MILLI)));
    assert_eq!(range(1500), Some((1500 * MILLI, 1600 * MILLI)));
    assert_eq!(range(2500), None);
    let behaviors = EndpointBehaviors { windows: vec![Arc::new(recurring_window("r", 1000, 100))], bursts: vec![] };
    assert_eq!(active_window(&behaviors, whole(3050)), Some((0, whole(1))));
    assert_eq!(active_window(&behaviors, whole(3100)), None);
    let mut broken = recurring_window("r", 0, 100);
    assert_eq!(schedule_range(&broken.schedule, whole(5), &broken), None);
    broken.schedule.every_ms = None;
    assert_eq!(schedule_range(&broken.schedule, whole(5), &broken), None);
    let f = fixed_window(7, 3);
    assert_eq!(schedule_range(&f.schedule, whole(100), &f), Some((7 * MILLI, 10 * MILLI)));
}

#[test]
fn jittered_start_stays_near_its_period() {
    let mut w = recurring_window("r", 1000, 100);
    w.schedule.jitter_ms = Some(whole(200));
    for k in 0..50 {
        let (start, end) = schedule_range(&w.schedule, whole(k * 1000 + 500), &w).unwrap();
        let base = (k as i128) * 1000 * MILLI;
        assert!(start >= base - 200 * MILLI && start < base + 200 * MILLI || start == 0);
        assert!(start >= 0);
        assert_eq!(end - start, 100 * MILLI);
    }
}

#[test]
fn burst_occurrences() {
    let b = BurstEvent {
        id: Some("b".to_string()),
        scope: BehaviorScope { endpoint_id: None, group_id: None, global: true },
        frequency: BurstFrequency { every_ms: whole(200), jitter_ms: None },
        duration_ms: whole(50),
        ramp: Some(ramp(10, 0, None)),
        latency_spike: None,
        error_spike: None,
    };
    assert_eq!(
        burst_range(&b.frequency, b.duration_ms, whole(450), &b),
        Some((400 * MILLI, 450 * MILLI))
    );
    let none = BurstFrequency { every_ms: whole(0), jitter_ms: None };
    let mut still = BurstEvent { frequency: none, ..b };
    assert_eq!(burst_range(&still.frequency, still.duration_ms, whole(450), &still), None);
    still.frequency.every_ms = whole(200);
    let behaviors = EndpointBehaviors { windows: vec![], bursts: vec![Arc::new(still)] };
    assert_eq!(active_burst(&behaviors, whole(405)), Some((0, millionths(500_000))));
    assert_eq!(active_burst(&behaviors, whole(449)), Some((0, whole(1))));
    assert_eq!(active_burst(&behaviors, whole(450)), None);
}

#[test]
fn elapsed_time_counts_whole_milliseconds() {
    assert_eq!(elapsed_ms(None, 5_000_000), whole(0));
    assert_eq!(elapsed_ms(Some(1_000_000), 5_999_999), whole(4));
    assert_eq!(elapsed_ms(Some(5_000_000), 1_000_000), whole(0));
    assert_eq!(elapsed_ms(Some(0), u64::MAX), Decimal::from_millionths(i64::MAX));
}

#[test]
fn decimals_and_delays() {
    assert_eq!(Decimal::from_int(-2).raw, -2_000_000);
    assert_eq!(Decimal::one(), whole(1));
    assert_eq!(Decimal::zero().raw, 0);
    assert_eq!(millionths(1_500_000).clamp_unit(), whole(1));
    assert_eq!(millionths(-1).clamp_unit(), whole(0));
    assert_eq!(millionths(250_000).clamp_unit(), millionths(250_000));
    assert_eq!(whole(-4).max_zero(), whole(0));
    assert_eq!(whole(4).max_zero(), whole(4));
    assert_eq!(millionths(1_500_000).as_delay(), Delay::from_nanos(1_500_000));
    assert_eq!(whole(-1).as_delay(), Delay::zero());
    assert_eq!(Delay::from_millis(3).as_nanos(), 3_000_000);
    assert!(Delay::zero().is_zero());
    assert!(!Delay::from_nanos(1).is_zero());
}

#[test]
fn texts() {
    assert_eq!(decimal_text(0), "0");
    assert_eq!(decimal_text(7), "7");
    assert_eq!(decimal_text(10), "10");
    assert_eq!(decimal_text(1234567890), "1234567890");
    assert_eq!(decimal_text(usize::MAX), usize::MAX.to_string());
    assert!(text_is_blank(""));
    assert!(text_is_blank(" \t\r\n\u{a0}\u{3000}"));
    assert!(!text_is_blank(" a "));
    assert!(!text_is_blank("\u{200b}"));
    for code in 0..0x3100u32 {
        if let Some(c) = char::from_u32(code) {
            assert_eq!(char_is_white_space(c), c.is_whitespace());
        }
    }
    assert!(text_begins_with_slash("/"));
    assert!(text_begins_with_slash("/a"));
    assert!(!text_begins_with_slash(""));
    assert!(!text_begins_with_slash("a/"));
    assert!(text_equal("a", "a"));
    assert!(!text_equal("a", "b"));
    assert_eq!(join2("a", "b"), "ab");
    assert_eq!(join3("a", "", "c"), "ac");
    assert!(bytes_contain(b"hello", b""));
    assert!(bytes_contain(b"", b""));
    assert!(!bytes_contain(b"", b"a"));
    assert!(bytes_contain(b"hello", b"llo"));
    assert!(bytes_contain(b"hello", b"hello"));
    assert!(!bytes_contain(b"hello", b"hello!"));
    assert!(!bytes_contain(b"hello", b"lol"));
    assert!(bytes_equal(b"ab", b"ab"));
    assert!(!bytes_equal(b"ab", b"ac"));
    assert!(!bytes_equal(b"ab", b"abc"));
}

#[test]
fn defaults_and_names() {
    assert_eq!(default_error_mix(), ErrorMix::Override);
    assert_eq!(default_body_match(), BodyMatchType::Any);
    assert_eq!(
        default_headers(),
        vec![("Content-Type".to_string(), "application/json".to_string())]
    );
    assert_eq!(distribution_name(&DistributionType::LogNormal), "log_normal");
    assert_eq!(distribution_name(&DistributionType::Fixed), "fixed");
    assert_eq!(method_to_str(&HttpMethod::Patch), "PATCH");
    assert!(is_valid_status(100));
    assert!(is_valid_status(599));
    assert!(!is_valid_status(99));
    assert!(!is_valid_status(600));
    let profile = ErrorProfile::default();
    assert_eq!(profile.rate, whole(0));
    assert!(profile.codes.is_empty() && profile.body.is_empty());
    assert!(!profile.error_in_payload && profile.payload_corruption.is_none());
    assert!(Metadata::default().name.is_none());
    let limit = RateLimit { requests_per_second: whole(1), burst: None };
    assert!(limit.burst.is_none());
}

#[test]
fn formats_are_guessed() {
    assert_eq!(first_guess("{ \"version\": \"1.0\" }"), Format::Json);
    assert_eq!(first_guess(" \n\t[1]"), Format::Json);
    assert_eq!(first_guess("version: \"1.0\"\n"), Format::Yaml);
    assert_eq!(first_guess(""), Format::Yaml);
    assert_eq!(first_guess("   "), Format::Yaml);
    assert_eq!(format_for_content_type("application/json"), Some(Format::Json));
    assert_eq!(format_for_content_type("application/x-yaml"), Some(Format::Yaml));
    assert_eq!(format_for_content_type("text/yml"), Some(Format::Yaml));
    assert_eq!(format_for_content_type("text/plain"), None);
    assert_eq!(format_for_content_type(""), None);
    assert_eq!(other_format(Format::Json), Format::Yaml);
    assert_eq!(other_format(Format::Yaml), Format::Json);
    match both_failed(Format::Json, "a", "b") {
        ConfigError::ParseError(reason) => {
            assert_eq!(reason, "JSON parse error: a; YAML parse error: b")
        }
        _ => panic!("a parse error expected"),
    }
    match both_failed(Format::Yaml, "a", "b") {
        ConfigError::ParseError(reason) => {
            assert_eq!(reason, "YAML parse error: a; JSON parse error: b")
        }
        _ => panic!("a parse error expected"),
    }
}

#[test]
fn benchmark_errors_come_in_a_pattern() {
    let mut state = AppState::new();
    assert_eq!(state.increment_requests(), 0);
    assert_eq!(state.increment_requests(), 1);
    assert_eq!(state.increment_requests(), 2);
    let quarter = millionths(250_000);
    let failed = (0..1000u64).filter(|count| error_due(*count, quarter)).count();
    assert_eq!(failed, 250);
    assert!(error_due(0, quarter));
    assert!(error_due(24, quarter));
    assert!(!error_due(25, quarter));
    assert!(error_due(100, quarter));
    assert!(!error_due(0, whole(0)));
    assert!(!error_due(0, whole(-1)));
    assert!(!error_due(0, millionths(9_999)));
    assert!(error_due(99, whole(1)));
}

#[test]
fn jitter_follows_the_hash_of_key_and_occurrence() {
    let w = recurring_window("nightly", 1000, 100);
    for occurrence in [0u32, 1, 2, 255, 256, 65_536, 16_777_216, u32::MAX] {
        let mut hasher = DefaultHasher::new();
        "nightly".to_string().hash(&mut hasher);
        occurrence.hash(&mut hasher);
        let hash = hasher.finish();
        assert_eq!(hash_occurrence("nightly", occurrence), hash);
        let step = (hash % 10_000) as i128;
        let expected = (2 * step - 10_000) * 50 * MILLI / 10_000;
        assert_eq!(jitter_for_window(&w, occurrence, whole(50)), expected);
    }
}

#[test]
fn control_plane_mod_test_placeholder() {
    assert!(true);
}

#[test]
fn ramp_changes_no_faster_than_its_slope() {
    for curve in [None, Some(RampCurve::Linear), Some(RampCurve::SCurve)] {
        let r = ramp(100, 200, curve);
        let at = |t: i32| ramp_factor(whole(t), 1000 * MILLI, 2000 * MILLI, Some(&r)).raw;
        assert_eq!(at(1000), 0);
        let times: Vec<i32> = (1000..2000).step_by(7).collect();
        for first in &times {
            for second in &times {
                if first > second {
                    continue;
                }
                let change = at(*second) - at(*first);
                let span = (*second - *first) as i64;
                let rise = span * 1_000_000 / 100 + 1;
                let fall = span * 1_000_000 / 200 + 1;
                assert!(at(*first) >= 0 && at(*first) <= 1_000_000);
                if curve == Some(RampCurve::SCurve) {
                    assert!(2 * change <= 3 * rise + 2 && 2 * change >= -(3 * fall + 2));
                } else {
                    assert!(change <= rise && change >= -fall);
                }
            }
        }
    }
}
