use web_simulant::config::error::{ConfigError, ValidationError};
use web_simulant::config::schema::{
    BehaviorSchedule, BehaviorScope, BehaviorWindow, BodyMatchType, BurstEvent, BurstFrequency,
    Configuration, CorruptionMode, DistributionParams, DistributionType, Endpoint, EndpointGroup,
    ErrorMix, ErrorProfile, HttpMethod, LatencyConfig, Metadata, MixtureComponent,
    PayloadCorruption, BandwidthCap, RampConfig, RateLimit, RequestMatch, Response, ScheduleMode,
};
use web_simulant::config::validator::validate;
use web_simulant::decimal::Decimal;

fn whole(n: i32) -> Decimal {
    Decimal::from_int(n)
}

fn millionths(n: i64) -> Decimal {
    Decimal::from_millionths(n)
}

fn base_response(status: u16) -> Response {
    Response { status, headers: Vec::new(), body: "{}".to_string() }
}

fn fixed(delay_ms: i32) -> LatencyConfig {
    LatencyConfig {
        distribution: DistributionType::Fixed,
        params: DistributionParams::Fixed { delay_ms: whole(delay_ms) },
    }
}

fn base_endpoint(id: &str, method: HttpMethod, path: &str, latency: LatencyConfig) -> Endpoint {
    Endpoint {
        id: id.to_string(),
        method,
        path: path.to_string(),
        request: None,
        latency,
        response: base_response(200),
        error_profile: ErrorProfile::default(),
        rate_limit: None,
        bandwidth_cap: None,
    }
}

fn base_config() -> Configuration {
    Configuration {
        version: "1.0".to_string(),
        metadata: Metadata::default(),
        endpoints: vec![base_endpoint("health", HttpMethod::Get, "/health", fixed(5))],
        endpoint_groups: vec![],
        behavior_windows: vec![],
        burst_events: vec![],
        workflows: vec![],
    }
}

fn validation_errors(config: &Configuration) -> Vec<ValidationError> {
    match validate(config) {
        Ok(_) => vec![],
        Err(ConfigError::ValidationError(_, errors)) => errors,
        Err(_) => vec![],
    }
}

fn global_scope() -> BehaviorScope {
    BehaviorScope { endpoint_id: None, group_id: None, global: true }
}

fn fixed_schedule(start_ms: i32, duration_ms: i32) -> BehaviorSchedule {
    BehaviorSchedule {
        mode: ScheduleMode::Fixed,
        start_offset_ms: Some(whole(start_ms)),
        duration_ms: whole(duration_ms),
        every_ms: None,
        jitter_ms: None,
        max_occurrences: None,
        min_delay_ms: None,
    }
}

fn recurring_schedule(every_ms: i32, duration_ms: i32) -> BehaviorSchedule {
    BehaviorSchedule {
        mode: ScheduleMode::Recurring,
        start_offset_ms: None,
        duration_ms: whole(duration_ms),
        every_ms: Some(whole(every_ms)),
        jitter_ms: None,
        max_occurrences: None,
        min_delay_ms: None,
    }
}

fn window(scope: BehaviorScope, schedule: BehaviorSchedule) -> BehaviorWindow {
    BehaviorWindow {
        id: None,
        scope,
        schedule,
        ramp: None,
        error_mix: ErrorMix::Override,
        latency_override: None,
        error_profile_override: None,
    }
}

fn burst(scope: BehaviorScope, every_ms: i32, duration_ms: i32) -> BurstEvent {
    BurstEvent {
        id: None,
        scope,
        frequency: BurstFrequency { every_ms: whole(every_ms), jitter_ms: None },
        duration_ms: whole(duration_ms),
        ramp: None,
        latency_spike: None,
        error_spike: None,
    }
}

#[test]
fn mod_test_placeholder() {
    assert!(true);
    assert!(validate(&base_config()).is_ok());
}

#[test]
fn test_validate_valid_config() {
    let config = base_config();
    assert!(validate(&config).is_ok());
}

#[test]
fn test_validate_duplicate_id() {
    let mut config = base_config();
    let latency = fixed(10);
    config.endpoints.push(base_endpoint("health", HttpMethod::Get, "/health2", latency));
    let errors = validation_errors(&config);
    assert!(errors.iter().any(|e| e.field == "endpoints.id"));
}

#[test]
fn test_validate_duplicate_method_path() {
    let mut config = base_config();
    let latency = fixed(10);
    config.endpoints.push(base_endpoint("health2", HttpMethod::Get, "/health", latency));
    let errors = validation_errors(&config);
    assert!(errors.iter().any(|e| e.field == "endpoints.method+path"));
}

#[test]
fn test_validate_version() {
    let mut config = base_config();
    config.version = "2.0".to_string();
    let errors = validation_errors(&config);
    assert!(errors.iter().any(|e| e.field == "version"));
}

#[test]
fn test_validate_empty_endpoints() {
    let mut config = base_config();
    config.endpoints.clear();
    let errors = validation_errors(&config);
    assert!(errors.iter().any(|e| e.field == "endpoints"));
}

#[test]
fn test_validate_path_prefix() {
    let mut config = base_config();
    config.endpoints[0].path = "health".to_string();
    let errors = validation_errors(&config);
    assert!(errors.iter().any(|e| e.field == "endpoints.path"));
}

#[test]
fn test_validate_response_status() {
    let mut config = base_config();
    config.endpoints[0].response.status = 99;
    let errors = validation_errors(&config);
    assert!(errors.iter().any(|e| e.field == "response.status"));
}

#[test]
fn test_validate_error_rate_range() {
    let mut config = base_config();
    config.endpoints[0].error_profile.rate = millionths(1_500_000);
    let errors = validation_errors(&config);
    assert!(errors.iter().any(|e| e.field == "error_profile.rate"));
}

#[test]
fn test_validate_error_rate_negative() {
    let mut config = base_config();
    config.endpoints[0].error_profile.rate = millionths(-100_000);
    let errors = validation_errors(&config);
    assert!(errors.iter().any(|e| e.field == "error_profile.rate"));
}

#[test]
fn test_validate_error_codes_required() {
    let mut config = base_config();
    config.endpoints[0].error_profile.rate = millionths(100_000);
    config.endpoints[0].error_profile.codes.clear();
    let errors = validation_errors(&config);
    assert!(errors.iter().any(|e| e.field == "error_profile.codes"));
}

#[test]
fn test_validate_error_codes_not_required_for_payload_error() {
    let mut config = base_config();
    config.endpoints[0].error_profile.rate = millionths(100_000);
    config.endpoints[0].error_profile.codes.clear();
    config.endpoints[0].error_profile.error_in_payload = true;
    assert!(validate(&config).is_ok());
}

#[test]
fn test_validate_payload_corruption_rate() {
    let mut config = base_config();
    config.endpoints[0].error_profile.payload_corruption = Some(PayloadCorruption {
        rate: whole(2),
        mode: CorruptionMode::Truncate,
        truncate_ratio: Some(millionths(500_000)),
        replacement: None,
    });
    let errors = validation_errors(&config);
    assert!(errors.iter().any(|e| e.field == "error_profile.payload_corruption.rate"));
}

#[test]
fn test_validate_payload_corruption_replace_requires_value() {
    let mut config = base_config();
    config.endpoints[0].error_profile.payload_corruption = Some(PayloadCorruption {
        rate: millionths(500_000),
        mode: CorruptionMode::Replace,
        truncate_ratio: None,
        replacement: None,
    });
    let errors = validation_errors(&config);
    assert!(errors.iter().any(|e| e.field == "error_profile.payload_corruption.replacement"));
}

#[test]
fn test_validate_rate_limit_requests_per_second() {
    let mut config = base_config();
    config.endpoints[0].rate_limit =
        Some(RateLimit { requests_per_second: whole(0), burst: Some(whole(5)) });
    let errors = validation_errors(&config);
    assert!(errors.iter().any(|e| e.field == "rate_limit.requests_per_second"));
}

#[test]
fn test_validate_rate_limit_burst() {
    let mut config = base_config();
    config.endpoints[0].rate_limit =
        Some(RateLimit { requests_per_second: whole(10), burst: Some(whole(-1)) });
    let errors = validation_errors(&config);
    assert!(errors.iter().any(|e| e.field == "rate_limit.burst"));
}

#[test]
fn test_validate_bandwidth_cap() {
    let mut config = base_config();
    config.endpoints[0].bandwidth_cap = Some(BandwidthCap { bytes_per_second: whole(0) });
    let errors = validation_errors(&config);
    assert!(errors.iter().any(|e| e.field == "bandwidth_cap.bytes_per_second"));
}

#[test]
fn test_validate_error_codes_invalid() {
    let mut config = base_config();
    config.endpoints[0].error_profile.rate = millionths(100_000);
    config.endpoints[0].error_profile.codes = vec![700];
    let errors = validation_errors(&config);
    assert!(errors.iter().any(|e| e.field == "error_profile.codes"));
}

#[test]
fn test_validate_latency_fixed_negative() {
    let mut config = base_config();
    config.endpoints[0].latency.params = DistributionParams::Fixed { delay_ms: whole(-1) };
    let errors = validation_errors(&config);
    assert!(errors.iter().any(|e| e.field == "latency.params.delay_ms"));
}

#[test]
fn test_validate_latency_normal_stddev() {
    let mut config = base_config();
    config.endpoints[0].latency.distribution = DistributionType::Normal;
    config.endpoints[0].latency.params =
        DistributionParams::Normal { mean_ms: whole(50), stddev_ms: whole(0) };
    let errors = validation_errors(&config);
    assert!(errors.iter().any(|e| e.field == "latency.params.stddev_ms"));
}

#[test]
fn test_validate_latency_normal_mean() {
    let mut config = base_config();
    config.endpoints[0].latency.distribution = DistributionType::Normal;
    config.endpoints[0].latency.params =
        DistributionParams::Normal { mean_ms: whole(-1), stddev_ms: whole(5) };
    let errors = validation_errors(&config);
    assert!(errors.iter().any(|e| e.field == "latency.params.mean_ms"));
}

#[test]
fn test_validate_latency_uniform_range() {
    let mut config = base_config();
    config.endpoints[0].latency.distribution = DistributionType::Uniform;
    config.endpoints[0].latency.params =
        DistributionParams::Uniform { min_ms: whole(50), max_ms: whole(25) };
    let errors = validation_errors(&config);
    assert!(errors.iter().any(|e| e.field == "latency.params.max_ms"));
}

#[test]
fn test_validate_latency_uniform_min() {
    let mut config = base_config();
    config.endpoints[0].latency.distribution = DistributionType::Uniform;
    config.endpoints[0].latency.params =
        DistributionParams::Uniform { min_ms: whole(-5), max_ms: whole(25) };
    let errors = validation_errors(&config);
    assert!(errors.iter().any(|e| e.field == "latency.params.min_ms"));
}

#[test]
fn test_validate_latency_exponential_rate() {
    let mut config = base_config();
    config.endpoints[0].latency.distribution = DistributionType::Exponential;
    config.endpoints[0].latency.params = DistributionParams::Exponential { rate: whole(0) };
    let errors = validation_errors(&config);
    assert!(errors.iter().any(|e| e.field == "latency.params.rate"));
}

#[test]
fn test_validate_latency_log_normal_mean() {
    let mut config = base_config();
    config.endpoints[0].latency.distribution = DistributionType::LogNormal;
    config.endpoints[0].latency.params =
        DistributionParams::LogNormal { mean_ms: whole(0), stddev_ms: whole(5) };
    let errors = validation_errors(&config);
    assert!(errors.iter().any(|e| e.field == "latency.params.mean_ms"));
}

#[test]
fn test_validate_latency_log_normal_stddev() {
    let mut config = base_config();
    config.endpoints[0].latency.distribution = DistributionType::LogNormal;
    config.endpoints[0].latency.params =
        DistributionParams::LogNormal { mean_ms: whole(50), stddev_ms: whole(-1) };
    let errors = validation_errors(&config);
    assert!(errors.iter().any(|e| e.field == "latency.params.stddev_ms"));
}

#[test]
fn test_validate_latency_mixture_empty_components() {
    let mut config = base_config();
    config.endpoints[0].latency.distribution = DistributionType::Mixture;
    config.endpoints[0].latency.params = DistributionParams::Mixture { components: vec![] };
    let errors = validation_errors(&config);
    assert!(errors.iter().any(|e| e.field == "latency.params.components"));
}

#[test]
fn test_validate_latency_mixture_weight() {
    let mut config = base_config();
    config.endpoints[0].latency.distribution = DistributionType::Mixture;
    config.endpoints[0].latency.params = DistributionParams::Mixture {
        components: vec![MixtureComponent {
            weight: whole(0),
            distribution: DistributionType::Fixed,
            params: Box::new(DistributionParams::Fixed { delay_ms: whole(5) }),
        }],
    };
    let errors = validation_errors(&config);
    assert!(errors.iter().any(|e| e.field == "latency.params.components.weight"));
    assert!(errors.iter().any(|e| e.error == "component 0 weight must be > 0"));
    assert!(errors.iter().any(|e| e.error == "total weight must be > 0"));
}

#[test]
fn test_validate_latency_mixture_valid() {
    let mut config = base_config();
    config.endpoints[0].latency.distribution = DistributionType::Mixture;
    config.endpoints[0].latency.params = DistributionParams::Mixture {
        components: vec![
            MixtureComponent {
                weight: millionths(700_000),
                distribution: DistributionType::Fixed,
                params: Box::new(DistributionParams::Fixed { delay_ms: whole(5) }),
            },
            MixtureComponent {
                weight: millionths(300_000),
                distribution: DistributionType::Normal,
                params: Box::new(DistributionParams::Normal {
                    mean_ms: whole(50),
                    stddev_ms: whole(10),
                }),
            },
        ],
    };
    assert!(validate(&config).is_ok());
}

#[test]
fn test_validate_latency_distribution_mismatch() {
    let mut config = base_config();
    config.endpoints[0].latency.distribution = DistributionType::Normal;
    config.endpoints[0].latency.params = DistributionParams::Fixed { delay_ms: whole(10) };
    let errors = validation_errors(&config);
    assert!(errors.iter().any(|e| e.field == "latency"));
}

#[test]
fn test_validate_request_body_match_requires_body() {
    let mut config = base_config();
    config.endpoints[0].request =
        Some(RequestMatch { body_match: BodyMatchType::Exact, body: None });
    let errors = validation_errors(&config);
    assert!(errors.iter().any(|e| e.field == "request.body"));
}

#[test]
fn valid_config_reports_every_error_in_order() {
    let mut config = base_config();
    config.version = "2.0".to_string();
    config.endpoints[0].path = "health".to_string();
    config.endpoints[0].response.status = 99;
    match validate(&config) {
        Err(ConfigError::ValidationError(count, errors)) => {
            assert_eq!(count, 3);
            assert_eq!(errors.len(), 3);
            assert_eq!(errors[0].field, "version");
            assert_eq!(errors[0].error, "must be '1.0'");
            assert_eq!(errors[0].location, None);
            assert_eq!(errors[1].field, "endpoints.path");
            assert_eq!(errors[1].location, Some("health".to_string()));
            assert_eq!(errors[2].field, "response.status");
            assert_eq!(errors[1].to_text(), "endpoints.path: path must start with '/' (health)");
        }
        _ => panic!("three findings expected"),
    }
}

#[test]
fn config_error_texts() {
    let parse = ConfigError::ParseError("bad".to_string());
    assert_eq!(parse.to_text(), "Failed to parse configuration: bad");
    assert!(parse.validation_errors().is_none());
    let io = ConfigError::IoError("gone".to_string());
    assert_eq!(io.to_text(), "I/O error: gone");
    let invalid = ConfigError::ValidationError(12, vec![]);
    assert_eq!(invalid.to_text(), "Configuration validation failed with 12 error(s)");
    assert_eq!(invalid.validation_errors().map(|e| e.len()), Some(0));
}

#[test]
fn blank_endpoint_id_is_reported() {
    let mut config = base_config();
    config.endpoints[0].id = " \t".to_string();
    let errors = validation_errors(&config);
    assert!(errors.iter().any(|e| e.field == "endpoints.id" && e.error == "id must not be empty"));
}

#[test]
fn groups_are_checked() {
    let mut config = base_config();
    config.endpoint_groups = vec![
        EndpointGroup { id: "core".to_string(), endpoint_ids: vec!["health".to_string()] },
        EndpointGroup { id: "core".to_string(), endpoint_ids: vec![] },
        EndpointGroup { id: "".to_string(), endpoint_ids: vec!["nowhere".to_string()] },
    ];
    let errors = validation_errors(&config);
    let texts: Vec<String> = errors.iter().map(|e| e.to_text()).collect();
    assert_eq!(
        texts,
        vec![
            "endpoint_groups.id: duplicate group id (core)".to_string(),
            "endpoint_groups.endpoint_ids: must include at least one endpoint id (core)"
                .to_string(),
            "endpoint_groups.id: id must not be empty ()".to_string(),
            "endpoint_groups.endpoint_ids: endpoint id does not exist (nowhere)".to_string(),
        ]
    );
}

#[test]
fn scope_must_name_exactly_one_target() {
    let mut config = base_config();
    config.behavior_windows = vec![window(
        BehaviorScope { endpoint_id: Some("health".to_string()), group_id: None, global: true },
        fixed_schedule(0, 10),
    )];
    let errors = validation_errors(&config);
    let texts: Vec<String> = errors.iter().map(|e| e.to_text()).collect();
    assert_eq!(
        texts,
        vec![
            "scope: must define exactly one of endpoint_id, group_id, or global".to_string(),
            "behavior_windows.scope: window 0 scope is invalid".to_string(),
        ]
    );
}

#[test]
fn scope_of_unknown_endpoint_is_reported() {
    let mut config = base_config();
    config.behavior_windows = vec![window(
        BehaviorScope { endpoint_id: Some("ghost".to_string()), group_id: None, global: false },
        fixed_schedule(0, 10),
    )];
    let errors = validation_errors(&config);
    let texts: Vec<String> = errors.iter().map(|e| e.to_text()).collect();
    assert_eq!(texts, vec!["scope.endpoint_id: endpoint id does not exist (ghost)".to_string()]);
}

#[test]
fn schedule_rules_are_checked_in_order() {
    let mut config = base_config();
    let mut no_duration = fixed_schedule(0, 0);
    no_duration.start_offset_ms = None;
    let mut no_start = fixed_schedule(0, 10);
    no_start.start_offset_ms = None;
    let mut long = recurring_schedule(10, 20);
    long.jitter_ms = Some(whole(-1));
    let mut jitter = recurring_schedule(100, 90);
    jitter.jitter_ms = Some(whole(11));
    let mut never = recurring_schedule(100, 10);
    never.max_occurrences = Some(0);
    config.behavior_windows = vec![
        window(global_scope(), no_duration),
        window(global_scope(), no_start),
        window(global_scope(), long),
        window(global_scope(), jitter),
        window(global_scope(), never),
    ];
    let errors = validation_errors(&config);
    let texts: Vec<String> = errors.iter().map(|e| e.to_text()).collect();
    assert_eq!(
        texts,
        vec![
            "behavior_windows.schedule.duration_ms: duration_ms must be > 0 (global)".to_string(),
            "behavior_windows.schedule.start_offset_ms: start_offset_ms is required for fixed schedules (global)"
                .to_string(),
            "behavior_windows.schedule.duration_ms: duration_ms must be <= every_ms (global)"
                .to_string(),
            "behavior_windows.schedule.jitter_ms: jitter_ms must be <= every_ms - duration_ms (global)"
                .to_string(),
            "behavior_windows.schedule.max_occurrences: max_occurrences must be > 0 (global)"
                .to_string(),
        ]
    );
}

#[test]
fn overlapping_fixed_windows_are_reported_once_per_neighbour() {
    let mut config = base_config();
    config.behavior_windows = vec![
        window(global_scope(), fixed_schedule(100, 50)),
        window(global_scope(), fixed_schedule(0, 120)),
        window(global_scope(), fixed_schedule(150, 10)),
    ];
    let errors = validation_errors(&config);
    let texts: Vec<String> = errors.iter().map(|e| e.to_text()).collect();
    assert_eq!(
        texts,
        vec!["behavior_windows.schedule: fixed windows overlap for the same scope (global)"
            .to_string()]
    );
}

#[test]
fn fixed_windows_that_touch_do_not_overlap() {
    let mut config = base_config();
    config.behavior_windows = vec![
        window(global_scope(), fixed_schedule(100, 50)),
        window(global_scope(), fixed_schedule(0, 100)),
    ];
    assert!(validate(&config).is_ok());
}

#[test]
fn fixed_windows_of_different_scopes_may_overlap() {
    let mut config = base_config();
    config.behavior_windows = vec![
        window(global_scope(), fixed_schedule(0, 100)),
        window(
            BehaviorScope {
                endpoint_id: Some("health".to_string()),
                group_id: None,
                global: false,
            },
            fixed_schedule(50, 100),
        ),
    ];
    assert!(validate(&config).is_ok());
}

#[test]
fn second_recurring_window_of_a_scope_is_reported() {
    let mut config = base_config();
    config.behavior_windows = vec![
        window(global_scope(), recurring_schedule(100, 10)),
        window(global_scope(), recurring_schedule(200, 10)),
    ];
    let errors = validation_errors(&config);
    let texts: Vec<String> = errors.iter().map(|e| e.to_text()).collect();
    assert_eq!(
        texts,
        vec!["behavior_windows.schedule: multiple recurring windows for the same scope (global)"
            .to_string()]
    );
}

#[test]
fn additive_mix_needs_an_override_profile() {
    let mut config = base_config();
    let mut additive = window(global_scope(), fixed_schedule(0, 10));
    additive.error_mix = ErrorMix::Additive;
    additive.ramp =
        Some(RampConfig { up_ms: Some(whole(-1)), down_ms: Some(whole(-2)), curve: None });
    config.behavior_windows = vec![additive];
    let errors = validation_errors(&config);
    let texts: Vec<String> = errors.iter().map(|e| e.to_text()).collect();
    assert_eq!(
        texts,
        vec![
            "behavior_windows.error_profile_override: error_profile_override required for additive mix (global)"
                .to_string(),
            "behavior_windows.ramp.up_ms: up_ms must be >= 0 (global)".to_string(),
            "behavior_windows.ramp.down_ms: down_ms must be >= 0 (global)".to_string(),
        ]
    );
}

#[test]
fn burst_rules_are_checked() {
    let mut config = base_config();
    let mut wide = burst(global_scope(), 100, 90);
    wide.frequency.jitter_ms = Some(whole(20));
    let long = burst(global_scope(), 10, 20);
    let none = burst(BehaviorScope { endpoint_id: None, group_id: None, global: false }, 0, 0);
    config.burst_events = vec![wide, long, none];
    let errors = validation_errors(&config);
    let texts: Vec<String> = errors.iter().map(|e| e.to_text()).collect();
    assert_eq!(
        texts,
        vec![
            "burst_events.frequency.jitter_ms: jitter_ms must be <= every_ms - duration_ms (global)"
                .to_string(),
            "burst_events.duration_ms: duration_ms must be <= every_ms (global)".to_string(),
            "scope: must define exactly one of endpoint_id, group_id, or global".to_string(),
            "burst_events.duration_ms: duration_ms must be > 0".to_string(),
            "burst_events.frequency.every_ms: every_ms must be > 0".to_string(),
            "burst_events.scope: scope is invalid".to_string(),
        ]
    );
}

#[test]
fn nested_mixture_is_reported_with_its_index() {
    let mut config = base_config();
    config.endpoints[0].latency.distribution = DistributionType::Mixture;
    config.endpoints[0].latency.params = DistributionParams::Mixture {
        components: vec![
            MixtureComponent {
                weight: whole(1),
                distribution: DistributionType::Fixed,
                params: Box::new(DistributionParams::Fixed { delay_ms: whole(5) }),
            },
            MixtureComponent {
                weight: whole(1),
                distribution: DistributionType::Mixture,
                params: Box::new(DistributionParams::Mixture { components: vec![] }),
            },
        ],
    };
    let errors = validation_errors(&config);
    let texts: Vec<String> = errors.iter().map(|e| e.to_text()).collect();
    assert_eq!(
        texts,
        vec!["latency.params.components.distribution: component 1 distribution cannot be mixture (health)"
            .to_string()]
    );
}

#[test]
fn fixed_windows_are_accepted_exactly_when_they_are_apart() {
    let starts = [0, 10, 20, 25];
    let lengths = [5, 10, 30];
    let scopes = [0, 1];
    let mut candidates = Vec::new();
    for start in starts {
        for length in lengths {
            for scope in scopes {
                candidates.push((start, length, scope));
            }
        }
    }
    let scope_of = |scope: i32| {
        if scope == 0 {
            global_scope()
        } else {
            BehaviorScope { endpoint_id: Some("health".to_string()), group_id: None, global: false }
        }
    };
    let mut accepted = 0;
    let mut refused = 0;
    for a in 0..candidates.len() {
        for b in 0..candidates.len() {
            for c in 0..candidates.len() {
                let chosen = [candidates[a], candidates[b], candidates[c]];
                let mut config = base_config();
                config.behavior_windows = chosen
                    .iter()
                    .map(|(start, length, scope)| {
                        window(scope_of(*scope), fixed_schedule(*start, *length))
                    })
                    .collect();
                let mut apart = true;
                for i in 0..3 {
                    for j in (i + 1)..3 {
                        let (si, li, ki) = chosen[i];
                        let (sj, lj, kj) = chosen[j];
                        if ki == kj && si < sj + lj && sj < si + li {
                            apart = false;
                        }
                    }
                }
                let errors = validation_errors(&config);
                assert_eq!(errors.is_empty(), apart, "windows {:?}", chosen);
                assert!(errors.iter().all(|e| e.field == "behavior_windows.schedule"));
                if apart {
                    accepted += 1;
                } else {
                    refused += 1;
                }
            }
        }
    }
    assert!(accepted > 1000 && refused > 1000);
}

#[test]
fn accepted_configuration_has_distinct_ids_and_routes() {
    let ids = ["a", "b"];
    let paths = ["/a", "/b"];
    let methods = [HttpMethod::Get, HttpMethod::Post];
    for first_id in ids {
        for second_id in ids {
            for first_path in paths {
                for second_path in paths {
                    for first_method in methods {
                        for second_method in methods {
                            let mut config = base_config();
                            config.endpoints = vec![
                                base_endpoint(first_id, first_method, first_path, fixed(1)),
                                base_endpoint(second_id, second_method, second_path, fixed(1)),
                            ];
                            let distinct = first_id != second_id
                                && !(first_path == second_path && first_method == second_method);
                            assert_eq!(validate(&config).is_ok(), distinct);
                        }
                    }
                }
            }
        }
    }
}
