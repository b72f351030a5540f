//! The data model of a configuration document.
//!
//! Durations are `Decimal` counts of milliseconds; rates, weights and ratios
//! are plain `Decimal` numbers.
use vstd::prelude::*;
use crate::decimal::Decimal;

verus! {

/// A whole configuration document.
#[derive(Debug)]
pub struct Configuration {
    pub version: String,
    pub metadata: Metadata,
    pub endpoints: Vec<Endpoint>,
    pub endpoint_groups: Vec<EndpointGroup>,
    pub behavior_windows: Vec<BehaviorWindow>,
    pub burst_events: Vec<BurstEvent>,
    pub workflows: Vec<Workflow>,
}

/// Free-form information about a configuration.
#[derive(Debug, Clone)]
pub struct Metadata {
    pub name: Option<String>,
    pub description: Option<String>,
    pub author: Option<String>,
    pub created: Option<String>,
}

impl Default for Metadata {
    fn default() -> (m: Metadata)
        ensures
            m.name is None,
            m.description is None,
            m.author is None,
            m.created is None,
    {
        Metadata { name: None, description: None, author: None, created: None }
    }
}

/// One simulated endpoint, routed by its method and path.
#[derive(Debug)]
pub struct Endpoint {
    pub id: String,
    pub method: HttpMethod,
    pub path: String,
    pub request: Option<RequestMatch>,
    pub latency: LatencyConfig,
    pub response: Response,
    pub error_profile: ErrorProfile,
    pub rate_limit: Option<RateLimit>,
    pub bandwidth_cap: Option<BandwidthCap>,
}

/// A named set of endpoint ids.
#[derive(Debug, Clone)]
pub struct EndpointGroup {
    pub id: String,
    pub endpoint_ids: Vec<String>,
}

/// What a behaviour rule applies to: one endpoint, one group, or everything.
#[derive(Debug, Clone)]
pub struct BehaviorScope {
    pub endpoint_id: Option<String>,
    pub group_id: Option<String>,
    pub global: bool,
}

/// When a behaviour window is active.
#[derive(Debug, Clone, Copy)]
pub struct BehaviorSchedule {
    pub mode: ScheduleMode,
    pub start_offset_ms: Option<Decimal>,
    pub duration_ms: Decimal,
    pub every_ms: Option<Decimal>,
    pub jitter_ms: Option<Decimal>,
    pub max_occurrences: Option<u32>,
    pub min_delay_ms: Option<Decimal>,
}

/// Whether a window is due once or again and again.
#[derive(Debug, Clone, Copy, PartialEq, Eq, Structural)]
pub enum ScheduleMode {
    Fixed,
    Recurring,
}

/// How an event fades in and out at its edges.
#[derive(Debug, Clone, Copy)]
pub struct RampConfig {
    pub up_ms: Option<Decimal>,
    pub down_ms: Option<Decimal>,
    pub curve: Option<RampCurve>,
}

/// The shape of a ramp: straight, or smooth at both ends.
#[derive(Debug, Clone, Copy, PartialEq, Eq, Structural)]
pub enum RampCurve {
    Linear,
    SCurve,
}

/// How an override error profile combines with the base profile.
#[derive(Debug, Clone, Copy, PartialEq, Eq, Structural)]
pub enum ErrorMix {
    Override,
    Additive,
    Blend,
}

/// The error mix of a rule that names none.
pub fn default_error_mix() -> (mix: ErrorMix)
    ensures
        mix == ErrorMix::Override,
{
    ErrorMix::Override
}

/// A time window in which latency and errors are overridden for a scope.
#[derive(Debug)]
pub struct BehaviorWindow {
    pub id: Option<String>,
    pub scope: BehaviorScope,
    pub schedule: BehaviorSchedule,
    pub ramp: Option<RampConfig>,
    pub error_mix: ErrorMix,
    pub latency_override: Option<LatencyConfig>,
    pub error_profile_override: Option<ErrorProfile>,
}

/// A short recurring spike, layered over any active window.
#[derive(Debug)]
pub struct BurstEvent {
    pub id: Option<String>,
    pub scope: BehaviorScope,
    pub frequency: BurstFrequency,
    pub duration_ms: Decimal,
    pub ramp: Option<RampConfig>,
    pub latency_spike: Option<LatencyConfig>,
    pub error_spike: Option<ErrorSpike>,
}

/// How often a burst comes, and how far its start may shift.
#[derive(Debug, Clone, Copy)]
pub struct BurstFrequency {
    pub every_ms: Decimal,
    pub jitter_ms: Option<Decimal>,
}

/// The error profile of a burst, and how it combines with the profile
/// in effect.
#[derive(Debug, Clone)]
pub struct ErrorSpike {
    pub error_mix: ErrorMix,
    pub error_profile: ErrorProfile,
}

/// Admission control: a sustained rate and an optional burst size.
#[derive(Debug, Clone, Copy)]
pub struct RateLimit {
    pub requests_per_second: Decimal,
    pub burst: Option<Decimal>,
}

/// The most bytes of a response body that leave in a second.
#[derive(Debug, Clone, Copy)]
pub struct BandwidthCap {
    pub bytes_per_second: Decimal,
}

/// The request methods that an endpoint can answer.
#[derive(Debug, Clone, Copy, PartialEq, Eq, Structural)]
pub enum HttpMethod {
    Get,
    Post,
    Put,
    Delete,
    Patch,
    Head,
    Options,
}

/// What a request body must look like for the endpoint to answer.
#[derive(Debug, Clone)]
pub struct RequestMatch {
    pub body_match: BodyMatchType,
    pub body: Option<String>,
}

/// The body match of a request rule that names none.
pub fn default_body_match() -> (kind: BodyMatchType)
    ensures
        kind == BodyMatchType::Any,
{
    BodyMatchType::Any
}

/// How the body of a request is held against the declared body.
#[derive(Debug, Clone, Copy, PartialEq, Eq, Structural)]
pub enum BodyMatchType {
    Any,
    Exact,
    Contains,
    Ignore,
}

/// A latency distribution: its declared kind and its parameters.
#[derive(Debug)]
pub struct LatencyConfig {
    pub distribution: DistributionType,
    pub params: DistributionParams,
}

/// The kinds of latency distribution.
#[derive(Debug, Clone, Copy, PartialEq, Eq, Structural)]
pub enum DistributionType {
    Fixed,
    Normal,
    Exponential,
    Uniform,
    LogNormal,
    Mixture,
}

/// The name of a kind of distribution in a configuration document.
pub open spec fn distribution_text(distribution: DistributionType) -> Seq<char> {
    match distribution {
        DistributionType::Fixed => "fixed"@,
        DistributionType::Normal => "normal"@,
        DistributionType::Exponential => "exponential"@,
        DistributionType::Uniform => "uniform"@,
        DistributionType::LogNormal => "log_normal"@,
        DistributionType::Mixture => "mixture"@,
    }
}

/// The name of a kind of distribution.
pub fn distribution_name(distribution: &DistributionType) -> (name: &'static str)
    ensures
        name@ == distribution_text(*distribution),
{
    match distribution {
        DistributionType::Fixed => "fixed",
        DistributionType::Normal => "normal",
        DistributionType::Exponential => "exponential",
        DistributionType::Uniform => "uniform",
        DistributionType::LogNormal => "log_normal",
        DistributionType::Mixture => "mixture",
    }
}

/// The parameters of a distribution; the variant says which kind they fit.
#[derive(Debug)]
pub enum DistributionParams {
    Fixed { delay_ms: Decimal },
    Normal { mean_ms: Decimal, stddev_ms: Decimal },
    Exponential { rate: Decimal },
    Uniform { min_ms: Decimal, max_ms: Decimal },
    LogNormal { mean_ms: Decimal, stddev_ms: Decimal },
    Mixture { components: Vec<MixtureComponent> },
}

/// One weighted component of a mixture.
#[derive(Debug)]
pub struct MixtureComponent {
    pub weight: Decimal,
    pub distribution: DistributionType,
    pub params: Box<DistributionParams>,
}

/// The response that an endpoint gives when nothing interferes. The headers
/// are name and value pairs, in the order in which they are sent.
#[derive(Debug, Clone)]
pub struct Response {
    pub status: u16,
    pub headers: Vec<(String, String)>,
    pub body: String,
}

/// The pairs of texts that a list of headers holds.
pub open spec fn header_pairs(headers: Seq<(String, String)>) -> Seq<(Seq<char>, Seq<char>)> {
    headers.map_values(|h: (String, String)| (h.0@, h.1@))
}

/// The headers of a response that declares none.
pub fn default_headers() -> (headers: Vec<(String, String)>)
    ensures
        header_pairs(headers@) == seq![("Content-Type"@, "application/json"@)],
{
    let mut headers: Vec<(String, String)> = Vec::new();
    headers.push(("Content-Type".to_string(), "application/json".to_string()));
    assert(header_pairs(headers@) =~= seq![("Content-Type"@, "application/json"@)]);
    headers
}

/// How often, and how, an endpoint fails.
#[derive(Debug, Clone)]
pub struct ErrorProfile {
    pub rate: Decimal,
    pub codes: Vec<u16>,
    pub body: String,
    pub error_in_payload: bool,
    pub payload_corruption: Option<PayloadCorruption>,
}

/// How, and how often, the body of a response is corrupted.
#[derive(Debug, Clone)]
pub struct PayloadCorruption {
    pub rate: Decimal,
    pub mode: CorruptionMode,
    pub truncate_ratio: Option<Decimal>,
    pub replacement: Option<String>,
}

/// Whether a corrupted body is cut short or replaced.
#[derive(Debug, Clone, Copy, PartialEq, Eq, Structural)]
pub enum CorruptionMode {
    Truncate,
    Replace,
}

/// What a payload corruption holds, as plain values.
pub struct CorruptionModel {
    pub rate: int,
    pub mode: CorruptionMode,
    pub truncate_ratio: Option<int>,
    pub replacement: Option<Seq<char>>,
}

/// What an error profile holds, as plain values.
pub struct ProfileModel {
    pub rate: int,
    pub codes: Seq<u16>,
    pub body: Seq<char>,
    pub error_in_payload: bool,
    pub payload_corruption: Option<CorruptionModel>,
}

impl View for PayloadCorruption {
    type V = CorruptionModel;

    open spec fn view(&self) -> CorruptionModel {
        CorruptionModel {
            rate: self.rate.raw as int,
            mode: self.mode,
            truncate_ratio: match self.truncate_ratio {
                Some(ratio) => Some(ratio.raw as int),
                None => None,
            },
            replacement: match self.replacement {
                Some(text) => Some(text@),
                None => None,
            },
        }
    }
}

impl View for ErrorProfile {
    type V = ProfileModel;

    open spec fn view(&self) -> ProfileModel {
        ProfileModel {
            rate: self.rate.raw as int,
            codes: self.codes@,
            body: self.body@,
            error_in_payload: self.error_in_payload,
            payload_corruption: match self.payload_corruption {
                Some(corruption) => Some(corruption@),
                None => None,
            },
        }
    }
}

impl Default for ErrorProfile {
    /// The profile of an endpoint that never fails.
    fn default() -> (profile: ErrorProfile)
        ensures
            profile@ == (ProfileModel {
                rate: 0,
                codes: Seq::empty(),
                body: Seq::empty(),
                error_in_payload: false,
                payload_corruption: None,
            }),
    {
        ErrorProfile {
            rate: Decimal { raw: 0 },
            codes: Vec::new(),
            body: String::new(),
            error_in_payload: false,
            payload_corruption: None,
        }
    }
}

/// A workflow; only its id is part of the document so far.
#[derive(Debug, Clone)]
pub struct Workflow {
    pub id: String,
}

} // verus!
