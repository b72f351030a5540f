//! Validation of a configuration against the rules of the data model.
//!
//! Every check appends its findings to a list. What it appends is given by
//! a specification function of the same name ending in `_errors`, so the
//! findings for a document are a function of the document alone.
use vstd::prelude::*;
use crate::config::behavior_rules::{
    behavior_windows_errors, burst_events_errors, validate_behavior_windows, validate_burst_events,
};
use crate::config::error::{records, ConfigError, ErrorRecord, ValidationError};
use crate::config::schema::{
    BandwidthCap, BodyMatchType, Configuration, CorruptionMode, DistributionParams,
    DistributionType, Endpoint, EndpointGroup, ErrorProfile, HttpMethod, LatencyConfig,
    MixtureComponent, PayloadCorruption, RampConfig, RateLimit, RequestMatch, Response,
};
use crate::decimal::SCALE;
use crate::text::{
    begins_with_slash, decimal_digits, decimal_text, is_blank, join2, join3, text_begins_with_slash,
    text_is_blank,
};

verus! {

/// The text that an optional string holds.
pub open spec fn text_of(text: Option<String>) -> Option<Seq<char>> {
    match text {
        Some(s) => Some(s@),
        None => None,
    }
}

/// The value behind an optional reference.
pub open spec fn owned<T>(value: Option<&T>) -> Option<T> {
    match value {
        Some(r) => Some(*r),
        None => None,
    }
}

/// The texts that a list of strings holds.
pub open spec fn texts(list: Seq<String>) -> Seq<Seq<char>> {
    list.map_values(|s: String| s@)
}

/// A finding about `field`.
pub open spec fn record(field: Seq<char>, error: Seq<char>, location: Option<Seq<char>>)
    -> ErrorRecord {
    ErrorRecord { field, error, location }
}

/// The finding `found` where `broken` holds, and nothing where it does not.
pub open spec fn found_if(broken: bool, found: ErrorRecord) -> Seq<ErrorRecord> {
    if broken {
        seq![found]
    } else {
        Seq::empty()
    }
}

/// A copy of an optional string.
pub fn copy_text(text: &Option<String>) -> (copy: Option<String>)
    ensures
        copy == *text,
{
    match text {
        Some(s) => Some(s.clone()),
        None => None,
    }
}

/// Whether `list` holds a string with the text of `wanted`.
pub fn contains_text(list: &Vec<String>, wanted: &String) -> (found: bool)
    ensures
        found == texts(list@).contains(wanted@),
{
    let mut i: usize = 0;
    while i < list.len()
        invariant
            i <= list@.len(),
            forall|j: int| 0 <= j < i ==> texts(list@)[j] != wanted@,
        decreases list@.len() - i,
    {
        if list[i] == *wanted {
            assert(texts(list@)[i as int] == wanted@);
            return true;
        }
        i += 1;
    }
    false
}

/// Appends one finding.
pub fn push_error(
    errors: &mut Vec<ValidationError>,
    field: &str,
    error: &str,
    location: Option<String>,
)
    ensures
        records(final(errors)@) == records(old(errors)@).push(
            record(field@, error@, text_of(location)),
        ),
{
    errors.push(
        ValidationError { field: field.to_string(), error: error.to_string(), location },
    );
    assert(records(errors@) =~= records(old(errors)@).push(
        record(field@, error@, text_of(location)),
    ));
}

/// Appends one finding where `broken` holds, and nothing where it does not.
pub fn report(
    errors: &mut Vec<ValidationError>,
    broken: bool,
    field: &str,
    error: &str,
    location: Option<String>,
)
    ensures
        records(final(errors)@) == records(old(errors)@) + found_if(
            broken,
            record(field@, error@, text_of(location)),
        ),
{
    if broken {
        push_error(errors, field, error, location);
    }
    assert(records(errors@) =~= records(old(errors)@) + found_if(
        broken,
        record(field@, error@, text_of(location)),
    ));
}

/// Findings appended to findings appended to a list are the two runs of
/// findings, one after the other, appended to the list.
pub proof fn lemma_found_more(
    base: Seq<ErrorRecord>,
    found: Seq<ErrorRecord>,
    more: Seq<ErrorRecord>,
)
    ensures
        (base + found) + more == base + (found + more),
{
    assert((base + found) + more =~= base + (found + more));
}

/// A list with no findings appended is the list.
pub proof fn lemma_found_none(base: Seq<ErrorRecord>)
    ensures
        base + Seq::<ErrorRecord>::empty() == base,
        Seq::<ErrorRecord>::empty() + base == base,
{
    assert(base + Seq::<ErrorRecord>::empty() =~= base);
    assert(Seq::<ErrorRecord>::empty() + base =~= base);
}

/// Whether a number is an HTTP status code.
pub open spec fn valid_status(status: u16) -> bool {
    100 <= status <= 599
}

/// Whether a number is an HTTP status code.
pub fn is_valid_status(status: u16) -> (r: bool)
    ensures
        r == valid_status(status),
{
    100 <= status && status <= 599
}

/// The name of a method as it is written in a request.
pub open spec fn method_text(method: HttpMethod) -> Seq<char> {
    match method {
        HttpMethod::Get => "GET"@,
        HttpMethod::Post => "POST"@,
        HttpMethod::Put => "PUT"@,
        HttpMethod::Delete => "DELETE"@,
        HttpMethod::Patch => "PATCH"@,
        HttpMethod::Head => "HEAD"@,
        HttpMethod::Options => "OPTIONS"@,
    }
}

/// The name of a method.
pub fn method_to_str(method: &HttpMethod) -> (name: &'static str)
    ensures
        name@ == method_text(*method),
{
    match method {
        HttpMethod::Get => "GET",
        HttpMethod::Post => "POST",
        HttpMethod::Put => "PUT",
        HttpMethod::Delete => "DELETE",
        HttpMethod::Patch => "PATCH",
        HttpMethod::Head => "HEAD",
        HttpMethod::Options => "OPTIONS",
    }
}

/// The findings about a rate limit: both numbers must be positive.
pub open spec fn rate_limit_errors(rate_limit: Option<RateLimit>, location: Option<Seq<char>>)
    -> Seq<ErrorRecord> {
    match rate_limit {
        None => Seq::empty(),
        Some(limit) => found_if(
            limit.requests_per_second.raw <= 0,
            record("rate_limit.requests_per_second"@, "must be > 0"@, location),
        ) + found_if(
            limit.burst is Some && limit.burst->0.raw <= 0,
            record("rate_limit.burst"@, "must be > 0"@, location),
        ),
    }
}

/// Checks a rate limit, if there is one.
pub fn validate_rate_limit(
    rate_limit: Option<&RateLimit>,
    errors: &mut Vec<ValidationError>,
    location: Option<String>,
)
    ensures
        records(final(errors)@) == records(old(errors)@) + rate_limit_errors(
            owned(rate_limit),
            text_of(location),
        ),
{
    let Some(rate_limit) = rate_limit else {
        assert(records(errors@) =~= records(old(errors)@) + Seq::<ErrorRecord>::empty());
        return ;
    };
    if rate_limit.requests_per_second.raw <= 0 {
        push_error(errors, "rate_limit.requests_per_second", "must be > 0", copy_text(&location));
    }
    if let Some(burst) = rate_limit.burst {
        if burst.raw <= 0 {
            push_error(errors, "rate_limit.burst", "must be > 0", location);
        }
    }
    assert(records(errors@) =~= records(old(errors)@) + rate_limit_errors(
        Some(*rate_limit),
        text_of(location),
    ));
}

/// The findings about a bandwidth cap: it must be positive.
pub open spec fn bandwidth_cap_errors(cap: Option<BandwidthCap>, location: Option<Seq<char>>)
    -> Seq<ErrorRecord> {
    match cap {
        None => Seq::empty(),
        Some(cap) => found_if(
            cap.bytes_per_second.raw <= 0,
            record("bandwidth_cap.bytes_per_second"@, "must be > 0"@, location),
        ),
    }
}

/// Checks a bandwidth cap, if there is one.
pub fn validate_bandwidth_cap(
    bandwidth: Option<&BandwidthCap>,
    errors: &mut Vec<ValidationError>,
    location: Option<String>,
)
    ensures
        records(final(errors)@) == records(old(errors)@) + bandwidth_cap_errors(
            owned(bandwidth),
            text_of(location),
        ),
{
    let Some(bandwidth) = bandwidth else {
        assert(records(errors@) =~= records(old(errors)@) + Seq::<ErrorRecord>::empty());
        return ;
    };
    if bandwidth.bytes_per_second.raw <= 0 {
        push_error(errors, "bandwidth_cap.bytes_per_second", "must be > 0", location);
    }
    assert(records(errors@) =~= records(old(errors)@) + bandwidth_cap_errors(
        Some(*bandwidth),
        text_of(location),
    ));
}

/// The findings about a response template: its status must be a status code.
pub open spec fn response_errors(response: &Response, location: Option<Seq<char>>) -> Seq<
    ErrorRecord,
> {
    found_if(
        !valid_status(response.status),
        record("response.status"@, "invalid HTTP status code"@, location),
    )
}

/// Checks a response template.
pub fn validate_response(
    response: &Response,
    errors: &mut Vec<ValidationError>,
    location: Option<String>,
)
    ensures
        records(final(errors)@) == records(old(errors)@) + response_errors(
            response,
            text_of(location),
        ),
{
    if !is_valid_status(response.status) {
        push_error(errors, "response.status", "invalid HTTP status code", location);
    }
    assert(records(errors@) =~= records(old(errors)@) + response_errors(
        response,
        text_of(location),
    ));
}

/// Whether a request rule asks for a body and names none.
pub open spec fn request_lacks_body(request: &RequestMatch) -> bool {
    &&& request.body_match == BodyMatchType::Exact || request.body_match == BodyMatchType::Contains
    &&& match request.body {
        Some(body) => body@.len() == 0,
        None => true,
    }
}

/// The findings about a request rule: an exact or contains match needs a
/// body that is not empty.
pub open spec fn request_match_errors(request: Option<RequestMatch>, location: Option<Seq<char>>)
    -> Seq<ErrorRecord> {
    match request {
        None => Seq::empty(),
        Some(request) => found_if(
            request_lacks_body(&request),
            record("request.body"@, "body required for exact or contains match"@, location),
        ),
    }
}

/// Checks a request rule, if there is one.
pub fn validate_request_match(
    request: Option<&RequestMatch>,
    errors: &mut Vec<ValidationError>,
    location: Option<String>,
)
    ensures
        records(final(errors)@) == records(old(errors)@) + request_match_errors(
            owned(request),
            text_of(location),
        ),
{
    if let Some(request) = request {
        match request.body_match {
            BodyMatchType::Exact | BodyMatchType::Contains => {
                let lacks = match &request.body {
                    Some(body) => body.as_str().is_empty(),
                    None => true,
                };
                if lacks {
                    push_error(
                        errors,
                        "request.body",
                        "body required for exact or contains match",
                        location,
                    );
                }
            },
            BodyMatchType::Any | BodyMatchType::Ignore => {},
        }
    }
    assert(records(errors@) =~= records(old(errors)@) + request_match_errors(
        owned(request),
        text_of(location),
    ));
}

/// The findings about a ramp: neither length may be negative. `prefix`
/// names the rule that the ramp belongs to.
pub open spec fn ramp_errors(ramp: &RampConfig, prefix: Seq<char>, location: Option<Seq<char>>)
    -> Seq<ErrorRecord> {
    found_if(
        ramp.up_ms is Some && ramp.up_ms->0.raw < 0,
        record(prefix + ".up_ms"@, "up_ms must be >= 0"@, location),
    ) + found_if(
        ramp.down_ms is Some && ramp.down_ms->0.raw < 0,
        record(prefix + ".down_ms"@, "down_ms must be >= 0"@, location),
    )
}

/// Checks a ramp of the rule that `prefix` names.
pub fn validate_ramp(
    ramp: &RampConfig,
    prefix: &str,
    errors: &mut Vec<ValidationError>,
    location: Option<String>,
)
    ensures
        records(final(errors)@) == records(old(errors)@) + ramp_errors(
            ramp,
            prefix@,
            text_of(location),
        ),
{
    if let Some(up_ms) = ramp.up_ms {
        if up_ms.raw < 0 {
            let field = join2(prefix, ".up_ms");
            push_error(errors, field.as_str(), "up_ms must be >= 0", copy_text(&location));
        }
    }
    if let Some(down_ms) = ramp.down_ms {
        if down_ms.raw < 0 {
            let field = join2(prefix, ".down_ms");
            push_error(errors, field.as_str(), "down_ms must be >= 0", location);
        }
    }
    assert(records(errors@) =~= records(old(errors)@) + ramp_errors(
        ramp,
        prefix@,
        text_of(location),
    ));
}


/// The findings about the parameters of a distribution that is no mixture:
/// they must be of the declared kind and within its bounds.
pub open spec fn simple_distribution_errors(
    distribution: DistributionType,
    params: DistributionParams,
    location: Option<Seq<char>>,
) -> Seq<ErrorRecord> {
    match (distribution, params) {
        (DistributionType::Fixed, DistributionParams::Fixed { delay_ms }) => found_if(
            delay_ms.raw < 0,
            record("latency.params.delay_ms"@, "must be >= 0"@, location),
        ),
        (DistributionType::Normal, DistributionParams::Normal { mean_ms, stddev_ms }) => found_if(
            mean_ms.raw < 0,
            record("latency.params.mean_ms"@, "must be >= 0"@, location),
        ) + found_if(
            stddev_ms.raw <= 0,
            record("latency.params.stddev_ms"@, "must be > 0"@, location),
        ),
        (DistributionType::Exponential, DistributionParams::Exponential { rate }) => found_if(
            rate.raw <= 0,
            record("latency.params.rate"@, "must be > 0"@, location),
        ),
        (DistributionType::Uniform, DistributionParams::Uniform { min_ms, max_ms }) => found_if(
            min_ms.raw < 0,
            record("latency.params.min_ms"@, "must be >= 0"@, location),
        ) + found_if(
            max_ms.raw <= min_ms.raw,
            record("latency.params.max_ms"@, "must be > min_ms"@, location),
        ),
        (DistributionType::LogNormal, DistributionParams::LogNormal { mean_ms, stddev_ms }) => found_if(
            mean_ms.raw <= 0,
            record("latency.params.mean_ms"@, "must be > 0"@, location),
        ) + found_if(
            stddev_ms.raw < 0,
            record("latency.params.stddev_ms"@, "must be >= 0"@, location),
        ),
        _ => seq![
            record("latency"@, "distribution type and params do not match"@, location),
        ],
    }
}

fn validate_simple_distribution(
    distribution: &DistributionType,
    params: &DistributionParams,
    errors: &mut Vec<ValidationError>,
    location: Option<String>,
)
    ensures
        records(final(errors)@) == records(old(errors)@) + simple_distribution_errors(
            *distribution,
            *params,
            text_of(location),
        ),
{
    match (distribution, params) {
        (DistributionType::Fixed, DistributionParams::Fixed { delay_ms }) => {
            if delay_ms.raw < 0 {
                push_error(errors, "latency.params.delay_ms", "must be >= 0", location);
            }
        },
        (DistributionType::Normal, DistributionParams::Normal { mean_ms, stddev_ms }) => {
            if mean_ms.raw < 0 {
                push_error(errors, "latency.params.mean_ms", "must be >= 0", copy_text(&location));
            }
            if stddev_ms.raw <= 0 {
                push_error(errors, "latency.params.stddev_ms", "must be > 0", location);
            }
        },
        (DistributionType::Exponential, DistributionParams::Exponential { rate }) => {
            if rate.raw <= 0 {
                push_error(errors, "latency.params.rate", "must be > 0", location);
            }
        },
        (DistributionType::Uniform, DistributionParams::Uniform { min_ms, max_ms }) => {
            if min_ms.raw < 0 {
                push_error(errors, "latency.params.min_ms", "must be >= 0", copy_text(&location));
            }
            if max_ms.raw <= min_ms.raw {
                push_error(errors, "latency.params.max_ms", "must be > min_ms", location);
            }
        },
        (DistributionType::LogNormal, DistributionParams::LogNormal { mean_ms, stddev_ms }) => {
            if mean_ms.raw <= 0 {
                push_error(errors, "latency.params.mean_ms", "must be > 0", copy_text(&location));
            }
            if stddev_ms.raw < 0 {
                push_error(errors, "latency.params.stddev_ms", "must be >= 0", location);
            }
        },
        _ => {
            push_error(errors, "latency", "distribution type and params do not match", location);
        },
    }
    assert(records(errors@) =~= records(old(errors)@) + simple_distribution_errors(
        *distribution,
        *params,
        text_of(location),
    ));
}

/// The message about the weight of the component at `index`.
pub open spec fn weight_message(index: nat) -> Seq<char> {
    "component "@ + decimal_digits(index) + " weight must be > 0"@
}

/// The message about a component at `index` that is itself a mixture.
pub open spec fn nested_message(index: nat) -> Seq<char> {
    "component "@ + decimal_digits(index) + " distribution cannot be mixture"@
}

/// The findings about the component at `index` of a mixture: a positive
/// weight, and a distribution that is valid and no mixture.
pub open spec fn component_errors(
    component: MixtureComponent,
    index: nat,
    location: Option<Seq<char>>,
) -> Seq<ErrorRecord> {
    found_if(
        component.weight.raw <= 0,
        record("latency.params.components.weight"@, weight_message(index), location),
    ) + (if component.distribution == DistributionType::Mixture {
        seq![
            record("latency.params.components.distribution"@, nested_message(index), location),
        ]
    } else {
        simple_distribution_errors(component.distribution, *component.params, location)
    })
}

/// The findings about the first `count` components of a mixture, in order.
pub open spec fn components_errors(
    components: Seq<MixtureComponent>,
    count: nat,
    location: Option<Seq<char>>,
) -> Seq<ErrorRecord>
    decreases count,
{
    if count == 0 {
        Seq::empty()
    } else {
        components_errors(components, (count - 1) as nat, location) + component_errors(
            components[count - 1],
            (count - 1) as nat,
            location,
        )
    }
}

/// Whether one of the first `count` components has a positive weight.
pub open spec fn some_weight_positive(components: Seq<MixtureComponent>, count: nat) -> bool {
    exists|i: int| 0 <= i < count && (#[trigger] components[i]).weight.raw > 0
}

/// The findings about the components of a mixture: there is at least one,
/// each is valid, and the weights do not sum to zero.
pub open spec fn mixture_errors(components: Seq<MixtureComponent>, location: Option<Seq<char>>)
    -> Seq<ErrorRecord> {
    if components.len() == 0 {
        seq![
            record(
                "latency.params.components"@,
                "must include at least one component"@,
                location,
            ),
        ]
    } else {
        components_errors(components, components.len(), location) + found_if(
            !some_weight_positive(components, components.len()),
            record("latency.params.components.weight"@, "total weight must be > 0"@, location),
        )
    }
}

fn validate_component(
    component: &MixtureComponent,
    index: usize,
    errors: &mut Vec<ValidationError>,
    location: Option<String>,
)
    ensures
        records(final(errors)@) == records(old(errors)@) + component_errors(
            *component,
            index as nat,
            text_of(location),
        ),
{
    let ghost base = records(errors@);
    let digits = decimal_text(index);
    let message = join3("component ", digits.as_str(), " weight must be > 0");
    report(
        errors,
        component.weight.raw <= 0,
        "latency.params.components.weight",
        message.as_str(),
        copy_text(&location),
    );
    let ghost found1 = found_if(
        component.weight.raw <= 0,
        record(
            "latency.params.components.weight"@,
            weight_message(index as nat),
            text_of(location),
        ),
    );
    if component.distribution == DistributionType::Mixture {
        let message = join3("component ", digits.as_str(), " distribution cannot be mixture");
        push_error(
            errors,
            "latency.params.components.distribution",
            message.as_str(),
            copy_text(&location),
        );
        proof {
            let more = seq![
                record(
                    "latency.params.components.distribution"@,
                    nested_message(index as nat),
                    text_of(location),
                ),
            ];
            assert((base + found1).push(more[0]) =~= (base + found1) + more);
            lemma_found_more(base, found1, more);
        }
    } else {
        validate_simple_distribution(
            &component.distribution,
            &*component.params,
            errors,
            copy_text(&location),
        );
        proof {
            lemma_found_more(
                base,
                found1,
                simple_distribution_errors(
                    component.distribution,
                    *component.params,
                    text_of(location),
                ),
            );
        }
    }
}

/// One more component has a positive weight, or one of those before it.
proof fn lemma_weight_seen(components: Seq<MixtureComponent>, index: int)
    requires
        0 <= index < components.len(),
    ensures
        some_weight_positive(components, (index + 1) as nat) == (some_weight_positive(
            components,
            index as nat,
        ) || components[index].weight.raw > 0),
{
    if some_weight_positive(components, index as nat) {
        let i = choose|i: int| 0 <= i < index && (#[trigger] components[i]).weight.raw > 0;
        assert(0 <= i < index + 1 && components[i].weight.raw > 0);
    }
    if some_weight_positive(components, (index + 1) as nat) {
        let i = choose|i: int| 0 <= i < index + 1 && (#[trigger] components[i]).weight.raw > 0;
        if i < index {
            assert(0 <= i < index && components[i].weight.raw > 0);
        }
    }
    if components[index].weight.raw > 0 {
        assert(0 <= index < index + 1 && components[index].weight.raw > 0);
    }
}

/// Checks the components of a mixture.
pub fn validate_mixture_components(
    components: &Vec<MixtureComponent>,
    errors: &mut Vec<ValidationError>,
    location: Option<String>,
)
    ensures
        records(final(errors)@) == records(old(errors)@) + mixture_errors(
            components@,
            text_of(location),
        ),
{
    let ghost base = records(errors@);
    if components.len() == 0 {
        report(
            errors,
            true,
            "latency.params.components",
            "must include at least one component",
            location,
        );
        return ;
    }
    let mut any_positive = false;
    let mut index: usize = 0;
    proof {
        lemma_found_none(base);
    }
    while index < components.len()
        invariant
            index <= components@.len(),
            any_positive == some_weight_positive(components@, index as nat),
            records(errors@) == base + components_errors(
                components@,
                index as nat,
                text_of(location),
            ),
        decreases components@.len() - index,
    {
        let component = &components[index];
        validate_component(component, index, errors, copy_text(&location));
        if component.weight.raw > 0 {
            any_positive = true;
        }
        proof {
            lemma_weight_seen(components@, index as int);
            lemma_found_more(
                base,
                components_errors(components@, index as nat, text_of(location)),
                component_errors(components@[index as int], index as nat, text_of(location)),
            );
        }
        index += 1;
    }
    report(
        errors,
        !any_positive,
        "latency.params.components.weight",
        "total weight must be > 0",
        location,
    );
    proof {
        lemma_found_more(
            base,
            components_errors(components@, components@.len(), text_of(location)),
            found_if(
                !some_weight_positive(components@, components@.len()),
                record(
                    "latency.params.components.weight"@,
                    "total weight must be > 0"@,
                    text_of(location),
                ),
            ),
        );
    }
}

/// The findings about a distribution: its parameters must be of the
/// declared kind and within its bounds.
pub open spec fn distribution_errors(
    distribution: DistributionType,
    params: DistributionParams,
    location: Option<Seq<char>>,
) -> Seq<ErrorRecord> {
    match (distribution, params) {
        (DistributionType::Mixture, DistributionParams::Mixture { components }) => mixture_errors(
            components@,
            location,
        ),
        _ => simple_distribution_errors(distribution, params, location),
    }
}

/// Checks the parameters of a distribution against its declared kind.
pub fn validate_distribution(
    distribution: &DistributionType,
    params: &DistributionParams,
    errors: &mut Vec<ValidationError>,
    location: Option<String>,
)
    ensures
        records(final(errors)@) == records(old(errors)@) + distribution_errors(
            *distribution,
            *params,
            text_of(location),
        ),
{
    match (distribution, params) {
        (DistributionType::Mixture, DistributionParams::Mixture { components }) => {
            validate_mixture_components(components, errors, location);
        },
        _ => {
            validate_simple_distribution(distribution, params, errors, location);
        },
    }
}

/// Checks a latency configuration.
pub fn validate_latency(
    latency: &LatencyConfig,
    errors: &mut Vec<ValidationError>,
    location: Option<String>,
)
    ensures
        records(final(errors)@) == records(old(errors)@) + distribution_errors(
            latency.distribution,
            latency.params,
            text_of(location),
        ),
{
    validate_distribution(&latency.distribution, &latency.params, errors, location);
}


/// Whether a rate lies outside the unit interval.
pub open spec fn outside_unit(raw: int) -> bool {
    raw < 0 || raw > SCALE
}

/// Whether a list of status codes holds one that is no status code.
pub open spec fn some_code_invalid(codes: Seq<u16>) -> bool {
    exists|i: int| 0 <= i < codes.len() && !valid_status(#[trigger] codes[i])
}

/// Whether a text is missing or empty.
pub open spec fn text_missing(text: Option<String>) -> bool {
    match text {
        Some(s) => s@.len() == 0,
        None => true,
    }
}

/// The findings about a payload corruption: a rate in the unit interval, a
/// truncate ratio above zero and at most one, a replacement for replace mode.
pub open spec fn corruption_errors(corruption: &PayloadCorruption, location: Option<Seq<char>>)
    -> Seq<ErrorRecord> {
    found_if(
        outside_unit(corruption.rate.raw as int),
        record(
            "error_profile.payload_corruption.rate"@,
            "must be between 0.0 and 1.0"@,
            location,
        ),
    ) + (match corruption.mode {
        CorruptionMode::Truncate => found_if(
            corruption.truncate_ratio is Some && (corruption.truncate_ratio->0.raw <= 0
                || corruption.truncate_ratio->0.raw > SCALE),
            record(
                "error_profile.payload_corruption.truncate_ratio"@,
                "must be > 0 and <= 1"@,
                location,
            ),
        ),
        CorruptionMode::Replace => found_if(
            text_missing(corruption.replacement),
            record(
                "error_profile.payload_corruption.replacement"@,
                "must be provided for replace mode"@,
                location,
            ),
        ),
    })
}

fn validate_corruption(
    corruption: &PayloadCorruption,
    errors: &mut Vec<ValidationError>,
    location: Option<String>,
)
    ensures
        records(final(errors)@) == records(old(errors)@) + corruption_errors(
            corruption,
            text_of(location),
        ),
{
    if corruption.rate.raw < 0 || corruption.rate.raw > SCALE {
        push_error(
            errors,
            "error_profile.payload_corruption.rate",
            "must be between 0.0 and 1.0",
            copy_text(&location),
        );
    }
    match corruption.mode {
        CorruptionMode::Truncate => {
            if let Some(ratio) = corruption.truncate_ratio {
                if ratio.raw <= 0 || ratio.raw > SCALE {
                    push_error(
                        errors,
                        "error_profile.payload_corruption.truncate_ratio",
                        "must be > 0 and <= 1",
                        location,
                    );
                }
            }
        },
        CorruptionMode::Replace => {
            let missing = match &corruption.replacement {
                Some(text) => text.as_str().is_empty(),
                None => true,
            };
            if missing {
                push_error(
                    errors,
                    "error_profile.payload_corruption.replacement",
                    "must be provided for replace mode",
                    location,
                );
            }
        },
    }
    assert(records(errors@) =~= records(old(errors)@) + corruption_errors(
        corruption,
        text_of(location),
    ));
}

/// The findings about an error profile: a rate in the unit interval, status
/// codes where errors are answered by status, valid codes throughout, and a
/// valid payload corruption.
pub open spec fn error_profile_errors(profile: &ErrorProfile, location: Option<Seq<char>>) -> Seq<
    ErrorRecord,
> {
    found_if(
        outside_unit(profile.rate.raw as int),
        record("error_profile.rate"@, "must be between 0.0 and 1.0"@, location),
    ) + found_if(
        profile.rate.raw > 0 && profile.codes@.len() == 0 && !profile.error_in_payload,
        record(
            "error_profile.codes"@,
            "must include at least one status code when rate > 0"@,
            location,
        ),
    ) + found_if(
        some_code_invalid(profile.codes@),
        record("error_profile.codes"@, "invalid HTTP status code"@, location),
    ) + (match profile.payload_corruption {
        Some(corruption) => corruption_errors(&corruption, location),
        None => Seq::empty(),
    })
}

fn any_code_invalid(codes: &Vec<u16>) -> (found: bool)
    ensures
        found == some_code_invalid(codes@),
{
    let mut i: usize = 0;
    while i < codes.len()
        invariant
            i <= codes@.len(),
            forall|j: int| 0 <= j < i ==> valid_status(#[trigger] codes@[j]),
        decreases codes@.len() - i,
    {
        if !is_valid_status(codes[i]) {
            return true;
        }
        i += 1;
    }
    false
}

/// Checks an error profile.
pub fn validate_error_profile(
    profile: &ErrorProfile,
    errors: &mut Vec<ValidationError>,
    location: Option<String>,
)
    ensures
        records(final(errors)@) == records(old(errors)@) + error_profile_errors(
            profile,
            text_of(location),
        ),
{
    if profile.rate.raw < 0 || profile.rate.raw > SCALE {
        push_error(
            errors,
            "error_profile.rate",
            "must be between 0.0 and 1.0",
            copy_text(&location),
        );
    }
    if profile.rate.raw > 0 && profile.codes.len() == 0 && !profile.error_in_payload {
        push_error(
            errors,
            "error_profile.codes",
            "must include at least one status code when rate > 0",
            copy_text(&location),
        );
    }
    if any_code_invalid(&profile.codes) {
        push_error(errors, "error_profile.codes", "invalid HTTP status code", copy_text(&location));
    }
    if let Some(corruption) = &profile.payload_corruption {
        validate_corruption(corruption, errors, location);
    }
    assert(records(errors@) =~= records(old(errors)@) + error_profile_errors(
        profile,
        text_of(location),
    ));
}

/// The findings about one endpoint, each located by the endpoint's id: an id
/// that is not blank, a path that begins with a slash, and valid parts.
pub open spec fn endpoint_errors(endpoint: &Endpoint) -> Seq<ErrorRecord> {
    let location = Some(endpoint.id@);
    found_if(
        is_blank(endpoint.id@),
        record("endpoints.id"@, "id must not be empty"@, location),
    ) + found_if(
        !begins_with_slash(endpoint.path@),
        record("endpoints.path"@, "path must start with '/'"@, location),
    ) + distribution_errors(endpoint.latency.distribution, endpoint.latency.params, location)
        + response_errors(&endpoint.response, location) + error_profile_errors(
        &endpoint.error_profile,
        location,
    ) + rate_limit_errors(endpoint.rate_limit, location) + bandwidth_cap_errors(
        endpoint.bandwidth_cap,
        location,
    ) + request_match_errors(endpoint.request, location)
}

/// Checks one endpoint.
pub fn validate_endpoint(endpoint: &Endpoint, errors: &mut Vec<ValidationError>)
    ensures
        records(final(errors)@) == records(old(errors)@) + endpoint_errors(endpoint),
{
    let ghost base = records(errors@);
    let ghost place = Some(endpoint.id@);
    let location: Option<String> = Some(endpoint.id.clone());
    report(
        errors,
        text_is_blank(endpoint.id.as_str()),
        "endpoints.id",
        "id must not be empty",
        copy_text(&location),
    );
    let ghost found1 = found_if(
        is_blank(endpoint.id@),
        record("endpoints.id"@, "id must not be empty"@, place),
    );
    let ghost more = found_if(
        !begins_with_slash(endpoint.path@),
        record("endpoints.path"@, "path must start with '/'"@, place),
    );
    report(
        errors,
        !text_begins_with_slash(endpoint.path.as_str()),
        "endpoints.path",
        "path must start with '/'",
        copy_text(&location),
    );
    let ghost found2 = found1 + more;
    proof {
        lemma_found_more(base, found1, more);
    }
    validate_latency(&endpoint.latency, errors, copy_text(&location));
    let ghost more = distribution_errors(
        endpoint.latency.distribution,
        endpoint.latency.params,
        place,
    );
    let ghost found3 = found2 + more;
    proof {
        lemma_found_more(base, found2, more);
    }
    validate_response(&endpoint.response, errors, copy_text(&location));
    let ghost more = response_errors(&endpoint.response, place);
    let ghost found4 = found3 + more;
    proof {
        lemma_found_more(base, found3, more);
    }
    validate_error_profile(&endpoint.error_profile, errors, copy_text(&location));
    let ghost more = error_profile_errors(&endpoint.error_profile, place);
    let ghost found5 = found4 + more;
    proof {
        lemma_found_more(base, found4, more);
    }
    let rate_limit = endpoint.rate_limit.as_ref();
    validate_rate_limit(rate_limit, errors, copy_text(&location));
    let ghost more = rate_limit_errors(endpoint.rate_limit, place);
    let ghost found6 = found5 + more;
    proof {
        assert(owned(rate_limit) == endpoint.rate_limit);
        lemma_found_more(base, found5, more);
    }
    let bandwidth_cap = endpoint.bandwidth_cap.as_ref();
    validate_bandwidth_cap(bandwidth_cap, errors, copy_text(&location));
    let ghost more = bandwidth_cap_errors(endpoint.bandwidth_cap, place);
    let ghost found7 = found6 + more;
    proof {
        assert(owned(bandwidth_cap) == endpoint.bandwidth_cap);
        lemma_found_more(base, found6, more);
    }
    let request = endpoint.request.as_ref();
    validate_request_match(request, errors, location);
    let ghost more = request_match_errors(endpoint.request, place);
    let ghost found8 = found7 + more;
    proof {
        assert(owned(request) == endpoint.request);
        lemma_found_more(base, found7, more);
        assert(records(errors@) == base + found8);
        assert(found8 == endpoint_errors(endpoint));
    }
}

/// The findings about the first `count` members of a group: each must be
/// the id of an endpoint.
pub open spec fn member_errors(endpoint_ids: Seq<Seq<char>>, members: Seq<String>, count: nat)
    -> Seq<ErrorRecord>
    decreases count,
{
    if count == 0 {
        Seq::empty()
    } else {
        member_errors(endpoint_ids, members, (count - 1) as nat) + found_if(
            !endpoint_ids.contains(members[count - 1]@),
            record(
                "endpoint_groups.endpoint_ids"@,
                "endpoint id does not exist"@,
                Some(members[count - 1]@),
            ),
        )
    }
}

/// The ids of a list of groups.
pub open spec fn group_ids_of(groups: Seq<EndpointGroup>) -> Seq<Seq<char>> {
    groups.map_values(|g: EndpointGroup| g.id@)
}

/// The findings about the group at `index`: an id that is not blank and not
/// that of an earlier group, and at least one member, each an endpoint.
pub open spec fn group_errors(
    groups: Seq<EndpointGroup>,
    index: int,
    endpoint_ids: Seq<Seq<char>>,
) -> Seq<ErrorRecord> {
    let group = groups[index];
    let location = Some(group.id@);
    found_if(
        is_blank(group.id@),
        record("endpoint_groups.id"@, "id must not be empty"@, location),
    ) + found_if(
        group_ids_of(groups).subrange(0, index).contains(group.id@),
        record("endpoint_groups.id"@, "duplicate group id"@, location),
    ) + found_if(
        group.endpoint_ids@.len() == 0,
        record(
            "endpoint_groups.endpoint_ids"@,
            "must include at least one endpoint id"@,
            location,
        ),
    ) + member_errors(endpoint_ids, group.endpoint_ids@, group.endpoint_ids@.len())
}

/// The findings about the first `count` groups, in order.
pub open spec fn endpoint_groups_errors(
    groups: Seq<EndpointGroup>,
    count: nat,
    endpoint_ids: Seq<Seq<char>>,
) -> Seq<ErrorRecord>
    decreases count,
{
    if count == 0 {
        Seq::empty()
    } else {
        endpoint_groups_errors(groups, (count - 1) as nat, endpoint_ids) + group_errors(
            groups,
            count - 1,
            endpoint_ids,
        )
    }
}

/// A list that holds the first `index` texts of `all` holds the first
/// `index + 1` once the text at `index` is appended.
pub proof fn lemma_texts_grow(
    all: Seq<Seq<char>>,
    index: int,
    earlier: Seq<String>,
    later: Seq<String>,
)
    requires
        0 <= index < all.len(),
        texts(earlier) == all.subrange(0, index),
        later.len() == earlier.len() + 1,
        forall|j: int| 0 <= j < earlier.len() ==> later[j] == earlier[j],
        later[earlier.len() as int]@ == all[index],
    ensures
        texts(later) == all.subrange(0, index + 1),
{
    let wanted = all.subrange(0, index + 1);
    assert(wanted.len() == index + 1);
    assert(texts(earlier).len() == index);
    assert(earlier.len() == index);
    assert forall|j: int| 0 <= j < index + 1 implies texts(later)[j] == wanted[j] by {
        if j < index {
            assert(texts(earlier)[j] == all.subrange(0, index)[j]);
        }
    }
    assert(texts(later) =~= wanted);
}

fn validate_members(
    members: &Vec<String>,
    endpoint_ids: &Vec<String>,
    errors: &mut Vec<ValidationError>,
)
    ensures
        records(final(errors)@) == records(old(errors)@) + member_errors(
            texts(endpoint_ids@),
            members@,
            members@.len(),
        ),
{
    let ghost base = records(errors@);
    let mut m: usize = 0;
    proof {
        lemma_found_none(base);
    }
    while m < members.len()
        invariant
            m <= members@.len(),
            records(errors@) == base + member_errors(texts(endpoint_ids@), members@, m as nat),
        decreases members@.len() - m,
    {
        let member = &members[m];
        report(
            errors,
            !contains_text(endpoint_ids, member),
            "endpoint_groups.endpoint_ids",
            "endpoint id does not exist",
            Some(member.clone()),
        );
        proof {
            lemma_found_more(
                base,
                member_errors(texts(endpoint_ids@), members@, m as nat),
                found_if(
                    !texts(endpoint_ids@).contains(members@[m as int]@),
                    record(
                        "endpoint_groups.endpoint_ids"@,
                        "endpoint id does not exist"@,
                        Some(members@[m as int]@),
                    ),
                ),
            );
        }
        m += 1;
    }
}

fn validate_group(
    groups: &Vec<EndpointGroup>,
    index: usize,
    seen: &Vec<String>,
    endpoint_ids: &Vec<String>,
    errors: &mut Vec<ValidationError>,
)
    requires
        index < groups@.len(),
        texts(seen@) == group_ids_of(groups@).subrange(0, index as int),
    ensures
        records(final(errors)@) == records(old(errors)@) + group_errors(
            groups@,
            index as int,
            texts(endpoint_ids@),
        ),
{
    let ghost base = records(errors@);
    let group = &groups[index];
    let ghost place = Some(group.id@);
    report(
        errors,
        text_is_blank(group.id.as_str()),
        "endpoint_groups.id",
        "id must not be empty",
        Some(group.id.clone()),
    );
    let ghost found1 = found_if(
        is_blank(group.id@),
        record("endpoint_groups.id"@, "id must not be empty"@, place),
    );
    report(
        errors,
        contains_text(seen, &group.id),
        "endpoint_groups.id",
        "duplicate group id",
        Some(group.id.clone()),
    );
    let ghost more = found_if(
        group_ids_of(groups@).subrange(0, index as int).contains(group.id@),
        record("endpoint_groups.id"@, "duplicate group id"@, place),
    );
    let ghost found2 = found1 + more;
    proof {
        lemma_found_more(base, found1, more);
    }
    report(
        errors,
        group.endpoint_ids.len() == 0,
        "endpoint_groups.endpoint_ids",
        "must include at least one endpoint id",
        Some(group.id.clone()),
    );
    let ghost more = found_if(
        group.endpoint_ids@.len() == 0,
        record(
            "endpoint_groups.endpoint_ids"@,
            "must include at least one endpoint id"@,
            place,
        ),
    );
    let ghost found3 = found2 + more;
    proof {
        lemma_found_more(base, found2, more);
    }
    validate_members(&group.endpoint_ids, endpoint_ids, errors);
    let ghost more = member_errors(
        texts(endpoint_ids@),
        group.endpoint_ids@,
        group.endpoint_ids@.len(),
    );
    proof {
        lemma_found_more(base, found3, more);
        assert(found3 + more == group_errors(groups@, index as int, texts(endpoint_ids@)));
    }
}

/// Checks the groups against each other and against the ids of the
/// endpoints.
pub fn validate_endpoint_groups(
    groups: &Vec<EndpointGroup>,
    endpoint_ids: &Vec<String>,
    errors: &mut Vec<ValidationError>,
)
    ensures
        records(final(errors)@) == records(old(errors)@) + endpoint_groups_errors(
            groups@,
            groups@.len(),
            texts(endpoint_ids@),
        ),
{
    let ghost base = records(errors@);
    let mut seen: Vec<String> = Vec::new();
    let mut index: usize = 0;
    proof {
        lemma_found_none(base);
        assert(texts(seen@) =~= group_ids_of(groups@).subrange(0, 0));
    }
    while index < groups.len()
        invariant
            index <= groups@.len(),
            texts(seen@) == group_ids_of(groups@).subrange(0, index as int),
            records(errors@) == base + endpoint_groups_errors(
                groups@,
                index as nat,
                texts(endpoint_ids@),
            ),
        decreases groups@.len() - index,
    {
        validate_group(groups, index, &seen, endpoint_ids, errors);
        let ghost earlier = seen@;
        seen.push(groups[index].id.clone());
        proof {
            lemma_texts_grow(group_ids_of(groups@), index as int, earlier, seen@);
            lemma_found_more(
                base,
                endpoint_groups_errors(groups@, index as nat, texts(endpoint_ids@)),
                group_errors(groups@, index as int, texts(endpoint_ids@)),
            );
        }
        index += 1;
    }
}


/// The ids of a list of endpoints.
pub open spec fn endpoint_ids_of(endpoints: Seq<Endpoint>) -> Seq<Seq<char>> {
    endpoints.map_values(|e: Endpoint| e.id@)
}

/// The route of an endpoint as one text: method, a space, path.
pub open spec fn route_text(endpoint: &Endpoint) -> Seq<char> {
    method_text(endpoint.method) + " "@ + endpoint.path@
}

/// The routes of a list of endpoints.
pub open spec fn routes_of(endpoints: Seq<Endpoint>) -> Seq<Seq<char>> {
    endpoints.map_values(|e: Endpoint| route_text(&e))
}

/// The findings about the endpoint at `index`: those about the endpoint
/// alone, then an id and a route that no earlier endpoint has.
pub open spec fn listed_endpoint_errors(endpoints: Seq<Endpoint>, index: int) -> Seq<ErrorRecord> {
    let endpoint = endpoints[index];
    endpoint_errors(&endpoint) + found_if(
        endpoint_ids_of(endpoints).subrange(0, index).contains(endpoint.id@),
        record("endpoints.id"@, "duplicate endpoint id"@, Some(endpoint.id@)),
    ) + found_if(
        routes_of(endpoints).subrange(0, index).contains(route_text(&endpoint)),
        record(
            "endpoints.method+path"@,
            "duplicate method and path combination"@,
            Some(route_text(&endpoint)),
        ),
    )
}

/// The findings about the first `count` endpoints, in order.
pub open spec fn endpoints_errors(endpoints: Seq<Endpoint>, count: nat) -> Seq<ErrorRecord>
    decreases count,
{
    if count == 0 {
        Seq::empty()
    } else {
        endpoints_errors(endpoints, (count - 1) as nat) + listed_endpoint_errors(
            endpoints,
            count - 1,
        )
    }
}

fn validate_listed_endpoint(
    endpoints: &Vec<Endpoint>,
    index: usize,
    ids: &mut Vec<String>,
    routes: &mut Vec<String>,
    errors: &mut Vec<ValidationError>,
)
    requires
        index < endpoints@.len(),
        texts(old(ids)@) == endpoint_ids_of(endpoints@).subrange(0, index as int),
        texts(old(routes)@) == routes_of(endpoints@).subrange(0, index as int),
    ensures
        texts(final(ids)@) == endpoint_ids_of(endpoints@).subrange(0, index + 1),
        texts(final(routes)@) == routes_of(endpoints@).subrange(0, index + 1),
        records(final(errors)@) == records(old(errors)@) + listed_endpoint_errors(
            endpoints@,
            index as int,
        ),
{
    let ghost base = records(errors@);
    let endpoint = &endpoints[index];
    validate_endpoint(endpoint, errors);
    let ghost found1 = endpoint_errors(endpoint);
    report(
        errors,
        contains_text(ids, &endpoint.id),
        "endpoints.id",
        "duplicate endpoint id",
        Some(endpoint.id.clone()),
    );
    let ghost more = found_if(
        endpoint_ids_of(endpoints@).subrange(0, index as int).contains(endpoint.id@),
        record("endpoints.id"@, "duplicate endpoint id"@, Some(endpoint.id@)),
    );
    let ghost found2 = found1 + more;
    proof {
        lemma_found_more(base, found1, more);
    }
    let ghost earlier = ids@;
    ids.push(endpoint.id.clone());
    proof {
        lemma_texts_grow(endpoint_ids_of(endpoints@), index as int, earlier, ids@);
    }
    let route_key = join3(method_to_str(&endpoint.method), " ", endpoint.path.as_str());
    report(
        errors,
        contains_text(routes, &route_key),
        "endpoints.method+path",
        "duplicate method and path combination",
        Some(route_key.clone()),
    );
    let ghost more = found_if(
        routes_of(endpoints@).subrange(0, index as int).contains(route_text(endpoint)),
        record(
            "endpoints.method+path"@,
            "duplicate method and path combination"@,
            Some(route_text(endpoint)),
        ),
    );
    proof {
        lemma_found_more(base, found2, more);
        assert(found2 + more == listed_endpoint_errors(endpoints@, index as int));
    }
    let ghost earlier = routes@;
    routes.push(route_key);
    proof {
        lemma_texts_grow(routes_of(endpoints@), index as int, earlier, routes@);
    }
}

/// Checks the endpoints one after the other; gives their ids in order.
fn validate_endpoints(endpoints: &Vec<Endpoint>, errors: &mut Vec<ValidationError>) -> (ids: Vec<
    String,
>)
    ensures
        texts(ids@) == endpoint_ids_of(endpoints@),
        records(final(errors)@) == records(old(errors)@) + endpoints_errors(
            endpoints@,
            endpoints@.len(),
        ),
{
    let ghost base = records(errors@);
    let mut ids: Vec<String> = Vec::new();
    let mut routes: Vec<String> = Vec::new();
    let mut index: usize = 0;
    proof {
        lemma_found_none(base);
        assert(texts(ids@) =~= endpoint_ids_of(endpoints@).subrange(0, 0));
        assert(texts(routes@) =~= routes_of(endpoints@).subrange(0, 0));
    }
    while index < endpoints.len()
        invariant
            index <= endpoints@.len(),
            texts(ids@) == endpoint_ids_of(endpoints@).subrange(0, index as int),
            texts(routes@) == routes_of(endpoints@).subrange(0, index as int),
            records(errors@) == base + endpoints_errors(endpoints@, index as nat),
        decreases endpoints@.len() - index,
    {
        validate_listed_endpoint(endpoints, index, &mut ids, &mut routes, errors);
        proof {
            lemma_found_more(
                base,
                endpoints_errors(endpoints@, index as nat),
                listed_endpoint_errors(endpoints@, index as int),
            );
        }
        index += 1;
    }
    proof {
        assert(endpoint_ids_of(endpoints@).subrange(0, endpoints@.len() as int)
            =~= endpoint_ids_of(endpoints@));
    }
    ids
}

/// The findings about a whole configuration, in the order in which the
/// validation makes them: version, presence of endpoints, each endpoint,
/// the groups, the behaviour windows, the burst events.
pub open spec fn config_errors(config: &Configuration) -> Seq<ErrorRecord> {
    let ids = endpoint_ids_of(config.endpoints@);
    let group_ids = group_ids_of(config.endpoint_groups@);
    found_if(config.version@ != "1.0"@, record("version"@, "must be '1.0'"@, None)) + found_if(
        config.endpoints@.len() == 0,
        record("endpoints"@, "must contain at least one endpoint"@, None),
    ) + endpoints_errors(config.endpoints@, config.endpoints@.len()) + endpoint_groups_errors(
        config.endpoint_groups@,
        config.endpoint_groups@.len(),
        ids,
    ) + behavior_windows_errors(config.behavior_windows@, group_ids, ids) + burst_events_errors(
        config.burst_events@,
        config.burst_events@.len(),
        group_ids,
        ids,
    )
}

/// Checks a configuration against every rule. It is accepted exactly when
/// there is no finding; otherwise the error carries all findings in order.
pub fn validate(config: &Configuration) -> (result: Result<(), ConfigError>)
    ensures
        match result {
            Ok(_) => config_errors(config).len() == 0,
            Err(ConfigError::ValidationError(count, errors)) => {
                &&& records(errors@) == config_errors(config)
                &&& count == errors@.len()
                &&& count > 0
            },
            Err(_) => false,
        },
{
    let mut errors: Vec<ValidationError> = Vec::new();
    let ghost base = records(errors@);
    let current = "1.0".to_string();
    report(&mut errors, config.version != current, "version", "must be '1.0'", None);
    let ghost found1 = found_if(
        config.version@ != "1.0"@,
        record("version"@, "must be '1.0'"@, None),
    );
    report(
        &mut errors,
        config.endpoints.len() == 0,
        "endpoints",
        "must contain at least one endpoint",
        None,
    );
    let ghost more = found_if(
        config.endpoints@.len() == 0,
        record("endpoints"@, "must contain at least one endpoint"@, None),
    );
    let ghost found2 = found1 + more;
    proof {
        lemma_found_more(base, found1, more);
    }
    let ids = validate_endpoints(&config.endpoints, &mut errors);
    let ghost more = endpoints_errors(config.endpoints@, config.endpoints@.len());
    let ghost found3 = found2 + more;
    proof {
        lemma_found_more(base, found2, more);
    }
    validate_endpoint_groups(&config.endpoint_groups, &ids, &mut errors);
    let ghost more = endpoint_groups_errors(
        config.endpoint_groups@,
        config.endpoint_groups@.len(),
        endpoint_ids_of(config.endpoints@),
    );
    let ghost found4 = found3 + more;
    proof {
        lemma_found_more(base, found3, more);
    }
    validate_behavior_windows(&config.behavior_windows, &config.endpoint_groups, &ids, &mut errors);
    let ghost more = behavior_windows_errors(
        config.behavior_windows@,
        group_ids_of(config.endpoint_groups@),
        endpoint_ids_of(config.endpoints@),
    );
    let ghost found5 = found4 + more;
    proof {
        lemma_found_more(base, found4, more);
    }
    validate_burst_events(&config.burst_events, &config.endpoint_groups, &ids, &mut errors);
    let ghost more = burst_events_errors(
        config.burst_events@,
        config.burst_events@.len(),
        group_ids_of(config.endpoint_groups@),
        endpoint_ids_of(config.endpoints@),
    );
    proof {
        lemma_found_more(base, found5, more);
        assert(found5 + more == config_errors(config));
        assert(base =~= Seq::<ErrorRecord>::empty());
        lemma_found_none(config_errors(config));
    }
    if errors.len() != 0 {
        let count: usize = errors.len();
        return Err(ConfigError::ValidationError(count, errors));
    }
    Ok(())
}

/// Where the first `count` endpoints have no findings, none of them has.
proof fn lemma_no_listed_errors(endpoints: Seq<Endpoint>, count: nat, index: int)
    requires
        endpoints_errors(endpoints, count).len() == 0,
        0 <= index < count,
    ensures
        listed_endpoint_errors(endpoints, index).len() == 0,
    decreases count,
{
    if index < count - 1 {
        lemma_no_listed_errors(endpoints, (count - 1) as nat, index);
    }
}

/// In a configuration that the validation accepts, no two endpoints share
/// an id, and no two share a method and a path.
pub proof fn lemma_accepted_endpoints_differ(config: &Configuration, first: int, second: int)
    requires
        config_errors(config).len() == 0,
        0 <= first < second < config.endpoints@.len(),
    ensures
        config.endpoints@[first].id@ != config.endpoints@[second].id@,
        !(config.endpoints@[first].method == config.endpoints@[second].method
            && config.endpoints@[first].path@ == config.endpoints@[second].path@),
{
    let endpoints = config.endpoints@;
    assert(endpoints_errors(endpoints, endpoints.len()).len() == 0);
    lemma_no_listed_errors(endpoints, endpoints.len(), second);
    let later = endpoints[second];
    let ids = endpoint_ids_of(endpoints).subrange(0, second);
    let routes = routes_of(endpoints).subrange(0, second);
    assert(found_if(
        ids.contains(later.id@),
        record("endpoints.id"@, "duplicate endpoint id"@, Some(later.id@)),
    ).len() == 0);
    assert(found_if(
        routes.contains(route_text(&later)),
        record(
            "endpoints.method+path"@,
            "duplicate method and path combination"@,
            Some(route_text(&later)),
        ),
    ).len() == 0);
    assert(ids[first] == endpoints[first].id@);
    assert(routes[first] == route_text(&endpoints[first]));
}

/// In a configuration that the validation accepts, every endpoint passes
/// the rules on an endpoint, there is an endpoint, and the version is the
/// current one.
pub proof fn lemma_accepted_endpoints_sound(config: &Configuration, index: int)
    requires
        config_errors(config).len() == 0,
        0 <= index < config.endpoints@.len(),
    ensures
        endpoint_errors(&config.endpoints@[index]).len() == 0,
        config.version@ == "1.0"@,
{
    let endpoints = config.endpoints@;
    assert(endpoints_errors(endpoints, endpoints.len()).len() == 0);
    lemma_no_listed_errors(endpoints, endpoints.len(), index);
}

} // verus!
