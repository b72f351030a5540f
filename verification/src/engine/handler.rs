//! The request pipeline: match, admit, delay, respond, corrupt, throttle.
//!
//! The pipeline plans a response and sleeps nowhere: the plan says how
//! long to wait before the response and how long the bandwidth cap holds
//! the body back, and the caller does the waiting.
use vstd::prelude::*;
use vstd::string::*;
use vstd::utf8::encode_utf8;
use crate::config::schema::{header_pairs, Endpoint, ErrorProfile, HttpMethod, ProfileModel, Response};
use crate::config::validator::owned;
use crate::decimal::{Delay, SCALE};
use crate::distributions::VariateSource;
use crate::engine::behavior::{elapsed_ms, elapsed_since};
use crate::engine::matcher::{body_accepted, request_matches};
use crate::engine::merger::{effective_error_profile, effective_profile};
use crate::engine::outcome::{
    body_sent, compute_bandwidth_delay, corrupt_at, error_fires, pacing_delay, rate_hit,
    status_at, status_picked,
};
use crate::engine::registry::{last_routed, EndpointRegistry, ResolvedEndpoint};
use crate::engine::response::{build_plain_text, build_response, sent_status, SimulatedResponse};
use crate::engine::sampler::{endpoint_latency_may_yield, sample_latency_with_behaviors};
use crate::limiter::{admits, after_request, TokenBucket};
use crate::random::{random_below, random_unit};

verus! {

/// The plan of a response: how long to wait, what to send, and how long
/// the bandwidth cap holds the body back once the wait is over.
#[derive(Debug)]
pub struct ResponsePlan {
    pub delay: Delay,
    pub response: SimulatedResponse,
    pub pacing: Delay,
}

/// What a response says, as plain values.
pub struct ResponseModel {
    pub status: u16,
    pub headers: Seq<(Seq<char>, Seq<char>)>,
    pub body: Seq<u8>,
}

impl View for SimulatedResponse {
    type V = ResponseModel;

    open spec fn view(&self) -> ResponseModel {
        ResponseModel {
            status: self.status,
            headers: header_pairs(self.headers@),
            body: self.body@,
        }
    }
}

/// The response of plain text by which the pipeline itself speaks.
pub open spec fn plain_text(status: u16, body: Seq<char>) -> ResponseModel {
    ResponseModel {
        status,
        headers: seq![("Content-Type"@, "text/plain"@)],
        body: encode_utf8(body),
    }
}

/// The three draws that decide a response once its error profile is known:
/// the roll for the error, the pick among the status codes, and the roll
/// for the corruption.
pub struct Chances {
    pub error_roll: int,
    pub pick: int,
    pub corruption_roll: int,
}

/// Whether draws are such as the generator can give for a profile.
pub open spec fn chances_possible(chances: Chances, profile: ProfileModel) -> bool {
    &&& 0 <= chances.error_roll < SCALE
    &&& 0 <= chances.pick
    &&& chances.pick < profile.codes.len() || profile.codes.len() == 0
    &&& 0 <= chances.corruption_roll < SCALE
}

/// The status and the body of a response before any corruption. Where no
/// error fires they are those of the template. An error in the payload
/// keeps the status and replaces the body by the error body, unless that
/// is empty; any other error has the picked status and the error body.
pub open spec fn answer(template: &Response, profile: ProfileModel, chances: Chances) -> (
    u16,
    Seq<u8>,
) {
    if !rate_hit(profile.rate, chances.error_roll) {
        (template.status, encode_utf8(template.body@))
    } else if profile.error_in_payload {
        (
            template.status,
            if profile.body.len() > 0 {
                encode_utf8(profile.body)
            } else {
                encode_utf8(template.body@)
            },
        )
    } else {
        (status_picked(profile.codes, chances.pick), encode_utf8(profile.body))
    }
}

/// The response of an endpoint under an error profile and given draws: the
/// answer, its body corrupted as the profile says, under the headers of
/// the endpoint.
pub open spec fn response_for(endpoint: &Endpoint, profile: ProfileModel, chances: Chances)
    -> ResponseModel {
    let (status, body) = answer(&endpoint.response, profile, chances);
    ResponseModel {
        status: sent_status(status),
        headers: header_pairs(endpoint.response.headers@),
        body: body_sent(body, profile, chances.corruption_roll),
    }
}

/// The response of an endpoint under an error profile and given draws,
/// with the time for which the bandwidth cap holds its body back.
pub fn respond(
    endpoint: &Endpoint,
    profile: &ErrorProfile,
    error_roll: i64,
    pick: usize,
    corruption_roll: i64,
) -> (planned: (SimulatedResponse, Delay))
    ensures
        planned.0@ == response_for(
            endpoint,
            profile@,
            Chances {
                error_roll: error_roll as int,
                pick: pick as int,
                corruption_roll: corruption_roll as int,
            },
        ),
        planned.1.nanos == pacing_delay(planned.0.body@.len() as int, endpoint.bandwidth_cap),
{
    let mut status: u16 = endpoint.response.status;
    let mut body: &str = endpoint.response.body.as_str();
    if error_fires(profile, error_roll) {
        if profile.error_in_payload {
            if !profile.body.as_str().is_empty() {
                body = profile.body.as_str();
            }
        } else {
            status = status_at(profile, pick);
            body = profile.body.as_str();
        }
    }
    let final_body = corrupt_at(body.as_bytes(), profile, corruption_roll);
    let cap = endpoint.bandwidth_cap.as_ref();
    let pacing = compute_bandwidth_delay(final_body.as_slice(), cap);
    assert(owned(cap) == endpoint.bandwidth_cap);
    let response = build_response(status, &endpoint.response.headers, final_body.as_slice());
    (response, pacing)
}

/// Takes a token from the bucket of an endpoint; an endpoint without a
/// bucket admits every request.
pub fn check_rate_limit(resolved: &mut ResolvedEndpoint, now: u64) -> (admitted: bool)
    ensures
        final(resolved).endpoint == old(resolved).endpoint,
        final(resolved).behaviors == old(resolved).behaviors,
        final(resolved).loaded_at == old(resolved).loaded_at,
        match old(resolved).rate_limiter {
            Some(bucket) => {
                &&& admitted == admits(bucket@, now as nat)
                &&& final(resolved).rate_limiter is Some
                &&& final(resolved).rate_limiter->0@ == after_request(bucket@, now as nat)
            },
            None => admitted && final(resolved).rate_limiter is None,
        },
{
    match resolved.rate_limiter {
        Some(bucket) => {
            let mut bucket: TokenBucket = bucket;
            let admitted = bucket.try_take(now);
            resolved.rate_limiter = Some(bucket);
            admitted
        },
        None => true,
    }
}

/// Whether a request passes the first two steps of the pipeline: its body
/// fits the rule of the endpoint, and the token bucket admits it.
pub open spec fn request_admitted(resolved: &ResolvedEndpoint, body: Seq<char>, now: u64) -> bool {
    &&& body_accepted(encode_utf8(body), resolved.endpoint.request)
    &&& match resolved.rate_limiter {
        Some(bucket) => admits(bucket@, now as nat),
        None => true,
    }
}

/// The time since the endpoint was loaded, as the pipeline counts it.
pub open spec fn elapsed_at(resolved: &ResolvedEndpoint, now: u64) -> int {
    elapsed_since(resolved.loaded_at, now)
}

/// Whether a plan, and the state in which it leaves an endpoint, is one
/// that the pipeline can make of a request that arrives at time `now`.
///
/// The endpoint keeps everything but its token bucket. A body that does
/// not fit is answered by 400 at once and costs no token. Every other
/// request takes part in the admission; one that the bucket rejects is
/// answered by 429 at once. An admitted request is answered after a delay
/// that the latency in effect can yield, by the response that the error
/// profile in effect gives for some draws, and its body is held back as
/// the bandwidth cap says.
pub open spec fn plan_fits<S: VariateSource>(
    before: &ResolvedEndpoint,
    after: &ResolvedEndpoint,
    body: Seq<char>,
    now: u64,
    source: &S,
    plan: &ResponsePlan,
) -> bool {
    let elapsed = elapsed_at(before, now);
    let profile = effective_profile(&before.endpoint, &before.behaviors, elapsed);
    &&& after.endpoint == before.endpoint
    &&& after.behaviors == before.behaviors
    &&& after.loaded_at == before.loaded_at
    &&& if !body_accepted(encode_utf8(body), before.endpoint.request) {
        &&& plan.response@ == plain_text(400, "Request body did not match"@)
        &&& plan.delay.nanos == 0
        &&& plan.pacing.nanos == 0
        &&& after.rate_limiter == before.rate_limiter
    } else {
        &&& match before.rate_limiter {
            Some(bucket) => {
                &&& after.rate_limiter is Some
                &&& after.rate_limiter->0@ == after_request(bucket@, now as nat)
            },
            None => after.rate_limiter is None,
        }
        &&& if !request_admitted(before, body, now) {
            &&& plan.response@ == plain_text(429, "Rate limit exceeded"@)
            &&& plan.delay.nanos == 0
            &&& plan.pacing.nanos == 0
        } else {
            &&& endpoint_latency_may_yield(
                &before.endpoint,
                &before.behaviors,
                elapsed,
                source,
                plan.delay,
            )
            &&& exists|chances: Chances| #[trigger]
                chances_possible(chances, profile) && plan.response@ == response_for(
                    &before.endpoint,
                    profile,
                    chances,
                )
            &&& plan.pacing.nanos == pacing_delay(
                plan.response.body@.len() as int,
                before.endpoint.bandwidth_cap,
            )
        }
    }
}

/// Plans the response of an endpoint to a request that arrives at time
/// `now`, and takes a token from its bucket where the request gets that
/// far.
pub fn handle_request<S: VariateSource>(
    resolved: &mut ResolvedEndpoint,
    request_body: &str,
    now: u64,
    source: &S,
) -> (plan: ResponsePlan)
    ensures
        plan_fits(old(resolved), final(resolved), request_body@, now, source, &plan),
{
    let request = resolved.endpoint.request.as_ref();
    let fits = request_matches(request_body, request);
    assert(owned(request) == resolved.endpoint.request);
    if !fits {
        return ResponsePlan {
            delay: Delay::zero(),
            response: build_plain_text(400, "Request body did not match"),
            pacing: Delay::zero(),
        };
    }
    if !check_rate_limit(resolved, now) {
        return ResponsePlan {
            delay: Delay::zero(),
            response: build_plain_text(429, "Rate limit exceeded"),
            pacing: Delay::zero(),
        };
    }
    let elapsed = elapsed_ms(resolved.loaded_at, now);
    let delay = sample_latency_with_behaviors(
        &resolved.endpoint,
        &resolved.behaviors,
        elapsed,
        source,
    );
    let profile = effective_error_profile(&resolved.endpoint, &resolved.behaviors, elapsed);
    let error_roll: i64 = if 0 < profile.rate.raw && profile.rate.raw < SCALE {
        random_unit()
    } else {
        0
    };
    let pick: usize = if profile.codes.len() > 0 && !profile.error_in_payload && error_fires(
        &profile,
        error_roll,
    ) {
        random_below(profile.codes.len() as u128) as usize
    } else {
        0
    };
    let corrupts = match &profile.payload_corruption {
        Some(corruption) => corruption.rate.raw > 0,
        None => false,
    };
    let corruption_roll: i64 = if corrupts {
        random_unit()
    } else {
        0
    };
    let (response, pacing) = respond(&resolved.endpoint, &profile, error_roll, pick, corruption_roll);
    proof {
        let chances = Chances {
            error_roll: error_roll as int,
            pick: pick as int,
            corruption_roll: corruption_roll as int,
        };
        assert(chances_possible(chances, profile@));
    }
    ResponsePlan { delay, response, pacing }
}

/// Whether a plan, and the state in which it leaves a table, is one that
/// the pipeline can make of a request for a method and a path: that of the
/// last endpoint with this route, which alone changes; and where there is
/// none, the answer 404 at once and no change.
pub open spec fn routed_plan_fits<S: VariateSource>(
    before: Seq<ResolvedEndpoint>,
    after: Seq<ResolvedEndpoint>,
    method: HttpMethod,
    path: Seq<char>,
    body: Seq<char>,
    now: u64,
    source: &S,
    plan: &ResponsePlan,
) -> bool {
    match last_routed(before, method, path, before.len()) {
        Some(index) => {
            &&& after.len() == before.len()
            &&& forall|i: int| 0 <= i < before.len() && i != index ==> after[i] == before[i]
            &&& plan_fits(&before[index], &after[index], body, now, source, plan)
        },
        None => {
            &&& plan.response@ == plain_text(404, "Not Found"@)
            &&& plan.delay.nanos == 0
            &&& plan.pacing.nanos == 0
            &&& after == before
        },
    }
}

impl EndpointRegistry {
    /// Plans the response to a request for a method and a path that
    /// arrives at time `now`: that of the endpoint with this route, and 404
    /// where there is none.
    pub fn handle<S: VariateSource>(
        &mut self,
        method: &HttpMethod,
        path: &str,
        request_body: &str,
        now: u64,
        source: &S,
    ) -> (plan: ResponsePlan)
        ensures
            routed_plan_fits(
                old(self).table(),
                final(self).table(),
                *method,
                path@,
                request_body@,
                now,
                source,
                &plan,
            ),
            final(self).last_loaded() == old(self).last_loaded(),
    {
        match self.find(method, path) {
            Some(index) => handle_request(self.entry(index), request_body, now, source),
            None => ResponsePlan {
                delay: Delay::zero(),
                response: build_plain_text(404, "Not Found"),
                pacing: Delay::zero(),
            },
        }
    }
}

} // verus!
