//! The request matcher: whether the body of a request fits the rule that an
//! endpoint declares.
use vstd::prelude::*;
use vstd::string::*;
use vstd::utf8::encode_utf8;
use crate::config::schema::{BodyMatchType, RequestMatch};
use crate::config::validator::owned;
use crate::text::{bytes_contain, bytes_equal, contains_bytes};

verus! {

/// Whether a body, as bytes, passes a request rule. No rule, and the kinds
/// `any` and `ignore`, let everything pass. The kind `exact` asks for a
/// declared body with the very bytes of the request; the kind `contains`
/// for one whose bytes occur in the request as one run.
pub open spec fn body_accepted(body: Seq<u8>, request: Option<RequestMatch>) -> bool {
    match request {
        None => true,
        Some(rule) => match rule.body_match {
            BodyMatchType::Any | BodyMatchType::Ignore => true,
            BodyMatchType::Exact => rule.body is Some && encode_utf8(rule.body->0@) == body,
            BodyMatchType::Contains => rule.body is Some && contains_bytes(
                body,
                encode_utf8(rule.body->0@),
            ),
        },
    }
}

/// Whether the body of a request passes the rule of an endpoint.
pub fn request_matches(body: &str, request: Option<&RequestMatch>) -> (passes: bool)
    ensures
        passes == body_accepted(encode_utf8(body@), owned(request)),
{
    let Some(request) = request else {
        return true;
    };
    match request.body_match {
        BodyMatchType::Any | BodyMatchType::Ignore => true,
        BodyMatchType::Exact => match &request.body {
            Some(expected) => bytes_equal(expected.as_str().as_bytes(), body.as_bytes()),
            None => false,
        },
        BodyMatchType::Contains => match &request.body {
            Some(expected) => bytes_contain(body.as_bytes(), expected.as_str().as_bytes()),
            None => false,
        },
    }
}

} // verus!
