//! What the data-plane server decides for each request before and around
//! the pipeline: which method a verb names, which path is asked for, and
//! what is answered where no endpoint is.
use vstd::prelude::*;
use vstd::string::*;
use crate::config::schema::HttpMethod;
use crate::config::validator::method_text;
use crate::decimal::Delay;
use crate::distributions::VariateSource;
use crate::engine::handler::{plain_text, routed_plan_fits, ResponsePlan};
use crate::engine::registry::EndpointRegistry;
use crate::engine::response::build_plain_text;
use crate::text::{join2, text_equal};

verus! {

/// The method that a verb names; none where the verb is not supported.
pub open spec fn method_named(verb: Seq<char>) -> Option<HttpMethod> {
    if verb == "GET"@ {
        Some(HttpMethod::Get)
    } else if verb == "POST"@ {
        Some(HttpMethod::Post)
    } else if verb == "PUT"@ {
        Some(HttpMethod::Put)
    } else if verb == "DELETE"@ {
        Some(HttpMethod::Delete)
    } else if verb == "PATCH"@ {
        Some(HttpMethod::Patch)
    } else if verb == "HEAD"@ {
        Some(HttpMethod::Head)
    } else if verb == "OPTIONS"@ {
        Some(HttpMethod::Options)
    } else {
        None
    }
}

/// The method that a verb names.
pub fn to_http_method(verb: &str) -> (method: Option<HttpMethod>)
    ensures
        method == method_named(verb@),
        method is Some ==> method_text(method->0) == verb@,
{
    if text_equal(verb, "GET") {
        Some(HttpMethod::Get)
    } else if text_equal(verb, "POST") {
        Some(HttpMethod::Post)
    } else if text_equal(verb, "PUT") {
        Some(HttpMethod::Put)
    } else if text_equal(verb, "DELETE") {
        Some(HttpMethod::Delete)
    } else if text_equal(verb, "PATCH") {
        Some(HttpMethod::Patch)
    } else if text_equal(verb, "HEAD") {
        Some(HttpMethod::Head)
    } else if text_equal(verb, "OPTIONS") {
        Some(HttpMethod::Options)
    } else {
        None
    }
}

/// The path that a request asks for, given what follows the first slash.
pub fn full_path(rest: &str) -> (path: String)
    ensures
        path@ == "/"@ + rest@,
{
    join2("/", rest)
}

/// Plans the response to a request by its verb, what follows the first
/// slash of its path, and its body. A verb that is not supported is
/// answered by 405 before any endpoint is looked for; every other request
/// goes to the endpoint that its method and path route to.
pub fn handle_all<S: VariateSource>(
    registry: &mut EndpointRegistry,
    verb: &str,
    rest: &str,
    request_body: &str,
    now: u64,
    source: &S,
) -> (plan: ResponsePlan)
    ensures
        match method_named(verb@) {
            Some(method) => routed_plan_fits(
                old(registry).table(),
                final(registry).table(),
                method,
                "/"@ + rest@,
                request_body@,
                now,
                source,
                &plan,
            ),
            None => {
                &&& plan.response@ == plain_text(405, "Method not supported"@)
                &&& plan.delay.nanos == 0
                &&& plan.pacing.nanos == 0
                &&& final(registry).table() == old(registry).table()
            },
        },
        final(registry).last_loaded() == old(registry).last_loaded(),
{
    let method = match to_http_method(verb) {
        Some(method) => method,
        None => {
            return ResponsePlan {
                delay: Delay::zero(),
                response: build_plain_text(405, "Method not supported"),
                pacing: Delay::zero(),
            };
        },
    };
    let path = full_path(rest);
    registry.handle(&method, path.as_str(), request_body, now, source)
}

} // verus!
