//! Request routing.
use vstd::prelude::*;
use crate::config::schema::HttpMethod;
use crate::engine::registry::{last_routed, EndpointRegistry, ResolvedEndpoint};

verus! {

/// The resolved endpoint of a registry that answers a method and a path.
pub fn match_route<'a>(registry: &'a EndpointRegistry, method: &HttpMethod, path: &str) -> (found:
    Option<&'a ResolvedEndpoint>)
    ensures
        match found {
            Some(resolved) => {
                &&& last_routed(registry.table(), *method, path@, registry.table().len()) is Some
                &&& *resolved == registry.table()[last_routed(
                    registry.table(),
                    *method,
                    path@,
                    registry.table().len(),
                )->0]
            },
            None => last_routed(registry.table(), *method, path@, registry.table().len()) is None,
        },
{
    registry.get(method, path)
}

} // verus!
