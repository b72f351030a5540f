//! The data plane: behaviour resolution, profile merging, request matching,
//! the endpoint registry and the plan of a response.
pub mod behavior;
pub mod handler;
pub mod matcher;
pub mod merger;
pub mod outcome;
pub mod registry;
pub mod response;
pub mod router;
pub mod sampler;
pub mod server;
