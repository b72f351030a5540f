//! A configurable HTTP endpoint simulator: declared endpoints answer with
//! shaped latency, injected errors, rate limiting and time-varying behaviour.
//!
//! Every quantity is an exact fixed-point number (see [`decimal::Decimal`]), so
//! that the rules of the data plane can be stated and proved over integers.
pub mod bench;
pub mod config;
pub mod decimal;
pub mod distributions;
pub mod engine;
pub mod limiter;
pub mod random;
pub mod text;
