//! The configuration document: its data model, its errors and its validation.
pub mod behavior_rules;
pub mod error;
pub mod overlap;
pub mod parser;
pub mod schema;
pub mod validator;
