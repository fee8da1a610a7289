//! The rule language of the core rule set: its rules, and what they match.

pub mod engine;
pub mod file_laws;
pub mod laws;
pub mod operator_laws;
pub mod operators;
pub mod parser;
pub mod request_laws;
pub mod rule_laws;
pub mod transform_laws;
pub mod transforms;
pub mod types;
