//! Modules that decide on requests.

pub mod types;
pub mod vm;
