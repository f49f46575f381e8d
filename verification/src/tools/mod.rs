//! Shared utilities.

pub mod log;
