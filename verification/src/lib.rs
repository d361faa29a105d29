//! Verified core of a command-line companion to a hosted time-tracking
//! service: layered configuration resolution (a global per-user file merged
//! with an optional per-directory override found by an upward directory walk)
//! and the reporting engine that turns raw time-entry records into grouped,
//! human-readable activity reports.

pub mod api_token;
pub mod config;
pub mod config_file;
pub mod dates;
pub mod dirs;
pub mod errors;
pub mod render;
pub mod report;
pub mod time_entry;
