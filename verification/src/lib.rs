//! Core logic of the `listent` entitlement scanner and process monitor.

pub mod text;
pub mod pattern_matcher;
pub mod numeric;
pub mod entitlements;
pub mod path;
pub mod models;
pub mod tracker;
pub mod constants;
pub mod launchd;
pub mod cli;
pub mod logging;
pub mod logging_backup;
pub mod ipc;
pub mod scan;
pub mod daemon;
pub mod config;
pub mod monitor_core;
pub mod output;
pub mod logs;
pub mod monitor_output;
pub mod unified_logging;
pub mod progress;
