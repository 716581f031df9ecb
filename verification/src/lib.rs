//! Verified core of a network-latency monitor.
//!
//! The library keeps a bounded, time-ordered history of latency samples per
//! probed target, detects bursts of elevated latency inside a sliding time
//! window, decides how a probe subprocess is supervised, routes queries over
//! the configured targets, and frames the byte stream that carries requests
//! and responses.  All time quantities are integer milliseconds.

pub mod anomaly;
pub mod client;
pub mod command_watcher;
pub mod config;
pub mod ping;
pub mod server;
pub mod util;
