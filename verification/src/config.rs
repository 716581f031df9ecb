//! Per-target monitor parameters, as the core consumes them.

use vstd::prelude::*;

verus! {

/// The monitor parameters for one target, in integer milliseconds: how often
/// the probe samples, and how much history is retained.  The boundary that
/// loads the configuration converts its own units into these before the core
/// sees them.
#[derive(Debug, Clone, Copy, PartialEq, Eq, Structural)]
pub struct PingMonitorConfig {
    /// Time between two probe samples, in milliseconds; always positive.
    pub interval_millis: u64,
    /// How long a reading is retained, in milliseconds.
    pub history_length_millis: u64,
}

impl PingMonitorConfig {
    /// Builds the parameters for one target.
    pub fn new(interval_millis: u64, history_length_millis: u64) -> (c: PingMonitorConfig)
        ensures
            c == (PingMonitorConfig { interval_millis, history_length_millis }),
    {
        PingMonitorConfig { interval_millis, history_length_millis }
    }
}

} // verus!
