//! The decisions of the loop that supervises one probe subprocess: what to
//! do with each output line, and how the supervision state advances on each
//! event.  The loop itself — spawning the probe, racing its two output
//! streams, sleeping out the back-off — lives outside the core and only
//! feeds events in and carries actions out.

use vstd::prelude::*;
use vstd::string::StringSliceAdditionalSpecFns;

use crate::ping::history_step;
use crate::ping::parse_reading_spec;
use crate::ping::PingReadingHistory;

verus! {

/// How many milliseconds the watchdog waits after an instance ends before it
/// relaunches the probe.
pub const RESTART_BACKOFF_MILLIS: u64 = 5000;

/// What a consumer of one probe output line tells the watch loop: go on
/// reading from the current probe instance, or end it for the given reason.
#[derive(Debug)]
pub enum InputConsumptionResult {
    Continue,
    TerminateCommand { reason: String },
}

/// The supervision states of one probe subprocess: an instance is running,
/// the watchdog is waiting out the back-off after an instance ended, or the
/// whole loop was shut down.
#[derive(Debug, Clone, Copy, PartialEq, Eq, Structural)]
pub enum WatchdogState {
    Running,
    BackingOff,
    Stopped,
}

/// What the watch loop observed since the last step.
#[derive(Debug, Clone, Copy, PartialEq, Eq, Structural)]
pub enum WatchdogEvent {
    /// A line arrived and its consumer answered `Continue`.
    LineConsumed,
    /// A line arrived and its consumer asked to end the instance.
    InstanceFailed,
    /// An output stream ended or could not be read: the subprocess is gone.
    StreamClosed,
    /// The back-off delay has elapsed.
    BackoffElapsed,
    /// The owning process asked for a clean stop.
    StopRequested,
}

/// What the watch loop must do after a step.
#[derive(Debug, Clone, Copy, PartialEq, Eq, Structural)]
pub enum WatchdogAction {
    /// Keep reading lines from the current instance.
    KeepReading,
    /// End the current instance and wait out the back-off delay.
    EnterBackoff,
    /// Launch a fresh probe instance.
    Relaunch,
    /// Nothing to do.
    Stay,
}

/// The supervision table: every failure of a running instance leads into the
/// back-off, an elapsed back-off leads back into a running instance, a stop
/// request leads to `Stopped` from anywhere, and `Stopped` is final.
pub open spec fn watchdog_step_spec(s: WatchdogState, e: WatchdogEvent) -> (
    WatchdogState,
    WatchdogAction,
) {
    match (s, e) {
        (WatchdogState::Running, WatchdogEvent::LineConsumed) => (
            WatchdogState::Running,
            WatchdogAction::KeepReading,
        ),
        (WatchdogState::Running, WatchdogEvent::InstanceFailed) => (
            WatchdogState::BackingOff,
            WatchdogAction::EnterBackoff,
        ),
        (WatchdogState::Running, WatchdogEvent::StreamClosed) => (
            WatchdogState::BackingOff,
            WatchdogAction::EnterBackoff,
        ),
        (WatchdogState::Running, WatchdogEvent::BackoffElapsed) => (
            WatchdogState::Running,
            WatchdogAction::KeepReading,
        ),
        (WatchdogState::Running, WatchdogEvent::StopRequested) => (
            WatchdogState::Stopped,
            WatchdogAction::Stay,
        ),
        (WatchdogState::BackingOff, WatchdogEvent::BackoffElapsed) => (
            WatchdogState::Running,
            WatchdogAction::Relaunch,
        ),
        (WatchdogState::BackingOff, WatchdogEvent::StopRequested) => (
            WatchdogState::Stopped,
            WatchdogAction::Stay,
        ),
        (WatchdogState::BackingOff, _) => (WatchdogState::BackingOff, WatchdogAction::Stay),
        (WatchdogState::Stopped, _) => (WatchdogState::Stopped, WatchdogAction::Stay),
    }
}

/// Advances the supervision state by one observed event.
pub fn watchdog_step(state: WatchdogState, event: WatchdogEvent) -> (r: (
    WatchdogState,
    WatchdogAction,
))
    ensures
        r == watchdog_step_spec(state, event),
        state == WatchdogState::Stopped ==> r.0 == WatchdogState::Stopped,
        r.1 == WatchdogAction::Relaunch ==> (state == WatchdogState::BackingOff && event
            == WatchdogEvent::BackoffElapsed && r.0 == WatchdogState::Running),
{
    match (state, event) {
        (WatchdogState::Running, WatchdogEvent::LineConsumed) => (
            WatchdogState::Running,
            WatchdogAction::KeepReading,
        ),
        (WatchdogState::Running, WatchdogEvent::InstanceFailed) => (
            WatchdogState::BackingOff,
            WatchdogAction::EnterBackoff,
        ),
        (WatchdogState::Running, WatchdogEvent::StreamClosed) => (
            WatchdogState::BackingOff,
            WatchdogAction::EnterBackoff,
        ),
        (WatchdogState::Running, WatchdogEvent::BackoffElapsed) => (
            WatchdogState::Running,
            WatchdogAction::KeepReading,
        ),
        (WatchdogState::BackingOff, WatchdogEvent::BackoffElapsed) => (
            WatchdogState::Running,
            WatchdogAction::Relaunch,
        ),
        (WatchdogState::BackingOff, WatchdogEvent::StopRequested) => (
            WatchdogState::Stopped,
            WatchdogAction::Stay,
        ),
        (WatchdogState::BackingOff, _) => (WatchdogState::BackingOff, WatchdogAction::Stay),
        (WatchdogState::Running, WatchdogEvent::StopRequested) => (
            WatchdogState::Stopped,
            WatchdogAction::Stay,
        ),
        (WatchdogState::Stopped, _) => (WatchdogState::Stopped, WatchdogAction::Stay),
    }
}

/// The watch loop's decision for one standard-output line: the line is fed
/// into the target's history — appended as a reading when it carries a
/// latency figure, ignored otherwise — and the instance goes on.
pub fn consume_stdout_line(
    history: &mut PingReadingHistory,
    line: &str,
    timestamp_millis: u64,
) -> (r: InputConsumptionResult)
    requires
        old(history).well_formed(),
    ensures
        final(history).well_formed(),
        final(history).capacity() == old(history).capacity(),
        final(history)@ == match parse_reading_spec(line.spec_bytes(), timestamp_millis) {
            Some(rd) => history_step(old(history)@, old(history).capacity(), rd),
            None => old(history)@,
        },
        r is Continue,
{
    history.add_output_line(line, timestamp_millis);
    InputConsumptionResult::Continue
}

/// The watch loop's decision for one standard-error line: any error output
/// is fatal for the current probe instance, whatever the line says.
pub fn consume_stderr_line(line: &str) -> (r: InputConsumptionResult)
    ensures
        r matches InputConsumptionResult::TerminateCommand { reason } && reason@ == "ping failed"@,
{
    let reason: String = "ping failed".to_owned();
    InputConsumptionResult::TerminateCommand { reason }
}

} // verus!
