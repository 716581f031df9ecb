//! The client's side of a query: the commands it sends, and the decisions
//! behind displaying a result — which readings get a timestamp heading and
//! which mark a clock anomaly.  The printing itself stays outside the core.

use vstd::prelude::*;

use crate::anomaly::PingReadingQuery;
use crate::ping::PingReading;
use crate::server::TargetAndPingReadingQuery;

verus! {

/// One query as the command line states it: the latency threshold in
/// milliseconds, the window and the display gap threshold in whole seconds.
#[derive(Debug)]
pub enum Query {
    Ping {
        target: Option<String>,
        latency_higher_than: u32,
        min_intensity: u32,
        max_window: u32,
        display_skip_warning_threshold: Option<u32>,
        time_format: Option<String>,
        show_original_line: bool,
    },
}

/// Turns a command-line query into the request sent to the server and the
/// settings used to display its answer, converting the second-based figures
/// into the core's milliseconds.
pub fn build_ping_query(query: Query) -> (r: (
    TargetAndPingReadingQuery,
    PingQueryResultDisplayOptions,
))
    ensures
        match query {
            Query::Ping {
                target,
                latency_higher_than,
                min_intensity,
                max_window,
                display_skip_warning_threshold,
                time_format,
                show_original_line,
            } => {
                &&& r.0.target == target
                &&& r.0.query == (PingReadingQuery {
                    latency_higher_than: latency_higher_than as u64,
                    min_intensity,
                    max_window: (max_window as u64 * 1000) as u64,
                })
                &&& r.1.display_skip_warning_threshold == match display_skip_warning_threshold {
                    Some(seconds) => Some((seconds as u64 * 1000) as u64),
                    None => None::<u64>,
                }
                &&& r.1.time_format == time_format
                &&& r.1.show_original_line == show_original_line
            },
        },
{
    match query {
        Query::Ping {
            target,
            latency_higher_than,
            min_intensity,
            max_window,
            display_skip_warning_threshold,
            time_format,
            show_original_line,
        } => {
            let request = TargetAndPingReadingQuery {
                target,
                query: PingReadingQuery::new(
                    latency_higher_than as u64,
                    min_intensity,
                    (max_window as u64) * 1000,
                ),
            };
            let threshold_millis = match display_skip_warning_threshold {
                Some(seconds) => Some((seconds as u64) * 1000),
                None => None,
            };
            let options = PingQueryResultDisplayOptions {
                display_skip_warning_threshold: threshold_millis,
                time_format,
                show_original_line,
            };
            (request, options)
        },
    }
}

/// What a connected client may send: one query, or the wish to disconnect.
#[derive(Debug)]
pub enum ClientCommand {
    TargetAndPingReadingQuery(TargetAndPingReadingQuery),
    Disconnect,
}

/// How query results are displayed: when a gap between two readings earns a
/// timestamp heading (in milliseconds), an optional time format string, and
/// whether the raw probe line is preferred over the parsed latency.
#[derive(Debug)]
pub struct PingQueryResultDisplayOptions {
    pub display_skip_warning_threshold: Option<u64>,
    pub time_format: Option<String>,
    pub show_original_line: bool,
}

/// What precedes one displayed reading: a timestamp heading, nothing, or a
/// note that its timestamp runs behind its predecessor's (a clock anomaly).
#[derive(Debug, Clone, Copy, PartialEq, Eq, Structural)]
pub enum TimeGapMark {
    ShowTime,
    Plain,
    Anomaly,
}

/// The mark for the reading at position `i`: the first reading always gets a
/// heading, a reading more than `threshold` milliseconds after its
/// predecessor gets one, a reading timestamped before its predecessor is an
/// anomaly, and any other reading stands plain.
pub open spec fn gap_mark_spec(s: Seq<PingReading>, threshold: u64, i: int) -> TimeGapMark {
    if i == 0 {
        TimeGapMark::ShowTime
    } else if s[i].timestamp_millis < s[i - 1].timestamp_millis {
        TimeGapMark::Anomaly
    } else if s[i].timestamp_millis - s[i - 1].timestamp_millis > threshold {
        TimeGapMark::ShowTime
    } else {
        TimeGapMark::Plain
    }
}

/// Decides, for every reading of a displayed snapshot, whether a timestamp
/// heading precedes it, using `skip_warning_threshold_millis` as the gap
/// that earns one.
pub fn display_time_marks(readings: &[PingReading], skip_warning_threshold_millis: u64) -> (r: Vec<
    TimeGapMark,
>)
    ensures
        r@.len() == readings@.len(),
        forall|i: int|
            0 <= i < r@.len() ==> r@[i] == gap_mark_spec(
                readings@,
                skip_warning_threshold_millis,
                i,
            ),
{
    let mut r: Vec<TimeGapMark> = Vec::new();
    let mut i: usize = 0;
    while i < readings.len()
        invariant
            i <= readings@.len(),
            r@.len() == i,
            forall|j: int|
                0 <= j < i ==> r@[j] == gap_mark_spec(readings@, skip_warning_threshold_millis, j),
        decreases readings@.len() - i,
    {
        if i == 0 {
            r.push(TimeGapMark::ShowTime);
        } else if readings[i].timestamp_millis < readings[i - 1].timestamp_millis {
            r.push(TimeGapMark::Anomaly);
        } else if readings[i].timestamp_millis - readings[i - 1].timestamp_millis
            > skip_warning_threshold_millis {
            r.push(TimeGapMark::ShowTime);
        } else {
            r.push(TimeGapMark::Plain);
        }
        i = i + 1;
    }
    r
}

} // verus!
