//! The query dispatcher: routes one burst query to one or all targets'
//! history snapshots and assembles the response.

use vstd::prelude::*;

use crate::anomaly::query_spec;
use crate::client::ClientCommand;
use crate::anomaly::PingReadingQuery;
use crate::config::PingMonitorConfig;
use crate::ping::PingReading;

verus! {

/// A query request as a client sends it: optionally one target by name
/// (none means every target), and the burst query to run.
#[derive(Debug)]
pub struct TargetAndPingReadingQuery {
    pub target: Option<String>,
    pub query: PingReadingQuery,
}

/// One target as the dispatcher sees it: its name, its monitor parameters,
/// and a snapshot of its history taken for this query.
#[derive(Debug)]
pub struct TargetSnapshot {
    pub target: String,
    pub config: PingMonitorConfig,
    pub readings: Vec<PingReading>,
}

/// One target's share of a response: the readings the burst query engine
/// included, and the target's monitor parameters, so a caller needs no
/// second round trip for them.
#[derive(Debug)]
pub struct TargetQueryResult {
    pub target: String,
    pub matches: Vec<PingReading>,
    pub config: PingMonitorConfig,
}

/// The server's answer to one query: either the named target is not
/// configured — distinct from a configured target with no matches — or one
/// result per queried target.
#[derive(Debug)]
pub enum ServerResponse {
    UnknownTarget(String),
    PingQueryResult(Vec<TargetQueryResult>),
}

/// The first index at or after `i` whose snapshot is for the target named
/// `name`, or -1 when no such snapshot follows.
pub open spec fn find_target_from(entries: Seq<TargetSnapshot>, name: Seq<char>, i: int) -> int
    decreases entries.len() - i,
{
    if i < 0 || i >= entries.len() {
        -1
    } else if entries[i].target@ == name {
        i
    } else {
        find_target_from(entries, name, i + 1)
    }
}

/// Whether `res` holds exactly the engine's verdict for each entry of
/// `entries`, in the same order, each paired with its monitor parameters.
pub open spec fn results_match(
    q: PingReadingQuery,
    entries: Seq<TargetSnapshot>,
    res: Seq<TargetQueryResult>,
) -> bool {
    &&& res.len() == entries.len()
    &&& forall|i: int|
        0 <= i < entries.len() ==> {
            &&& (#[trigger] res[i]).target@ == entries[i].target@
            &&& res[i].matches@ == query_spec(q, entries[i].readings@)
            &&& res[i].config == entries[i].config
        }
}

/// Runs the burst query over every given snapshot, pairing each target with
/// its included readings and its monitor parameters.
pub fn query_ping_readings_for_targets(
    entries: &Vec<TargetSnapshot>,
    query: &PingReadingQuery,
) -> (r: Vec<TargetQueryResult>)
    ensures
        results_match(*query, entries@, r@),
{
    let mut r: Vec<TargetQueryResult> = Vec::new();
    let mut i: usize = 0;
    while i < entries.len()
        invariant
            i <= entries@.len(),
            r@.len() == i,
            forall|j: int|
                0 <= j < i ==> {
                    &&& (#[trigger] r@[j]).target@ == entries@[j].target@
                    &&& r@[j].matches@ == query_spec(*query, entries@[j].readings@)
                    &&& r@[j].config == entries@[j].config
                },
        decreases entries@.len() - i,
    {
        let entry = &entries[i];
        let matches = query.query(entry.readings.as_slice());
        r.push(TargetQueryResult { target: entry.target.clone(), matches, config: entry.config });
        i = i + 1;
    }
    r
}

/// Whether a response names `name` as an unknown target.
pub open spec fn response_is_unknown_target(r: ServerResponse, name: Seq<char>) -> bool {
    match r {
        ServerResponse::UnknownTarget(t) => t@ == name,
        _ => false,
    }
}

/// Whether a response carries exactly one result, for the target named
/// `name` with snapshot `snap`, holding the engine's verdict on it.
pub open spec fn response_is_single_result(
    r: ServerResponse,
    name: Seq<char>,
    q: PingReadingQuery,
    snap: TargetSnapshot,
) -> bool {
    match r {
        ServerResponse::PingQueryResult(res) => {
            &&& res@.len() == 1
            &&& res@[0].target@ == name
            &&& res@[0].matches@ == query_spec(q, snap.readings@)
            &&& res@[0].config == snap.config
        },
        _ => false,
    }
}

/// Whether a response carries one result per snapshot, in order, each
/// holding the engine's verdict.
pub open spec fn response_is_all_results(
    r: ServerResponse,
    q: PingReadingQuery,
    entries: Seq<TargetSnapshot>,
) -> bool {
    match r {
        ServerResponse::PingQueryResult(res) => results_match(q, entries, res@),
        _ => false,
    }
}

/// The dispatcher's whole contract for one request: a request for a name no
/// snapshot carries is answered `UnknownTarget` with that name, a request
/// for a known name with that one target's result, and a request without a
/// name with every target's result.
pub open spec fn response_matches_request(
    r: ServerResponse,
    entries: Seq<TargetSnapshot>,
    request: &TargetAndPingReadingQuery,
) -> bool {
    match request.target {
        Some(name) => {
            let idx = find_target_from(entries, name@, 0);
            if idx < 0 {
                response_is_unknown_target(r, name@)
            } else {
                response_is_single_result(r, name@, request.query, entries[idx])
            }
        },
        None => response_is_all_results(r, request.query, entries),
    }
}

/// Routes one request over the snapshots.
pub fn dispatch_query(entries: &Vec<TargetSnapshot>, request: &TargetAndPingReadingQuery) -> (r:
    ServerResponse)
    ensures
        response_matches_request(r, entries@, request),
{
    match request.target.as_ref() {
        Some(name) => {
            let mut i: usize = 0;
            while i < entries.len()
                invariant
                    i <= entries@.len(),
                    request.target is Some,
                    request.target->Some_0 == *name,
                    find_target_from(entries@, name@, 0) == find_target_from(
                        entries@,
                        name@,
                        i as int,
                    ),
                decreases entries@.len() - i,
            {
                if entries[i].target == *name {
                    let entry = &entries[i];
                    let matches = request.query.query(entry.readings.as_slice());
                    let one = TargetQueryResult {
                        target: entry.target.clone(),
                        matches,
                        config: entry.config,
                    };
                    let mut res: Vec<TargetQueryResult> = Vec::new();
                    res.push(one);
                    proof {
                        assert(entries@[i as int].target@ == name@);
                        assert(find_target_from(entries@, name@, i as int) == i as int);
                        assert(find_target_from(entries@, name@, 0) == i as int);
                        assert(response_is_single_result(
                            ServerResponse::PingQueryResult(res),
                            name@,
                            request.query,
                            entries@[i as int],
                        ));
                    }
                    return ServerResponse::PingQueryResult(res);
                }
                i = i + 1;
            }
            ServerResponse::UnknownTarget(name.clone())
        },
        None => ServerResponse::PingQueryResult(
            query_ping_readings_for_targets(entries, &request.query),
        ),
    }
}

/// What the session loop does after one received command: send a response
/// and stay in the session, or end it.
#[derive(Debug)]
pub enum SessionStep {
    Respond(ServerResponse),
    EndSession,
}

/// Whether a session step is the right answer to a command: a query is
/// answered per the dispatcher's contract, a disconnect ends the session.
pub open spec fn session_step_ok(
    r: SessionStep,
    entries: Seq<TargetSnapshot>,
    command: ClientCommand,
) -> bool {
    match command {
        ClientCommand::TargetAndPingReadingQuery(req) => match r {
            SessionStep::Respond(resp) => response_matches_request(resp, entries, &req),
            SessionStep::EndSession => false,
        },
        ClientCommand::Disconnect => r is EndSession,
    }
}

/// The server's decision for one command a connected client sent: a query is
/// answered from the given snapshots, a disconnect ends the session.  Moving
/// bytes in and out is the session loop's business.
pub fn handle_client_command(entries: &Vec<TargetSnapshot>, command: ClientCommand) -> (r:
    SessionStep)
    ensures
        session_step_ok(r, entries@, command),
{
    match command {
        ClientCommand::TargetAndPingReadingQuery(request) => SessionStep::Respond(
            dispatch_query(entries, &request),
        ),
        ClientCommand::Disconnect => SessionStep::EndSession,
    }
}

} // verus!
