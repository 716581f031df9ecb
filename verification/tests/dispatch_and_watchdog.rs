use oxidenet::anomaly::PingReadingQuery;
use oxidenet::client::ClientCommand;
use oxidenet::client::PingQueryResultDisplayOptions;
use oxidenet::client::TimeGapMark;
use oxidenet::client::display_time_marks;
use oxidenet::command_watcher::InputConsumptionResult;
use oxidenet::command_watcher::RESTART_BACKOFF_MILLIS;
use oxidenet::command_watcher::WatchdogAction;
use oxidenet::command_watcher::WatchdogEvent;
use oxidenet::command_watcher::WatchdogState;
use oxidenet::command_watcher::consume_stderr_line;
use oxidenet::command_watcher::consume_stdout_line;
use oxidenet::command_watcher::watchdog_step;
use oxidenet::config::PingMonitorConfig;
use oxidenet::ping::PingReading;
use oxidenet::ping::PingReadingHistory;
use oxidenet::server::ServerResponse;
use oxidenet::server::SessionStep;
use oxidenet::server::TargetAndPingReadingQuery;
use oxidenet::server::TargetSnapshot;
use oxidenet::server::dispatch_query;
use oxidenet::server::handle_client_command;
use oxidenet::server::query_ping_readings_for_targets;
use oxidenet::util::LENGTH_PREFIX_BYTES;
use oxidenet::util::decode_length_prefix;
use oxidenet::util::encode_frame;

fn snapshot(name: &str, readings: Vec<PingReading>) -> TargetSnapshot {
    TargetSnapshot {
        target: String::from(name),
        config: PingMonitorConfig::new(1_000, 3_600_000),
        readings,
    }
}

fn some_query() -> PingReadingQuery {
    PingReadingQuery::new(100, 0, 3_000)
}

#[test]
fn configured_empty_target_answers_with_an_empty_match_set() {
    let entries = vec![snapshot("alpha", vec![])];
    let request = TargetAndPingReadingQuery {
        target: Some(String::from("alpha")),
        query: some_query(),
    };
    match dispatch_query(&entries, &request) {
        ServerResponse::PingQueryResult(res) => {
            assert_eq!(res.len(), 1);
            assert_eq!(res[0].target, "alpha");
            assert!(res[0].matches.is_empty());
            assert_eq!(res[0].config, PingMonitorConfig::new(1_000, 3_600_000));
        }
        ServerResponse::UnknownTarget(_) => panic!("a configured target must be answered"),
    }
}

#[test]
fn unconfigured_target_answers_unknown_target() {
    let entries = vec![snapshot("alpha", vec![])];
    let request = TargetAndPingReadingQuery {
        target: Some(String::from("beta")),
        query: some_query(),
    };
    match dispatch_query(&entries, &request) {
        ServerResponse::UnknownTarget(name) => assert_eq!(name, "beta"),
        ServerResponse::PingQueryResult(_) => {
            panic!("an unconfigured target must not look like an empty result")
        }
    }
}

#[test]
fn queries_without_a_target_cover_every_target() {
    let entries = vec![
        snapshot("alpha", vec![PingReading::new(150, 1_000)]),
        snapshot("beta", vec![PingReading::new(50, 1_000)]),
    ];
    let request = TargetAndPingReadingQuery { target: None, query: some_query() };
    match dispatch_query(&entries, &request) {
        ServerResponse::PingQueryResult(res) => {
            assert_eq!(res.len(), 2);
            assert_eq!(res[0].target, "alpha");
            assert_eq!(res[0].matches, vec![PingReading::new(150, 1_000)]);
            assert_eq!(res[1].target, "beta");
            assert!(res[1].matches.is_empty());
        }
        ServerResponse::UnknownTarget(_) => panic!("an all-targets query has no unknown target"),
    }
}

#[test]
fn per_target_results_line_up_with_the_snapshots() {
    let entries = vec![
        snapshot("alpha", vec![PingReading::new(150, 1_000)]),
        snapshot("beta", vec![]),
    ];
    let res = query_ping_readings_for_targets(&entries, &some_query());
    assert_eq!(res.len(), 2);
    assert_eq!(res[0].target, "alpha");
    assert_eq!(res[1].target, "beta");
}

#[test]
fn fatal_error_line_restarts_after_backoff_and_history_survives() {
    // One probe instance is running and has stored readings.
    let mut history = PingReadingHistory::new(1_000, 3_600_000);
    let mut state = WatchdogState::Running;
    consume_stdout_line(&mut history, "time=12 ms", 1_000);
    assert_eq!(history.readings().len(), 1);

    // The probe emits one fatal error line: the instance ends and the
    // watchdog backs off.
    let verdict = consume_stderr_line("ping: sendmsg: Network is unreachable");
    match verdict {
        InputConsumptionResult::TerminateCommand { reason } => assert_eq!(reason, "ping failed"),
        InputConsumptionResult::Continue => panic!("an error line must end the instance"),
    }
    let (next, action) = watchdog_step(state, WatchdogEvent::InstanceFailed);
    state = next;
    assert_eq!(state, WatchdogState::BackingOff);
    assert_eq!(action, WatchdogAction::EnterBackoff);
    assert_eq!(RESTART_BACKOFF_MILLIS, 5_000);

    // Once the back-off elapses the watchdog relaunches, and parsed samples
    // resume appending without discarding what was stored before.
    let (next, action) = watchdog_step(state, WatchdogEvent::BackoffElapsed);
    state = next;
    assert_eq!(state, WatchdogState::Running);
    assert_eq!(action, WatchdogAction::Relaunch);
    consume_stdout_line(&mut history, "time=34 ms", 9_000);
    assert_eq!(
        history.readings().to_vec(),
        vec![PingReading::new(12, 1_000), PingReading::new(34, 9_000)]
    );
}

#[test]
fn stdout_lines_keep_the_instance_running() {
    let mut history = PingReadingHistory::new(1_000, 3_600_000);
    let verdict = consume_stdout_line(&mut history, "unparsable noise", 1_000);
    assert!(matches!(verdict, InputConsumptionResult::Continue));
    assert!(history.readings().is_empty());
    let (next, action) = watchdog_step(WatchdogState::Running, WatchdogEvent::LineConsumed);
    assert_eq!(next, WatchdogState::Running);
    assert_eq!(action, WatchdogAction::KeepReading);
}

#[test]
fn stopped_is_final() {
    let (stopped, _) = watchdog_step(WatchdogState::Running, WatchdogEvent::StopRequested);
    assert_eq!(stopped, WatchdogState::Stopped);
    for event in [
        WatchdogEvent::LineConsumed,
        WatchdogEvent::InstanceFailed,
        WatchdogEvent::StreamClosed,
        WatchdogEvent::BackoffElapsed,
        WatchdogEvent::StopRequested,
    ] {
        let (next, action) = watchdog_step(stopped, event);
        assert_eq!(next, WatchdogState::Stopped);
        assert_eq!(action, WatchdogAction::Stay);
    }
}

#[test]
fn process_exit_also_enters_backoff() {
    let (next, action) = watchdog_step(WatchdogState::Running, WatchdogEvent::StreamClosed);
    assert_eq!(next, WatchdogState::BackingOff);
    assert_eq!(action, WatchdogAction::EnterBackoff);
}

#[test]
fn frames_carry_the_length_then_the_payload() {
    let payload = vec![1u8, 2, 3];
    let frame = encode_frame(&payload);
    assert_eq!(frame, vec![3u8, 0, 0, 0, 0, 0, 0, 0, 1, 2, 3]);
    assert_eq!(decode_length_prefix(&frame[..LENGTH_PREFIX_BYTES]), 3);
}

#[test]
fn empty_payload_frames_to_a_bare_header() {
    let frame = encode_frame(&vec![]);
    assert_eq!(frame.len(), LENGTH_PREFIX_BYTES);
    assert_eq!(decode_length_prefix(&frame[..]), 0);
}

#[test]
fn command_line_figures_convert_to_milliseconds() {
    let (request, options) = oxidenet::client::build_ping_query(oxidenet::client::Query::Ping {
        target: Some(String::from("alpha")),
        latency_higher_than: 250,
        min_intensity: 2,
        max_window: 3,
        display_skip_warning_threshold: Some(7),
        time_format: None,
        show_original_line: false,
    });
    assert_eq!(request.target, Some(String::from("alpha")));
    assert_eq!(request.query, PingReadingQuery::new(250, 2, 3_000));
    assert_eq!(options.display_skip_warning_threshold, Some(7_000));
    assert_eq!(options.time_format, None);
    assert!(!options.show_original_line);
}

#[test]
fn query_command_is_answered_and_disconnect_ends_the_session() {
    let entries = vec![snapshot("alpha", vec![])];
    let request = TargetAndPingReadingQuery {
        target: Some(String::from("alpha")),
        query: some_query(),
    };
    match handle_client_command(&entries, ClientCommand::TargetAndPingReadingQuery(request)) {
        SessionStep::Respond(ServerResponse::PingQueryResult(res)) => assert_eq!(res.len(), 1),
        SessionStep::Respond(ServerResponse::UnknownTarget(_)) => {
            panic!("a configured target must be answered")
        }
        SessionStep::EndSession => panic!("a query must not end the session"),
    }
    assert!(matches!(
        handle_client_command(&entries, ClientCommand::Disconnect),
        SessionStep::EndSession
    ));
}

#[test]
fn time_headings_follow_the_gaps() {
    let readings = vec![
        PingReading::new(10, 1_000),
        PingReading::new(10, 2_000),
        PingReading::new(10, 9_000),
        PingReading::new(10, 4_000),
        PingReading::new(10, 4_500),
    ];
    let marks = display_time_marks(&readings, 1_100);
    assert_eq!(
        marks,
        vec![
            TimeGapMark::ShowTime,
            TimeGapMark::Plain,
            TimeGapMark::ShowTime,
            TimeGapMark::Anomaly,
            TimeGapMark::Plain,
        ]
    );
    let options = PingQueryResultDisplayOptions {
        display_skip_warning_threshold: Some(1_100),
        time_format: None,
        show_original_line: false,
    };
    assert_eq!(options.display_skip_warning_threshold, Some(1_100));
}
