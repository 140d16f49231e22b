use codexbot::clock::SECOND;
use codexbot::codex_login::AppServerError;
use codexbot::json::{parse_json, Json};
use codexbot::store::Store;
use codexbot::turn_monitor::{
    finish_scan, http_status, log_line, parse_thread_page, parse_turn_page, prepare_scan,
    setting_number, turn_failure, Monitor, MonitorAction, MonitorError, MonitorEvent, Scan,
    ThreadSummary, TurnFailure, TurnSummary, BASELINE_SETTING, CURSOR_SETTING,
    MAX_RECONNECT_DELAY, POLL_INTERVAL,
};

const NOW: i64 = 1_700_000_000 * SECOND;

fn json(text: &str) -> Json {
    parse_json(text.as_bytes()).unwrap()
}

fn thread() -> ThreadSummary {
    ThreadSummary {
        id: "thread-1".to_owned(),
        cwd: r"E:\work\demo".to_owned(),
        updated_at: 200,
    }
}

fn down() -> MonitorError {
    MonitorError::Server(AppServerError::Unavailable("app server down".to_owned()))
}

#[test]
fn only_failed_turns_are_parsed_and_structured_statuses_are_preserved() {
    let payload = json(
        r#"{"data": [
            {"id": "failed-429", "status": "failed", "completedAt": 190,
             "error": {"message": "rate limited",
                "codexErrorInfo": {"httpConnectionFailed": {"httpStatusCode": 429}}}},
            {"id": "failed-503", "status": "failed", "completedAt": 191,
             "error": {"message": "service unavailable",
                "codexErrorInfo": {"responseTooManyFailedAttempts": {"httpStatusCode": 503}}}},
            {"id": "failed-without-completed-at", "status": "failed",
             "error": {"message": "connection failed", "codexErrorInfo": "other"}},
            {"id": "completed", "status": "completed", "completedAt": 192},
            {"id": "interrupted", "status": "interrupted", "completedAt": 193},
            {"id": "running", "status": "inProgress"}
        ], "nextCursor": null}"#,
    );

    let (failures, _, _) = parse_turn_page(&thread(), &payload, 100 * SECOND).unwrap();
    assert_eq!(failures.len(), 3);
    assert_eq!(
        failures[0].error_type.as_deref(),
        Some("httpConnectionFailed")
    );
    assert_eq!(failures[0].http_status, Some(429));
    assert_eq!(
        failures[1].error_type.as_deref(),
        Some("responseTooManyFailedAttempts")
    );
    assert_eq!(failures[1].http_status, Some(503));
    assert_eq!(failures[2].occurred_at, 200);
}

#[test]
fn failed_turn_messages_are_redacted_and_truncated() {
    let payload = json(&format!(
        "{{\"data\":[{{\"id\":\"failed\",\"status\":\"failed\",\"completedAt\":190,\"error\":{{\
         \"message\":\"api_key=monitor-secret {}\",\"codexErrorInfo\":\"serverOverloaded\",\
         \"additionalDetails\":\"must not be sent\"}}}}],\"nextCursor\":null}}",
        "x".repeat(600)
    ));

    let (failures, _, _) = parse_turn_page(&thread(), &payload, 100 * SECOND).unwrap();
    assert!(!failures[0].error_message.contains("monitor-secret"));
    assert!(failures[0].error_message.contains("[REDACTED]"));
    assert!(failures[0].error_message.chars().count() <= 500);
    assert_eq!(failures[0].error_type.as_deref(), Some("serverOverloaded"));
    assert!(!failures[0].error_message.contains("must not be sent"));
}

fn failures() -> Vec<TurnFailure> {
    (1..=3)
        .map(|index| TurnFailure {
            thread_id: "thread-1".to_owned(),
            turn_id: format!("turn-{index}"),
            cwd: r"E:\work\demo".to_owned(),
            error_message: "failed".to_owned(),
            error_type: Some("other".to_owned()),
            http_status: None,
            occurred_at: 100 + index,
        })
        .collect()
}

#[test]
fn distinct_failures_enqueue_once_each() {
    let mut store = Store::new();
    assert_eq!(
        finish_scan(&mut store, 200 * SECOND, Ok(failures()), NOW).unwrap(),
        3
    );
    assert_eq!(
        finish_scan(&mut store, 201 * SECOND, Ok(failures()), NOW).unwrap(),
        0
    );
    assert_eq!(store.outbox.len(), 3);
}

#[test]
fn first_run_sets_a_baseline_without_scanning_history() {
    let mut store = Store::new();

    assert_eq!(prepare_scan(&mut store, 100 * SECOND), None);
    assert_eq!(
        setting_number(&store, BASELINE_SETTING),
        Some(100 * SECOND)
    );
    assert_eq!(setting_number(&store, CURSOR_SETTING), Some(100 * SECOND));
}

#[test]
fn restart_uses_cursor_overlap_and_scan_errors_do_not_advance_it() {
    let mut store = Store::new();
    store.set_setting(BASELINE_SETTING, "100");
    store.set_setting(CURSOR_SETTING, "200");

    assert_eq!(
        prepare_scan(&mut store, 500 * SECOND),
        Some(140 * SECOND)
    );
    assert!(finish_scan(&mut store, 500 * SECOND, Err(down()), NOW).is_err());
    assert_eq!(setting_number(&store, CURSOR_SETTING), Some(200 * SECOND));
}

#[test]
fn a_finished_scan_moves_the_cursor() {
    let mut store = Store::new();
    prepare_scan(&mut store, 100 * SECOND);
    finish_scan(&mut store, 500 * SECOND, Ok(vec![]), NOW).unwrap();
    assert_eq!(setting_number(&store, CURSOR_SETTING), Some(500 * SECOND));
    assert_eq!(
        prepare_scan(&mut store, 600 * SECOND),
        Some(440 * SECOND)
    );
}

#[test]
fn the_window_never_reaches_before_the_baseline() {
    let mut store = Store::new();
    prepare_scan(&mut store, 100 * SECOND);
    assert_eq!(
        prepare_scan(&mut store, 110 * SECOND),
        Some(100 * SECOND)
    );
}

#[test]
fn pages_need_their_lists() {
    assert!(matches!(
        parse_thread_page(&json("{}")),
        Err(MonitorError::InvalidThreads)
    ));
    assert!(matches!(
        parse_turn_page(&thread(), &json("{}"), 0),
        Err(MonitorError::InvalidTurns)
    ));
    let (threads, next) = parse_thread_page(&json(
        r#"{"data": [{"id": "a", "cwd": "/w", "updatedAt": 5}], "nextCursor": "n"}"#,
    ))
    .unwrap();
    assert_eq!(threads.len(), 1);
    assert_eq!(threads[0].updated_at, 5);
    assert_eq!(next.as_deref(), Some("n"));
}

#[test]
fn a_status_is_found_in_depth() {
    assert_eq!(
        http_status(&json(r#"{"a": {"httpStatusCode": 429}}"#)),
        Some(429)
    );
    assert_eq!(http_status(&json("{}")), None);
}

#[test]
fn old_failures_are_left_out() {
    let turn = TurnSummary {
        id: "t".to_owned(),
        status: "failed".to_owned(),
        error: None,
        completed_at: Some(50),
    };
    assert!(turn_failure(&thread(), &turn, 100 * SECOND).is_none());
    assert!(turn_failure(&thread(), &turn, 50 * SECOND).is_some());
}

#[test]
fn a_scan_asks_for_threads_and_then_their_turns() {
    let scan = Scan::begin(100 * SECOND);
    let (method, _) = scan.request().unwrap();
    assert_eq!(method, "thread/list");
    let scan = scan
        .receive(&json(
            r#"{"data": [{"id": "a", "cwd": "/w", "updatedAt": 500}], "nextCursor": null}"#,
        ))
        .unwrap();
    let (method, params) = scan.request().unwrap();
    assert_eq!(method, "thread/turns/list");
    assert_eq!(params.text_at("threadId"), Some("a"));
    let scan = scan
        .receive(&json(
            r#"{"data": [{"id": "t", "status": "failed", "completedAt": 400,
                "error": {"message": "x"}}], "nextCursor": null}"#,
        ))
        .unwrap();
    assert!(scan.request().is_none());
    assert_eq!(scan.failures.len(), 1);
}

#[test]
fn the_monitor_polls_and_backs_off() {
    let monitor = Monitor::start();
    let (monitor, action) = monitor.run(&MonitorEvent::OpenFailed("down".to_owned()));
    let first = match action {
        MonitorAction::Wait(delay) | MonitorAction::CloseAndWait(delay) => delay,
        other => panic!("no wait: {other:?}"),
    };
    let (monitor, action) = monitor.run(&MonitorEvent::Waited);
    assert_eq!(action, MonitorAction::Open);
    let (monitor, action) = monitor.run(&MonitorEvent::OpenFailed("down".to_owned()));
    match action {
        MonitorAction::Wait(delay) | MonitorAction::CloseAndWait(delay) => {
            assert_eq!(delay, 2 * first);
            assert!(delay <= MAX_RECONNECT_DELAY);
        }
        other => panic!("no wait: {other:?}"),
    }
    let (monitor, _) = monitor.run(&MonitorEvent::Waited);
    let (monitor, action) = monitor.run(&MonitorEvent::Opened);
    assert_eq!(action, MonitorAction::Scan);
    let (_, action) = monitor.run(&MonitorEvent::Scanned(0));
    assert_eq!(action, MonitorAction::Wait(POLL_INTERVAL));
}

#[test]
fn failures_of_the_monitor_are_logged() {
    let (_, line) = log_line(&MonitorEvent::OpenFailed("down".to_owned())).unwrap();
    assert!(line.contains("Failed to connect turn failure monitor"));
    let (_, line) = log_line(&MonitorEvent::ScanFailed("down".to_owned())).unwrap();
    assert!(line.contains("Turn failure monitor scan failed"));
    assert!(log_line(&MonitorEvent::Waited).is_none());
    assert_eq!(down().message(), "app server down");
}
