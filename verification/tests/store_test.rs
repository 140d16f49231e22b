use codexbot::clock::{DAY, SECOND};
use codexbot::json::{parse_json, Json};
use codexbot::processes::HostProcess;
use codexbot::store::{OutboxState, QQTaskInfo, Store, StoreError, TurnFailureNotification};
use codexbot::store_ops::{daemon_text, read_daemon, resolve_ttl};

const NOW: i64 = 1_700_000_000 * SECOND;

fn json(text: &str) -> Json {
    parse_json(text.as_bytes()).unwrap()
}

fn event_with(name: &str, extra: &str) -> Json {
    json(&format!(
        "{{\"hook_event_name\":\"{}\",\"session_id\":\"session-1\",\"turn_id\":\"turn-1\",\
         \"cwd\":\"D:\\\\work\\\\示例项目\",\"model\":\"gpt-5.6-codex\"{}}}",
        name, extra
    ))
}

fn event(name: &str) -> Json {
    event_with(name, "")
}

fn ingest(store: &mut Store, event: &Json, now: i64) -> bool {
    store.ingest_hook_at(event, None, None, true, now).unwrap()
}

fn failure<'a>(turn_id: &'a str, occurred_at: i64) -> TurnFailureNotification<'a> {
    TurnFailureNotification {
        thread_id: "session-1",
        cwd: r"D:\work\示例项目",
        turn_id,
        error_message: "service unavailable",
        error_type: Some("serverOverloaded"),
        http_status: Some(503),
        occurred_at,
    }
}

#[test]
fn final_replies_are_deduplicated_and_retained() {
    let mut store = Store::new();
    let final_event = event_with("Stop", ",\"last_assistant_message\":\"完整内容🙂\"");
    assert!(ingest(&mut store, &final_event, NOW));
    assert!(!ingest(&mut store, &final_event, NOW));
    assert_eq!(
        store.get_last_reply_at(None, None, NOW).unwrap().content,
        "完整内容🙂"
    );
    assert_eq!(
        store.get_due_outbox_at(NOW).unwrap().unwrap().kind,
        "final_reply"
    );
}

#[test]
fn prompts_update_status_without_start_notifications() {
    let mut store = Store::new();
    let prompt = event_with("UserPromptSubmit", ",\"prompt\":\"不要发送到 QQ\"");

    assert!(!ingest(&mut store, &prompt, NOW));
    assert!(!store.has_pending_outbox());
    assert_eq!(store.get_sessions_for_status()[0].status, "running");
}

#[test]
fn empty_stop_queues_warning_without_overwriting_last_reply() {
    let mut store = Store::new();

    assert!(ingest(&mut store, &event("Stop"), NOW));
    assert_eq!(
        store.get_due_outbox_at(NOW).unwrap().unwrap().kind,
        "turn_ended_without_reply"
    );
    assert!(store.get_last_reply_at(None, None, NOW).is_none());
}

#[test]
fn turn_failure_preserves_existing_model_and_marks_the_session_failed() {
    let mut store = Store::new();
    let prompt = event_with("UserPromptSubmit", ",\"prompt\":\"test\"");
    ingest(&mut store, &prompt, 100 * SECOND);

    assert!(store
        .enqueue_turn_failure(failure("failed-turn", 200 * SECOND), NOW)
        .unwrap());
    let sessions = store.get_sessions_for_status();
    assert_eq!(sessions[0].status, "failed");
    assert_eq!(sessions[0].model, "gpt-5.6-codex");
    let item = store.get_due_outbox_at(200 * SECOND).unwrap().unwrap();
    assert_eq!(item.kind, "turn_failed");
    assert_eq!(
        item.payload.get("http_status").unwrap().as_unsigned(),
        Some(503)
    );
    assert!(item.created_at > 200 * SECOND);
}

#[test]
fn same_raw_session_in_different_projects_is_isolated() {
    let first = Store::scoped_session_id("same", r"D:\work\one", None);
    let second = Store::scoped_session_id("same", r"E:\work\two", None);
    assert_ne!(first, second);
    assert_eq!(Store::project_name(r"D:\work\示例项目"), "示例项目");
}

#[test]
fn pairing_is_consumed_once_and_suppresses_prebinding_messages() {
    let mut store = Store::new();
    store.create_pairing("ABCD-EF23", 200 * SECOND);
    assert!(store.consume_pairing_at("abcd ef23", "openid", 100 * SECOND));
    assert!(!store.consume_pairing_at("ABCD-EF23", "other", 100 * SECOND));
    assert_eq!(store.get_bound_openid().as_deref(), Some("openid"));
}

#[test]
fn rediscovered_hosts_can_be_recorded() {
    let mut store = Store::new();
    let host = HostProcess::new(42, 123 * SECOND, "desktop");

    store.record_host(&host, NOW);
    assert_eq!(store.list_hosts(), vec![host]);
}

#[test]
fn a_host_is_recorded_once_and_removed() {
    let mut store = Store::new();
    let host = HostProcess::new(42, 123 * SECOND, "desktop");
    let other = HostProcess::new(43, 124 * SECOND, "cli");
    store.record_host(&host, NOW);
    store.record_host(&host, NOW + SECOND);
    store.record_host(&other, NOW);
    assert_eq!(store.list_hosts().len(), 2);
    store.remove_hosts(&vec![host]);
    assert_eq!(store.list_hosts(), vec![other]);
}

#[test]
fn a_setting_reads_back_and_leaves_the_others() {
    let mut store = Store::new();
    store.set_setting("a", "1");
    store.set_setting("b", "2");
    store.set_setting("a", "3");
    assert_eq!(store.get_setting("a").as_deref(), Some("3"));
    assert_eq!(store.get_setting("b").as_deref(), Some("2"));
    assert_eq!(store.get_setting("c"), None);
    store.delete_settings(&vec!["a".to_owned()]);
    assert_eq!(store.get_setting("a"), None);
    assert_eq!(store.get_setting("b").as_deref(), Some("2"));
}

#[test]
fn an_unknown_hook_event_is_refused() {
    let mut store = Store::new();
    let error = store
        .ingest_hook_at(&event("Unknown"), None, None, true, NOW)
        .unwrap_err();
    assert!(matches!(error, StoreError::UnsupportedHookEvent(_)));
    assert_eq!(error.message(), "unsupported hook event: Unknown");
    assert!(store.sessions.is_empty());
    assert!(store.outbox.is_empty());
}

#[test]
fn a_payload_that_is_no_object_is_refused() {
    let mut store = Store::new();
    let error = store
        .ingest_hook_at(&json("[]"), None, None, true, NOW)
        .unwrap_err();
    assert!(matches!(
        error,
        StoreError::PayloadNotObject | StoreError::UnsupportedHookEvent(_)
    ));
}

#[test]
fn a_muted_store_keeps_replies_but_sends_nothing() {
    let mut store = Store::new();
    store.set_muted(true);
    let final_event = event_with("Stop", ",\"last_assistant_message\":\"done\"");
    ingest(&mut store, &final_event, NOW);
    assert!(store.is_muted());
    assert!(store.get_due_outbox_at(NOW + DAY).unwrap().is_none());
    assert_eq!(
        store.get_last_reply_at(None, None, NOW).unwrap().content,
        "done"
    );
}

#[test]
fn a_muted_failure_is_never_due() {
    let mut store = Store::new();
    store.set_muted(true);
    store
        .enqueue_turn_failure(failure("turn-1", 200 * SECOND), NOW)
        .unwrap();
    assert!(store.get_due_outbox_at(NOW).unwrap().is_none());
}

#[test]
fn a_failure_is_queued_once() {
    let mut store = Store::new();
    assert!(store
        .enqueue_turn_failure(failure("turn-1", 200 * SECOND), NOW)
        .unwrap());
    assert!(!store
        .enqueue_turn_failure(failure("turn-1", 200 * SECOND), NOW)
        .unwrap());
    assert_eq!(store.outbox.len(), 1);
}

#[test]
fn binding_suppresses_what_was_queued_before() {
    let mut store = Store::new();
    ingest(&mut store, &event("Stop"), NOW);
    assert!(store.has_pending_outbox());
    store.create_pairing("ABCD-EF23", NOW + 10 * SECOND);
    assert!(store.consume_pairing_at("ABCD-EF23", "owner", NOW + SECOND));
    assert!(!store.has_pending_outbox());
}

#[test]
fn an_expired_pairing_code_binds_nobody() {
    let mut store = Store::new();
    store.create_pairing("ABCD-EF23", NOW);
    assert!(!store.consume_pairing_at("ABCD-EF23", "owner", NOW + SECOND));
    assert_eq!(store.get_bound_openid(), None);
    let (active, _) = store.pairing_status_at(NOW + SECOND);
    assert!(!active);
}

#[test]
fn expired_replies_are_gone() {
    let mut store = Store::new();
    let final_event = event_with("Stop", ",\"last_assistant_message\":\"done\"");
    ingest(&mut store, &final_event, NOW);
    assert!(store
        .get_last_reply_at(None, None, NOW + 8 * DAY)
        .is_none());
    assert!(store.replies.is_empty());
}

#[test]
fn the_reply_history_is_limited() {
    let mut store = Store::with_options(None, None, None, None, Some(2));
    for turn in 0..4 {
        let event = json(&format!(
            "{{\"hook_event_name\":\"Stop\",\"session_id\":\"s\",\"turn_id\":\"t{turn}\",\
             \"cwd\":\"/p\",\"model\":\"m\",\"last_assistant_message\":\"r{turn}\"}}"
        ));
        ingest(&mut store, &event, NOW + turn);
    }
    let replies = store.get_last_replies_at(None, None, None, NOW + 10);
    assert_eq!(replies.len(), 2);
    assert_eq!(replies[0].content, "r3");
    assert_eq!(replies[1].content, "r2");
    assert_eq!(store.get_last_reply_projects_at(NOW + 10), vec!["p".to_owned()]);
}

#[test]
fn an_inbound_message_is_remembered_once() {
    let mut store = Store::new();
    assert!(store.remember_inbound_at("m", NOW));
    assert!(!store.remember_inbound_at("m", NOW + SECOND));
    assert!(store.remember_inbound_at("n", NOW + SECOND));
    assert!(!store.remember_inbound_at("m", NOW + 8 * DAY));
    store.cleanup_at(NOW + 8 * DAY, true);
    assert!(store.remember_inbound_at("m", NOW + 8 * DAY));
}

#[test]
fn outbox_rows_follow_their_edits() {
    let mut store = Store::new();
    ingest(&mut store, &event("Stop"), NOW);
    let item = store.get_due_outbox_at(NOW).unwrap().unwrap();
    store.prepare_segments(item.id, &vec!["a".to_owned(), "b".to_owned()]);
    store.advance_segment(item.id, 0, 2);
    let item = store.get_due_outbox_at(NOW).unwrap().unwrap();
    assert_eq!(item.segment_index, 1);
    store.reschedule_at(item.id, 5 * SECOND, "busy", NOW);
    assert!(store.get_due_outbox_at(NOW + 4 * SECOND).unwrap().is_none());
    let item = store.get_due_outbox_at(NOW + 5 * SECOND).unwrap().unwrap();
    assert_eq!(item.attempts, 1);
    store.advance_segment(item.id, 1, 2);
    assert!(store.get_due_outbox_at(NOW + DAY).unwrap().is_none());
    assert_eq!(store.outbox[0].state, OutboxState::Delivered);
}

#[test]
fn only_final_states_can_be_marked() {
    let mut store = Store::new();
    ingest(&mut store, &event("Stop"), NOW);
    let item = store.get_due_outbox_at(NOW).unwrap().unwrap();
    let error = store.mark_outbox(item.id, "pending", "no").unwrap_err();
    assert!(matches!(error, StoreError::InvalidOutboxState(_)));
    store.mark_outbox(item.id, "failed_permanent", "gone").unwrap();
    assert_eq!(store.outbox[0].state, OutboxState::FailedPermanent);
    assert_eq!(store.outbox[0].last_error.as_deref(), Some("gone"));
}

#[test]
fn permission_requests_wait_and_are_resolved_by_the_tool() {
    let mut store = Store::new();
    let request = event_with(
        "PermissionRequest",
        ",\"tool_name\":\"Bash\",\"tool_use_id\":\"u1\",\"tool_input\":{\"command\":\"ls\"}",
    );
    assert!(ingest(&mut store, &request, NOW));
    assert!(store.get_due_outbox_at(NOW + 4 * SECOND).unwrap().is_none());
    assert!(store.get_due_outbox_at(NOW + 5 * SECOND).unwrap().is_some());
    let done = event_with(
        "PostToolUse",
        ",\"tool_name\":\"Bash\",\"tool_use_id\":\"u1\"",
    );
    assert!(!ingest(&mut store, &done, NOW + SECOND));
    assert!(!store.has_pending_outbox());
}

#[test]
fn permission_requests_can_be_silenced() {
    let mut store = Store::new();
    let request = event_with("PermissionRequest", ",\"tool_name\":\"Bash\"");
    assert!(!store
        .ingest_hook_at(&request, None, None, false, NOW)
        .unwrap());
    assert!(!store.has_pending_outbox());
    assert!(!Store::permission_notifications_enabled(Some("0")));
    assert!(Store::permission_notifications_enabled(Some("1")));
}

#[test]
fn sub_agent_events_are_ignored() {
    let mut store = Store::new();
    let line = b"{\"type\":\"session_meta\",\"payload\":{\"source\":{\"subagent\":\"review\"}}}".to_vec();
    let stop = event_with(
        "Stop",
        ",\"last_assistant_message\":\"x\",\"transcript_path\":\"/t.jsonl\"",
    );
    assert!(!store
        .ingest_hook_at(&stop, None, Some(&line), true, NOW)
        .unwrap());
    assert!(store.sessions.is_empty());
}

#[test]
fn claude_replies_are_queued_once_each() {
    let mut store = Store::new();
    assert!(store
        .enqueue_claude_reply("session", "/work/demo", "answer", false, NOW)
        .unwrap());
    assert_eq!(
        store.get_due_outbox_at(NOW).unwrap().unwrap().kind,
        "claude_reply"
    );
}

#[test]
fn tasks_are_counted_while_they_run() {
    let mut store = Store::new();
    let task = QQTaskInfo {
        thread_id: "t".to_owned(),
        turn_id: "u".to_owned(),
        cwd: "/w".to_owned(),
        model: "m".to_owned(),
        effort: "high".to_owned(),
        state: "active".to_owned(),
        updated_at: NOW,
    };
    store.upsert_qq_task(&task);
    assert_eq!(store.count_running_qq_tasks(), 1);
    store.update_qq_task_state("t", "other", "completed", NOW);
    assert_eq!(store.count_running_qq_tasks(), 1);
    store.update_qq_task_state("t", "u", "completed", NOW);
    assert_eq!(store.count_running_qq_tasks(), 0);
    assert_eq!(store.get_qq_task("t").unwrap().state, "completed");
    assert!(store.get_qq_task("x").is_none());
}

#[test]
fn the_daemon_is_cleared_only_by_itself() {
    let mut store = Store::new();
    store.set_daemon_info(7, NOW);
    store.clear_daemon_info(8);
    assert_eq!(store.get_daemon_info(), Some((7, NOW)));
    store.clear_daemon_info(7);
    assert_eq!(store.get_daemon_info(), None);
}

#[test]
fn lifetimes_come_from_the_environment_unless_asked_for() {
    for (value, environment, ttl) in [
        (Some(5), Some("7"), 5),
        (Some(-5), Some("7"), 7 * DAY),
        (None, Some("7.5"), 7_500_000),
        (None, Some("0"), 0),
        (None, Some("1e20"), i64::MAX),
        (None, Some("-1"), 7 * DAY),
        (None, Some("inf"), 7 * DAY),
        (None, Some("NaN"), 7 * DAY),
        (None, Some(" "), 7 * DAY),
        (None, Some("soon"), 7 * DAY),
        (None, None, 7 * DAY),
    ] {
        assert_eq!(resolve_ttl(value, environment), ttl);
    }
    let store = Store::with_options(None, Some("3"), Some(4), Some("5"), None);
    assert_eq!(store.last_reply_ttl, 3 * SECOND);
    assert_eq!(store.outbox_ttl, 4);
}

#[test]
fn states_are_named() {
    for state in [
        OutboxState::Pending,
        OutboxState::Delivered,
        OutboxState::Suppressed,
        OutboxState::FailedPermanent,
    ] {
        assert_eq!(OutboxState::named(state.as_str()), Some(state));
    }
    assert_eq!(OutboxState::FailedPermanent.as_str(), "failed_permanent");
    assert_eq!(OutboxState::named("lost"), None);
}

#[test]
fn the_daemon_is_recorded_as_a_setting() {
    let mut store = Store::new();
    store.set_daemon_info(7, NOW + 250_000);
    let raw = store.get_setting("daemon").unwrap();
    assert_eq!(raw, "{\"create_time\":1700000000.25,\"pid\":7}");
    assert_eq!(raw, daemon_text(7, NOW + 250_000));
    for (raw, record) in [
        ("{\"pid\":9,\"create_time\":12}", Some((9, 12 * SECOND))),
        ("{\"pid\":9,\"create_time\":1e300}", Some((9, i64::MAX))),
        ("{\"pid\":4294967296,\"create_time\":12}", None),
        ("{\"pid\":-1,\"create_time\":12}", None),
        ("{\"pid\":9,\"create_time\":\"12\"}", None),
        ("{\"pid\":9}", None),
        ("{", None),
    ] {
        assert_eq!(read_daemon(raw), record);
        store.set_setting("daemon", raw);
        assert_eq!(store.get_daemon_info(), record);
        if record.is_none() {
            store.clear_daemon_info(9);
            assert_eq!(store.get_setting("daemon").as_deref(), Some(raw));
        }
    }
    store.delete_settings(&vec!["daemon".to_owned()]);
    assert_eq!(store.get_daemon_info(), None);
}

#[test]
fn event_keys_need_an_object_and_differ_by_turn() {
    let first = Store::event_key(&event("Stop"), None).unwrap();
    assert_eq!(first, Store::event_key(&event("Stop"), None).unwrap());
    assert_ne!(
        first,
        Store::event_key(&event("SessionStart"), None).unwrap()
    );
}

#[test]
fn opening_a_store_migrates_once() {
    let mut store = Store::new();
    store.initialize().unwrap();
    let before = store.settings.len();
    store.initialize().unwrap();
    assert_eq!(store.settings.len(), before);
}

#[test]
fn working_directories_are_normalized() {
    assert_eq!(
        Store::normalize_cwd(r"D:\Work\Demo\"),
        Store::normalize_cwd("d:/work/demo")
    );
}

#[test]
fn a_session_key_is_a_digest_of_the_name_and_the_directory() {
    let key = |session: &str, cwd: &str| Store::scoped_session_id(session, cwd, None);
    let shown = key("s", "/w");
    assert_eq!(shown.len(), 67);
    assert!(shown.starts_with("v2:"));
    assert!(shown[3..]
        .chars()
        .all(|c| c.is_ascii_digit() || ('a'..='f').contains(&c)));
    assert_eq!(shown, key(" s ", "\\W\\."));
    assert_eq!(key("", "/w"), key("unknown", "/w"));
    assert_ne!(shown, key("s", "/x"));
    assert_ne!(shown, key("t", "/w"));
    assert_ne!(key("a\", \"b", "c"), key("a", "b\", \"c"));
}

#[test]
fn a_directory_has_one_notation() {
    for (cwd, notation) in [
        ("C:/Work/./Demo/../x", "c:\\work\\x"),
        ("C:work", "c:work"),
        ("//Server/Share", "\\\\server\\share"),
        ("/a/../..", "\\.."),
        ("a/..", "."),
        ("C:", "c:"),
    ] {
        let shown = Store::normalize_cwd(cwd);
        assert_eq!(shown, notation);
        assert_eq!(Store::normalize_cwd(&shown), shown);
        assert_eq!(Store::normalize_cwd(&cwd.to_uppercase()), shown);
        assert_eq!(Store::normalize_cwd(&cwd.replace('/', "\\")), shown);
    }
}

#[test]
fn a_failure_is_queued_once_for_each_turn() {
    let mut store = Store::new();
    assert!(store
        .enqueue_turn_failure(failure("turn-1", 200 * SECOND), NOW)
        .unwrap());
    let mut again = failure("turn-1", 300 * SECOND);
    again.cwd = "/elsewhere";
    again.error_message = "other";
    assert!(!store.enqueue_turn_failure(again, NOW + SECOND).unwrap());
    assert_eq!(store.outbox.len(), 1);
    assert!(store
        .enqueue_turn_failure(failure("turn-2", 200 * SECOND), NOW)
        .unwrap());
    assert_eq!(store.outbox.len(), 2);
    assert!(store.outbox.iter().all(|row| row.kind == "turn_failed"));
}

#[test]
fn an_unreadable_row_tells_why() {
    let mut store = Store::new();
    assert!(ingest(&mut store, &event("Stop"), NOW));
    store.outbox[0].payload = None;
    store.outbox[0].fault = Some("EOF while parsing a value at line 1 column 0".to_owned());
    assert_eq!(
        store.get_due_outbox_at(NOW).unwrap_err().message(),
        "invalid JSON state: EOF while parsing a value at line 1 column 0"
    );
}
