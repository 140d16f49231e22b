use codexbot::claude_hook::{
    product_name, read_turn, run_inner, run_named, turn_content, ClaudeHookError,
};
use codexbot::clock::SECOND;
use codexbot::hook_event::{
    announces_permission, file_name_or, has_subagent_identity, permission_preview,
    session_meta_marks_subagent, transcript_marks_subagent, transcript_path,
};
use codexbot::hooks::{
    bounded_error, failure_line, parse_ancestor_pids, process_hook, read_event, read_hook_payload,
    HookError, HOOK_PAYLOAD_MAX_BYTES,
};
use codexbot::json::{parse_json, Json};
use codexbot::processes::HostProcess;
use codexbot::store::{Store, StoreError};

const NOW: i64 = 1_700_000_000 * SECOND;

fn json(text: &str) -> Json {
    parse_json(text.as_bytes()).unwrap()
}

#[test]
fn ancestor_parser_deduplicates_invalid_values() {
    assert_eq!(parse_ancestor_pids("303,bad,404,303,0"), vec![303, 404]);
}

#[test]
fn hook_payload_reader_is_bounded() {
    let input = vec![b'x'; HOOK_PAYLOAD_MAX_BYTES + 1];
    assert!(read_hook_payload(input).is_err());
}

#[test]
fn hook_payload_reader_accepts_the_new_limit() {
    let input = vec![b'x'; HOOK_PAYLOAD_MAX_BYTES];
    assert_eq!(
        read_hook_payload(input).unwrap().len(),
        HOOK_PAYLOAD_MAX_BYTES
    );
}

#[test]
fn at_most_so_many_ancestors_are_kept() {
    let raw: Vec<String> = (1..=40).map(|pid| pid.to_string()).collect();
    assert_eq!(parse_ancestor_pids(&raw.join(",")).len(), 32);
    assert!(parse_ancestor_pids("").is_empty());
}

#[test]
fn events_are_json_objects() {
    assert!(matches!(
        read_event(b"{".to_vec()),
        Err(HookError::InvalidJson)
    ));
    assert!(matches!(
        read_event(b"[]".to_vec()),
        Err(HookError::NotObject)
    ));
    assert!(matches!(
        read_event(vec![b' '; HOOK_PAYLOAD_MAX_BYTES + 1]),
        Err(HookError::TooLong)
    ));
    assert!(read_event(b"{\"a\":1}".to_vec()).is_ok());
    assert!(!HookError::TooLong.message().is_empty());
    assert_eq!(
        HookError::Store(StoreError::PayloadNotObject).message(),
        "failed to persist hook event"
    );
}

#[test]
fn a_hook_records_its_host_and_asks_for_the_companion() {
    let mut store = Store::new();
    let event = json(
        "{\"hook_event_name\":\"Stop\",\"session_id\":\"s\",\"turn_id\":\"t\",\"cwd\":\"/w\",\
         \"model\":\"m\"}",
    );
    let host = HostProcess::new(4, SECOND, "cli");
    let (queued, needed) =
        process_hook(&event, &mut store, Some(&host), None, true, false, NOW).unwrap();
    assert!(queued && needed);
    assert_eq!(store.list_hosts().len(), 1);
    let (_, needed) =
        process_hook(&event, &mut store, Some(&host), None, true, true, NOW).unwrap();
    assert!(!needed);
}

#[test]
fn hook_errors_are_redacted() {
    let line = bounded_error("api_key=hook-secret\nmore");
    assert!(!line.contains("hook-secret"));
    assert!(bounded_error(&"x".repeat(400)).chars().count() <= 300);
    assert!(failure_line("root", "broken").contains("broken"));
}

#[test]
fn turns_of_the_second_assistant_are_announced() {
    let payload = json("{\"session_id\":\" s \",\"cwd\":\"/w/demo\",\"response\":\"answer\"}");
    let turn = read_turn(&payload).unwrap();
    assert_eq!(turn.session_id, "s");
    assert!(!turn.failed);
    assert_eq!(
        turn_content("Helper", &turn, &Some("demo".to_owned())),
        "✅ Helper Code 本轮已结束\n项目：demo\n\nanswer"
    );
    let mut store = Store::new();
    assert!(run_inner(&mut store, "Helper", &payload, NOW).unwrap());
    let item = store.get_due_outbox_at(NOW).unwrap().unwrap();
    assert_eq!(
        item.payload.text_at("content"),
        Some("✅ Helper Code 本轮已结束\n项目：demo\n\nanswer")
    );
    assert_eq!(product_name("Helper"), "Helper Code");
}

#[test]
fn failed_turns_of_the_second_assistant_name_their_error() {
    let payload = json("{\"error\":\"quota\",\"status\":\"ok\"}");
    let turn = read_turn(&payload).unwrap();
    assert_eq!(turn.session_id, "unknown");
    assert!(turn.failed);
    assert_eq!(
        turn_content("Helper", &turn, &None),
        "❌ Helper Code 任务失败\n项目：Helper Code\n错误：quota"
    );
    let cancelled = read_turn(&json("{\"result\":\"Cancelled\"}")).unwrap();
    assert!(cancelled.failed);
    let mut store = Store::new();
    assert!(run_named(&mut store, "Helper", &cancelled, &None, NOW).unwrap());
    assert_eq!(
        store.get_due_outbox_at(NOW).unwrap().unwrap().kind,
        "claude_failed"
    );
}

#[test]
fn the_second_hook_needs_an_object() {
    let mut store = Store::new();
    let error = run_inner(&mut store, "Helper", &json("[]"), NOW).unwrap_err();
    assert!(matches!(error, ClaudeHookError::NotObject));
    assert_eq!(
        error.message("Helper"),
        "Helper Hook payload must be an object"
    );
    assert!(store.outbox.is_empty());
}

#[test]
fn sub_agents_are_recognized() {
    assert!(has_subagent_identity(&json("{\"agent_id\":\"a\"}")));
    assert!(!has_subagent_identity(&json("{}")));
    assert!(session_meta_marks_subagent(&json(
        "{\"type\":\"session_meta\",\"payload\":{\"source\":{\"subagent\":\"review\"}}}"
    )));
    assert!(!transcript_marks_subagent(&b"no json".to_vec()));
    assert_eq!(
        transcript_path(&json("{\"transcript_path\":\"/t.jsonl\"}")).as_deref(),
        Some("/t.jsonl")
    );
    assert_eq!(transcript_path(&json("{}")), None);
}

#[test]
fn permissions_are_previewed() {
    let event = json(
        "{\"hook_event_name\":\"PermissionRequest\",\"tool_name\":\"Bash\",\
         \"tool_input\":{\"command\":\"ls\"}}",
    );
    assert!(announces_permission(&event, true));
    assert!(!announces_permission(&event, false));
    assert!(!permission_preview(&event).is_empty());
    assert_eq!(file_name_or("/w/demo"), "demo");
    assert_eq!(file_name_or("//server/share"), "//server/share");
    assert_eq!(file_name_or("//server/share/demo/"), "demo");
    assert_eq!(file_name_or("//demo"), "demo");
    assert_eq!(file_name_or("/w/.."), "/w/..");
}
