use codexbot::clock::SECOND;
use codexbot::delivery::{
    begin_delivery, classify_delivery_error, classify_delivery_error_text,
    classify_lowered, deliver_item,
    finish_delivery, local_notification, notification_keyboard, notification_stamp, notification_text, settle_item,
    transient_delay, DeliveryError, DeliveryErrorCategory, DeliveryOutcome, DeliveryStep,
    RateLimiter,
};
use codexbot::formatting::FormattingError;
use codexbot::json::{parse_json, Json};
use codexbot::qq_menu::task_notification_keyboard;
use codexbot::store::{OutboxItem, OutboxState, Store, StoreError};

/// What the second assistant is called.
const ASSISTANT: &str = "Helper";

const NOW: i64 = 1_700_000_000 * SECOND;

fn json(text: &str) -> Json {
    parse_json(text.as_bytes()).unwrap()
}

fn item(kind: &str, payload: &str) -> OutboxItem {
    OutboxItem {
        id: 1,
        event_key: "event".to_owned(),
        kind: kind.to_owned(),
        session_id: "session".to_owned(),
        turn_id: Some("turn".to_owned()),
        payload: json(payload),
        segments: None,
        segment_index: 0,
        attempts: 0,
        created_at: SECOND,
    }
}

fn queued(reply: &str) -> (Store, OutboxItem) {
    let mut store = Store::new();
    store.set_setting("bound_openid", "owner");
    let event = json(&format!(
        "{{\"hook_event_name\":\"Stop\",\"session_id\":\"s\",\"turn_id\":\"t\",\"cwd\":\"/w/demo\",\
         \"model\":\"m\",\"last_assistant_message\":\"{reply}\"}}"
    ));
    assert!(store.ingest_hook_at(&event, None, None, true, NOW).unwrap());
    let item = store.get_due_outbox_at(NOW).unwrap().unwrap();
    (store, item)
}

#[test]
fn delivery_errors_are_distinct() {
    assert_eq!(
        classify_delivery_error_text("40054007 message length exceeded"),
        DeliveryErrorCategory::Length
    );
    assert_eq!(
        classify_delivery_error_text("40054005 消息被去重"),
        DeliveryErrorCategory::Duplicate
    );
    assert_eq!(
        classify_delivery_error_text("40034100 rate limit"),
        DeliveryErrorCategory::Rate
    );
    assert_eq!(
        classify_delivery_error_text("40054013 user 拒收"),
        DeliveryErrorCategory::Permanent
    );
}

#[test]
fn completion_notification_does_not_include_the_final_reply() {
    let item = item(
        "final_reply",
        "{\"project\":\"demo\",\"model\":\"gpt\",\"content\":\"完整敏感回复\",\"created_at\":1.0}",
    );

    let text = local_notification(&item, false, ASSISTANT).unwrap();
    assert!(text.contains("回复 /last 查看结果"));
    assert!(!text.contains("完整敏感回复"));
    assert_eq!(
        text,
        "✅ Codex 本轮已结束\n项目：demo\n回复 /last 查看结果"
    );
}

#[test]
fn claude_notification_keeps_its_identity_and_full_reply() {
    let mut item = item(
        "claude_reply",
        "{\"project\":\"demo\",\"content\":\"✅ Helper Code 本轮已结束\\n项目：demo\\n\\n完整回答\",\
         \"created_at\":1.0}",
    );
    item.event_key = "claude_turn:event".to_owned();
    item.session_id = "claude_session".to_owned();
    item.turn_id = None;

    let text = local_notification(&item, false, ASSISTANT).unwrap();
    assert!(text.contains("Helper Code"));
    assert!(text.contains("完整回答"));
    assert!(!text.contains("Codex 本轮"));
    assert!(!text.contains("/last"));
}

#[test]
fn missing_reply_notification_requests_attention() {
    let item = item(
        "turn_ended_without_reply",
        "{\"project\":\"demo\",\"created_at\":1.0}",
    );

    assert!(local_notification(&item, false, ASSISTANT)
        .unwrap()
        .contains("可能中断或失败"));
}

#[test]
fn failure_notification_includes_only_available_details() {
    let mut item = item(
        "turn_failed",
        "{\"project\":\"demo\",\"error\":\"service unavailable\",\
         \"error_type\":\"responseTooManyFailedAttempts\",\"http_status\":503,\"created_at\":1.0}",
    );

    let text = local_notification(&item, false, ASSISTANT).unwrap();
    assert!(text.contains("❌ Codex 本轮失败"));
    assert!(text.contains("类型：responseTooManyFailedAttempts"));
    assert!(text.contains("HTTP：503"));

    item.payload =
        json("{\"project\":\"demo\",\"error\":\"unknown failure\",\"created_at\":1.0}");
    let text = local_notification(&item, false, ASSISTANT).unwrap();
    assert!(!text.contains("类型："));
    assert!(!text.contains("HTTP："));
}

#[test]
fn active_chat_completion_contains_the_full_reply() {
    let item = item(
        "final_reply",
        "{\"project\":\"demo\",\"content\":\"完整回复\",\"created_at\":1.0}",
    );

    assert!(local_notification(&item, true, ASSISTANT)
        .unwrap()
        .contains("完整回复"));
}

#[test]
fn a_failure_reads_as_the_manual_shows_it() {
    let item = item(
        "turn_failed",
        "{\"project\":\"demo\",\
         \"error\":\"Selected model is at capacity. Please try a different model.\",\
         \"error_type\":\"responseTooManyFailedAttempts\",\"http_status\":503}",
    );
    assert_eq!(
        notification_text(&item, false, "12:00:00", ASSISTANT).unwrap(),
        "❌ Codex 本轮失败\n项目：demo\n错误：Selected model is at capacity. Please try a different \
         model.\n类型：responseTooManyFailedAttempts\nHTTP：503"
    );
}

#[test]
fn a_started_task_shows_its_stamp() {
    let item = item(
        "task_started",
        "{\"project\":\"demo\",\"model\":\"gpt\",\"preview\":\"do it\",\"created_at\":12.5}",
    );
    assert_eq!(notification_stamp(&item), 12_500_000);
    assert_eq!(
        notification_text(&item, false, "12:00:00", ASSISTANT).unwrap(),
        "🚀 Codex 开始处理\n项目：demo\n模型：gpt\n时间：12:00:00\n任务：do it"
    );
    let shown = local_notification(&item, false, ASSISTANT).unwrap();
    assert!(shown.contains("\n时间："));
    assert!(!shown.contains("%H"));
}

#[test]
fn an_unknown_kind_is_refused() {
    let item = item("other", "{}");
    let error = notification_text(&item, false, "now", ASSISTANT).unwrap_err();
    assert!(matches!(error, DeliveryError::UnknownKind(_)));
    assert_eq!(error.message(), "unknown outbox kind: other");
}

#[test]
fn delivery_errors_show_what_they_hold() {
    assert_eq!(
        DeliveryError::Store(StoreError::PayloadNotObject).message(),
        "hook payload must be a JSON object"
    );
    assert_eq!(
        DeliveryError::Formatting(FormattingError::EmptyChunkSize).message(),
        FormattingError::EmptyChunkSize.message()
    );
}

#[test]
fn every_message_of_a_chain_is_classified() {
    let chain = vec!["outer".to_owned(), "40054005 inner".to_owned()];
    assert_eq!(
        classify_delivery_error(&chain),
        DeliveryErrorCategory::Duplicate
    );
    assert_eq!(
        classify_delivery_error(&vec!["connection reset".to_owned()]),
        DeliveryErrorCategory::Transient
    );
    assert_eq!(DeliveryErrorCategory::Rate.as_str(), "rate");
    assert_eq!(DeliveryOutcome::FailedPermanent.as_str(), "failed_permanent");
}

#[test]
fn a_lowered_message_is_classified_as_it_stands() {
    for (lower, category) in [
        ("x 40054018 22006", DeliveryErrorCategory::Length),
        ("40054005 22006", DeliveryErrorCategory::Duplicate),
        ("无权限 rate limit", DeliveryErrorCategory::Permanent),
        ("rate limit", DeliveryErrorCategory::Rate),
        ("RATE LIMIT", DeliveryErrorCategory::Transient),
        ("", DeliveryErrorCategory::Transient),
    ] {
        assert_eq!(classify_lowered(lower), category);
    }
    assert_eq!(
        classify_delivery_error_text("RATE LIMIT"),
        DeliveryErrorCategory::Rate
    );
}

#[test]
fn sends_keep_their_distance() {
    let mut limiter = RateLimiter::new(20).unwrap();
    assert_eq!(limiter.minimum_interval, 3_000_000_000);
    assert_eq!(limiter.wait(10_000_000_000), 0);
    assert_eq!(limiter.wait(11_000_000_000), 2_000_000_000);
    assert_eq!(limiter.last_sent, Some(13_000_000_000));
    limiter.sent(12_000_000_000);
    assert_eq!(limiter.last_sent, Some(13_000_000_000));
    limiter.sent(13_500_000_000);
    assert_eq!(limiter.wait(14_000_000_000), 2_500_000_000);
    assert!(RateLimiter::new(0).is_err());
    assert_eq!(RateLimiter::new(11).unwrap().minimum_interval, 5_454_545_455);
    assert_eq!(RateLimiter::new(4_096).unwrap().minimum_interval, 14_648_438);
    assert_eq!(RateLimiter::new(12_288).unwrap().minimum_interval, 4_882_812);
    assert_eq!(RateLimiter::default().minimum_interval, 3_333_333_333);
}

#[test]
fn notifications_about_a_task_offer_shortcuts() {
    let mut failed = item("turn_failed", "{}");
    failed.event_key = "turn_failed:thread-1:turn".to_owned();
    assert_eq!(
        notification_keyboard(&failed),
        Some(task_notification_keyboard("thread-1", true))
    );
    failed.turn_id = None;
    assert_eq!(notification_keyboard(&failed), None);
    let ended = item("turn_ended_without_reply", "{\"thread_id\":\"t2\"}");
    assert_eq!(
        notification_keyboard(&ended),
        Some(task_notification_keyboard("t2", true))
    );
    for (kind, payload) in [
        ("final_reply", "{}"),
        ("final_reply", "{\"thread_id\":\"unknown\"}"),
        ("permission_required", "{\"thread_id\":\"t\"}"),
    ] {
        assert_eq!(notification_keyboard(&item(kind, payload)), None);
    }
}

#[test]
fn a_cause_counts_as_much_as_the_error() {
    for (chain, category) in [
        (vec!["request failed", "Too Many Requests"], DeliveryErrorCategory::Rate),
        (vec!["a", "b", "22006"], DeliveryErrorCategory::Permanent),
        (vec!["", "40054005"], DeliveryErrorCategory::Duplicate),
        (vec!["", "", "RATE LIMIT", ""], DeliveryErrorCategory::Rate),
        (vec!["", "too", "many requests"], DeliveryErrorCategory::Rate),
        (vec![], DeliveryErrorCategory::Transient),
    ] {
        let messages: Vec<String> = chain.iter().map(|text| (*text).to_owned()).collect();
        assert_eq!(classify_delivery_error(&messages), category);
        assert_eq!(classify_delivery_error_text(&messages.join(" ")), category);
    }
}

#[test]
fn retries_wait_twice_as_long_each_time() {
    assert_eq!(transient_delay(0, 0) * 2, transient_delay(1, 0));
    assert_eq!(transient_delay(1, 0) * 2, transient_delay(2, 0));
    assert_eq!(transient_delay(1, 7), transient_delay(1, 0) + 7);
    assert_eq!(transient_delay(0, 0), 5 * SECOND);
    assert_eq!(transient_delay(5, 0), 160 * SECOND);
    assert_eq!(transient_delay(6, 0), 300 * SECOND);
    assert_eq!(transient_delay(60, 0), 300 * SECOND);
}

#[test]
fn a_sent_notification_is_delivered() {
    let (mut store, item) = queued("done");
    let step = begin_delivery(&mut store, &item, false, "12:00", ASSISTANT).unwrap();
    let (message, segments, index) = match step {
        DeliveryStep::Send {
            message,
            last,
            keyboard,
            segments,
            index,
        } => {
            assert!(last);
            assert_eq!(keyboard, Some(task_notification_keyboard("s", true)));
            (message, segments, index)
        }
        DeliveryStep::Done(_) => panic!("nothing to send"),
    };
    assert!(message.contains("项目：demo"));
    let outcome = finish_delivery(&mut store, &item, &segments, index, None, 0, NOW);
    assert_eq!(outcome, DeliveryOutcome::Delivered);
    assert_eq!(store.outbox[0].state, OutboxState::Delivered);
}

#[test]
fn a_muted_item_is_suppressed() {
    let (mut store, item) = queued("done");
    store.set_setting("muted", "1");
    let step = deliver_item(&mut store, &item, false, ASSISTANT).unwrap();
    assert_eq!(step, DeliveryStep::Done(DeliveryOutcome::Suppressed));
    assert_eq!(store.outbox[0].state, OutboxState::Suppressed);
}

#[test]
fn refusals_settle_an_item() {
    for (refusal, outcome) in [
        ("40054013 user 拒收", DeliveryOutcome::FailedPermanent),
        ("40034100 rate limit", DeliveryOutcome::Retry),
        ("connection reset", DeliveryOutcome::Retry),
        ("40054005 消息被去重", DeliveryOutcome::Delivered),
        ("40054007 message length exceeded", DeliveryOutcome::Split),
    ] {
        let (mut store, item) = queued("done");
        let step = begin_delivery(&mut store, &item, false, "12:00", ASSISTANT).unwrap();
        let (segments, index) = match step {
            DeliveryStep::Send {
                segments, index, ..
            } => (segments, index),
            DeliveryStep::Done(_) => panic!("nothing to send"),
        };
        let messages = vec![refusal.to_owned()];
        let settled = settle_item(&mut store, &item, &segments, index, Some(&messages), NOW);
        assert_eq!(settled, outcome, "{refusal}");
    }
}

#[test]
fn a_retry_waits_for_its_delay() {
    let (mut store, item) = queued("done");
    let segments = vec!["text".to_owned()];
    let messages = vec!["connection reset".to_owned()];
    settle_item(&mut store, &item, &segments, 0, Some(&messages), NOW);
    let row = &store.outbox[0];
    let least = NOW + transient_delay(0, 0);
    assert!(row.next_attempt_at >= least);
    assert!(row.next_attempt_at <= least + 2 * SECOND);
    assert_eq!(row.attempts, 1);
}

#[test]
fn an_answer_without_text_names_the_assistant() {
    let mut item = item("claude_reply", "{}");
    assert_eq!(
        notification_text(&item, false, "12:00", ASSISTANT).unwrap(),
        "✅ Helper Code 本轮已结束\n（没有可显示的回答）"
    );
    item.kind = "claude_failed".to_owned();
    assert_eq!(
        notification_text(&item, false, "12:00", ASSISTANT).unwrap(),
        "❌ Helper Code 任务失败\n错误：未知错误"
    );
}
