use codexbot::clock::SECOND;
use codexbot::delivery::DeliveryOutcome;
use codexbot::json::{compact_text, parse_json, Json};
use codexbot::processes::HostProcess;
use codexbot::qq_client::{
    access_token, c2c_message_payload, flatten_join, gateway_url, handle_dispatch, heartbeat,
    identify, message_json, message_url, post_c2c_message, read_hello, refuses_keyboard,
    reply_payload, token_answer, token_request, AccessToken, Gateway, GatewayAction, GatewayEvent,
    GatewayFrame, QQApiError, QQRuntimeError, TokenResponse, QQ_API_BASE, QQ_C2C_INTENT,
};
use codexbot::qq_menu::{main_menu, MenuReply};
use codexbot::qq_runtime::{
    after_delivery, delivery_loop, drain_outbox, drained, monitor_hosts, reattached_line, run,
    ConnectionEnd, DrainEvent, DrainStep, HostWatch, OutboxStep, QQRuntimeOptions, WatchAction,
    WatchFinding, MAX_RECONNECT_DELAY,
};
use codexbot::store::{Store, StoreError};

const NOW: i64 = 1_700_000_000 * SECOND;

fn json(text: &str) -> Json {
    parse_json(text.as_bytes()).unwrap()
}

fn frame(text: &str) -> GatewayFrame {
    GatewayFrame::Text(text.as_bytes().to_vec())
}

fn found(alive: usize, pending: bool, ready: bool, elapsed: u64, clock: u64) -> WatchFinding {
    WatchFinding {
        alive,
        pending,
        ready,
        elapsed,
        clock,
    }
}

fn queued() -> Store {
    let mut store = Store::new();
    store.set_setting("bound_openid", "owner");
    let event = json(
        "{\"hook_event_name\":\"Stop\",\"session_id\":\"s\",\"turn_id\":\"t\",\"cwd\":\"/w\",\
         \"model\":\"m\",\"last_assistant_message\":\"done\"}",
    );
    assert!(store.ingest_hook_at(&event, None, None, true, NOW).unwrap());
    store
}

#[test]
fn sandbox_protocol_constants_match_the_c2c_contract() {
    assert_eq!(QQ_API_BASE, "https://sandbox.api.sgroup.qq.com");
    assert_eq!(QQ_C2C_INTENT, 1 << 25);
}

#[test]
fn gateway_text_is_decoded_as_json() {
    let value = message_json(&frame(r#"{"op":10,"d":{}}"#)).unwrap();
    assert_eq!(value.get("op").unwrap().as_unsigned(), Some(10));
}

#[test]
fn passive_reply_payload_includes_qq_deduplication_sequence() {
    let payload = c2c_message_payload("help", Some(("message-1", 1)));
    assert_eq!(payload.get("msg_type").unwrap().as_unsigned(), Some(0));
    assert_eq!(payload.text_at("content"), Some("help"));
    assert_eq!(payload.text_at("msg_id"), Some("message-1"));
    assert_eq!(payload.get("msg_seq").unwrap().as_unsigned(), Some(1));
}

#[test]
fn proactive_payload_has_no_passive_reply_fields() {
    let payload = c2c_message_payload("notice", None);
    assert!(payload.get("msg_id").is_none());
    assert!(payload.get("msg_seq").is_none());
}

#[test]
fn frames_that_are_no_json_are_refused() {
    assert_eq!(
        message_json(&frame("{")).unwrap_err().message(),
        "QQ protocol error: gateway message is invalid JSON"
    );
    assert_eq!(
        message_json(&GatewayFrame::Other).unwrap_err().message(),
        "QQ protocol error: gateway message is not JSON text"
    );
}

#[test]
fn the_gateway_greets_with_its_interval() {
    let hello = frame(r#"{"op":10,"d":{"heartbeat_interval":41250}}"#);
    assert_eq!(read_hello(Some(hello)).unwrap(), 41250);
    assert_eq!(
        read_hello(None).unwrap_err().message(),
        "QQ protocol error: gateway closed before hello"
    );
    assert_eq!(
        read_hello(Some(frame(r#"{"op":0}"#))).unwrap_err().message(),
        "QQ protocol error: gateway did not send Hello"
    );
}

#[test]
fn requests_of_the_chat() {
    assert_eq!(
        compact_text(&token_request("a", "b")),
        "{\"appId\":\"a\",\"clientSecret\":\"b\"}"
    );
    assert_eq!(
        compact_text(&identify("t")),
        "{\"op\":2,\"d\":{\"token\":\"QQBot t\",\"intents\":33554432,\"shard\":[0,1]}}"
    );
    assert_eq!(compact_text(&heartbeat(Some(7))), "{\"op\":1,\"d\":7}");
    assert_eq!(compact_text(&heartbeat(None)), "{\"op\":1,\"d\":null}");
    assert_eq!(
        message_url("user"),
        "https://sandbox.api.sgroup.qq.com/v2/users/user/messages"
    );
}

#[test]
fn tokens_and_gateways_are_read() {
    assert!(access_token("t", &json("7200")).is_ok());
    assert!(access_token("t", &json("\"7200\"")).is_ok());
    assert_eq!(
        access_token("", &json("7200")).unwrap_err().message(),
        "QQ protocol error: access-token response did not include a token"
    );
    assert_eq!(
        gateway_url(200, b"{\"url\":\"wss://x\"}").unwrap(),
        "wss://x"
    );
    assert_eq!(
        gateway_url(200, b"{}").unwrap_err().message(),
        "QQ protocol error: gateway response missing url"
    );
    assert_eq!(
        gateway_url(200, b"{").unwrap_err().message(),
        "QQ protocol error: gateway response is not valid JSON"
    );
    assert!(matches!(gateway_url(500, b"{}"), Err(QQRuntimeError::Api(_))));
}

#[test]
fn refusals_of_the_chat_are_told() {
    assert!(post_c2c_message(200, b"{}").is_ok());
    let error = post_c2c_message(400, b"{\"code\":40054013,\"message\":\"no\"}").unwrap_err();
    assert_eq!(error.code, Some(40054013));
    assert_eq!(error.message(), "code=40054013 status=400 no");
    let error = QQApiError::from_response(502, b"bad\xffgateway");
    assert_eq!(error.message, "bad\u{fffd}gateway");
    let error = QQApiError::from_failure(None, "timed out");
    assert_eq!(error.message(), "code= status= timed out");
    assert_eq!(
        QQRuntimeError::Api(error).message(),
        "QQ API error: code= status= timed out"
    );
    assert_eq!(
        QQRuntimeError::Http("x".to_owned()).message(),
        "QQ HTTP request failed: x"
    );
    assert_eq!(
        QQRuntimeError::WebSocket("x".to_owned()).message(),
        "QQ websocket failed: x"
    );
    assert_eq!(
        QQRuntimeError::Store(StoreError::PayloadNotObject).message(),
        "hook payload must be a JSON object"
    );
    assert_eq!(
        flatten_join("QQ", "boom").message(),
        "QQ protocol error: QQ task failed: boom"
    );
}

#[test]
fn the_gateway_answers_and_keeps_its_sequence() {
    let gateway = Gateway::new();
    let ready = GatewayEvent::Frame(frame(r#"{"op":0,"s":5,"t":"READY","d":{}}"#));
    let (gateway, action) = gateway.gateway_session(ready).unwrap();
    assert!(gateway.ready);
    assert_eq!(gateway.sequence, Some(5));
    assert!(matches!(
        action,
        GatewayAction::Dispatch { became_ready: true, .. }
    ));
    let (gateway, action) = gateway.gateway_session(GatewayEvent::Tick).unwrap();
    assert_eq!(action, GatewayAction::Send(heartbeat(Some(5))));
    let ping = GatewayEvent::Frame(GatewayFrame::Ping(vec![1]));
    let (gateway, action) = gateway.gateway_session(ping).unwrap();
    assert_eq!(action, GatewayAction::Pong(vec![1]));
    let (_, action) = gateway.gateway_session(GatewayEvent::Stop).unwrap();
    assert_eq!(action, GatewayAction::Close);
    assert_eq!(
        gateway
            .gateway_session(GatewayEvent::Frame(GatewayFrame::End))
            .unwrap_err()
            .message(),
        "QQ protocol error: gateway disconnected"
    );
    assert!(gateway
        .gateway_session(GatewayEvent::Frame(GatewayFrame::Close))
        .is_err());
    assert!(gateway
        .gateway_session(GatewayEvent::Frame(frame(r#"{"op":7}"#)))
        .is_err());
}

#[test]
fn chat_messages_are_dispatched() {
    let message = handle_dispatch(&json(
        r#"{"op":0,"t":"C2C_MESSAGE_CREATE","d":{"id":"m","content":"/help",
            "author":{"user_openid":"owner"}}}"#,
    ))
    .unwrap();
    assert_eq!(message.openid, "owner");
    assert_eq!(message.message_id, "m");
    assert_eq!(message.content, "/help");
    assert!(handle_dispatch(&json(r#"{"op":0,"t":"READY","d":{}}"#)).is_none());
}

#[test]
fn the_companion_stops_once_its_hosts_are_gone() {
    let options = QQRuntimeOptions::default();
    let mut watch = HostWatch::new();
    let mut action = WatchAction::Pause;
    for look in 0..10_u64 {
        let clock = 60_000 + look * 10_000;
        let decided = watch.decide(&options, found(0, false, true, clock, clock));
        watch = decided.0;
        action = decided.1;
        if action == WatchAction::Stop {
            break;
        }
    }
    assert_eq!(action, WatchAction::Stop);
    let (_, action) = HostWatch::new().decide(&options, found(1, false, true, 60_000, 60_000));
    assert_eq!(action, WatchAction::Pause);
}

#[test]
fn dead_hosts_leave_and_running_ones_are_met() {
    let mut store = Store::new();
    store.record_host(&HostProcess::new(1, 10 * SECOND, "cli"), NOW);
    let host = HostProcess::new(2, 20 * SECOND, "desktop");
    let (alive, attached) = monitor_hosts(&mut store, &vec![None], Some(&host), NOW);
    assert_eq!((alive, attached), (1, true));
    assert_eq!(store.list_hosts(), vec![host]);
    assert_eq!(
        reattached_line(2),
        "Reattached companion to running Codex host PID 2"
    );
}

#[test]
fn due_items_are_delivered_to_the_owner() {
    let mut store = queued();
    match delivery_loop(&mut store, NOW).unwrap() {
        OutboxStep::Deliver { openid, item } => {
            assert_eq!(openid, "owner");
            assert_eq!(item.kind, "final_reply");
        }
        OutboxStep::Pause(_) => panic!("nothing due"),
    }
    assert!(matches!(
        delivery_loop(&mut Store::new(), NOW),
        Ok(OutboxStep::Pause(_))
    ));
    let (_, gave_up) = after_delivery(DeliveryOutcome::Delivered);
    let (_, failed) = after_delivery(DeliveryOutcome::FailedPermanent);
    assert!(!gave_up || failed);
}

#[test]
fn the_outbox_is_drained_at_the_end() {
    let mut store = queued();
    assert_eq!(
        drain_outbox(&mut store, true, 0, false, NOW),
        DrainStep::Finish(Some((
            false,
            "Shutdown outbox drain deadline reached".to_owned()
        )))
    );
    assert!(matches!(
        drain_outbox(&mut store, true, 1_000, false, NOW),
        DrainStep::Deliver { .. }
    ));
    assert_eq!(
        drained(&DrainEvent::TimedOut),
        Err((false, "Shutdown outbox drain timed out".to_owned()))
    );
    assert_eq!(
        drained(&DrainEvent::Failed("x".to_owned())),
        Err((true, "Shutdown outbox drain failed: x".to_owned()))
    );
}

#[test]
fn a_lost_connection_is_tried_again_ever_later() {
    let options = QQRuntimeOptions::default();
    let end = ConnectionEnd::Gateway(Some("lost".to_owned()));
    let again = run(&options, &end, false, false, 3_000);
    let (wait, next) = again.wait.unwrap();
    assert_eq!(wait, 3_000);
    assert_eq!(next, 6_000);
    assert!(!again.stop);
    let again = run(&options, &end, false, false, MAX_RECONNECT_DELAY);
    assert_eq!(again.wait.unwrap().1, MAX_RECONNECT_DELAY);
    let stopped = run(&options, &ConnectionEnd::Stopped, true, true, 3_000);
    assert!(stopped.wait.is_none());
}

fn told(token: &str, expires_in: &str) -> Option<TokenResponse> {
    Some(TokenResponse {
        access_token: token.to_owned(),
        expires_in: json(expires_in),
    })
}

#[test]
fn a_token_is_taken_from_its_answer() {
    for (expires_in, lifetime) in [("\"7200\"", 7_140), ("7200", 7_140), ("null", 240), ("30", 1)] {
        let (token, seconds) = token_answer(200, b"", told("t", expires_in)).unwrap();
        assert_eq!((token.as_str(), seconds), ("t", lifetime));
    }
    assert_eq!(
        token_answer(200, b"no json", None).unwrap_err().message(),
        "QQ protocol error: access-token response is not valid JSON"
    );
    assert_eq!(
        token_answer(200, b"", told(" ", "1")).unwrap_err().message(),
        "QQ protocol error: access-token response did not include a token"
    );
    assert!(matches!(
        token_answer(401, b"{\"code\":1}", told("t", "1")).unwrap_err(),
        QQRuntimeError::Api(QQApiError { code: Some(1), .. })
    ));
}

#[test]
fn a_token_is_used_until_its_time_is_over() {
    let token = AccessToken::new("t".to_owned(), 2, 500);
    assert_eq!(token.refresh_at, 2_500);
    assert_eq!(token.usable(2_499), Some("t"));
    assert_eq!(token.usable(2_500), None);
    assert_eq!(AccessToken::new("t".to_owned(), u64::MAX, 1).refresh_at, u64::MAX);
}

#[test]
fn a_menu_is_sent_as_a_text_where_keyboards_are_refused() {
    let reply = main_menu(1);
    let payload = reply_payload(&reply, true, Some(("m", 1)));
    assert_eq!(payload.get("msg_type").unwrap().as_unsigned(), Some(2));
    assert_eq!(payload.get("keyboard"), reply.keyboard.as_ref());
    assert_eq!(
        payload.get("markdown").unwrap().text_at("content"),
        Some(reply.text.as_str())
    );
    assert_eq!(payload.text_at("msg_id"), Some("m"));
    assert_eq!(
        reply_payload(&reply, false, None),
        c2c_message_payload(&reply.fallback_text(), None)
    );
    assert_eq!(
        reply_payload(&MenuReply::text("hi"), true, None),
        c2c_message_payload("hi", None)
    );
    let refused = |status| QQApiError {
        code: None,
        status,
        message: "no".to_owned(),
    };
    assert!(refuses_keyboard(&refused(Some(400))));
    assert!(!refuses_keyboard(&refused(Some(429))));
    assert!(!refuses_keyboard(&refused(Some(503))));
    assert!(!refuses_keyboard(&refused(None)));
}
