use codexbot::codex_login::{
    device_login_result, initialize_params, notification_login_result, parse_account_result,
    parse_device_login_result, read_message, read_rate_limits, response_for, safe_detail,
    start_device_login, AppServerError, CodexAppServerSession, DeviceLoginStart,
};
use codexbot::json::{parse_json, Json};

fn json(text: &str) -> Json {
    parse_json(text.as_bytes()).unwrap()
}

fn started() -> DeviceLoginStart {
    DeviceLoginStart {
        login_id: "login".to_owned(),
        verification_url: "https://example.com".to_owned(),
        user_code: "CODE".to_owned(),
    }
}

#[test]
fn account_with_identity_remains_authenticated_when_auth_is_required() {
    let account = parse_account_result(&json(
        "{\"account\":{\"email\":\"owner@example.com\",\"planType\":\"plus\",\
         \"type\":\"chatgpt\"},\"requiresOpenaiAuth\":true}",
    ));
    assert!(account.is_authenticated());
    assert_eq!(account.email.as_deref(), Some("owner@example.com"));
}

#[test]
fn device_login_requires_complete_result() {
    assert!(parse_device_login_result(&json("{\"loginId\":\"x\"}")).is_err());
}

#[test]
fn experimental_sessions_opt_in_during_initialize() {
    let experimental = |value: Json| {
        value
            .get("capabilities")
            .unwrap()
            .get("experimentalApi")
            .unwrap()
            .as_bool()
    };
    assert_eq!(experimental(initialize_params(true)), Some(true));
    assert_eq!(experimental(initialize_params(false)), Some(false));
}

#[test]
fn a_complete_login_is_parsed() {
    let login = parse_device_login_result(&json(
        "{\"type\":\"chatgptDeviceCode\",\"loginId\":\"x\",\"verificationUrl\":\"u\",\"userCode\":\"c\"}",
    ))
    .unwrap();
    assert_eq!(login.login_id, "x");
    assert_eq!(login.verification_url, "u");
    assert_eq!(login.user_code, "c");
}

#[test]
fn requests_are_numbered_and_answers_kept_for_their_request() {
    let mut session = CodexAppServerSession::new();
    let (first, message) = session.raw_request("a", json("{}"));
    assert!(message.is_some());
    let (second, _) = session.raw_request("b", json("{}"));
    assert_eq!(second, first + 1);
    let answer = json(&format!("{{\"id\":{second},\"result\":2}}"));
    assert_eq!(session.accept(answer, first), None);
    let answer = json(&format!("{{\"id\":{first},\"result\":1}}"));
    assert!(session.accept(answer, first).is_some());
    assert!(session.take_pending(second).is_some());
    assert!(session.take_pending(second).is_none());
}

#[test]
fn notifications_are_kept_until_drained() {
    let mut session = CodexAppServerSession::new();
    let notice = json("{\"method\":\"turn/completed\",\"params\":{}}");
    assert_eq!(session.accept(notice, 1), None);
    assert_eq!(session.drain_notifications().len(), 1);
    assert!(session.drain_notifications().is_empty());
}

#[test]
fn lines_that_are_no_objects_are_skipped() {
    assert!(read_message(&b"not json".to_vec()).is_none());
    assert!(read_message(&b"{\"id\":1}".to_vec()).is_some());
}

#[test]
fn an_error_answer_keeps_its_code() {
    let error = response_for(&json("{\"error\":{\"code\":-32601,\"message\":\"no method\"}}"))
        .unwrap_err();
    assert_eq!(error.rpc_code(), Some(-32601));
    assert!(!error.is_timeout());
    assert_eq!(error.message(), "RPC error Some(-32601): \"no method\"");
    assert!(AppServerError::Timeout("late".to_owned()).is_timeout());
    assert_eq!(
        AppServerError::LoginInProgress.message(),
        "已有 Codex 账号切换正在进行"
    );
    let value = response_for(&json("{\"result\":{\"a\":1}}")).unwrap();
    assert_eq!(value, json("{\"a\":1}"));
}

#[test]
fn rate_limits_are_an_object() {
    assert!(read_rate_limits(json("{\"rateLimits\":{}}")).is_ok());
    assert!(read_rate_limits(json("[]")).is_err());
}

#[test]
fn only_the_notification_of_a_login_completes_it() {
    let other = json(
        "{\"method\":\"account/login/completed\",\"params\":{\"loginId\":\"x\",\"success\":true}}",
    );
    assert!(matches!(notification_login_result(&other, "login"), Ok(None)));
    let own = json(
        "{\"method\":\"account/login/completed\",\"params\":{\"loginId\":\"login\",\"success\":true}}",
    );
    assert!(matches!(
        notification_login_result(&own, "login"),
        Ok(Some(_))
    ));
    let failed = json(
        "{\"method\":\"account/login/completed\",\"params\":{\"loginId\":\"login\",\"success\":false,\
         \"error\":\"denied\"}}",
    );
    assert!(matches!(
        notification_login_result(&failed, "login"),
        Err(AppServerError::LoginFailed(_))
    ));
    let mut session = CodexAppServerSession::new();
    session.wait_for_login(other);
    session.wait_for_login(own);
    assert!(matches!(
        session.take_login_notification("login"),
        Ok(Some(_))
    ));
    assert!(matches!(session.take_login_notification("login"), Ok(None)));
}

#[test]
fn a_second_login_waits_for_the_first() {
    assert!(start_device_login(None).is_ok());
    assert!(start_device_login(Some(true)).is_ok());
    assert!(matches!(
        start_device_login(Some(false)),
        Err(AppServerError::LoginInProgress)
    ));
}

#[test]
fn a_login_reports_how_it_ended() {
    let done = device_login_result(started(), Ok(None));
    assert!(done.completed && !done.cancelled && done.error.is_none());
    let cancelled =
        device_login_result(started(), Err(AppServerError::LoginCancelled("x".to_owned())));
    assert!(!cancelled.completed && cancelled.cancelled);
    let failed = device_login_result(started(), Err(AppServerError::LoginFailed("x".to_owned())));
    assert!(!failed.completed && !failed.cancelled && failed.error.is_some());
}

#[test]
fn details_are_bounded_and_redacted() {
    let detail = safe_detail("api_key=hidden-value and more", 12);
    assert!(!detail.contains("hidden-value"));
    assert!(detail.chars().count() <= 12);
}
