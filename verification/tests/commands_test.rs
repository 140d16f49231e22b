use codexbot::account_commands::{
    account_reply, account_sources_text, account_switch_error, account_switch_success,
    account_switch_text, account_text, auth_required_error, auth_type_text, codex_failure_text,
    deleted_text, is_api_key_account, saved_text, usage_text, use_account, AccountCommand,
    ExternalAccount, UseEvent, UseStep,
};
use codexbot::account_switch::AccountSnapshot;
use codexbot::clock::SECOND;
use codexbot::codex_app::AccountSwitchOutcome;
use codexbot::codex_login::{AccountInfo, AppServerError};
use codexbot::commands::{
    bind_regex, hmac_equal, last_arguments, last_text, safe_field, send_passive, status_text,
    status_text_at, text_after, CommandError, CommandOutcome, CommandService, CommandStep,
    EXTENDED_COMMANDS_DISABLED_TEXT, HELP_TEXT,
};
use codexbot::json::{parse_json, Json};
use codexbot::store::{Store, StoreError};

const NOW: i64 = 1_700_000_000 * SECOND;

fn json(text: &str) -> Json {
    parse_json(text.as_bytes()).unwrap()
}

fn owned_store() -> Store {
    let mut store = Store::new();
    store.set_setting("bound_openid", "owner");
    store
}

fn reply(store: &mut Store, openid: &str, message_id: &str, content: &str) -> (String, CommandOutcome) {
    match CommandService::new().handle(store, openid, message_id, content, NOW) {
        CommandStep::Reply(reply, outcome) => {
            assert_eq!(reply.openid, openid);
            assert_eq!(reply.message_id, message_id);
            assert_eq!(reply.sequence, 1);
            (reply.text, outcome)
        }
        other => panic!("no reply: {other:?}"),
    }
}

fn finish(store: &mut Store, project: &str, turn: &str, content: &str, now: i64) {
    let event = json(&format!(
        "{{\"hook_event_name\":\"Stop\",\"session_id\":\"s\",\"turn_id\":\"{turn}\",\
         \"cwd\":\"/w/{project}\",\"model\":\"gpt\",\"last_assistant_message\":\"{content}\"}}"
    ));
    assert!(store.ingest_hook_at(&event, None, None, true, now).unwrap());
}

fn account(auth_type: &str) -> AccountInfo {
    AccountInfo {
        email: Some("a@b.c".to_owned()),
        plan: None,
        auth_type: auth_type.to_owned(),
        requires_openai_auth: false,
    }
}

fn snapshot(name: &str) -> AccountSnapshot {
    AccountSnapshot {
        name: name.to_owned(),
        email: Some("mail@example.com".to_owned()),
        account_id: None,
        saved_at: NOW,
    }
}

#[test]
fn parses_last_arguments_compatibly() {
    assert_eq!(last_arguments(""), Some((None, 1)));
    assert_eq!(last_arguments("2"), Some((None, 2)));
    assert_eq!(
        last_arguments("project name 3"),
        Some((Some("project name".to_owned()), 3))
    );
    assert_eq!(last_arguments("--project"), None);
}

#[test]
fn constant_time_comparison_handles_different_lengths() {
    assert!(hmac_equal("owner", "owner"));
    assert!(!hmac_equal("owner", "other"));
    assert!(!hmac_equal("owner", "owners"));
    assert!(!hmac_equal("", "o"));
}

#[test]
fn account_switch_reply_reports_automatic_reopen() {
    let outcome = AccountSwitchOutcome {
        value: (),
        closed_processes: 2,
        app_opened: true,
    };
    let reply = account_switch_success("账号已切换。".to_owned(), &outcome);
    assert!(reply.contains("已关闭 2 个旧 Codex 进程"));
    assert!(reply.contains("自动重新打开 Codex"));
}

#[test]
fn account_switch_reply_preserves_success_when_opening_fails() {
    let outcome = AccountSwitchOutcome {
        value: (),
        closed_processes: 0,
        app_opened: false,
    };
    let reply = account_switch_success("账号已切换。".to_owned(), &outcome);
    assert!(reply.contains("账号已切换"));
    assert!(reply.contains("请手动启动 Codex"));
}

#[test]
fn help_replies_for_slash_and_windows_backslash_forms() {
    let mut store = owned_store();
    let mut replies = Vec::new();
    for (message_id, content) in [("message-1", "/help"), ("message-2", r"\help")] {
        let (text, outcome) = reply(&mut store, "owner", message_id, content);
        assert_eq!(outcome, CommandOutcome::Replied);
        replies.push(text);
    }
    assert_eq!(replies.len(), 2);
    assert!(replies.iter().all(|text| text == HELP_TEXT));
    assert!(!HELP_TEXT.contains("/account"));
    assert!(!HELP_TEXT.contains("/usage"));
}

#[test]
fn account_commands_are_rejected_in_notification_mode() {
    let mut store = owned_store();
    let (text, outcome) = reply(&mut store, "owner", "message-account", "/account use 1");
    assert_eq!(outcome, CommandOutcome::Replied);
    assert_eq!(text, EXTENDED_COMMANDS_DISABLED_TEXT);
    let (text, _) = reply(&mut store, "owner", "message-usage", "/usage");
    assert_eq!(text, EXTENDED_COMMANDS_DISABLED_TEXT);
}

#[test]
fn last_arguments_take_flags() {
    assert_eq!(
        last_arguments("-p demo 2"),
        Some((Some("demo".to_owned()), 2))
    );
    assert_eq!(
        last_arguments("--project=demo"),
        Some((Some("demo".to_owned()), 1))
    );
    assert_eq!(last_arguments("demo"), Some((Some("demo".to_owned()), 1)));
}

#[test]
fn a_message_is_served_once() {
    let mut store = owned_store();
    reply(&mut store, "owner", "m", "/help");
    let step = CommandService::new().handle(&mut store, "owner", "m", "/help", NOW);
    assert_eq!(step, CommandStep::Finish(CommandOutcome::Duplicate));
}

#[test]
fn strangers_get_no_answer_and_change_nothing() {
    let mut store = owned_store();
    let step = CommandService::new().handle(&mut store, "other", "m", "/mute", NOW);
    assert_eq!(step, CommandStep::Finish(CommandOutcome::Unauthorized));
    assert!(!store.is_muted());
}

#[test]
fn an_unbound_bridge_asks_to_be_paired() {
    let mut store = Store::new();
    let (text, outcome) = reply(&mut store, "anyone", "m", "/status");
    assert_eq!(outcome, CommandOutcome::Unbound);
    assert_eq!(
        text,
        "机器人尚未绑定。请在源码目录运行 .\\codexbot.cmd pair 后发送 /bind 配对码。"
    );
}

#[test]
fn a_code_binds_once() {
    let mut store = Store::new();
    store.create_pairing("ABCD-EF23", NOW + SECOND);
    let service = CommandService::default();
    let step = service.handle(&mut store, "owner", "m1", " /BIND   abcd-ef23 ", NOW);
    assert_eq!(
        step,
        CommandStep::Probe {
            openid: "owner".to_owned(),
            text: "CodexBot 主动通知测试成功。".to_owned(),
        }
    );
    assert_eq!(store.get_bound_openid().as_deref(), Some("owner"));
    let (text, outcome) = reply(&mut store, "other", "m2", "/bind ABCD-EF23");
    assert_eq!(outcome, CommandOutcome::BadPairing);
    assert_eq!(
        text,
        "配对码无效或已过期，请在源码目录运行 .\\codexbot.cmd pair。"
    );
    assert_eq!(store.get_bound_openid().as_deref(), Some("owner"));
}

#[test]
fn a_binding_tells_whether_notifications_arrive() {
    let service = CommandService::with_clients(5_000);
    assert_eq!(service.codex_timeout, 5_000);
    for (active_ok, shown) in [
        (true, "绑定成功，主动通知能力正常。"),
        (
            false,
            "绑定已完成，但主动通知测试失败。请在 QQ 中开启“允许主动发送”，再用 /status 检查。",
        ),
    ] {
        match service.bound_reply("owner", "m", active_ok) {
            CommandStep::Reply(reply, CommandOutcome::Bound) => assert_eq!(reply.text, shown),
            other => panic!("no reply: {other:?}"),
        }
    }
}

#[test]
fn mute_and_unmute_answer_and_change_the_state() {
    let mut store = owned_store();
    let (text, _) = reply(&mut store, "owner", "m1", "/mute");
    assert_eq!(
        text,
        "主动通知已暂停；状态和最近回复仍会更新，不会补发静音期间的旧通知。"
    );
    assert!(store.is_muted());
    let (text, _) = reply(&mut store, "owner", "m2", "/UNMUTE");
    assert_eq!(text, "主动通知已恢复，只推送之后的新事件。");
    assert!(!store.is_muted());
}

#[test]
fn unknown_commands_show_the_help() {
    let mut store = owned_store();
    let (text, _) = reply(&mut store, "owner", "m", "/what");
    assert_eq!(text, format!("未知命令。\n\n{HELP_TEXT}"));
}

#[test]
fn the_last_reply_is_read_in_pages() {
    let mut store = owned_store();
    let (text, _) = reply(&mut store, "owner", "m1", "/last");
    assert_eq!(text, "还没有可读取的 Codex 最终回复。");
    finish(&mut store, "demo", "t1", "done", NOW);
    let (text, _) = reply(&mut store, "owner", "m2", "/last");
    assert_eq!(
        text,
        "最近一次 Codex 回复 [1/1]\n项目：demo\n模型：gpt\n\ndone"
    );
    let (text, _) = reply(&mut store, "owner", "m3", "/last 2");
    assert_eq!(text, "页码无效，可用范围：1-1。");
    let (text, _) = reply(&mut store, "owner", "m4", "/last other");
    assert_eq!(
        text,
        "找不到项目“other”的 Codex 回复。可用项目：demo。"
    );
    let (text, _) = reply(&mut store, "owner", "m5", "/last --project");
    assert_eq!(text, "用法：/last、/last 页码、/last 项目 [页码]");
    assert_eq!(
        last_text(&mut store, 1, Some("demo"), NOW),
        "项目 demo 最近一次 Codex 回复 [1/1]\n项目：demo\n模型：gpt\n\ndone"
    );
}

#[test]
fn the_status_lists_the_sessions() {
    let mut store = owned_store();
    assert_eq!(status_text(&store), "当前还没有收到 Codex 任务状态。");
    finish(&mut store, "demo", "t1", "done", NOW);
    assert_eq!(
        status_text_at(&store, &vec![Some("01-02 03:04:05".to_owned())]),
        "CodexBot：通知开启\n\n项目：demo\n模型：gpt\n状态：已完成\n更新：01-02 03:04:05"
    );
    let shown = status_text(&store);
    assert!(shown.contains("更新：11-1"));
    assert!(!shown.contains('%'));
}

#[test]
fn bind_commands_are_recognized() {
    assert_eq!(bind_regex("/bind ABCD-EF23").as_deref(), Some("ABCD-EF23"));
    assert_eq!(bind_regex("/Bind x").as_deref(), Some("x"));
    assert_eq!(bind_regex("/bind"), None);
    assert_eq!(bind_regex("/bind a b"), None);
    assert_eq!(bind_regex("/bind a_b"), None);
}

#[test]
fn small_texts_of_the_chat() {
    assert_eq!(safe_field(Some("a\r\n b"), "x", 10), "a b");
    assert_eq!(safe_field(None, "x", 10), "x");
    assert_eq!(safe_field(Some("abcdef"), "x", 3), "abc");
    assert_eq!(text_after("/last demo", 5), " demo");
    assert_eq!(CommandOutcome::BadPairing.as_str(), "bad_pairing");
    assert_eq!(
        send_passive("down").message(),
        "QQ passive reply failed: down"
    );
    assert_eq!(
        CommandError::Background("x".to_owned()).message(),
        "background account operation failed: x"
    );
    assert_eq!(
        CommandError::Store(StoreError::PayloadNotObject).message(),
        "hook payload must be a JSON object"
    );
}

#[test]
fn accounts_are_described() {
    assert_eq!(auth_type_text("api-key"), "API key");
    assert_eq!(auth_type_text("ChatGPT"), "ChatGPT 登录");
    assert_eq!(auth_type_text("not_logged_in"), "未登录");
    assert_eq!(auth_type_text("other"), "other");
    assert!(is_api_key_account(&account("ApiKey")));
    assert!(!is_api_key_account(&account("chatgpt")));
    assert_eq!(
        account_text(&account("chatgpt")),
        "Codex 当前账号\n邮箱：a@b.c\n套餐：未知\n认证类型：ChatGPT 登录"
    );
    assert!(account_reply(Ok(account("chatgpt"))).contains("a@b.c"));
}

#[test]
fn failures_of_the_server_are_explained() {
    let timeout = AppServerError::Timeout("late".to_owned());
    assert_eq!(
        codex_failure_text("账号读取", &timeout, None),
        "Codex 账号读取超时，请稍后重试。"
    );
    let unauthorized = AppServerError::Rpc {
        code: Some(-32600),
        message: "no".to_owned(),
        data_summary: String::new(),
    };
    assert!(auth_required_error(&unauthorized));
    assert!(codex_failure_text("账号读取", &unauthorized, None).contains("需要 ChatGPT 账号认证"));
    let unknown = AppServerError::Rpc {
        code: Some(-32601),
        message: "no".to_owned(),
        data_summary: String::new(),
    };
    assert!(codex_failure_text("账号读取", &unknown, None).contains("不支持 账号读取 接口"));
    assert_eq!(
        codex_failure_text("账号读取", &AppServerError::LoginInProgress, Some("hint")),
        "Codex 账号读取暂不可用，可能是旧版 app-server 或进程未运行。\nhint"
    );
    assert!(auth_required_error(&AppServerError::Protocol(
        "Authentication Required".to_owned()
    )));
}

#[test]
fn usage_needs_a_login() {
    assert_eq!(usage_text(&Ok(account("chatgpt")), "hint"), None);
    assert!(usage_text(&Ok(account("apikey")), "hint")
        .unwrap()
        .contains("hint"));
    assert!(usage_text(&Err(AppServerError::LoginInProgress), "hint").is_some());
}

#[test]
fn account_arguments_are_recognized() {
    assert_eq!(account_switch_text("list"), AccountCommand::List);
    assert_eq!(
        account_switch_text("save work"),
        AccountCommand::Save("work".to_owned())
    );
    assert_eq!(
        account_switch_text("use 1"),
        AccountCommand::Use("1".to_owned())
    );
    assert_eq!(
        account_switch_text("delete work"),
        AccountCommand::Delete("work".to_owned())
    );
    assert!(matches!(
        account_switch_text("what"),
        AccountCommand::Explain(_)
    ));
}

#[test]
fn account_results_are_told() {
    assert!(saved_text(&Ok(snapshot("work"))).contains("work"));
    assert!(saved_text(&Err("disk".to_owned())).contains("失败：disk"));
    assert!(deleted_text("work", &Ok(())).contains("work"));
    assert!(deleted_text("work", &Err("disk".to_owned())).contains("失败：disk"));
    assert_eq!(
        account_switch_error("账号切换", "检测到 1 个进程正在运行"),
        "账号切换失败：检测到 1 个进程正在运行\n自动关闭未完成；请保存当前工作，手动退出 Codex/ChatGPT 后重试。"
    );
    assert_eq!(account_switch_error("账号切换", "x"), "账号切换失败：x");
}

#[test]
fn account_sources_are_listed() {
    let external = ExternalAccount {
        id: "1".to_owned(),
        name: "Main".to_owned(),
        email: None,
        ready: true,
    };
    let shown = account_sources_text(&vec![external], &Some("1".to_owned()), &vec![snapshot("work")]);
    assert!(shown.contains("Main"));
    assert!(shown.contains("work"));
}

#[test]
fn an_account_is_looked_up_before_it_is_used() {
    assert_eq!(
        use_account("1", UseEvent::Loaded(Ok(2))),
        UseStep::Resolve
    );
    assert_eq!(
        use_account("1", UseEvent::Resolved(Ok(true))),
        UseStep::SwitchExternal
    );
    assert!(matches!(
        use_account("1", UseEvent::Loaded(Ok(0))),
        UseStep::List(_)
    ));
    let listed = UseEvent::Listed(Ok(vec![snapshot("work")]), None);
    assert_eq!(use_account("work", listed), UseStep::SwitchSnapshot);
    let switched = UseEvent::SnapshotSwitched(Ok(AccountSwitchOutcome {
        value: Some("mail@example.com".to_owned()),
        closed_processes: 0,
        app_opened: true,
    }));
    assert!(matches!(use_account("work", switched), UseStep::Reply(_)));
}
