use codexbot::cli::{
    cli_command_requested, codex_plugin_installed, command_doctor, command_pair, command_setup,
    command_start, command_stop, create_pairing, create_pairing_with, error_line, exit_status,
    expiry_time, home_dir, json_reports_plugin, keeps_waiting, online_token, pair_lines,
    qq_online_check, safe_cli_text, start_launched, stop_killed, truthy_environment, DoctorFacts,
    PluginListing, StartStep, StopStep, PAIRING_TTL,
};
use codexbot::clock::SECOND;
use codexbot::commands::{CommandService, CommandStep};
use codexbot::daemon::{
    failure_line, lifecycle_work_remains, prune_dead_hosts, safe_detail, standalone_requested,
    wait_without_credentials, Run, RunEvent, RunPhase, WaitAction, STANDALONE_SETTING,
};
use codexbot::desktop::{
    bridge_started, bridge_stopped, dashboard_state, install_message, mask_app_id, safe_error,
    save_qq_credentials, start_bridge, stop_bridge, BridgeKill, BridgeStop, DashboardFacts,
};
use codexbot::json::{parse_json, Json};
use codexbot::processes::HostProcess;
use codexbot::store::Store;

const NOW: i64 = 1_700_000_000 * SECOND;

fn json(text: &str) -> Json {
    parse_json(text.as_bytes()).unwrap()
}

fn facts() -> DoctorFacts {
    DoctorFacts {
        executable: "codexbot".to_owned(),
        executable_present: true,
        credentials_present: true,
        manifest: "plugin.json".to_owned(),
        manifest_present: true,
        marketplace: "marketplace.json".to_owned(),
        marketplace_listed: true,
        plugin: PluginListing::Answered {
            success: true,
            stdout: b"[{\"name\":\"codexbot\",\"installed\":true}]".to_vec(),
            stderr: Vec::new(),
        },
        daemon_started: None,
        online: Some(Ok(())),
        data_dir: "data".to_owned(),
    }
}

fn dashboard_facts() -> DashboardFacts {
    DashboardFacts {
        runtime_installed: true,
        manifest_present: true,
        marketplace_listed: true,
        app_id: Some("10234567391".to_owned()),
        daemon_started: None,
        hosts_started: Vec::new(),
        host_discovered: false,
        permission_setting: None,
    }
}

#[test]
fn external_text_is_redacted_and_single_line() {
    let value = safe_cli_text("failed\napi_key=secret-value", 300);
    assert!(!value.contains("secret-value"));
    assert!(!value.contains('\n'));
    assert!(value.contains("[REDACTED]"));
}

#[test]
fn logged_error_details_are_redacted_and_bounded() {
    let detail = safe_detail(&format!("api_key=daemon-secret {}", "x".repeat(500)));
    assert!(!detail.contains("daemon-secret"));
    assert!(detail.contains("[REDACTED]"));
    assert!(detail.chars().count() <= 300);
}

#[test]
fn persisted_standalone_mode_survives_a_hook_restart() {
    assert!(standalone_requested(Some("0"), Some("1")));
    assert!(standalone_requested(Some("1"), None));
    assert!(!standalone_requested(Some("0"), None));
}

#[test]
fn app_id_mask_keeps_only_a_small_hint() {
    assert_eq!(mask_app_id("10234567391"), "102••••7391");
    assert_eq!(mask_app_id("1234"), "1••4");
}

#[test]
fn errors_are_redacted_and_single_line() {
    let output = safe_error("failed\napp_secret=very-secret-value");
    assert!(!output.contains("very-secret-value"));
    assert!(!output.contains('\n'));
}

#[test]
fn a_new_code_has_eight_symbols_and_half_an_hour() {
    let mut store = Store::new();
    let (code, expiry) = create_pairing(&mut store, NOW);
    assert_eq!(code.chars().count(), 9);
    assert_eq!(code.chars().nth(4), Some('-'));
    assert!(code
        .chars()
        .all(|c| c == '-' || c.is_ascii_uppercase() || c.is_ascii_digit()));
    assert_eq!(expiry, NOW + PAIRING_TTL);
    assert_eq!(PAIRING_TTL, 30 * 60 * SECOND);
    assert!(store.consume_pairing_at(&code, "owner", NOW + PAIRING_TTL - 1));
    let mut other = Store::new();
    assert_eq!(create_pairing_with(&mut other, "ABCD-EF23", NOW), expiry);
}

#[test]
fn a_code_fits_once_until_it_expires_or_is_replaced() {
    let mut store = Store::new();
    let expiry = create_pairing_with(&mut store, "ABCD-EF23", NOW);
    assert!(!store.consume_pairing_at("ABCD-EF23", "owner", expiry + 1));
    assert!(store.consume_pairing_at("ABCD-EF23", "owner", expiry));
    assert!(!store.consume_pairing_at("ABCD-EF23", "owner", NOW));
    create_pairing_with(&mut store, "ABCD-EF23", NOW);
    create_pairing_with(&mut store, "GHJK-MN45", NOW);
    assert!(!store.consume_pairing_at("ABCD-EF23", "owner", NOW));
    assert!(store.consume_pairing_at("GHJK-MN45", "owner", NOW));
}

#[test]
fn the_printed_command_binds() {
    let mut store = Store::new();
    let lines = command_pair(&mut store, NOW).unwrap();
    let command = &lines[2][lines[2].find("/bind ").unwrap()..];
    let step = CommandService::default().handle(&mut store, "owner", "m1", command, NOW + SECOND);
    assert!(matches!(step, CommandStep::Probe { .. }));
    assert_eq!(store.get_bound_openid().as_deref(), Some("owner"));
    assert_eq!(
        command_pair(&mut store, i64::MAX).unwrap_err(),
        "配对码到期时间无效"
    );
    assert_eq!(expiry_time(i64::MAX).unwrap_err(), "配对码到期时间无效");
}

#[test]
fn pairing_is_explained() {
    let mut store = Store::new();
    let lines = command_pair(&mut store, NOW).unwrap();
    assert!(lines.iter().any(|line| line.contains("/bind ")));
    assert!(pair_lines("CODE", &None).is_err());
    let shown = pair_lines("CODE", &Some("2026-01-01 00:00:00".to_owned())).unwrap();
    assert!(shown.iter().any(|line| line.contains("2026-01-01 00:00:00")));
    let time = expiry_time(NOW).unwrap();
    assert_eq!(time.len(), 8);
    assert!(time.ends_with(":20"));
    let setup = command_setup("p", "m", "o", "CODE", "later");
    assert!(setup.iter().any(|line| line.contains("CODE")));
}

#[test]
fn small_rules_of_the_command_line() {
    assert!(cli_command_requested(Some("doctor")));
    assert!(!cli_command_requested(None));
    assert_eq!(exit_status(0), 0);
    assert_eq!(exit_status(1), 1);
    assert!(error_line("down").contains("down"));
    assert_eq!(home_dir(Some("profile"), Some("home")), "profile");
    assert_eq!(home_dir(None, Some("home")), "home");
    assert!(truthy_environment(Some("1")));
    assert!(!truthy_environment(Some("0")));
    assert!(!truthy_environment(None));
}

#[test]
fn the_plugin_is_found_in_the_listing() {
    assert!(json_reports_plugin(&json(
        "{\"plugins\":[{\"name\":\"codexbot\",\"installed\":true}]}"
    )));
    assert!(!json_reports_plugin(&json("{\"plugins\":[{\"name\":\"other\"}]}")));
    assert!(!codex_plugin_installed(&PluginListing::NoCommand).0);
    let (ok, detail) = codex_plugin_installed(&PluginListing::Failed("gone".to_owned()));
    assert!(!ok && detail.contains("gone"));
}

#[test]
fn the_network_check_needs_a_token_and_a_gateway() {
    assert_eq!(online_token(&json("{\"access_token\":\"t\"}")).unwrap(), "t");
    assert!(online_token(&json("{}")).is_err());
    assert!(qq_online_check(&json("{\"url\":\"wss://x\"}")).is_ok());
    assert!(qq_online_check(&json("{}")).is_err());
}

#[test]
fn the_doctor_fails_on_what_is_required() {
    let store = Store::new();
    let (lines, code) = command_doctor(&store, &facts());
    assert_eq!(code, 0, "{lines:?}");
    let mut broken = facts();
    broken.credentials_present = false;
    let (lines, code) = command_doctor(&store, &broken);
    assert_eq!(code, 1, "{lines:?}");
}

#[test]
fn the_daemon_is_started_once() {
    let mut store = Store::new();
    assert!(command_start(&store, None, false).is_err());
    assert_eq!(command_start(&store, None, true), Ok(StartStep::Launch));
    store.set_daemon_info(7, NOW);
    assert!(matches!(
        command_start(&store, Some(NOW), true),
        Ok(StartStep::Running(_))
    ));
    assert!(start_launched(&mut store, true).is_ok());
    assert_eq!(store.get_setting(STANDALONE_SETTING).as_deref(), Some("1"));
}

#[test]
fn the_daemon_is_stopped_and_forgotten() {
    let mut store = Store::new();
    assert!(matches!(command_stop(&mut store, None), StopStep::Absent(_)));
    store.set_daemon_info(7, NOW);
    assert_eq!(
        command_stop(&mut store, Some(NOW)),
        StopStep::Kill { pid: 7, created: NOW }
    );
    assert!(stop_killed(&mut store, 7, false).is_err());
    assert!(stop_killed(&mut store, 7, true).is_ok());
    assert_eq!(store.get_daemon_info(), None);
    assert!(keeps_waiting(0, Some(NOW), NOW));
    assert!(!keeps_waiting(0, None, NOW));
    assert!(!keeps_waiting(50, Some(NOW), NOW));
}

#[test]
fn the_companion_waits_for_credentials() {
    assert_eq!(
        wait_without_credentials(0, true, 0).1,
        WaitAction::Serve
    );
    let (checks, action) = wait_without_credentials(0, false, 0);
    assert_eq!((checks, action), (1, WaitAction::Pause));
    assert_eq!(
        wait_without_credentials(checks, false, 0).1,
        WaitAction::Stop
    );
    assert_eq!(
        wait_without_credentials(1, false, 1),
        (0, WaitAction::Pause)
    );
}

#[test]
fn dead_hosts_are_pruned() {
    let mut store = Store::new();
    store.record_host(&HostProcess::new(1, 10 * SECOND, "cli"), NOW);
    store.record_host(&HostProcess::new(2, 20 * SECOND, "cli"), NOW);
    let started: Vec<Option<i64>> = store
        .list_hosts()
        .iter()
        .map(|host| (host.pid == 2).then_some(host.create_time))
        .collect();
    assert_eq!(prune_dead_hosts(&mut store, &started), 1);
    assert_eq!(store.list_hosts()[0].pid, 2);
    assert!(lifecycle_work_remains(
        &store,
        &vec![Some(20 * SECOND)],
        false,
        true,
        NOW
    ));
    assert!(!lifecycle_work_remains(&store, &vec![None], false, true, NOW));
}

#[test]
fn a_run_tidies_up_after_a_failure() {
    let run = Run::start();
    assert_eq!(run.phase, RunPhase::Locking);
    let run = run.next(&RunEvent::Locked(true));
    assert_eq!(run.phase, RunPhase::Serving);
    let run = run.next(&RunEvent::Failed("boom".to_owned()));
    assert_eq!((run.phase, run.exit_code), (RunPhase::Clearing, 1));
    let run = run.next(&RunEvent::Done);
    assert_eq!(run.phase, RunPhase::Releasing);
    let run = run.next(&RunEvent::Done);
    assert_eq!(run.phase, RunPhase::Checking);
    let run = run.next(&RunEvent::Remaining(false));
    assert_eq!((run.phase, run.exit_code), (RunPhase::Ended, 1));
    assert_eq!(
        failure_line(RunPhase::Serving, "boom"),
        "Companion stopped unexpectedly: boom"
    );
}

#[test]
fn credentials_are_trimmed_and_bounded() {
    assert_eq!(
        save_qq_credentials(" id ", " secret "),
        Ok(("id".to_owned(), "secret".to_owned()))
    );
    assert_eq!(
        save_qq_credentials("", "x"),
        Err("AppID 和 AppSecret 均不能为空".to_owned())
    );
    assert_eq!(
        save_qq_credentials(&"1".repeat(129), "x"),
        Err("QQ 凭据长度超出允许范围".to_owned())
    );
}

#[test]
fn the_dashboard_shows_the_state() {
    let mut store = Store::new();
    store.set_setting("bound_openid", "owner");
    let event = json(
        "{\"hook_event_name\":\"Stop\",\"session_id\":\"s\",\"turn_id\":\"t\",\"cwd\":\"/w/demo\",\
         \"model\":\"m\",\"last_assistant_message\":\"done\"}",
    );
    store.ingest_hook_at(&event, None, None, true, NOW).unwrap();
    let state = dashboard_state(&mut store, &dashboard_facts(), NOW);
    assert_eq!(state.version, codexbot::VERSION);
    assert!(state.qq_bound && state.queue_pending && state.credentials_configured);
    assert!(!state.daemon_running && !state.muted);
    assert_eq!(state.app_id_hint.as_deref(), Some("102••••7391"));
    assert_eq!(state.recent_replies.len(), 1);
    assert_eq!(state.recent_replies[0].preview, "done");
    assert_eq!(state.sessions[0].project, "demo");
}

#[test]
fn the_bridge_is_started_and_stopped_from_the_desk() {
    let mut store = Store::new();
    assert_eq!(
        start_bridge(false, true, true),
        Err("请先配置 QQ 机器人凭据".to_owned())
    );
    assert_eq!(
        start_bridge(true, false, true),
        Err("请先安装 Codex 集成".to_owned())
    );
    assert_eq!(start_bridge(true, true, true), Ok(()));
    store.set_daemon_info(9, NOW);
    assert_eq!(
        bridge_started(&mut store, true),
        "桥接服务已启动（PID 9）"
    );
    assert_eq!(
        bridge_started(&mut store, false),
        "桥接服务已在运行，并已切换为常驻模式"
    );
    assert_eq!(
        stop_bridge(&mut store, Some(NOW), 1),
        Ok(BridgeStop::Kill { pid: 9, created: NOW })
    );
    assert_eq!(
        stop_bridge(&mut store, Some(NOW), 9),
        Err("安全检查阻止了停止当前桌面进程".to_owned())
    );
    assert!(bridge_stopped(&mut store, 9, BridgeKill::Refused).is_err());
    assert!(bridge_stopped(&mut store, 9, BridgeKill::StillRuns).is_err());
    assert!(bridge_stopped(&mut store, 9, BridgeKill::Ended).is_ok());
    assert_eq!(
        stop_bridge(&mut store, None, 1),
        Ok(BridgeStop::Absent("桥接服务当前未运行".to_owned()))
    );
    assert_ne!(install_message(true, "p"), install_message(false, "p"));
}
