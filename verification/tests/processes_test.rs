use codexbot::clock::SECOND;
use codexbot::processes::{
    discover_codex_host, discover_running_codex_host, ensure_daemon, process_matches,
    process_matches_with_tolerance, select_codex_host, started_at, EnsureEvent, EnsureStep,
    HostProcess, ProcessEntry, ProcessError, ProcessInfo,
};

fn process(pid: u32, name: &str, executable: &str, command_line: &[&str]) -> ProcessInfo {
    ProcessInfo {
        pid,
        create_time: pid as i64 * SECOND,
        name: name.to_owned(),
        executable: executable.to_owned(),
        command_line: command_line
            .iter()
            .map(|value| (*value).to_owned())
            .collect(),
    }
}

fn host(pid: u32, kind: &str) -> HostProcess {
    HostProcess::new(pid, pid as i64 * SECOND, kind)
}

fn codex_cli(pid: u32) -> ProcessInfo {
    process(
        pid,
        "codex.exe",
        r"C:\Codex\codex.exe",
        &["codex.exe", "exec"],
    )
}

#[test]
fn desktop_wins_over_nested_app_server() {
    let chain = vec![
        process(10, "python.exe", r"C:\Python\python.exe", &["python"]),
        process(
            20,
            "codex.exe",
            r"C:\Codex\codex.exe",
            &["codex.exe", "app-server"],
        ),
        process(
            30,
            "ChatGPT.exe",
            r"C:\WindowsApps\OpenAI.Codex_x64\ChatGPT.exe",
            &["ChatGPT.exe"],
        ),
    ];
    assert_eq!(select_codex_host(&chain), Some(host(30, "desktop")));
}

#[test]
fn skips_transient_runner() {
    let runner = process(
        10,
        "codex-command-runner.exe",
        r"C:\Codex\codex-command-runner.exe",
        &["codex-command-runner.exe"],
    );
    let cli = codex_cli(20);
    assert_eq!(
        select_codex_host(&vec![runner, cli]),
        Some(host(20, "cli"))
    );
}

#[test]
fn skips_codex_switcher_as_a_runtime_host() {
    let switcher = process(
        10,
        "codex-switcher.exe",
        r"C:\CodexSwitcher\codex-switcher.exe",
        &["codex-switcher.exe"],
    );
    assert_eq!(select_codex_host(&vec![switcher]), None);
}

#[test]
fn the_host_is_found_through_the_parents() {
    let table = vec![
        ProcessEntry {
            info: process(5, "hook.exe", r"C:\hook.exe", &["hook.exe"]),
            parent: Some(20),
        },
        ProcessEntry {
            info: codex_cli(20),
            parent: None,
        },
    ];
    assert_eq!(
        discover_codex_host(&table, 5, &vec![]),
        Some(host(20, "cli"))
    );
    assert_eq!(
        discover_codex_host(&table, 99, &vec![20]),
        Some(host(20, "cli"))
    );
    assert_eq!(
        discover_codex_host(&table, 99, &vec![]),
        Some(host(20, "cli"))
    );
    assert_eq!(discover_codex_host(&vec![], 99, &vec![20]), None);
}

#[test]
fn a_running_host_is_found_in_the_table() {
    let other = process(3, "bash", "/bin/bash", &["bash"]);
    assert_eq!(
        discover_running_codex_host(&vec![other, codex_cli(20)]),
        Some(host(20, "cli"))
    );
    assert_eq!(discover_running_codex_host(&vec![]), None);
}

#[test]
fn a_process_matches_within_a_quarter_second() {
    assert!(process_matches(Some(10 * SECOND), 10 * SECOND + 250_000));
    assert!(!process_matches(Some(10 * SECOND), 10 * SECOND + 250_001));
    assert!(!process_matches(None, 10 * SECOND));
    assert!(process_matches_with_tolerance(Some(5), 7, 2));
    assert!(!process_matches_with_tolerance(Some(5), 8, 2));
}

#[test]
fn a_daemon_is_launched_only_under_the_lock() {
    let step = ensure_daemon(EnsureStep::Inspect, EnsureEvent::Inspected(true));
    assert_eq!(step, EnsureStep::Finished(false));
    let step = ensure_daemon(EnsureStep::Inspect, EnsureEvent::Inspected(false));
    assert_eq!(step, EnsureStep::Lock);
    let step = ensure_daemon(step, EnsureEvent::Locked(false));
    assert_eq!(step, EnsureStep::Finished(false));
    let step = ensure_daemon(EnsureStep::Lock, EnsureEvent::Locked(true));
    assert_eq!(step, EnsureStep::InspectLocked);
    let step = ensure_daemon(step, EnsureEvent::Inspected(false));
    assert_eq!(step, EnsureStep::Launch);
    assert_eq!(
        ensure_daemon(step, EnsureEvent::Launched),
        EnsureStep::Finished(true)
    );
}

#[test]
fn the_first_reading_is_the_start() {
    assert_eq!(started_at(&vec![None, Some(4), Some(5)], 9), 4);
    assert_eq!(started_at(&vec![None, None, None], 9), 9);
}

#[test]
fn process_errors_have_their_texts() {
    for error in [
        ProcessError::State("detail".to_owned()),
        ProcessError::DataDirectory("detail".to_owned()),
        ProcessError::Spawn("detail".to_owned()),
    ] {
        assert!(error.message().contains("detail"));
    }
}
