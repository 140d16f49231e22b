use codexbot::codex_app::{
    common_codex_executables, normalized_pids, open_codex_app, switch_account_and_open,
    AccountSwitchOutcome, AccountSwitchWorkflowError, CodexAppError, SwitchEvent, SwitchState,
    FORCED_EXIT_POLLS,
};
use codexbot::file_path::FilePath;

const OWN: u32 = 4_000_000;

#[derive(Default)]
struct FakeRuntime {
    running: Vec<u32>,
    exit_on_graceful: bool,
    exit_on_force: bool,
    terminations: Vec<(u32, bool)>,
    open_calls: usize,
    open_fails: bool,
}

impl FakeRuntime {
    fn terminate(&mut self, pid: u32, force: bool) {
        self.terminations.push((pid, force));
        if (force && self.exit_on_force) || (!force && self.exit_on_graceful) {
            self.running.retain(|candidate| *candidate != pid);
        }
    }

    fn open(&mut self) -> Result<(), CodexAppError> {
        self.open_calls += 1;
        if self.open_fails {
            Err(CodexAppError::Open)
        } else {
            Ok(())
        }
    }
}

fn drive<T>(
    runtime: &mut FakeRuntime,
    change: Result<T, &str>,
) -> Result<AccountSwitchOutcome<T>, AccountSwitchWorkflowError> {
    let mut change = Some(change);
    let mut value = None;
    let mut state = SwitchState::Inspecting;
    loop {
        let event = match &state {
            SwitchState::Inspecting | SwitchState::Polling { .. } => {
                SwitchEvent::Listed(Ok(runtime.running.clone()))
            }
            SwitchState::Terminating { queue, force, .. } => {
                runtime.terminate(queue[0], *force);
                SwitchEvent::Terminated(Ok(()))
            }
            SwitchState::Pausing { .. } => SwitchEvent::Paused,
            SwitchState::Switching { .. } => SwitchEvent::Switched(match change.take().unwrap() {
                Ok(changed) => {
                    value = Some(changed);
                    Ok(())
                }
                Err(error) => Err(error.to_owned()),
            }),
            SwitchState::Recovering { .. } | SwitchState::Opening { .. } => {
                SwitchEvent::Opened(runtime.open())
            }
            SwitchState::Failed { message } => {
                return Err(AccountSwitchWorkflowError {
                    message: message.clone(),
                })
            }
            SwitchState::Done { closed, opened } => {
                return Ok(AccountSwitchOutcome {
                    value: value.unwrap(),
                    closed_processes: *closed,
                    app_opened: *opened,
                })
            }
        };
        state = switch_account_and_open(state, event, OWN);
    }
}

#[test]
fn closes_running_codex_before_switch_and_reopens_it() {
    let mut runtime = FakeRuntime {
        running: vec![41],
        exit_on_graceful: true,
        ..FakeRuntime::default()
    };
    let outcome = drive(&mut runtime, Ok::<_, &str>("account")).unwrap();
    assert_eq!(runtime.terminations, vec![(41, false)]);
    assert_eq!(runtime.open_calls, 1);
    assert_eq!(outcome.closed_processes, 1);
    assert!(outcome.app_opened);
    assert_eq!(outcome.value, "account");
}

#[test]
fn force_closes_processes_that_ignore_the_graceful_request() {
    let mut runtime = FakeRuntime {
        running: vec![9],
        exit_on_force: true,
        ..FakeRuntime::default()
    };
    let outcome = drive(&mut runtime, Ok::<_, &str>(())).unwrap();
    assert_eq!(runtime.terminations, vec![(9, false), (9, true)]);
    assert_eq!(outcome.closed_processes, 1);
}

#[test]
fn failed_switch_reopens_the_previous_codex_session() {
    let mut runtime = FakeRuntime {
        running: vec![17],
        exit_on_graceful: true,
        ..FakeRuntime::default()
    };
    let error = drive::<()>(&mut runtime, Err("bad auth")).unwrap_err();
    assert_eq!(runtime.open_calls, 1);
    assert!(error.message.contains("已重新打开原 Codex"));
}

#[test]
fn successful_switch_opens_codex_even_when_it_was_not_running() {
    let mut runtime = FakeRuntime::default();
    let outcome = drive(&mut runtime, Ok::<_, &str>(())).unwrap();
    assert_eq!(runtime.open_calls, 1);
    assert_eq!(outcome.closed_processes, 0);
    assert!(outcome.app_opened);
}

#[test]
fn account_switch_remains_successful_when_codex_cannot_be_opened() {
    let mut runtime = FakeRuntime {
        open_fails: true,
        ..FakeRuntime::default()
    };
    let outcome = drive(&mut runtime, Ok::<_, &str>(())).unwrap();
    assert_eq!(runtime.open_calls, 1);
    assert!(!outcome.app_opened);
}

#[test]
fn processes_that_never_exit_stop_the_switch() {
    let mut runtime = FakeRuntime {
        running: vec![5],
        ..FakeRuntime::default()
    };
    let error = drive(&mut runtime, Ok::<_, &str>(())).unwrap_err();
    assert!(!error.message.is_empty());
    assert_eq!(runtime.terminations, vec![(5, false), (5, true)]);
    assert_eq!(FORCED_EXIT_POLLS, 50);
}

#[test]
fn a_failed_switch_opens_nothing_when_nothing_ran() {
    let mut runtime = FakeRuntime::default();
    let error = drive::<()>(&mut runtime, Err("bad auth")).unwrap_err();
    assert_eq!(runtime.open_calls, 0);
    assert!(error.message.contains("bad auth"));
}

#[test]
fn process_ids_are_sorted_once_and_without_our_own() {
    assert_eq!(normalized_pids(&vec![7, 3, 7, 1, 3], 1), vec![3, 7]);
    assert_eq!(normalized_pids(&vec![], 1), Vec::<u32>::new());
}

#[test]
fn the_app_opens_only_on_windows() {
    assert!(open_codex_app(true, true, false).is_ok());
    assert!(open_codex_app(true, false, true).is_ok());
    assert!(matches!(
        open_codex_app(true, false, false),
        Err(CodexAppError::Open)
    ));
    assert!(matches!(
        open_codex_app(false, true, true),
        Err(CodexAppError::Unsupported)
    ));
}

#[test]
fn every_base_gives_four_executables() {
    let paths = common_codex_executables(&vec![FilePath::new("base")]);
    assert_eq!(paths.len(), 4);
    assert_eq!(paths[0].base, "base");
    assert_eq!(paths[0].parts, vec!["Programs", "Codex", "Codex.exe"]);
    assert_eq!(paths[3].parts, vec!["Codex", "Codex.exe"]);
}

#[test]
fn app_errors_have_their_texts() {
    assert_eq!(
        CodexAppError::Inspection("x".to_owned()).message(),
        "无法检查 Codex 进程：x"
    );
    assert!(CodexAppError::CloseTimeout(3).message().contains('3'));
    assert!(CodexAppError::Close("y".to_owned()).message().contains('y'));
}
