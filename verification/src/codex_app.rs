//! Closing and reopening the Codex desktop around a change of account.
use vstd::prelude::*;
use crate::file_path;
use crate::file_path::{FilePath, PathView};
use crate::text;

verus! {

/// How often the processes are looked at after a polite request to close.
pub const GRACEFUL_EXIT_POLLS: usize = 30;

/// How often the processes are looked at after they were forced to close.
pub const FORCED_EXIT_POLLS: usize = 50;

/// Why Codex could not be closed or opened.
#[derive(Debug)]
pub enum CodexAppError {
    Inspection(String),
    Close(String),
    CloseTimeout(usize),
    Open,
    Unsupported,
}

/// The message of an error.
pub open spec fn app_message(error: CodexAppError) -> Seq<char> {
    match error {
        CodexAppError::Inspection(detail) => "无法检查 Codex 进程："@ + detail@,
        CodexAppError::Close(detail) => "无法关闭 Codex 进程："@ + detail@,
        CodexAppError::CloseTimeout(count) => "关闭 Codex 超时，仍有 "@ + text::decimal(
            count as nat,
        ) + " 个进程正在运行"@,
        CodexAppError::Open => "未找到 Codex 桌面应用，或 Windows 无法打开它"@,
        CodexAppError::Unsupported => "当前平台不支持自动关闭并重新打开 Codex"@,
    }
}

impl CodexAppError {
    pub fn message(&self) -> (result: String)
        ensures
            result@ == app_message(*self),
    {
        match self {
            CodexAppError::Inspection(detail) => {
                let mut result = "无法检查 Codex 进程：".to_owned();
                result.append(detail.as_str());
                result
            },
            CodexAppError::Close(detail) => {
                let mut result = "无法关闭 Codex 进程：".to_owned();
                result.append(detail.as_str());
                result
            },
            CodexAppError::CloseTimeout(count) => {
                let mut result = "关闭 Codex 超时，仍有 ".to_owned();
                let shown = text::decimal_text(*count as u64);
                result.append(shown.as_str());
                result.append(" 个进程正在运行");
                result
            },
            CodexAppError::Open => "未找到 Codex 桌面应用，或 Windows 无法打开它".to_owned(),
            CodexAppError::Unsupported => {
                "当前平台不支持自动关闭并重新打开 Codex".to_owned()
            },
        }
    }
}

/// A change of account that went through.
#[derive(Debug, PartialEq, Eq)]
pub struct AccountSwitchOutcome<T> {
    pub value: T,
    pub closed_processes: usize,
    pub app_opened: bool,
}

/// A change of account that did not.
#[derive(Debug)]
pub struct AccountSwitchWorkflowError {
    pub message: String,
}

// ---------------------------------------------------------------------------
// Process ids
// ---------------------------------------------------------------------------

/// `sorted` with `pid` at its place, unless it is there already.
pub open spec fn with_pid(sorted: Seq<u32>, pid: u32) -> Seq<u32>
    decreases sorted.len(),
{
    if sorted.len() == 0 || sorted.last() < pid {
        sorted.push(pid)
    } else if sorted.last() == pid {
        sorted
    } else {
        with_pid(sorted.drop_last(), pid).push(sorted.last())
    }
}

/// The first `n` of `pids` in ascending order, each once, without zero and the
/// own process.
pub open spec fn normal_pids(pids: Seq<u32>, own: u32, n: nat) -> Seq<u32>
    decreases n,
{
    if n == 0 {
        Seq::empty()
    } else {
        let before = normal_pids(pids, own, (n - 1) as nat);
        let pid = pids[n - 1];
        if pid > 0 && pid != own {
            with_pid(before, pid)
        } else {
            before
        }
    }
}

pub open spec fn ascending(pids: Seq<u32>) -> bool {
    forall|i: int, j: int| 0 <= i < j < pids.len() ==> #[trigger] pids[i] < #[trigger] pids[j]
}

proof fn lemma_with_pid(sorted: Seq<u32>, pid: u32)
    requires
        ascending(sorted),
    ensures
        ascending(with_pid(sorted, pid)),
        forall|p: u32| #[trigger]
            with_pid(sorted, pid).contains(p) <==> sorted.contains(p) || p == pid,
    decreases sorted.len(),
{
    let result = with_pid(sorted, pid);
    if sorted.len() == 0 || sorted.last() < pid {
        assert(result[sorted.len() as int] == pid);
        assert forall|p: u32| #[trigger] result.contains(p) <==> sorted.contains(p) || p == pid by {
            if sorted.contains(p) {
                let k = choose|k: int| 0 <= k < sorted.len() && sorted[k] == p;
                assert(result[k] == p);
            }
            if result.contains(p) && p != pid {
                let k = choose|k: int| 0 <= k < result.len() && result[k] == p;
                assert(sorted[k] == p);
            }
        }
        assert forall|i: int, j: int| 0 <= i < j < result.len() implies #[trigger] result[i]
            < #[trigger] result[j] by {
            if j == sorted.len() && i < sorted.len() - 1 {
                assert(sorted[i] < sorted[sorted.len() - 1]);
            }
        }
    } else if sorted.last() == pid {
        assert(sorted[sorted.len() - 1] == pid);
        assert(sorted.contains(pid));
    } else {
        let rest = sorted.drop_last();
        assert forall|i: int, j: int| 0 <= i < j < rest.len() implies #[trigger] rest[i]
            < #[trigger] rest[j] by {
            assert(rest[i] == sorted[i] && rest[j] == sorted[j]);
        }
        lemma_with_pid(rest, pid);
        let inner = with_pid(rest, pid);
        let last = sorted.last();
        assert(result =~= inner.push(last));
        assert(result[inner.len() as int] == last);
        assert forall|p: u32| #[trigger] result.contains(p) <==> sorted.contains(p) || p == pid by {
            if result.contains(p) {
                let k = choose|k: int| 0 <= k < result.len() && result[k] == p;
                if k < inner.len() {
                    assert(inner[k] == p);
                    assert(inner.contains(p));
                    if p != pid {
                        assert(rest.contains(p));
                        let m = choose|m: int| 0 <= m < rest.len() && rest[m] == p;
                        assert(sorted[m] == p);
                    }
                } else {
                    assert(sorted[sorted.len() - 1] == p);
                }
            }
            if sorted.contains(p) || p == pid {
                if p == pid {
                    assert(inner.contains(p));
                } else {
                    let m = choose|m: int| 0 <= m < sorted.len() && sorted[m] == p;
                    if m < rest.len() {
                        assert(rest[m] == p);
                        assert(rest.contains(p));
                        assert(inner.contains(p));
                    }
                }
                if inner.contains(p) {
                    let k = choose|k: int| 0 <= k < inner.len() && inner[k] == p;
                    assert(result[k] == p);
                }
            }
        }
        assert forall|i: int, j: int| 0 <= i < j < result.len() implies #[trigger] result[i]
            < #[trigger] result[j] by {
            if j < inner.len() {
                assert(inner[i] < inner[j]);
            } else {
                assert(result[i] == inner[i]);
                assert(inner.contains(inner[i]));
                if inner[i] != pid {
                    assert(rest.contains(inner[i]));
                    let m = choose|m: int| 0 <= m < rest.len() && rest[m] == inner[i];
                    assert(sorted[m] < sorted[sorted.len() - 1]);
                }
            }
        }
    }
}

/// The normal form holds exactly the process ids that were given, but for zero
/// and the own process, in ascending order.
pub proof fn lemma_normal_pids(pids: Seq<u32>, own: u32, n: nat)
    requires
        n <= pids.len(),
    ensures
        ascending(normal_pids(pids, own, n)),
        forall|p: u32| #[trigger]
            normal_pids(pids, own, n).contains(p) <==> pids.take(n as int).contains(p) && p > 0
                && p != own,
    decreases n,
{
    if n > 0 {
        lemma_normal_pids(pids, own, (n - 1) as nat);
        let before = normal_pids(pids, own, (n - 1) as nat);
        let pid = pids[n - 1];
        if pid > 0 && pid != own {
            lemma_with_pid(before, pid);
        }
        let shorter = pids.take(n - 1);
        let longer = pids.take(n as int);
        assert(longer[n - 1] == pid);
        assert forall|p: u32| #[trigger]
            normal_pids(pids, own, n).contains(p) <==> longer.contains(p) && p > 0 && p != own by {
            if longer.contains(p) && p != pid {
                let k = choose|k: int| 0 <= k < longer.len() && longer[k] == p;
                assert(shorter[k] == p);
            }
            if shorter.contains(p) {
                let k = choose|k: int| 0 <= k < shorter.len() && shorter[k] == p;
                assert(longer[k] == p);
            }
            assert(before.contains(p) <==> shorter.contains(p) && p > 0 && p != own);
        }
    }
}

proof fn lemma_with_pid_at(sorted: Seq<u32>, pid: u32, at: int)
    requires
        0 <= at <= sorted.len(),
        forall|j: int| at <= j < sorted.len() ==> #[trigger] sorted[j] > pid,
        at == 0 || sorted[at - 1] <= pid,
    ensures
        with_pid(sorted, pid) == (if at > 0 && sorted[at - 1] == pid {
            sorted
        } else {
            sorted.insert(at, pid)
        }),
    decreases sorted.len(),
{
    if at == sorted.len() {
        assert(sorted.insert(at, pid) =~= sorted.push(pid));
    } else {
        let rest = sorted.drop_last();
        assert forall|j: int| at <= j < rest.len() implies #[trigger] rest[j] > pid by {
            assert(rest[j] == sorted[j]);
        }
        assert(at > 0 ==> rest[at - 1] == sorted[at - 1]);
        lemma_with_pid_at(rest, pid, at);
        assert(sorted[sorted.len() - 1] > pid);
        assert(rest.push(sorted.last()) =~= sorted);
        assert(rest.insert(at, pid).push(sorted.last()) =~= sorted.insert(at, pid));
    }
}

/// The process ids in ascending order, each once, without zero and the own
/// process.
pub fn normalized_pids(pids: &Vec<u32>, own: u32) -> (result: Vec<u32>)
    ensures
        result@ == normal_pids(pids@, own, pids@.len()),
{
    let mut sorted: Vec<u32> = Vec::new();
    assert(sorted@ =~= normal_pids(pids@, own, 0));
    for i in 0..pids.len()
        invariant
            sorted@ == normal_pids(pids@, own, i as nat),
    {
        let pid: u32 = pids[i];
        if pid > 0 && pid != own {
            let mut at: usize = sorted.len();
            while at > 0 && sorted[at - 1] > pid
                invariant
                    at <= sorted@.len(),
                    forall|j: int| at <= j < sorted@.len() ==> #[trigger] sorted@[j] > pid,
                decreases at,
            {
                at -= 1;
            }
            proof {
                lemma_with_pid_at(sorted@, pid, at as int);
            }
            if at == 0 || sorted[at - 1] != pid {
                sorted.insert(at, pid);
            }
        }
    }
    sorted
}

// ---------------------------------------------------------------------------
// The workflow
// ---------------------------------------------------------------------------

/// Where a change of account stands, and so what is to be done next.
#[derive(Debug)]
pub enum SwitchState {
    /// List the running Codex processes.
    Inspecting,
    /// Ask the first of the queue to close, or force it.
    Terminating { closed: usize, queue: Vec<u32>, force: bool },
    /// Wait a little; so many looks are left.
    Pausing { closed: usize, force: bool, polls: usize },
    /// List the processes that are left.
    Polling { closed: usize, force: bool, polls: usize },
    /// Change the account.
    Switching { was_running: bool, closed: usize },
    /// Open Codex again after the change failed.
    Recovering { message: String },
    /// Open Codex with the new account.
    Opening { closed: usize },
    /// The change failed.
    Failed { message: String },
    /// The change went through.
    Done { closed: usize, opened: bool },
}

/// What came of a step.
#[derive(Debug)]
pub enum SwitchEvent {
    Listed(Result<Vec<u32>, CodexAppError>),
    Terminated(Result<(), CodexAppError>),
    Paused,
    Switched(Result<(), String>),
    Opened(Result<(), CodexAppError>),
}

/// What a state is.
pub enum StateView {
    Inspecting,
    Terminating { closed: nat, queue: Seq<u32>, force: bool },
    Pausing { closed: nat, force: bool, polls: nat },
    Polling { closed: nat, force: bool, polls: nat },
    Switching { was_running: bool, closed: nat },
    Recovering { message: Seq<char> },
    Opening { closed: nat },
    Failed { message: Seq<char> },
    Done { closed: nat, opened: bool },
}

impl SwitchState {
    pub open spec fn view(&self) -> StateView {
        match self {
            SwitchState::Inspecting => StateView::Inspecting,
            SwitchState::Terminating { closed, queue, force } => StateView::Terminating {
                closed: *closed as nat,
                queue: queue@,
                force: *force,
            },
            SwitchState::Pausing { closed, force, polls } => StateView::Pausing {
                closed: *closed as nat,
                force: *force,
                polls: *polls as nat,
            },
            SwitchState::Polling { closed, force, polls } => StateView::Polling {
                closed: *closed as nat,
                force: *force,
                polls: *polls as nat,
            },
            SwitchState::Switching { was_running, closed } => StateView::Switching {
                was_running: *was_running,
                closed: *closed as nat,
            },
            SwitchState::Recovering { message } => StateView::Recovering { message: message@ },
            SwitchState::Opening { closed } => StateView::Opening { closed: *closed as nat },
            SwitchState::Failed { message } => StateView::Failed { message: message@ },
            SwitchState::Done { closed, opened } => StateView::Done {
                closed: *closed as nat,
                opened: *opened,
            },
        }
    }
}

pub open spec fn polls_for(force: bool) -> nat {
    if force {
        FORCED_EXIT_POLLS as nat
    } else {
        GRACEFUL_EXIT_POLLS as nat
    }
}

/// The state after a step. `own` is the own process, which is never closed.
pub open spec fn switched(state: StateView, event: SwitchEvent, own: u32) -> StateView {
    match (state, event) {
        (StateView::Inspecting, SwitchEvent::Listed(Ok(pids))) => {
            let running = normal_pids(pids@, own, pids@.len());
            if running.len() == 0 {
                StateView::Switching { was_running: false, closed: 0 }
            } else {
                StateView::Terminating { closed: running.len(), queue: running, force: false }
            }
        },
        (StateView::Inspecting, SwitchEvent::Listed(Err(error))) => StateView::Failed {
            message: app_message(error),
        },
        (StateView::Terminating { closed, queue, force }, SwitchEvent::Terminated(Ok(()))) => {
            if queue.len() <= 1 {
                StateView::Pausing { closed, force, polls: polls_for(force) }
            } else {
                StateView::Terminating { closed, queue: queue.drop_first(), force }
            }
        },
        (StateView::Terminating { .. }, SwitchEvent::Terminated(Err(error))) => StateView::Failed {
            message: app_message(error),
        },
        (StateView::Pausing { closed, force, polls }, SwitchEvent::Paused) => StateView::Polling {
            closed,
            force,
            polls: if polls > 0 {
                (polls - 1) as nat
            } else {
                0
            },
        },
        (StateView::Polling { closed, force, polls }, SwitchEvent::Listed(Ok(pids))) => {
            let left = normal_pids(pids@, own, pids@.len());
            if left.len() == 0 {
                StateView::Switching { was_running: true, closed }
            } else if polls > 0 {
                StateView::Pausing { closed, force, polls }
            } else if !force {
                StateView::Terminating { closed, queue: left, force: true }
            } else {
                StateView::Failed {
                    message: app_message(CodexAppError::CloseTimeout(left.len() as usize)),
                }
            }
        },
        (StateView::Polling { .. }, SwitchEvent::Listed(Err(error))) => StateView::Failed {
            message: app_message(error),
        },
        (StateView::Switching { closed, .. }, SwitchEvent::Switched(Ok(()))) => {
            StateView::Opening { closed }
        },
        (StateView::Switching { was_running, .. }, SwitchEvent::Switched(Err(message))) => {
            if was_running {
                StateView::Recovering { message: message@ }
            } else {
                StateView::Failed { message: message@ }
            }
        },
        (StateView::Recovering { message }, SwitchEvent::Opened(Ok(()))) => StateView::Failed {
            message: message + "；切换未完成，已重新打开原 Codex"@,
        },
        (StateView::Recovering { message }, SwitchEvent::Opened(Err(error))) => StateView::Failed {
            message: message + "；切换未完成，且原 Codex 自动恢复失败："@ + app_message(error),
        },
        (StateView::Opening { closed }, SwitchEvent::Opened(result)) => StateView::Done {
            closed,
            opened: result is Ok,
        },
        _ => state,
    }
}

fn failure(error: &CodexAppError) -> (result: SwitchState)
    ensures
        result@ == (StateView::Failed { message: app_message(*error) }),
{
    SwitchState::Failed { message: error.message() }
}

fn exit_polls(force: bool) -> (result: usize)
    ensures
        result == polls_for(force),
{
    if force {
        FORCED_EXIT_POLLS
    } else {
        GRACEFUL_EXIT_POLLS
    }
}

fn without_first(queue: &Vec<u32>) -> (result: Vec<u32>)
    requires
        queue@.len() > 0,
    ensures
        result@ == queue@.drop_first(),
{
    let mut rest: Vec<u32> = Vec::new();
    let mut i: usize = 1;
    while i < queue.len()
        invariant
            1 <= i <= queue@.len(),
            rest@ == queue@.subrange(1, i as int),
        decreases queue.len() - i,
    {
        rest.push(queue[i]);
        i += 1;
    }
    assert(rest@ =~= queue@.drop_first());
    rest
}

/// The next state of a change of account.
pub fn switch_account_and_open(state: SwitchState, event: SwitchEvent, own: u32) -> (result:
    SwitchState)
    ensures
        result@ == switched(state@, event, own),
{
    match (state, event) {
        (SwitchState::Inspecting, SwitchEvent::Listed(Ok(pids))) => {
            let running = normalized_pids(&pids, own);
            if running.len() == 0 {
                SwitchState::Switching { was_running: false, closed: 0 }
            } else {
                SwitchState::Terminating { closed: running.len(), queue: running, force: false }
            }
        },
        (SwitchState::Inspecting, SwitchEvent::Listed(Err(error))) => failure(&error),
        (SwitchState::Terminating { closed, queue, force }, SwitchEvent::Terminated(Ok(()))) => {
            if queue.len() <= 1 {
                SwitchState::Pausing { closed, force, polls: exit_polls(force) }
            } else {
                SwitchState::Terminating { closed, queue: without_first(&queue), force }
            }
        },
        (SwitchState::Terminating { .. }, SwitchEvent::Terminated(Err(error))) => failure(&error),
        (SwitchState::Pausing { closed, force, polls }, SwitchEvent::Paused) => {
            SwitchState::Polling {
                closed,
                force,
                polls: if polls > 0 {
                    polls - 1
                } else {
                    0
                },
            }
        },
        (SwitchState::Polling { closed, force, polls }, SwitchEvent::Listed(Ok(pids))) => {
            let left = normalized_pids(&pids, own);
            if left.len() == 0 {
                SwitchState::Switching { was_running: true, closed }
            } else if polls > 0 {
                SwitchState::Pausing { closed, force, polls }
            } else if !force {
                SwitchState::Terminating { closed, queue: left, force: true }
            } else {
                failure(&CodexAppError::CloseTimeout(left.len()))
            }
        },
        (SwitchState::Polling { .. }, SwitchEvent::Listed(Err(error))) => failure(&error),
        (SwitchState::Switching { closed, .. }, SwitchEvent::Switched(Ok(()))) => {
            SwitchState::Opening { closed }
        },
        (SwitchState::Switching { was_running, .. }, SwitchEvent::Switched(Err(message))) => {
            if was_running {
                SwitchState::Recovering { message }
            } else {
                SwitchState::Failed { message }
            }
        },
        (SwitchState::Recovering { message }, SwitchEvent::Opened(Ok(()))) => {
            let mut message = message;
            message.append("；切换未完成，已重新打开原 Codex");
            SwitchState::Failed { message }
        },
        (SwitchState::Recovering { message }, SwitchEvent::Opened(Err(error))) => {
            let mut message = message;
            message.append("；切换未完成，且原 Codex 自动恢复失败：");
            let detail = error.message();
            message.append(detail.as_str());
            SwitchState::Failed { message }
        },
        (SwitchState::Opening { closed }, SwitchEvent::Opened(result)) => {
            SwitchState::Done { closed, opened: result.is_ok() }
        },
        (state, _) => state,
    }
}

// ---------------------------------------------------------------------------
// Laws of the workflow
// ---------------------------------------------------------------------------

/// The account is changed only when the last look showed no Codex process.
pub proof fn lemma_switch_needs_no_process(state: StateView, event: SwitchEvent, own: u32)
    requires
        !(state is Switching),
        switched(state, event, own) is Switching,
    ensures
        event matches SwitchEvent::Listed(Ok(pids)) && normal_pids(pids@, own, pids@.len()).len()
            == 0,
{
}

/// Once the account was changed, the change stands, whether or not Codex could
/// be opened.
pub proof fn lemma_change_stands(closed: nat, result: Result<(), CodexAppError>, own: u32)
    ensures
        switched(StateView::Opening { closed }, SwitchEvent::Opened(result), own) == (
        StateView::Done { closed, opened: result is Ok }),
{
}

/// A failed change of account reopens Codex exactly when that had been running.
pub proof fn lemma_failure_reopens(was_running: bool, closed: nat, message: String, own: u32)
    ensures
        switched(
            StateView::Switching { was_running, closed },
            SwitchEvent::Switched(Err(message)),
            own,
        ) is Recovering <==> was_running,
{
}

/// How much is left to do at most.
pub open spec fn work_left(state: StateView) -> (nat, nat, nat) {
    match state {
        StateView::Inspecting => (6, 0, 0),
        StateView::Terminating { queue, force, .. } => (
            if force {
                4
            } else {
                5
            },
            FORCED_EXIT_POLLS as nat + 1,
            queue.len(),
        ),
        StateView::Pausing { polls, force, .. } => (
            if force {
                4
            } else {
                5
            },
            polls,
            1,
        ),
        StateView::Polling { polls, force, .. } => (
            if force {
                4
            } else {
                5
            },
            polls,
            if polls == 0 {
                0
            } else {
                2
            },
        ),
        StateView::Switching { .. } => (3, 0, 0),
        StateView::Recovering { .. } => (2, 0, 0),
        StateView::Opening { .. } => (2, 0, 0),
        StateView::Failed { .. } => (1, 0, 0),
        StateView::Done { .. } => (1, 0, 0),
    }
}

/// Whether an event is the answer to what a state asks for.
pub open spec fn awaited(state: StateView, event: SwitchEvent) -> bool {
    match state {
        StateView::Inspecting => event is Listed,
        StateView::Terminating { .. } => event is Terminated,
        StateView::Pausing { .. } => event is Paused,
        StateView::Polling { .. } => event is Listed,
        StateView::Switching { .. } => event is Switched,
        StateView::Recovering { .. } => event is Opened,
        StateView::Opening { .. } => event is Opened,
        StateView::Failed { .. } => false,
        StateView::Done { .. } => false,
    }
}

/// Every answer brings the workflow closer to its end, so it ends.
pub proof fn lemma_workflow_ends(state: StateView, event: SwitchEvent, own: u32)
    requires
        awaited(state, event),
    ensures
        ({
            let before = work_left(state);
            let after = work_left(switched(state, event, own));
            ||| after.0 < before.0
            ||| after.0 == before.0 && after.1 < before.1
            ||| after.0 == before.0 && after.1 == before.1 && after.2 < before.2
        }),
{
}

// ---------------------------------------------------------------------------
// Opening
// ---------------------------------------------------------------------------

/// Where the Codex desktop may be installed below a directory.
pub open spec fn executables_below(base: PathView) -> Seq<PathView> {
    seq![
        file_path::joined_path(
            file_path::joined_path(file_path::joined_path(base, "Programs"@), "Codex"@),
            "Codex.exe"@,
        ),
        file_path::joined_path(
            file_path::joined_path(file_path::joined_path(base, "OpenAI"@), "Codex"@),
            "Codex.exe"@,
        ),
        file_path::joined_path(
            file_path::joined_path(base, "OpenAI Codex"@),
            "Codex.exe"@,
        ),
        file_path::joined_path(file_path::joined_path(base, "Codex"@), "Codex.exe"@),
    ]
}

/// Where the Codex desktop may be installed below the first `n` of `bases`.
pub open spec fn executables(bases: Seq<PathView>, n: nat) -> Seq<PathView>
    decreases n,
{
    if n == 0 {
        Seq::empty()
    } else {
        executables(bases, (n - 1) as nat) + executables_below(bases[n - 1])
    }
}

pub open spec fn path_views(paths: Seq<FilePath>) -> Seq<PathView> {
    Seq::new(paths.len(), |i: int| paths[i]@)
}

/// Where the Codex desktop may be installed.
pub fn common_codex_executables(bases: &Vec<FilePath>) -> (result: Vec<FilePath>)
    ensures
        path_views(result@) == executables(path_views(bases@), bases@.len()),
{
    let ghost views = path_views(bases@);
    let mut result: Vec<FilePath> = Vec::new();
    assert(path_views(result@) =~= executables(views, 0));
    for i in 0..bases.len()
        invariant
            views == path_views(bases@),
            path_views(result@) == executables(views, i as nat),
    {
        let ghost held = path_views(result@);
        let base = &bases[i];
        result.push(base.join("Programs").join("Codex").join("Codex.exe"));
        result.push(base.join("OpenAI").join("Codex").join("Codex.exe"));
        result.push(base.join("OpenAI Codex").join("Codex.exe"));
        result.push(base.join("Codex").join("Codex.exe"));
        assert(path_views(result@) =~= held + executables_below(views[i as int]));
    }
    result
}

/// What came of opening Codex: on Windows it opens as a registered app or from
/// one of the usual places; elsewhere it cannot be opened.
pub fn open_codex_app(windows: bool, registered: bool, launched: bool) -> (result: Result<
    (),
    CodexAppError,
>)
    ensures
        match result {
            Ok(()) => windows && (registered || launched),
            Err(CodexAppError::Open) => windows && !registered && !launched,
            Err(CodexAppError::Unsupported) => !windows,
            Err(_) => false,
        },
{
    if !windows {
        return Err(CodexAppError::Unsupported);
    }
    if registered || launched {
        Ok(())
    } else {
        Err(CodexAppError::Open)
    }
}

} // verus!
