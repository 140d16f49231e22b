//! The life of the companion process.
use vstd::prelude::*;
use crate::hooks;
use crate::processes;
use crate::processes::{HostProcess, HostView};
use crate::store;
use crate::store::{Store, StoreView};
use crate::text;
use crate::text::text_eq;

verus! {

/// How often expired content is dropped, in seconds.
pub const CLEANUP_INTERVAL: u64 = 3600;

/// The setting that lets the companion run on its own.
pub const STANDALONE_SETTING: &'static str = "daemon_standalone";

/// How often credentials are looked for, in seconds.
pub const CREDENTIAL_POLL_INTERVAL: u64 = 1;

/// After how many looks without a host the companion stops.
pub const EMPTY_HOST_CHECKS: u32 = 2;

/// Whether the companion runs on its own.
pub fn standalone_requested(environment: Option<&str>, stored: Option<&str>) -> (result: bool)
    ensures
        result == (text::opt_str(environment) == Some("1"@) || text::opt_str(stored) == Some("1"@)),
{
    let asked = match environment {
        Some(value) => text_eq(value, "1"),
        None => false,
    };
    asked || (match stored {
        Some(value) => text_eq(value, "1"),
        None => false,
    })
}

/// An error, redacted and cut.
pub fn safe_detail(error: &str) -> (result: String)
    ensures
        result@ == hooks::bounded(error@),
{
    hooks::bounded_error(error)
}

// ---------------------------------------------------------------------------
// Hosts
// ---------------------------------------------------------------------------

/// Whether the host at `i` runs: the process of its id was started when the
/// host was. `started` tells of each host when the process of its id was
/// started, if there is one.
pub open spec fn host_runs(hosts: Seq<HostView>, started: Seq<Option<i64>>, i: int) -> bool {
    0 <= i < started.len() && processes::same_process(
        started[i],
        hosts[i].create_time as int,
        processes::START_TOLERANCE as int,
    )
}

/// Whether any host runs.
pub open spec fn any_host_runs(hosts: Seq<HostView>, started: Seq<Option<i64>>) -> bool {
    exists|i: int| 0 <= i < hosts.len() && #[trigger] host_runs(hosts, started, i)
}

/// The first `n` hosts without those that run.
pub open spec fn dead_hosts(hosts: Seq<HostView>, started: Seq<Option<i64>>, n: nat) -> Seq<HostView>
    decreases n,
{
    if n == 0 {
        Seq::empty()
    } else {
        let dead = dead_hosts(hosts, started, (n - 1) as nat);
        if host_runs(hosts, started, n - 1) {
            dead
        } else {
            dead.push(hosts[n - 1])
        }
    }
}

pub open spec fn host_list(hosts: Seq<HostProcess>) -> Seq<HostView> {
    Seq::new(hosts.len(), |i: int| hosts[i]@)
}

fn runs(hosts: &Vec<HostProcess>, started: &Vec<Option<i64>>, i: usize) -> (result: bool)
    requires
        i < hosts@.len(),
    ensures
        result == host_runs(host_list(hosts@), started@, i as int),
{
    if i >= started.len() {
        return false;
    }
    processes::process_matches(started[i], hosts[i].create_time)
}

/// Whether something is left for a companion: work that waits, a host that
/// runs, or running on its own with credentials. `started` tells of each host,
/// the last seen first, when the process of its id was started.
pub fn lifecycle_work_remains(
    store: &Store,
    started: &Vec<Option<i64>>,
    standalone: bool,
    has_credentials: bool,
    now: i64,
) -> (result: bool)
    ensures
        result == (store::pairing_state(store@, now).0 || (store::setting(
            store@,
            "bound_openid"@,
        ) is Some && store::has_pending(store@)) || any_host_runs(
            store::hosts_by_sight(store@),
            started@,
        ) || (standalone && has_credentials)),
{
    if store.companion_work_pending(now) {
        return true;
    }
    let hosts = store.list_hosts();
    let ghost views = host_list(hosts@);
    assert(views == store::hosts_by_sight(store@));
    for i in 0..hosts.len()
        invariant
            views == host_list(hosts@),
            views == store::hosts_by_sight(store@),
            forall|j: int| 0 <= j < i ==> !#[trigger] host_runs(views, started@, j),
    {
        if runs(&hosts, started, i) {
            assert(host_runs(views, started@, i as int));
            return true;
        }
    }
    assert(views.len() == hosts@.len());
    standalone && has_credentials
}

/// The state without the hosts that do not run.
pub open spec fn hosts_pruned(s: StoreView, started: Seq<Option<i64>>) -> StoreView {
    let hosts = store::hosts_by_sight(s);
    let dead = dead_hosts(hosts, started, hosts.len());
    store::without_hosts(s, dead, dead.len())
}

/// Forgets the hosts that do not run. Tells how many do.
pub fn prune_dead_hosts(store: &mut Store, started: &Vec<Option<i64>>) -> (result: usize)
    ensures
        ({
            let hosts = store::hosts_by_sight(old(store)@);
            result == hosts.len() - dead_hosts(hosts, started@, hosts.len()).len()
        }),
        final(store)@ == hosts_pruned(old(store)@, started@),
        store::consistent(old(store)@) ==> store::consistent(final(store)@),
{
    let hosts = store.list_hosts();
    let ghost views = host_list(hosts@);
    assert(views == store::hosts_by_sight(store@));
    let mut dead: Vec<HostProcess> = Vec::new();
    let count: usize = hosts.len();
    assert(views.len() == count);
    assert(host_list(dead@) =~= dead_hosts(views, started@, 0));
    for i in 0..hosts.len()
        invariant
            views == host_list(hosts@),
            host_list(dead@) == dead_hosts(views, started@, i as nat),
            dead@.len() <= i,
    {
        let ghost held = host_list(dead@);
        if !runs(&hosts, started, i) {
            dead.push(hosts[i].copy());
            assert(host_list(dead@) =~= held.push(views[i as int]));
        }
    }
    assert(host_list(dead@).len() == dead@.len());
    assert(Seq::new(dead@.len(), |i: int| dead@[i]@) =~= host_list(dead@));
    store.remove_hosts(&dead);
    count - dead.len()
}

// ---------------------------------------------------------------------------
// Waiting for credentials
// ---------------------------------------------------------------------------

/// What is done after a look for credentials and hosts.
#[derive(Debug, Clone, Copy, PartialEq, Eq, Structural)]
pub enum WaitAction {
    /// Credentials are there: the chat is served.
    Serve,
    /// No host is left: the companion stops.
    Stop,
    /// It is looked again after a pause.
    Pause,
}

/// What follows from a look: how often in a row no host was there, and what is
/// done.
pub open spec fn waited(empty_checks: int, has_credentials: bool, live_hosts: int) -> (
    int,
    WaitAction,
) {
    if has_credentials {
        (empty_checks, WaitAction::Serve)
    } else if live_hosts > 0 {
        (0, WaitAction::Pause)
    } else if empty_checks + 1 >= EMPTY_HOST_CHECKS {
        (empty_checks + 1, WaitAction::Stop)
    } else {
        (empty_checks + 1, WaitAction::Pause)
    }
}

/// What follows from a look for credentials and hosts.
pub fn wait_without_credentials(empty_checks: u32, has_credentials: bool, live_hosts: usize) -> (result:
    (u32, WaitAction))
    requires
        empty_checks < u32::MAX,
    ensures
        (result.0 as int, result.1) == waited(
            empty_checks as int,
            has_credentials,
            live_hosts as int,
        ),
{
    if has_credentials {
        return (empty_checks, WaitAction::Serve);
    }
    if live_hosts > 0 {
        return (0, WaitAction::Pause);
    }
    let checks: u32 = empty_checks + 1;
    if checks >= EMPTY_HOST_CHECKS {
        (checks, WaitAction::Stop)
    } else {
        (checks, WaitAction::Pause)
    }
}

// ---------------------------------------------------------------------------
// The run of the companion
// ---------------------------------------------------------------------------

/// Where a run of the companion stands.
#[derive(Debug, Clone, Copy, PartialEq, Eq, Structural)]
pub enum RunPhase {
    /// The lock that only one companion holds is taken.
    Locking,
    /// The chat is served.
    Serving,
    /// The record of the process is cleared.
    Clearing,
    /// The lock is released.
    Releasing,
    /// It is looked whether work remains.
    Checking,
    /// Another companion is started for it.
    HandingOff,
    /// The run has ended.
    Ended,
}

/// A run of the companion and the code with which it will end.
#[derive(Debug, Clone, Copy, PartialEq, Eq, Structural)]
pub struct Run {
    pub phase: RunPhase,
    pub exit_code: i32,
}

/// How a step of a run went.
#[derive(Debug)]
pub enum RunEvent {
    /// Whether the lock was free.
    Locked(bool),
    /// The step is done.
    Done,
    /// The step failed; the message of the error.
    Failed(String),
    /// Whether work remains.
    Remaining(bool),
}

/// The run one step on. A run whose lock is not free ends well at once; any
/// other step that fails is remembered in the code, and the rest is done all
/// the same.
pub open spec fn run_step(run: Run, event: RunEvent) -> Run {
    let failed = event is Failed;
    let exit_code = if failed {
        1
    } else {
        run.exit_code
    };
    Run {
        phase: match run.phase {
            RunPhase::Locking => if event matches RunEvent::Locked(free) && free {
                RunPhase::Serving
            } else {
                RunPhase::Ended
            },
            RunPhase::Serving => RunPhase::Clearing,
            RunPhase::Clearing => RunPhase::Releasing,
            RunPhase::Releasing => RunPhase::Checking,
            RunPhase::Checking => if event matches RunEvent::Remaining(remaining) && remaining {
                RunPhase::HandingOff
            } else {
                RunPhase::Ended
            },
            RunPhase::HandingOff => RunPhase::Ended,
            RunPhase::Ended => RunPhase::Ended,
        },
        exit_code,
    }
}

impl Run {
    pub fn start() -> (result: Run)
        ensures
            result == (Run { phase: RunPhase::Locking, exit_code: 0 }),
    {
        Run { phase: RunPhase::Locking, exit_code: 0 }
    }

    /// The run one step on.
    pub fn next(self, event: &RunEvent) -> (result: Run)
        ensures
            result == run_step(self, *event),
    {
        let exit_code: i32 = match event {
            RunEvent::Failed(_) => 1,
            _ => self.exit_code,
        };
        let phase = match self.phase {
            RunPhase::Locking => match event {
                RunEvent::Locked(free) => if *free {
                    RunPhase::Serving
                } else {
                    RunPhase::Ended
                },
                _ => RunPhase::Ended,
            },
            RunPhase::Serving => RunPhase::Clearing,
            RunPhase::Clearing => RunPhase::Releasing,
            RunPhase::Releasing => RunPhase::Checking,
            RunPhase::Checking => match event {
                RunEvent::Remaining(remaining) => if *remaining {
                    RunPhase::HandingOff
                } else {
                    RunPhase::Ended
                },
                _ => RunPhase::Ended,
            },
            RunPhase::HandingOff => RunPhase::Ended,
            RunPhase::Ended => RunPhase::Ended,
        };
        Run { phase, exit_code }
    }
}

/// What the log says of a step that failed.
pub open spec fn step_failure(phase: RunPhase, error: Seq<char>) -> Seq<char> {
    (match phase {
        RunPhase::Clearing => "Failed to clear daemon process record: "@,
        RunPhase::Releasing => "Failed to release daemon lock: "@,
        RunPhase::Checking => "Failed to check remaining companion work: "@,
        RunPhase::HandingOff => "Failed to hand off companion work: "@,
        _ => "Companion stopped unexpectedly: "@,
    }) + hooks::bounded(error)
}

/// What the log says of a step that failed.
pub fn failure_line(phase: RunPhase, error: &str) -> (result: String)
    ensures
        result@ == step_failure(phase, error@),
{
    let head = match phase {
        RunPhase::Clearing => "Failed to clear daemon process record: ",
        RunPhase::Releasing => "Failed to release daemon lock: ",
        RunPhase::Checking => "Failed to check remaining companion work: ",
        RunPhase::HandingOff => "Failed to hand off companion work: ",
        _ => "Companion stopped unexpectedly: ",
    };
    let mut result = head.to_owned();
    let detail = safe_detail(error);
    result.append(detail.as_str());
    result
}

/// Whatever fails while a companion runs, the record is cleared and the lock
/// released before it is looked for work that remains.
pub proof fn lemma_run_tidies_up(first: RunEvent, second: RunEvent, third: RunEvent)
    ensures
        ({
            let serving = Run { phase: RunPhase::Serving, exit_code: 0 };
            let clearing = run_step(serving, first);
            let releasing = run_step(clearing, second);
            let checking = run_step(releasing, third);
            &&& clearing.phase == RunPhase::Clearing
            &&& releasing.phase == RunPhase::Releasing
            &&& checking.phase == RunPhase::Checking
            &&& checking.exit_code == (if first is Failed || second is Failed || third is Failed {
                1int
            } else {
                0int
            })
        }),
{
}

/// A failure is never forgotten: the code stays one once it is.
pub proof fn lemma_failure_is_kept(run: Run, event: RunEvent)
    requires
        run.exit_code == 1,
    ensures
        run_step(run, event).exit_code == 1,
{
}

} // verus!
