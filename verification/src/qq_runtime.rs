//! The service of the chat: the watch over hosts, deliveries, and the
//! connection.
//!
//! Durations are in milliseconds.
use vstd::prelude::*;
use crate::daemon;
use crate::delivery::DeliveryOutcome;
use crate::processes;
use crate::processes::{HostProcess, HostView};
use crate::qq_client;
use crate::store;
use crate::store::{OutboxItem, Store, StoreError, StoreView};
use crate::store_rows;
use crate::text;

verus! {

pub const HOSTLESS_STARTUP_GRACE: u64 = 15_000;

pub const DEFAULT_MONITOR_INTERVAL: u64 = 1_000;

pub const DEFAULT_SHUTDOWN_DRAIN_TIMEOUT: u64 = 60_000;

pub const DEFAULT_RECONNECT_DELAY: u64 = 3_000;

pub const DEFAULT_HOST_REATTACH_GRACE: u64 = 15_000;

/// The longest time before the service is called again.
pub const MAX_RECONNECT_DELAY: u64 = 60_000;

/// How the chat is served.
#[derive(Debug, Clone, Copy, PartialEq, Eq, Structural)]
pub struct QQRuntimeOptions {
    pub standalone: bool,
    pub initial_reconnect_delay: u64,
    pub monitor_interval: u64,
    pub empty_host_checks: u32,
    pub hostless_startup_grace: u64,
    pub host_reattach_grace: u64,
    pub shutdown_drain_timeout: u64,
}

impl Default for QQRuntimeOptions {
    fn default() -> (result: Self)
        ensures
            result == (QQRuntimeOptions {
                standalone: false,
                initial_reconnect_delay: DEFAULT_RECONNECT_DELAY,
                monitor_interval: DEFAULT_MONITOR_INTERVAL,
                empty_host_checks: 2,
                hostless_startup_grace: HOSTLESS_STARTUP_GRACE,
                host_reattach_grace: DEFAULT_HOST_REATTACH_GRACE,
                shutdown_drain_timeout: DEFAULT_SHUTDOWN_DRAIN_TIMEOUT,
            }),
    {
        QQRuntimeOptions {
            standalone: false,
            initial_reconnect_delay: DEFAULT_RECONNECT_DELAY,
            monitor_interval: DEFAULT_MONITOR_INTERVAL,
            empty_host_checks: 2,
            hostless_startup_grace: HOSTLESS_STARTUP_GRACE,
            host_reattach_grace: DEFAULT_HOST_REATTACH_GRACE,
            shutdown_drain_timeout: DEFAULT_SHUTDOWN_DRAIN_TIMEOUT,
        }
    }
}

// ---------------------------------------------------------------------------
// The watch over hosts
// ---------------------------------------------------------------------------

/// The watch over hosts: how often in a row none was there, and since when, on
/// a clock that never goes back.
#[derive(Debug, Clone, Copy, PartialEq, Eq, Structural)]
pub struct HostWatch {
    pub empty_checks: u32,
    pub hostless_since: Option<u64>,
}

/// What a look at the hosts leads to.
#[derive(Debug, Clone, Copy, PartialEq, Eq, Structural)]
pub enum WatchAction {
    /// It is looked again after a pause.
    Pause,
    /// No host is left: the service stops.
    Stop,
}

/// What a look finds.
#[derive(Debug, Clone, Copy, PartialEq, Eq, Structural)]
pub struct WatchFinding {
    /// How many hosts run.
    pub alive: usize,
    /// Whether work waits.
    pub pending: bool,
    /// Whether the service is ready.
    pub ready: bool,
    /// How long the watch has gone on.
    pub elapsed: u64,
    /// The clock that never goes back.
    pub clock: u64,
}

/// How often in a row no host may be there.
pub open spec fn check_limit(options: QQRuntimeOptions) -> int {
    if options.empty_host_checks > 1 {
        options.empty_host_checks as int
    } else {
        1
    }
}

/// How long no host has been there.
pub open spec fn hostless_for(watch: HostWatch, clock: u64) -> int {
    match watch.hostless_since {
        Some(since) => if clock >= since {
            clock - since
        } else {
            0
        },
        None => 0,
    }
}

/// What follows from a look: the companion stays for a host, for work, while
/// the service is not ready in its first moments, and for a while after the
/// last host; and it stays in any case when it runs on its own.
pub open spec fn watched(
    options: QQRuntimeOptions,
    watch: HostWatch,
    found: WatchFinding,
) -> (HostWatch, WatchAction) {
    let stays = found.alive > 0 || found.pending || (!found.ready && found.elapsed
        < options.hostless_startup_grace);
    let since = match watch.hostless_since {
        Some(since) => since,
        None => found.clock,
    };
    let missing = HostWatch { hostless_since: Some(since), ..watch };
    if options.standalone {
        (watch, WatchAction::Pause)
    } else if stays {
        (HostWatch { empty_checks: 0, hostless_since: None }, WatchAction::Pause)
    } else if hostless_for(missing, found.clock) < options.host_reattach_grace {
        (missing, WatchAction::Pause)
    } else {
        (
            HostWatch { empty_checks: (watch.empty_checks + 1) as u32, ..missing },
            if watch.empty_checks + 1 >= check_limit(options) {
                WatchAction::Stop
            } else {
                WatchAction::Pause
            },
        )
    }
}

impl HostWatch {
    pub fn new() -> (result: HostWatch)
        ensures
            result == (HostWatch { empty_checks: 0, hostless_since: None }),
    {
        HostWatch { empty_checks: 0, hostless_since: None }
    }

    /// What follows from a look.
    pub fn decide(self, options: &QQRuntimeOptions, found: WatchFinding) -> (result: (
        HostWatch,
        WatchAction,
    ))
        requires
            self.empty_checks < check_limit(*options),
        ensures
            result == watched(*options, self, found),
    {
        if options.standalone {
            return (self, WatchAction::Pause);
        }
        if found.alive > 0 || found.pending || (!found.ready && found.elapsed
            < options.hostless_startup_grace) {
            return (HostWatch { empty_checks: 0, hostless_since: None }, WatchAction::Pause);
        }
        let since: u64 = match self.hostless_since {
            Some(since) => since,
            None => found.clock,
        };
        let missing: u64 = if found.clock >= since {
            found.clock - since
        } else {
            0
        };
        if missing < options.host_reattach_grace {
            return (
                HostWatch { empty_checks: self.empty_checks, hostless_since: Some(since) },
                WatchAction::Pause,
            );
        }
        let checks: u32 = self.empty_checks + 1;
        let limit: u32 = if options.empty_host_checks > 1 {
            options.empty_host_checks
        } else {
            1
        };
        let after = HostWatch { empty_checks: checks, hostless_since: Some(since) };
        if checks >= limit {
            (after, WatchAction::Stop)
        } else {
            (after, WatchAction::Pause)
        }
    }
}

/// The state after a look: hosts that do not run are forgotten, and a running
/// one that was found is recorded where none is left.
pub open spec fn hosts_seen(
    s: StoreView,
    started: Seq<Option<i64>>,
    discovered: Option<HostView>,
    now: i64,
) -> StoreView {
    let pruned = daemon::hosts_pruned(s, started);
    let hosts = store::hosts_by_sight(s);
    let dead = daemon::dead_hosts(hosts, started, hosts.len());
    match discovered {
        Some(host) => if hosts.len() == dead.len() {
            store::with_host(pruned, host, now)
        } else {
            pruned
        },
        None => pruned,
    }
}

/// How many hosts run after a look.
pub open spec fn hosts_alive(s: StoreView, started: Seq<Option<i64>>, discovered: Option<HostView>) -> int {
    let hosts = store::hosts_by_sight(s);
    let alive = hosts.len() - daemon::dead_hosts(hosts, started, hosts.len()).len();
    if alive == 0 && discovered is Some {
        1
    } else {
        alive
    }
}

/// Looks at the hosts. `started` tells of each host, the last seen first, when
/// the process of its id was started; `discovered` is a running host that a
/// look at all processes found. Tells how many hosts run, and whether the one
/// that was found is among them.
pub fn monitor_hosts(
    store: &mut Store,
    started: &Vec<Option<i64>>,
    discovered: Option<&HostProcess>,
    now: i64,
) -> (result: (usize, bool))
    ensures
        result.0 == hosts_alive(old(store)@, started@, processes::opt_host_ref(discovered)),
        result.1 == (discovered is Some && hosts_alive(old(store)@, started@, None) == 0),
        final(store)@ == hosts_seen(
            old(store)@,
            started@,
            processes::opt_host_ref(discovered),
            now,
        ),
        store::consistent(old(store)@) ==> store::consistent(final(store)@),
{
    let alive: usize = daemon::prune_dead_hosts(store, started);
    if alive > 0 {
        return (alive, false);
    }
    match discovered {
        Some(host) => {
            store.record_host(host, now);
            (1, true)
        },
        None => (0, false),
    }
}

/// What the log says of a host that was found again.
pub fn reattached_line(pid: u32) -> (result: String)
    ensures
        result@ == "Reattached companion to running Codex host PID "@ + text::decimal(pid as nat),
{
    let shown = text::decimal_text(pid as u64);
    qq_client::headed("Reattached companion to running Codex host PID ", shown.as_str())
}

// ---------------------------------------------------------------------------
// Deliveries
// ---------------------------------------------------------------------------

/// What a look at the outbox leads to.
#[derive(Debug, PartialEq, Eq)]
pub enum OutboxStep {
    /// It is waited.
    Pause(u64),
    /// A notification is delivered to a user.
    Deliver { openid: String, item: OutboxItem },
}

/// Looks for a notification to deliver: without a bound user it is waited a
/// second, without one that is due half a second.
pub fn delivery_loop(store: &mut Store, now: i64) -> (result: Result<OutboxStep, StoreError>)
    ensures
        match store::setting(old(store)@, "bound_openid"@) {
            None => (result matches Ok(OutboxStep::Pause(time)) && time == 1_000)
                && final(store)@ == old(store)@,
            Some(owner) => {
                let after = store::cleaned(old(store)@, now);
                let due = store::due_at(after.outbox, now, 0);
                &&& final(store)@ == after
                &&& match result {
                    Ok(OutboxStep::Deliver { openid, item }) => openid@ == owner && due is Some
                        && store_rows::item_of(after.outbox[due->0]) == Some(item@),
                    Ok(OutboxStep::Pause(time)) => time == 500 && due is None,
                    Err(error) => due is Some && store_rows::item_of(after.outbox[due->0]) is None
                        && (error matches StoreError::Json(detail) && detail@
                        == store_rows::fault_of(after.outbox[due->0])),
                }
            },
        },
        store::consistent(old(store)@) ==> store::consistent(final(store)@),
{
    let openid = match store.get_bound_openid() {
        Some(openid) => openid,
        None => {
            return Ok(OutboxStep::Pause(1_000));
        },
    };
    match store.get_due_outbox_at(now) {
        Ok(Some(item)) => Ok(OutboxStep::Deliver { openid, item }),
        Ok(None) => Ok(OutboxStep::Pause(500)),
        Err(error) => Err(error),
    }
}

/// How long it is waited after a delivery, and whether the log warns that the
/// chat will not take the notification.
pub fn after_delivery(outcome: DeliveryOutcome) -> (result: (u64, bool))
    ensures
        result.0 == (if outcome == DeliveryOutcome::Retry {
            1_000int
        } else {
            0int
        }),
        result.1 == (outcome == DeliveryOutcome::FailedPermanent),
{
    match outcome {
        DeliveryOutcome::Retry => (1_000, false),
        DeliveryOutcome::FailedPermanent => (0, true),
        _ => (0, false),
    }
}

/// What emptying the outbox at the end leads to.
#[derive(Debug, PartialEq, Eq)]
pub enum DrainStep {
    /// All is done that can be; what the log says, if anything. The flag tells
    /// an error from a warning.
    Finish(Option<(bool, String)>),
    /// It is waited.
    Pause(u64),
    /// A notification is delivered to a user, within the time that is left.
    Deliver { openid: String, item: OutboxItem },
}

/// Empties the outbox at the end: until the time is over, until nothing is due
/// and nothing is to be tried again, or until nobody is bound. `retry_wait`
/// says that the last delivery is to be tried again.
pub fn drain_outbox(
    store: &mut Store,
    ready: bool,
    remaining: u64,
    retry_wait: bool,
    now: i64,
) -> (result: DrainStep)
    ensures
        ({
            let owner = store::setting(old(store)@, "bound_openid"@);
            let after = store::cleaned(old(store)@, now);
            let due = store::due_at(after.outbox, now, 0);
            if !ready {
                result matches DrainStep::Finish(None) && final(store)@ == old(store)@
            } else if remaining == 0 {
                (result matches DrainStep::Finish(Some((grave, line))) && !grave && line@
                    == "Shutdown outbox drain deadline reached"@) && final(store)@ == old(store)@
            } else if owner is None {
                result matches DrainStep::Finish(None) && final(store)@ == old(store)@
            } else {
                &&& final(store)@ == after
                &&& match result {
                    DrainStep::Deliver { openid, item } => Some(openid@) == owner && due is Some
                        && store_rows::item_of(after.outbox[due->0]) == Some(item@),
                    DrainStep::Pause(time) => due is None && retry_wait && time == (if remaining
                        < 1_000 {
                        remaining as int
                    } else {
                        1_000
                    }),
                    DrainStep::Finish(None) => due is None && !retry_wait,
                    DrainStep::Finish(Some((grave, line))) => grave && due is Some
                        && store_rows::item_of(
                        after.outbox[due->0],
                    ) is None && line@ == "Shutdown outbox drain failed: "@
                        + "invalid JSON state: "@ + store_rows::fault_of(after.outbox[due->0]),
                }
            }
        }),
        store::consistent(old(store)@) ==> store::consistent(final(store)@),
{
    if !ready {
        return DrainStep::Finish(None);
    }
    if remaining == 0 {
        return DrainStep::Finish(
            Some((false, "Shutdown outbox drain deadline reached".to_owned())),
        );
    }
    let openid = match store.get_bound_openid() {
        Some(openid) => openid,
        None => {
            return DrainStep::Finish(None);
        },
    };
    match store.get_due_outbox_at(now) {
        Ok(Some(item)) => DrainStep::Deliver { openid, item },
        Ok(None) => if retry_wait {
            DrainStep::Pause(
                if remaining < 1_000 {
                    remaining
                } else {
                    1_000
                },
            )
        } else {
            DrainStep::Finish(None)
        },
        Err(error) => {
            let shown = error.message();
            DrainStep::Finish(
                Some((true, qq_client::headed("Shutdown outbox drain failed: ", shown.as_str()))),
            )
        },
    }
}

/// How a delivery at the end went.
#[derive(Debug, PartialEq, Eq)]
pub enum DrainEvent {
    Delivered(DeliveryOutcome),
    /// The message of the error.
    Failed(String),
    TimedOut,
}

/// Whether emptying the outbox goes on after a delivery, and then whether the
/// delivery is to be tried again; else what the log says. The flag tells an
/// error from a warning.
pub fn drained(event: &DrainEvent) -> (result: Result<bool, (bool, String)>)
    ensures
        match (event, result) {
            (DrainEvent::Delivered(outcome), Ok(retry_wait)) => retry_wait == (*outcome
                == DeliveryOutcome::Retry),
            (DrainEvent::Failed(error), Err((grave, line))) => grave && line@
                == "Shutdown outbox drain failed: "@ + qq_client::detail(error@),
            (DrainEvent::TimedOut, Err((grave, line))) => !grave && line@
                == "Shutdown outbox drain timed out"@,
            _ => false,
        },
{
    match event {
        DrainEvent::Delivered(outcome) => match outcome {
            DeliveryOutcome::Retry => Ok(true),
            _ => Ok(false),
        },
        DrainEvent::Failed(error) => {
            let detail = qq_client::safe_detail(error.as_str());
            Err((true, qq_client::headed("Shutdown outbox drain failed: ", detail.as_str())))
        },
        DrainEvent::TimedOut => Err((false, "Shutdown outbox drain timed out".to_owned())),
    }
}

// ---------------------------------------------------------------------------
// The run
// ---------------------------------------------------------------------------

/// What ended a connection.
#[derive(Debug, PartialEq, Eq)]
pub enum ConnectionEnd {
    /// The service stops.
    Stopped,
    /// The watch over hosts ended; the message of its error, if any.
    Monitor(Option<String>),
    /// The gateway did.
    Gateway(Option<String>),
    /// The deliveries did.
    Delivery(Option<String>),
}

/// What follows the end of a connection.
#[derive(Debug, PartialEq, Eq)]
pub struct Reconnect {
    /// What the log says; the flag tells an error from a warning.
    pub lines: Vec<(bool, String)>,
    /// Whether the service is told to stop.
    pub stop: bool,
    /// How long it is waited before the service is called again, and how long
    /// the next time; none where it ends.
    pub wait: Option<(u64, u64)>,
}

pub open spec fn lines_view(lines: Seq<(bool, String)>) -> Seq<(bool, Seq<char>)> {
    Seq::new(lines.len(), |i: int| (lines[i].0, lines[i].1@))
}

/// The delay after this one.
pub open spec fn next_delay(delay: u64) -> u64 {
    if delay >= MAX_RECONNECT_DELAY / 2 {
        MAX_RECONNECT_DELAY
    } else {
        (delay * 2) as u64
    }
}

/// What the log says of the end of a connection. `stopping` says that the
/// service was told to stop before.
pub open spec fn end_lines(end: ConnectionEnd, stopping: bool) -> Seq<(bool, Seq<char>)> {
    let own = match end {
        ConnectionEnd::Monitor(Some(error)) => seq![
            (true, "Codex host monitor failed: "@ + qq_client::detail(error@)),
        ],
        ConnectionEnd::Monitor(None) => if stopping {
            Seq::empty()
        } else {
            seq![(false, "Codex host monitor exited unexpectedly"@)]
        },
        ConnectionEnd::Delivery(Some(error)) => seq![
            (true, "QQ delivery loop failed: "@ + qq_client::detail(error@)),
        ],
        ConnectionEnd::Delivery(None) => if stopping {
            Seq::empty()
        } else {
            seq![(false, "QQ delivery loop stopped; reconnecting"@)]
        },
        _ => Seq::empty(),
    };
    let ended = match end {
        ConnectionEnd::Gateway(error) => error,
        ConnectionEnd::Delivery(error) => error,
        _ => None,
    };
    match ended {
        Some(error) => if stopping {
            own
        } else {
            own.push((true, "QQ connection task failed: "@ + qq_client::detail(error@)))
        },
        None => own,
    }
}

/// Whether the service ends with a connection.
pub open spec fn run_ends(end: ConnectionEnd, stopping: bool) -> bool {
    stopping || end is Stopped || end is Monitor
}

fn logged(error: bool, head: &str, detail: &str) -> (result: (bool, String))
    ensures
        result.0 == error,
        result.1@ == head@ + qq_client::detail(detail@),
{
    let shown = qq_client::safe_detail(detail);
    (error, qq_client::headed(head, shown.as_str()))
}

/// What follows the end of a connection: the service ends when it is told to or
/// when the watch over hosts does; else it is called again after a delay, which
/// doubles up to a minute and begins anew once the service was ready.
pub fn run(
    options: &QQRuntimeOptions,
    end: &ConnectionEnd,
    stopping: bool,
    ready: bool,
    delay: u64,
) -> (result: Reconnect)
    ensures
        lines_view(result.lines@) == end_lines(*end, stopping),
        result.stop == (end is Monitor),
        ({
            let wait = if ready {
                options.initial_reconnect_delay
            } else {
                delay
            };
            result.wait == (if run_ends(*end, stopping) {
                None
            } else {
                Some((wait, next_delay(wait)))
            })
        }),
{
    let mut lines: Vec<(bool, String)> = Vec::new();
    match end {
        ConnectionEnd::Monitor(error) => match error {
            Some(error) => {
                lines.push(logged(true, "Codex host monitor failed: ", error.as_str()));
            },
            None => {
                if !stopping {
                    lines.push((false, "Codex host monitor exited unexpectedly".to_owned()));
                }
            },
        },
        ConnectionEnd::Delivery(error) => match error {
            Some(error) => {
                lines.push(logged(true, "QQ delivery loop failed: ", error.as_str()));
                if !stopping {
                    lines.push(logged(true, "QQ connection task failed: ", error.as_str()));
                }
            },
            None => {
                if !stopping {
                    lines.push((false, "QQ delivery loop stopped; reconnecting".to_owned()));
                }
            },
        },
        ConnectionEnd::Gateway(error) => match error {
            Some(error) => {
                if !stopping {
                    lines.push(logged(true, "QQ connection task failed: ", error.as_str()));
                }
            },
            None => {},
        },
        ConnectionEnd::Stopped => {},
    }
    assert(lines_view(lines@) =~= end_lines(*end, stopping));
    let of_monitor = match end {
        ConnectionEnd::Monitor(_) => true,
        _ => false,
    };
    let told = match end {
        ConnectionEnd::Stopped => true,
        _ => false,
    };
    let wait: Option<(u64, u64)> = if stopping || told || of_monitor {
        None
    } else {
        let first: u64 = if ready {
            options.initial_reconnect_delay
        } else {
            delay
        };
        let later: u64 = if first >= MAX_RECONNECT_DELAY / 2 {
            MAX_RECONNECT_DELAY
        } else {
            first * 2
        };
        Some((first, later))
    };
    Reconnect { lines, stop: of_monitor, wait }
}

// ---------------------------------------------------------------------------
// Laws
// ---------------------------------------------------------------------------

/// The companion does not stop while a host runs or work waits, nor ever when
/// it runs on its own.
pub proof fn lemma_watch_keeps_companion(
    options: QQRuntimeOptions,
    watch: HostWatch,
    found: WatchFinding,
)
    requires
        options.standalone || found.alive > 0 || found.pending,
    ensures
        watched(options, watch, found).1 == WatchAction::Pause,
{
}

/// The watch can always go on from where it paused.
pub proof fn lemma_watch_goes_on(
    options: QQRuntimeOptions,
    watch: HostWatch,
    found: WatchFinding,
)
    requires
        watch.empty_checks < check_limit(options),
        watched(options, watch, found).1 == WatchAction::Pause,
    ensures
        watched(options, watch, found).0.empty_checks < check_limit(options),
{
}

/// The wait before the service is called again is at most a minute, if the
/// first one is.
pub proof fn lemma_reconnect_is_bounded(delay: u64)
    requires
        delay <= MAX_RECONNECT_DELAY,
    ensures
        delay <= next_delay(delay) <= MAX_RECONNECT_DELAY,
{
}

/// The companion that nobody needs stops: once no host has been there for the
/// whole grace, every look that finds none counts, and the one that reaches the
/// limit stops it. A host or work that is there starts the count anew.
pub proof fn lemma_watch_lets_go(options: QQRuntimeOptions, watch: HostWatch, found: WatchFinding)
    requires
        !options.standalone,
        watch.empty_checks < u32::MAX,
    ensures
        ({
            let (after, action) = watched(options, watch, found);
            let alone = found.alive <= 0 && !found.pending && (found.ready || found.elapsed
                >= options.hostless_startup_grace);
            let long = match watch.hostless_since {
                Some(since) => found.clock >= since && found.clock - since
                    >= options.host_reattach_grace || options.host_reattach_grace == 0,
                None => options.host_reattach_grace == 0,
            };
            &&& !alone ==> after.empty_checks == 0 && after.hostless_since is None
            &&& alone ==> after.hostless_since == (match watch.hostless_since {
                Some(since) => Some(since),
                None => Some(found.clock),
            })
            &&& alone && long ==> after.empty_checks == watch.empty_checks + 1
            &&& alone && !long ==> after.empty_checks == watch.empty_checks
            &&& action == WatchAction::Stop <==> alone && long && watch.empty_checks + 1
                >= options.empty_host_checks
        }),
{
}

} // verus!
