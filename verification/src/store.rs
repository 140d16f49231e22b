//! The state of the bridge: settings, sessions, hosts, the outbox of
//! notifications, the latest replies and the tasks started from the chat.
//!
//! Times are points in microseconds. Every operation that depends on the
//! present takes it as an argument.
use vstd::prelude::*;
use vstd::utf8;
use crate::clock;
use crate::delivery;
use crate::digest;
use crate::hook_event;
use crate::json;
use crate::json::{Json, JsonView, NumberView};
use crate::processes::{HostProcess, HostView};
use crate::ranking;
use crate::security;
use crate::text;
use crate::text::text_eq;

verus! {

/// How long a permission request waits before it is announced.
pub const PERMISSION_NOTIFICATION_DELAY: i64 = 5_000_000;

/// How long replies and notifications are kept unless configured otherwise.
pub const DEFAULT_CONTENT_TTL: i64 = 604_800_000_000;

/// How long the ids of received messages are kept.
pub const INBOUND_TTL: i64 = 604_800_000_000;

/// How many replies of a session are kept unless configured otherwise.
pub const DEFAULT_LAST_REPLY_HISTORY_LIMIT: usize = 20;

/// The most replies of a session that can be kept.
pub const MAX_LAST_REPLY_HISTORY_LIMIT: usize = 1000;

// ---------------------------------------------------------------------------
// Rows
// ---------------------------------------------------------------------------

/// Where a notification stands.
#[derive(Debug, Clone, Copy, PartialEq, Eq, Structural)]
pub enum OutboxState {
    Pending,
    Delivered,
    Suppressed,
    FailedPermanent,
}

/// How a state is written down.
pub open spec fn state_name(state: OutboxState) -> Seq<char> {
    match state {
        OutboxState::Pending => "pending"@,
        OutboxState::Delivered => "delivered"@,
        OutboxState::Suppressed => "suppressed"@,
        OutboxState::FailedPermanent => "failed_permanent"@,
    }
}

/// The state that a name stands for.
pub open spec fn state_named(name: Seq<char>) -> Option<OutboxState> {
    if name == "pending"@ {
        Some(OutboxState::Pending)
    } else {
        final_state(name)
    }
}

impl OutboxState {
    /// How the state is written down.
    pub fn as_str(&self) -> (result: &'static str)
        ensures
            result@ == state_name(*self),
            state_named(result@) == Some(*self),
    {
        proof {
            reveal_strlit("pending");
            reveal_strlit("delivered");
            reveal_strlit("suppressed");
            reveal_strlit("failed_permanent");
            assert("pending"@.len() == 7);
            assert("delivered"@.len() == 9);
            assert("suppressed"@.len() == 10);
            assert("failed_permanent"@.len() == 16);
        }
        match self {
            OutboxState::Pending => "pending",
            OutboxState::Delivered => "delivered",
            OutboxState::Suppressed => "suppressed",
            OutboxState::FailedPermanent => "failed_permanent",
        }
    }

    /// The state that a name stands for.
    pub fn named(name: &str) -> (result: Option<OutboxState>)
        ensures
            result == state_named(name@),
    {
        if text_eq(name, "pending") {
            Some(OutboxState::Pending)
        } else if text_eq(name, "delivered") {
            Some(OutboxState::Delivered)
        } else if text_eq(name, "suppressed") {
            Some(OutboxState::Suppressed)
        } else if text_eq(name, "failed_permanent") {
            Some(OutboxState::FailedPermanent)
        } else {
            None
        }
    }
}

/// A notification. A payload that could not be read is absent.
#[derive(Debug, PartialEq, Eq)]
pub struct OutboxRow {
    pub id: i64,
    pub event_key: String,
    pub kind: String,
    pub session_id: String,
    pub turn_id: Option<String>,
    pub payload: Option<Json>,
    /// Why the payload or the segments could not be read, where they could not.
    pub fault: Option<String>,
    pub segments: Option<Vec<String>>,
    pub segment_index: usize,
    pub state: OutboxState,
    pub attempts: u32,
    pub next_attempt_at: i64,
    pub created_at: i64,
    pub last_error: Option<String>,
}

/// A notification that is due.
#[derive(Debug, PartialEq, Eq)]
pub struct OutboxItem {
    pub id: i64,
    pub event_key: String,
    pub kind: String,
    pub session_id: String,
    pub turn_id: Option<String>,
    pub payload: Json,
    pub segments: Option<Vec<String>>,
    pub segment_index: usize,
    pub attempts: u32,
    pub created_at: i64,
}

/// A Codex session.
#[derive(Debug, PartialEq, Eq)]
pub struct SessionInfo {
    pub session_id: String,
    pub cwd: String,
    pub project: String,
    pub model: String,
    pub turn_id: Option<String>,
    pub status: String,
    pub prompt_preview: Option<String>,
    pub updated_at: i64,
}

/// The final reply of a turn.
#[derive(Debug, PartialEq, Eq)]
pub struct LastReply {
    pub reply_id: i64,
    pub session_id: String,
    pub turn_id: Option<String>,
    pub project: String,
    pub model: String,
    pub content: String,
    pub created_at: i64,
}

/// A host process and when it was last seen.
#[derive(Debug)]
pub struct HostRow {
    pub host: HostProcess,
    pub last_seen: i64,
}

/// The id of a received message and when it came.
#[derive(Debug)]
pub struct InboundRow {
    pub message_id: String,
    pub created_at: i64,
}

/// A task that was started from the chat.
#[derive(Debug, PartialEq, Eq)]
pub struct QQTaskInfo {
    pub thread_id: String,
    pub turn_id: String,
    pub cwd: String,
    pub model: String,
    pub effort: String,
    pub state: String,
    pub updated_at: i64,
}

/// The final failure of a turn.
#[derive(Debug, Clone, Copy)]
pub struct TurnFailureNotification<'a> {
    pub thread_id: &'a str,
    pub cwd: &'a str,
    pub turn_id: &'a str,
    pub error_message: &'a str,
    pub error_type: Option<&'a str>,
    pub http_status: Option<u16>,
    pub occurred_at: i64,
}

/// Why an operation on the state failed.
#[derive(Debug)]
pub enum StoreError {
    /// The database failed.
    Sqlite(String),
    /// A file could not be read or written.
    Io(String),
    /// A stored value is no JSON.
    Json(String),
    PayloadNotObject,
    UnsupportedHookEvent(String),
    InvalidOutboxState(String),
    /// A key that has to be unique is taken.
    Conflict,
    /// There is no further row id.
    Exhausted,
}

/// The state of the bridge.
#[derive(Debug)]
pub struct Store {
    pub settings: Vec<(String, String)>,
    pub sessions: Vec<SessionInfo>,
    pub hosts: Vec<HostRow>,
    pub outbox: Vec<OutboxRow>,
    pub replies: Vec<LastReply>,
    pub inbound: Vec<InboundRow>,
    pub tasks: Vec<QQTaskInfo>,
    pub next_outbox_id: i64,
    pub next_reply_id: i64,
    pub last_reply_ttl: i64,
    pub outbox_ttl: i64,
    pub last_reply_limit: usize,
}

// ---------------------------------------------------------------------------
// Views
// ---------------------------------------------------------------------------

#[verifier::ext_equal]
pub struct OutboxView {
    pub id: i64,
    pub event_key: Seq<char>,
    pub kind: Seq<char>,
    pub session_id: Seq<char>,
    pub turn_id: Option<Seq<char>>,
    pub payload: Option<JsonView>,
    pub fault: Option<Seq<char>>,
    pub segments: Option<Seq<Seq<char>>>,
    pub segment_index: nat,
    pub state: OutboxState,
    pub attempts: nat,
    pub next_attempt_at: i64,
    pub created_at: i64,
    pub last_error: Option<Seq<char>>,
}

#[verifier::ext_equal]
pub struct ItemView {
    pub id: i64,
    pub event_key: Seq<char>,
    pub kind: Seq<char>,
    pub session_id: Seq<char>,
    pub turn_id: Option<Seq<char>>,
    pub payload: JsonView,
    pub segments: Option<Seq<Seq<char>>>,
    pub segment_index: nat,
    pub attempts: nat,
    pub created_at: i64,
}

#[verifier::ext_equal]
pub struct SessionView {
    pub session_id: Seq<char>,
    pub cwd: Seq<char>,
    pub project: Seq<char>,
    pub model: Seq<char>,
    pub turn_id: Option<Seq<char>>,
    pub status: Seq<char>,
    pub prompt_preview: Option<Seq<char>>,
    pub updated_at: i64,
}

#[verifier::ext_equal]
pub struct ReplyView {
    pub reply_id: i64,
    pub session_id: Seq<char>,
    pub turn_id: Option<Seq<char>>,
    pub project: Seq<char>,
    pub model: Seq<char>,
    pub content: Seq<char>,
    pub created_at: i64,
}

#[verifier::ext_equal]
pub struct HostRowView {
    pub host: HostView,
    pub last_seen: i64,
}

#[verifier::ext_equal]
pub struct InboundView {
    pub message_id: Seq<char>,
    pub created_at: i64,
}

#[verifier::ext_equal]
pub struct TaskView {
    pub thread_id: Seq<char>,
    pub turn_id: Seq<char>,
    pub cwd: Seq<char>,
    pub model: Seq<char>,
    pub effort: Seq<char>,
    pub state: Seq<char>,
    pub updated_at: i64,
}

#[verifier::ext_equal]
pub struct StoreView {
    pub settings: Map<Seq<char>, Seq<char>>,
    pub sessions: Seq<SessionView>,
    pub hosts: Seq<HostRowView>,
    pub outbox: Seq<OutboxView>,
    pub replies: Seq<ReplyView>,
    pub inbound: Seq<InboundView>,
    pub tasks: Seq<TaskView>,
    pub next_outbox_id: i64,
    pub next_reply_id: i64,
    pub last_reply_ttl: i64,
    pub outbox_ttl: i64,
    pub last_reply_limit: nat,
}

/// The texts of an optional list of strings.
pub open spec fn opt_texts(value: Option<Vec<String>>) -> Option<Seq<Seq<char>>> {
    match value {
        Some(list) => Some(text::texts(list@)),
        None => None,
    }
}

pub open spec fn opt_payload(value: Option<Json>) -> Option<JsonView> {
    match value {
        Some(json) => Some(json@),
        None => None,
    }
}

impl OutboxRow {
    pub open spec fn view(&self) -> OutboxView {
        OutboxView {
            id: self.id,
            event_key: self.event_key@,
            kind: self.kind@,
            session_id: self.session_id@,
            turn_id: text::opt_text(self.turn_id),
            payload: opt_payload(self.payload),
            fault: text::opt_text(self.fault),
            segments: opt_texts(self.segments),
            segment_index: self.segment_index as nat,
            state: self.state,
            attempts: self.attempts as nat,
            next_attempt_at: self.next_attempt_at,
            created_at: self.created_at,
            last_error: text::opt_text(self.last_error),
        }
    }
}

impl OutboxItem {
    pub open spec fn view(&self) -> ItemView {
        ItemView {
            id: self.id,
            event_key: self.event_key@,
            kind: self.kind@,
            session_id: self.session_id@,
            turn_id: text::opt_text(self.turn_id),
            payload: self.payload@,
            segments: opt_texts(self.segments),
            segment_index: self.segment_index as nat,
            attempts: self.attempts as nat,
            created_at: self.created_at,
        }
    }
}

impl SessionInfo {
    pub open spec fn view(&self) -> SessionView {
        SessionView {
            session_id: self.session_id@,
            cwd: self.cwd@,
            project: self.project@,
            model: self.model@,
            turn_id: text::opt_text(self.turn_id),
            status: self.status@,
            prompt_preview: text::opt_text(self.prompt_preview),
            updated_at: self.updated_at,
        }
    }
}

impl LastReply {
    pub open spec fn view(&self) -> ReplyView {
        ReplyView {
            reply_id: self.reply_id,
            session_id: self.session_id@,
            turn_id: text::opt_text(self.turn_id),
            project: self.project@,
            model: self.model@,
            content: self.content@,
            created_at: self.created_at,
        }
    }
}

impl HostRow {
    pub open spec fn view(&self) -> HostRowView {
        HostRowView { host: self.host@, last_seen: self.last_seen }
    }
}

impl InboundRow {
    pub open spec fn view(&self) -> InboundView {
        InboundView { message_id: self.message_id@, created_at: self.created_at }
    }
}

impl QQTaskInfo {
    pub open spec fn view(&self) -> TaskView {
        TaskView {
            thread_id: self.thread_id@,
            turn_id: self.turn_id@,
            cwd: self.cwd@,
            model: self.model@,
            effort: self.effort@,
            state: self.state@,
            updated_at: self.updated_at,
        }
    }
}

pub open spec fn outbox_views(rows: Seq<OutboxRow>) -> Seq<OutboxView> {
    Seq::new(rows.len(), |i: int| rows[i]@)
}

pub open spec fn session_views(rows: Seq<SessionInfo>) -> Seq<SessionView> {
    Seq::new(rows.len(), |i: int| rows[i]@)
}

pub open spec fn reply_views(rows: Seq<LastReply>) -> Seq<ReplyView> {
    Seq::new(rows.len(), |i: int| rows[i]@)
}

pub open spec fn host_views(rows: Seq<HostRow>) -> Seq<HostRowView> {
    Seq::new(rows.len(), |i: int| rows[i]@)
}

pub open spec fn inbound_views(rows: Seq<InboundRow>) -> Seq<InboundView> {
    Seq::new(rows.len(), |i: int| rows[i]@)
}

pub open spec fn task_views(rows: Seq<QQTaskInfo>) -> Seq<TaskView> {
    Seq::new(rows.len(), |i: int| rows[i]@)
}

/// The settings that a list of entries makes, later entries first.
pub open spec fn settings_map(rows: Seq<(String, String)>) -> Map<Seq<char>, Seq<char>>
    decreases rows.len(),
{
    if rows.len() == 0 {
        Map::empty()
    } else {
        settings_map(rows.drop_last()).insert(rows.last().0@, rows.last().1@)
    }
}

impl Store {
    pub open spec fn view(&self) -> StoreView {
        StoreView {
            settings: settings_map(self.settings@),
            sessions: session_views(self.sessions@),
            hosts: host_views(self.hosts@),
            outbox: outbox_views(self.outbox@),
            replies: reply_views(self.replies@),
            inbound: inbound_views(self.inbound@),
            tasks: task_views(self.tasks@),
            next_outbox_id: self.next_outbox_id,
            next_reply_id: self.next_reply_id,
            last_reply_ttl: self.last_reply_ttl,
            outbox_ttl: self.outbox_ttl,
            last_reply_limit: self.last_reply_limit as nat,
        }
    }
}

// ---------------------------------------------------------------------------
// The invariant
// ---------------------------------------------------------------------------

/// No session, host, event, message or task stands twice, row ids ascend below
/// the next one, and the limits are in range.
pub open spec fn consistent(s: StoreView) -> bool {
    &&& forall|i: int, j: int|
        0 <= i < j < s.sessions.len() ==> (#[trigger] s.sessions[i]).session_id != (
        #[trigger] s.sessions[j]).session_id
    &&& forall|i: int, j: int|
        0 <= i < j < s.hosts.len() ==> !same_host(
            (#[trigger] s.hosts[i]).host,
            (#[trigger] s.hosts[j]).host,
        )
    &&& forall|i: int, j: int|
        0 <= i < j < s.outbox.len() ==> (#[trigger] s.outbox[i]).event_key != (
        #[trigger] s.outbox[j]).event_key && s.outbox[i].id < s.outbox[j].id
    &&& forall|i: int| 0 <= i < s.outbox.len() ==> (#[trigger] s.outbox[i]).id < s.next_outbox_id
    &&& forall|i: int, j: int|
        0 <= i < j < s.replies.len() ==> (#[trigger] s.replies[i]).reply_id < (
        #[trigger] s.replies[j]).reply_id
    &&& forall|i: int|
        0 <= i < s.replies.len() ==> (#[trigger] s.replies[i]).reply_id < s.next_reply_id
    &&& forall|i: int, j: int|
        0 <= i < j < s.inbound.len() ==> (#[trigger] s.inbound[i]).message_id != (
        #[trigger] s.inbound[j]).message_id
    &&& forall|i: int, j: int|
        0 <= i < j < s.tasks.len() ==> (#[trigger] s.tasks[i]).thread_id != (
        #[trigger] s.tasks[j]).thread_id
    &&& 1 <= s.last_reply_limit <= MAX_LAST_REPLY_HISTORY_LIMIT
    &&& 0 <= s.last_reply_ttl
    &&& 0 <= s.outbox_ttl
}

/// Whether two hosts are the same process.
pub open spec fn same_host(left: HostView, right: HostView) -> bool {
    left.pid == right.pid && left.create_time == right.create_time
}

// ---------------------------------------------------------------------------
// Queries
// ---------------------------------------------------------------------------

/// A setting, if it is there.
pub open spec fn setting(s: StoreView, key: Seq<char>) -> Option<Seq<char>> {
    if s.settings.contains_key(key) {
        Some(s.settings[key])
    } else {
        None
    }
}

/// The record of the companion process as a value.
pub open spec fn daemon_json(pid: u32, create_time: i64) -> JsonView {
    JsonView::Object(
        seq![
            ("create_time"@, time_json(create_time)),
            ("pid"@, JsonView::Number(NumberView::Unsigned(pid as nat))),
        ],
    )
}

/// The record of the companion process that a text holds: its number and the
/// time at which it was started.
pub open spec fn daemon_read(raw: Seq<char>) -> Option<(u32, i64)> {
    match json::parsed(utf8::encode_utf8(raw)) {
        Some(value) => match (value.get("pid"@), value.get("create_time"@)) {
            (Some(pid), Some(JsonView::Number(number))) => match (
                pid.unsigned(),
                delivery::number_micros(number),
            ) {
                (Some(pid), Some(created)) => if pid <= u32::MAX {
                    Some((pid as u32, created as i64))
                } else {
                    None
                },
                _ => None,
            },
            _ => None,
        },
        None => None,
    }
}

/// The recorded companion process.
pub open spec fn companion(s: StoreView) -> Option<(u32, i64)> {
    match setting(s, "daemon"@) {
        Some(raw) => daemon_read(raw),
        None => None,
    }
}

/// Without the record of the companion, if it is this process.
pub open spec fn companion_cleared(s: StoreView, pid: u32) -> StoreView {
    match companion(s) {
        Some((recorded, _)) => if recorded == pid {
            without_setting(s, "daemon"@)
        } else {
            s
        },
        None => s,
    }
}

pub open spec fn muted(s: StoreView) -> bool {
    setting(s, "muted"@) == Some("1"@)
}

/// The index of a session, counted from `from`.
pub open spec fn session_at(rows: Seq<SessionView>, id: Seq<char>, from: int) -> Option<int>
    decreases rows.len() - from,
{
    if 0 <= from < rows.len() {
        if rows[from].session_id == id {
            Some(from)
        } else {
            session_at(rows, id, from + 1)
        }
    } else {
        None
    }
}

/// The index of a host, counted from `from`.
pub open spec fn host_index(rows: Seq<HostRowView>, host: HostView, from: int) -> Option<int>
    decreases rows.len() - from,
{
    if 0 <= from < rows.len() {
        if same_host(rows[from].host, host) {
            Some(from)
        } else {
            host_index(rows, host, from + 1)
        }
    } else {
        None
    }
}

/// The index of a task, counted from `from`.
pub open spec fn task_at(rows: Seq<TaskView>, thread: Seq<char>, from: int) -> Option<int>
    decreases rows.len() - from,
{
    if 0 <= from < rows.len() {
        if rows[from].thread_id == thread {
            Some(from)
        } else {
            task_at(rows, thread, from + 1)
        }
    } else {
        None
    }
}

/// The index of the first notification that is pending and due.
pub open spec fn due_at(rows: Seq<OutboxView>, now: i64, from: int) -> Option<int>
    decreases rows.len() - from,
{
    if 0 <= from < rows.len() {
        if rows[from].state == OutboxState::Pending && rows[from].next_attempt_at <= now {
            Some(from)
        } else {
            due_at(rows, now, from + 1)
        }
    } else {
        None
    }
}

pub open spec fn has_event(rows: Seq<OutboxView>, key: Seq<char>) -> bool {
    exists|i: int| 0 <= i < rows.len() && (#[trigger] rows[i]).event_key == key
}

/// Whether an event is in the outbox, under its key or, for the same session,
/// under its key of old.
pub open spec fn event_known(
    rows: Seq<OutboxView>,
    key: Seq<char>,
    legacy: Seq<char>,
    session: Seq<char>,
) -> bool {
    exists|i: int|
        0 <= i < rows.len() && ((#[trigger] rows[i]).event_key == key || (rows[i].event_key
            == legacy && rows[i].session_id == session))
}

pub open spec fn has_pending(s: StoreView) -> bool {
    exists|i: int| 0 <= i < s.outbox.len() && (#[trigger] s.outbox[i]).state == OutboxState::Pending
}

/// Whether one reply is newer than another.
pub open spec fn newer(left: ReplyView, right: ReplyView) -> bool {
    ranking::ahead((left.created_at, left.reply_id), (right.created_at, right.reply_id))
}

pub open spec fn newer_of_session(reply: ReplyView) -> spec_fn(ReplyView) -> bool {
    |other: ReplyView| other.session_id == reply.session_id && newer(other, reply)
}

pub open spec fn reply_keys(rows: Seq<ReplyView>) -> Seq<(i64, i64)> {
    Seq::new(rows.len(), |i: int| (rows[i].created_at, rows[i].reply_id))
}

/// Replies from the newest to the oldest.
pub open spec fn newest_first(rows: Seq<ReplyView>) -> Seq<ReplyView> {
    ranking::picked(rows, ranking::ranking(reply_keys(rows)))
}

/// The replies of a project, whatever the case of its letters, and of a session.
pub open spec fn reply_wanted(
    project: Option<Seq<char>>,
    session: Option<Seq<char>>,
) -> spec_fn(ReplyView) -> bool {
    |reply: ReplyView|
        (match project {
            Some(project) => text::same_ascii(reply.project, project),
            None => true,
        }) && (match session {
            Some(session) => reply.session_id == session,
            None => true,
        })
}

/// The first `limit` of `rows`.
pub open spec fn first_of<T>(rows: Seq<T>, limit: nat) -> Seq<T> {
    if rows.len() <= limit {
        rows
    } else {
        rows.take(limit as int)
    }
}

pub open spec fn session_keys(rows: Seq<SessionView>) -> Seq<(i64, i64)> {
    Seq::new(rows.len(), |i: int| (rows[i].updated_at, 0i64))
}

/// Sessions from the latest to the earliest.
pub open spec fn latest_first(rows: Seq<SessionView>) -> Seq<SessionView> {
    ranking::picked(rows, ranking::ranking(session_keys(rows)))
}

pub open spec fn active_session() -> spec_fn(SessionView) -> bool {
    |session: SessionView|
        session.status == "running"@ || session.status == "awaiting_approval"@ || session.status
            == "idle"@
}

/// The sessions that a status report shows: the three latest active ones, or
/// the latest of all when none is active.
pub open spec fn status_sessions(s: StoreView) -> Seq<SessionView> {
    let active = first_of(latest_first(s.sessions.filter(active_session())), 3);
    if active.len() > 0 {
        active
    } else {
        first_of(latest_first(s.sessions), 1)
    }
}

pub open spec fn host_keys(rows: Seq<HostRowView>) -> Seq<(i64, i64)> {
    Seq::new(rows.len(), |i: int| (rows[i].last_seen, 0i64))
}

/// The hosts, the last seen first.
pub open spec fn hosts_by_sight(s: StoreView) -> Seq<HostView> {
    let rows = ranking::picked(s.hosts, ranking::ranking(host_keys(s.hosts)));
    Seq::new(rows.len(), |i: int| rows[i].host)
}

pub open spec fn clamped_limit(limit: nat) -> nat {
    if limit < 1 {
        1
    } else if limit > MAX_LAST_REPLY_HISTORY_LIMIT {
        MAX_LAST_REPLY_HISTORY_LIMIT as nat
    } else {
        limit
    }
}

pub open spec fn active_task() -> spec_fn(TaskView) -> bool {
    |task: TaskView| task.state == "active"@
}

/// How many tasks from the chat are running.
pub open spec fn running_tasks(s: StoreView) -> nat {
    s.tasks.filter(active_task()).len()
}

/// When a pairing code expires, if one is waiting and its expiry can be read.
pub open spec fn pairing_expiry(s: StoreView) -> Option<int> {
    match setting(s, "pairing_expires_at"@) {
        Some(shown) => clock::seconds_read(shown),
        None => None,
    }
}

pub open spec fn pairing_state(s: StoreView, now: i64) -> (bool, Option<int>) {
    if setting(s, "pairing_hash"@) is None {
        (false, None)
    } else {
        match pairing_expiry(s) {
            Some(expiry) => (expiry >= now, Some(expiry)),
            None => (false, None),
        }
    }
}

/// Whether a code is the one that waits, at a time when it has not expired.
pub open spec fn pairing_fits(s: StoreView, code: Seq<char>, now: i64) -> bool {
    match (setting(s, "pairing_hash"@), pairing_expiry(s)) {
        (Some(hash), Some(expiry)) => now <= expiry && hash == digest::text_digest(
            security::pairing_key(code),
        ),
        _ => false,
    }
}

// ---------------------------------------------------------------------------
// Transitions
// ---------------------------------------------------------------------------

pub open spec fn reply_since(limit: int) -> spec_fn(ReplyView) -> bool {
    |reply: ReplyView| reply.created_at >= limit
}

pub open spec fn row_since(limit: int) -> spec_fn(OutboxView) -> bool {
    |row: OutboxView| row.created_at >= limit
}

pub open spec fn inbound_since(limit: int) -> spec_fn(InboundView) -> bool {
    |row: InboundView| row.created_at >= limit
}

/// Without the replies and notifications that have outlived their time.
pub open spec fn cleaned(s: StoreView, now: i64) -> StoreView {
    StoreView {
        replies: s.replies.filter(reply_since(now - s.last_reply_ttl)),
        outbox: s.outbox.filter(row_since(now - s.outbox_ttl)),
        ..s
    }
}

pub open spec fn with_setting(s: StoreView, key: Seq<char>, value: Seq<char>) -> StoreView {
    StoreView { settings: s.settings.insert(key, value), ..s }
}

pub open spec fn without_setting(s: StoreView, key: Seq<char>) -> StoreView {
    StoreView { settings: s.settings.remove(key), ..s }
}

/// Without the first `n` of the given settings.
pub open spec fn without_settings(s: StoreView, keys: Seq<Seq<char>>, n: nat) -> StoreView
    decreases n,
{
    if n == 0 {
        s
    } else {
        without_setting(without_settings(s, keys, (n - 1) as nat), keys[n - 1])
    }
}

/// With a host that was seen at `now`.
pub open spec fn with_host(s: StoreView, host: HostView, now: i64) -> StoreView {
    let row = HostRowView { host, last_seen: now };
    StoreView {
        hosts: match host_index(s.hosts, host, 0) {
            Some(i) => s.hosts.update(i, row),
            None => s.hosts.push(row),
        },
        ..s
    }
}

pub open spec fn other_host(host: HostView) -> spec_fn(HostRowView) -> bool {
    |row: HostRowView| !same_host(row.host, host)
}

/// Without the first `n` of the given hosts.
pub open spec fn without_hosts(s: StoreView, hosts: Seq<HostView>, n: nat) -> StoreView
    decreases n,
{
    if n == 0 {
        s
    } else {
        let before = without_hosts(s, hosts, (n - 1) as nat);
        StoreView { hosts: before.hosts.filter(other_host(hosts[n - 1])), ..before }
    }
}

/// Whether the request in `payload` was answered by the use of a tool.
pub open spec fn request_answered(
    payload: JsonView,
    tool: Seq<char>,
    use_id: Seq<char>,
) -> bool {
    let request_tool = hook_event::shown_at(payload, "tool"@, ""@);
    let request_id = hook_event::shown_at(payload, "tool_use_id"@, ""@);
    if request_id.len() > 0 && use_id.len() > 0 {
        request_id == use_id
    } else {
        request_tool.len() > 0 && tool.len() > 0 && request_tool == tool
    }
}

/// Whether a notification announces a request that the use of a tool answered.
pub open spec fn row_answered(
    row: OutboxView,
    session: Seq<char>,
    turn: Option<Seq<char>>,
    tool: Seq<char>,
    use_id: Seq<char>,
) -> bool {
    &&& row.kind == "permission_required"@
    &&& row.session_id == session
    &&& row.turn_id == turn
    &&& row.state == OutboxState::Pending
    &&& match row.payload {
        Some(payload) => request_answered(payload, tool, use_id),
        None => false,
    }
}

/// The first notification, from index `from` on, that the use of a tool
/// answered.
pub open spec fn answered_at(
    rows: Seq<OutboxView>,
    session: Seq<char>,
    turn: Option<Seq<char>>,
    tool: Seq<char>,
    use_id: Seq<char>,
    from: int,
) -> Option<int>
    decreases rows.len() - from,
{
    if 0 <= from < rows.len() {
        if row_answered(rows[from], session, turn, tool, use_id) {
            Some(from)
        } else {
            answered_at(rows, session, turn, tool, use_id, from + 1)
        }
    } else {
        None
    }
}

pub open spec fn suppressed(row: OutboxView, reason: Seq<char>) -> OutboxView {
    OutboxView { state: OutboxState::Suppressed, last_error: Some(reason), ..row }
}

/// With the permission request suppressed that the use of a tool answered.
pub open spec fn permission_resolved(
    s: StoreView,
    session: Seq<char>,
    turn: Option<Seq<char>>,
    tool: Seq<char>,
    use_id: Seq<char>,
) -> StoreView {
    match answered_at(s.outbox, session, turn, tool, use_id, 0) {
        Some(i) => StoreView {
            outbox: s.outbox.update(
                i,
                suppressed(s.outbox[i], "permission request resolved by tool execution"@),
            ),
            ..s
        },
        None => s,
    }
}

/// The first of two optional values that is there.
pub open spec fn or_else<T>(first: Option<T>, second: Option<T>) -> Option<T> {
    match first {
        Some(value) => Some(value),
        None => second,
    }
}

/// With what an event says of its session. The turn and the preview of the
/// prompt stay where the event has none.
pub open spec fn with_session(s: StoreView, new: SessionView) -> StoreView {
    StoreView {
        sessions: match session_at(s.sessions, new.session_id, 0) {
            Some(i) => s.sessions.update(
                i,
                SessionView {
                    turn_id: or_else(new.turn_id, s.sessions[i].turn_id),
                    prompt_preview: or_else(new.prompt_preview, s.sessions[i].prompt_preview),
                    ..new
                },
            ),
            None => s.sessions.push(new),
        },
        ..s
    }
}

/// With a failed session. What is known of a session that moved on later
/// stays, and so do its model and the preview of its prompt.
pub open spec fn with_failed_session(s: StoreView, new: SessionView) -> StoreView {
    StoreView {
        sessions: match session_at(s.sessions, new.session_id, 0) {
            Some(i) => if new.updated_at >= s.sessions[i].updated_at {
                s.sessions.update(
                    i,
                    SessionView {
                        model: s.sessions[i].model,
                        prompt_preview: s.sessions[i].prompt_preview,
                        ..new
                    },
                )
            } else {
                s.sessions
            },
            None => s.sessions.push(new),
        },
        ..s
    }
}

/// The replies that stay when a session keeps its newest `limit`.
pub open spec fn reply_kept(
    rows: Seq<ReplyView>,
    session: Seq<char>,
    limit: nat,
) -> spec_fn(ReplyView) -> bool {
    |reply: ReplyView|
        reply.session_id != session || rows.filter(newer_of_session(reply)).len() < limit
}

/// With only the newest replies of a session.
pub open spec fn replies_trimmed(s: StoreView, session: Seq<char>) -> StoreView {
    StoreView {
        replies: s.replies.filter(reply_kept(s.replies, session, s.last_reply_limit)),
        ..s
    }
}

/// With a further reply under the next id, and only the newest of its session.
pub open spec fn with_reply(s: StoreView, reply: ReplyView) -> StoreView {
    replies_trimmed(
        StoreView {
            replies: s.replies.push(ReplyView { reply_id: s.next_reply_id, ..reply }),
            next_reply_id: (s.next_reply_id + 1) as i64,
            ..s
        },
        reply.session_id,
    )
}

/// A new notification. While notifications are muted it is suppressed from the
/// start.
pub open spec fn new_row(
    s: StoreView,
    key: Seq<char>,
    kind: Seq<char>,
    session: Seq<char>,
    turn: Option<Seq<char>>,
    payload: JsonView,
    created_at: i64,
    next_attempt_at: i64,
) -> OutboxView {
    OutboxView {
        id: s.next_outbox_id,
        event_key: key,
        kind,
        session_id: session,
        turn_id: turn,
        payload: Some(payload),
        fault: None,
        segments: None,
        segment_index: 0,
        state: if muted(s) {
            OutboxState::Suppressed
        } else {
            OutboxState::Pending
        },
        attempts: 0,
        next_attempt_at,
        created_at,
        last_error: if muted(s) {
            Some("notifications muted"@)
        } else {
            None
        },
    }
}

/// With a further notification.
pub open spec fn with_row(s: StoreView, row: OutboxView) -> StoreView {
    StoreView {
        outbox: s.outbox.push(row),
        next_outbox_id: (s.next_outbox_id + 1) as i64,
        ..s
    }
}

/// With the given change made to the notification `id`.
pub open spec fn row_changed(
    s: StoreView,
    id: i64,
    change: spec_fn(OutboxView) -> OutboxView,
) -> StoreView {
    StoreView {
        outbox: Seq::new(
            s.outbox.len(),
            |i: int|
                if s.outbox[i].id == id {
                    change(s.outbox[i])
                } else {
                    s.outbox[i]
                },
        ),
        ..s
    }
}

pub open spec fn segments_set(segments: Seq<Seq<char>>, index: nat) -> spec_fn(
    OutboxView,
) -> OutboxView {
    |row: OutboxView| OutboxView { segments: Some(segments), segment_index: index, ..row }
}

/// A notification after its segment `current` of `total` was sent.
pub open spec fn segment_advanced(current: nat, total: nat) -> spec_fn(OutboxView) -> OutboxView {
    |row: OutboxView|
        if current + 1 >= total {
            OutboxView {
                state: OutboxState::Delivered,
                segment_index: total,
                last_error: None,
                ..row
            }
        } else {
            OutboxView {
                segment_index: current + 1,
                attempts: 0,
                next_attempt_at: 0,
                last_error: None,
                ..row
            }
        }
}

/// A notification that waits for its next attempt.
pub open spec fn rescheduled(at: i64, error: Seq<char>) -> spec_fn(OutboxView) -> OutboxView {
    |row: OutboxView|
        OutboxView {
            attempts: if row.attempts < u32::MAX {
                row.attempts + 1
            } else {
                row.attempts
            },
            next_attempt_at: at,
            last_error: Some(text::clipped(error, 500)),
            state: OutboxState::Pending,
            ..row
        }
}

pub open spec fn marked(state: OutboxState, reason: Seq<char>) -> spec_fn(OutboxView) -> OutboxView {
    |row: OutboxView| OutboxView { state, last_error: Some(text::clipped(reason, 500)), ..row }
}

/// The final state that a name stands for.
pub open spec fn final_state(name: Seq<char>) -> Option<OutboxState> {
    if name == "delivered"@ {
        Some(OutboxState::Delivered)
    } else if name == "suppressed"@ {
        Some(OutboxState::Suppressed)
    } else if name == "failed_permanent"@ {
        Some(OutboxState::FailedPermanent)
    } else {
        None
    }
}

/// With every pending notification that `chosen` picks suppressed.
pub open spec fn pending_suppressed(
    s: StoreView,
    chosen: spec_fn(OutboxView) -> bool,
    reason: Seq<char>,
) -> StoreView {
    StoreView {
        outbox: Seq::new(
            s.outbox.len(),
            |i: int|
                if s.outbox[i].state == OutboxState::Pending && chosen(s.outbox[i]) {
                    suppressed(s.outbox[i], reason)
                } else {
                    s.outbox[i]
                },
        ),
        ..s
    }
}

pub open spec fn created_until(now: i64) -> spec_fn(OutboxView) -> bool {
    |row: OutboxView| row.created_at <= now
}

pub open spec fn asks_permission() -> spec_fn(OutboxView) -> bool {
    |row: OutboxView| row.kind == "permission_required"@
}

/// Bound to a user: the code is used up, and what was queued before is not
/// sent.
pub open spec fn bound(s: StoreView, openid: Seq<char>, now: i64) -> StoreView {
    pending_suppressed(
        without_setting(
            without_setting(with_setting(s, "bound_openid"@, openid), "pairing_hash"@),
            "pairing_expires_at"@,
        ),
        created_until(now),
        "created before QQ binding"@,
    )
}

/// Without what has outlived its time, and without permission requests in wait
/// when those are not announced.
pub open spec fn tidied(s: StoreView, now: i64, notify: bool) -> StoreView {
    let fresh = cleaned(s, now);
    let rest = StoreView {
        inbound: fresh.inbound.filter(inbound_since(now - INBOUND_TTL)),
        ..fresh
    };
    if notify {
        rest
    } else {
        pending_suppressed(rest, asks_permission(), "permission notifications disabled"@)
    }
}

/// With a task, in place of an earlier one of its thread.
pub open spec fn with_task(s: StoreView, task: TaskView) -> StoreView {
    StoreView {
        tasks: match task_at(s.tasks, task.thread_id, 0) {
            Some(i) => s.tasks.update(i, task),
            None => s.tasks.push(task),
        },
        ..s
    }
}

/// With the state of a task's turn set. Another turn of the thread keeps its
/// own.
pub open spec fn task_moved(
    s: StoreView,
    thread: Seq<char>,
    turn: Seq<char>,
    state: Seq<char>,
    now: i64,
) -> StoreView {
    StoreView {
        tasks: Seq::new(
            s.tasks.len(),
            |i: int|
                if s.tasks[i].thread_id == thread && s.tasks[i].turn_id == turn {
                    TaskView { state, updated_at: now, ..s.tasks[i] }
                } else {
                    s.tasks[i]
                },
        ),
        ..s
    }
}

// ---------------------------------------------------------------------------
// Hook events
// ---------------------------------------------------------------------------

/// A point in time as a JSON number.
pub open spec fn time_json(at: i64) -> JsonView {
    JsonView::Number(NumberView::Float(clock::seconds_number(at as int)))
}

/// What an event means: the status of the session, the preview of the prompt,
/// and the notification, if any.
pub struct HookPlanView {
    pub status: Seq<char>,
    pub preview: Option<Seq<char>>,
    pub kind: Option<Seq<char>>,
    pub payload: JsonView,
}

pub open spec fn event_project(event: JsonView) -> Seq<char> {
    hook_event::project_of(hook_event::shown_at(event, "cwd"@, ""@))
}

pub open spec fn event_model(event: JsonView) -> Seq<char> {
    hook_event::shown_at(event, "model"@, "unknown"@)
}

pub open spec fn event_answer(event: JsonView) -> Seq<char> {
    hook_event::shown_at(event, "last_assistant_message"@, ""@)
}

pub open spec fn event_turn(event: JsonView) -> Option<Seq<char>> {
    match event.get("turn_id"@) {
        None => None,
        Some(JsonView::Null) => None,
        Some(value) => Some(hook_event::shown(Some(value), ""@)),
    }
}

/// The thread of Codex that an event belongs to.
pub open spec fn event_thread(event: JsonView) -> Seq<char> {
    hook_event::shown_at(event, "session_id"@, "unknown"@)
}

pub open spec fn event_session(event: JsonView, host: Option<HostView>) -> Seq<char> {
    hook_event::session_key(
        event_thread(event),
        hook_event::shown_at(event, "cwd"@, ""@),
        host,
    )
}

pub open spec fn quiet_plan(status: Seq<char>) -> HookPlanView {
    HookPlanView { status, preview: None, kind: None, payload: JsonView::Null }
}

pub open spec fn hook_plan(event: JsonView, notify: bool, now: i64) -> HookPlanView {
    let name = hook_event::event_name(event);
    let project = JsonView::Text(event_project(event));
    let model = JsonView::Text(event_model(event));
    if name == "UserPromptSubmit"@ {
        HookPlanView {
            preview: Some(security::preview(hook_event::shown_at(event, "prompt"@, ""@), 120)),
            ..quiet_plan("running"@)
        }
    } else if name == "PermissionRequest"@ {
        if hook_event::permission_announced(event, notify) {
            HookPlanView {
                status: "awaiting_approval"@,
                preview: None,
                kind: Some("permission_required"@),
                payload: JsonView::Object(
                    seq![
                        ("project"@, project),
                        ("model"@, model),
                        (
                            "tool"@,
                            JsonView::Text(hook_event::shown_at(event, "tool_name"@, "unknown"@)),
                        ),
                        (
                            "tool_use_id"@,
                            JsonView::Text(hook_event::shown_at(event, "tool_use_id"@, ""@)),
                        ),
                        ("reason"@, JsonView::Text(hook_event::permission_reason(event))),
                        ("created_at"@, time_json(now)),
                    ],
                ),
            }
        } else {
            quiet_plan("running"@)
        }
    } else if name == "PostToolUse"@ {
        quiet_plan("running"@)
    } else if name == "Stop"@ {
        if event_answer(event).len() == 0 {
            HookPlanView {
                status: "completed"@,
                preview: None,
                kind: Some("turn_ended_without_reply"@),
                payload: JsonView::Object(
                    seq![
                        ("project"@, project),
                        ("model"@, model),
                        ("created_at"@, time_json(now)),
                        ("thread_id"@, JsonView::Text(event_thread(event))),
                    ],
                ),
            }
        } else {
            HookPlanView {
                status: "completed"@,
                preview: None,
                kind: Some("final_reply"@),
                payload: JsonView::Object(
                    seq![
                        ("project"@, project),
                        ("model"@, model),
                        ("content"@, JsonView::Text(event_answer(event))),
                        ("created_at"@, time_json(now)),
                        ("thread_id"@, JsonView::Text(event_thread(event))),
                    ],
                ),
            }
        }
    } else if name == "SessionEnd"@ {
        quiet_plan("closed"@)
    } else if name == "SessionStart"@ && text::same_ascii(
        hook_event::shown_at(event, "source"@, ""@),
        "compact"@,
    ) {
        quiet_plan("preserve"@)
    } else {
        quiet_plan("idle"@)
    }
}

/// The status that a session gets; `preserve` keeps the one it has.
pub open spec fn effective_status(s: StoreView, session: Seq<char>, status: Seq<char>) -> Seq<
    char,
> {
    if status == "preserve"@ {
        match session_at(s.sessions, session, 0) {
            Some(i) => s.sessions[i].status,
            None => "running"@,
        }
    } else {
        status
    }
}

/// Whether an event belongs to a subagent and is passed over.
pub open spec fn event_ignored(event: JsonView, line: Option<Seq<u8>>) -> bool {
    let name = hook_event::event_name(event);
    ||| name == "SubagentStart"@
    ||| name == "SubagentStop"@
    ||| (name == "UserPromptSubmit"@ || name == "Stop"@) && (hook_event::names_subagent(event) || (
    match (hook_event::transcript_of(event), line) {
        (Some(_), Some(line)) => hook_event::line_marks_subagent(line),
        _ => false,
    }))
}

pub open spec fn event_supported(event: JsonView) -> bool {
    let name = hook_event::event_name(event);
    ||| name == "SessionStart"@
    ||| name == "UserPromptSubmit"@
    ||| name == "PermissionRequest"@
    ||| name == "PostToolUse"@
    ||| name == "Stop"@
    ||| name == "SessionEnd"@
}

/// When a new notification is sent at the earliest.
pub open spec fn first_attempt(s: StoreView, kind: Seq<char>, now: i64) -> i64 {
    if kind == "permission_required"@ && !muted(s) {
        clock::moved(now as int, PERMISSION_NOTIFICATION_DELAY as int) as i64
    } else {
        0
    }
}

/// What an event makes of the state, up to its session.
pub open spec fn session_ingested(
    s: StoreView,
    event: JsonView,
    host: Option<HostView>,
    notify: bool,
    now: i64,
) -> StoreView {
    let plan = hook_plan(event, notify, now);
    let session = event_session(event, host);
    let fresh = cleaned(s, now);
    let seen = match host {
        Some(host) => with_host(fresh, host, now),
        None => fresh,
    };
    let resolved = if hook_event::event_name(event) == "PostToolUse"@ {
        permission_resolved(
            seen,
            session,
            event_turn(event),
            hook_event::shown_at(event, "tool_name"@, ""@),
            hook_event::shown_at(event, "tool_use_id"@, ""@),
        )
    } else {
        seen
    };
    with_session(
        resolved,
        SessionView {
            session_id: session,
            cwd: hook_event::shown_at(event, "cwd"@, ""@),
            project: event_project(event),
            model: event_model(event),
            turn_id: event_turn(event),
            status: effective_status(resolved, session, plan.status),
            prompt_preview: plan.preview,
            updated_at: now,
        },
    )
}

/// What an event makes of the state, and whether it queued a notification.
/// An event that is known already queues none.
pub open spec fn ingested(
    s: StoreView,
    event: JsonView,
    host: Option<HostView>,
    notify: bool,
    now: i64,
) -> (StoreView, bool) {
    let plan = hook_plan(event, notify, now);
    let session = event_session(event, host);
    let met = session_ingested(s, event, host, notify, now);
    let key = hook_event::event_digest(event, Some(session));
    let legacy = hook_event::event_digest(event, None);
    match plan.kind {
        None => (met, false),
        Some(kind) => if event_known(met.outbox, key, legacy, session) {
            (met, false)
        } else {
            let replied = if kind == "final_reply"@ {
                with_reply(
                    met,
                    ReplyView {
                        reply_id: 0,
                        session_id: session,
                        turn_id: event_turn(event),
                        project: event_project(event),
                        model: event_model(event),
                        content: event_answer(event),
                        created_at: now,
                    },
                )
            } else {
                met
            };
            (
                with_row(
                    replied,
                    new_row(
                        replied,
                        key,
                        kind,
                        session,
                        event_turn(event),
                        plan.payload,
                        now,
                        first_attempt(replied, kind, now),
                    ),
                ),
                true,
            )
        },
    }
}

// ---------------------------------------------------------------------------
// Failures of turns
// ---------------------------------------------------------------------------

/// What a failure is.
pub struct FailureView {
    pub thread_id: Seq<char>,
    pub cwd: Seq<char>,
    pub turn_id: Seq<char>,
    pub error_message: Seq<char>,
    pub error_type: Option<Seq<char>>,
    pub http_status: Option<u16>,
    pub occurred_at: i64,
}

impl<'a> TurnFailureNotification<'a> {
    pub open spec fn view(&self) -> FailureView {
        FailureView {
            thread_id: self.thread_id@,
            cwd: self.cwd@,
            turn_id: self.turn_id@,
            error_message: self.error_message@,
            error_type: text::opt_str(self.error_type),
            http_status: self.http_status,
            occurred_at: self.occurred_at,
        }
    }
}

/// The key of a failure: its thread and its turn.
pub open spec fn failure_key(failure: FailureView) -> Seq<char> {
    "turn_failed:"@ + failure.thread_id + ":"@ + failure.turn_id
}

/// The type of an error on one redacted line, unless nothing is left of it.
pub open spec fn failure_type(failure: FailureView) -> Option<Seq<char>> {
    match failure.error_type {
        Some(kind) => if security::safe_words(kind, 120).len() > 0 {
            Some(security::safe_words(kind, 120))
        } else {
            None
        },
        None => None,
    }
}

pub open spec fn failure_payload(failure: FailureView) -> JsonView {
    let base = seq![
        ("project"@, JsonView::Text(hook_event::project_of(failure.cwd))),
        ("error"@, JsonView::Text(security::safe_words(failure.error_message, 500))),
        ("created_at"@, time_json(failure.occurred_at)),
    ];
    let typed = match failure_type(failure) {
        Some(kind) => base.push(("error_type"@, JsonView::Text(kind))),
        None => base,
    };
    JsonView::Object(
        match failure.http_status {
            Some(status) => typed.push(
                ("http_status"@, JsonView::Number(NumberView::Unsigned(status as nat))),
            ),
            None => typed,
        },
    )
}

/// What the failure of a turn makes of the state, and whether it queued a
/// notification. The failure of a turn queues one only once.
pub open spec fn failed(s: StoreView, failure: FailureView, queued_at: i64) -> (StoreView, bool) {
    let session = hook_event::session_key(failure.thread_id, failure.cwd, None);
    let met = with_failed_session(
        s,
        SessionView {
            session_id: session,
            cwd: failure.cwd,
            project: hook_event::project_of(failure.cwd),
            model: "unknown"@,
            turn_id: Some(failure.turn_id),
            status: "failed"@,
            prompt_preview: None,
            updated_at: failure.occurred_at,
        },
    );
    if has_event(met.outbox, failure_key(failure)) {
        (met, false)
    } else {
        (
            with_row(
                met,
                new_row(
                    met,
                    failure_key(failure),
                    "turn_failed"@,
                    session,
                    Some(failure.turn_id),
                    failure_payload(failure),
                    queued_at,
                    0,
                ),
            ),
            true,
        )
    }
}

/// The key of a reply that came at `now`.
pub open spec fn claude_key(session: Seq<char>, content: Seq<char>, now: i64) -> Seq<char> {
    "claude_turn:"@ + digest::text_digest(
        session + "\n"@ + clock::seconds_shown(now as int) + "\n"@ + content,
    )
}

/// What the end of a turn of the other assistant makes of the state, and whether it queued a
/// notification.
pub open spec fn claude_replied(
    s: StoreView,
    session_id: Seq<char>,
    cwd: Seq<char>,
    content: Seq<char>,
    failure: bool,
    now: i64,
) -> (StoreView, bool) {
    let session = hook_event::session_key(session_id, cwd, None);
    let key = claude_key(session, content, now);
    if has_event(s.outbox, key) {
        (s, false)
    } else {
        (
            with_row(
                s,
                new_row(
                    s,
                    key,
                    if failure {
                        "claude_failed"@
                    } else {
                        "claude_reply"@
                    },
                    session,
                    None,
                    JsonView::Object(
                        seq![
                            ("project"@, JsonView::Text(hook_event::project_of(cwd))),
                            ("content"@, JsonView::Text(content)),
                            ("created_at"@, time_json(now)),
                        ],
                    ),
                    now,
                    0,
                ),
            ),
            true,
        )
    }
}

// ---------------------------------------------------------------------------
// Session keys of old
// ---------------------------------------------------------------------------

/// With a session under another id, everywhere.
pub open spec fn session_renamed(s: StoreView, from: Seq<char>, to: Seq<char>) -> StoreView {
    StoreView {
        sessions: Seq::new(
            s.sessions.len(),
            |i: int|
                if s.sessions[i].session_id == from {
                    SessionView { session_id: to, ..s.sessions[i] }
                } else {
                    s.sessions[i]
                },
        ),
        outbox: Seq::new(
            s.outbox.len(),
            |i: int|
                if s.outbox[i].session_id == from {
                    OutboxView { session_id: to, ..s.outbox[i] }
                } else {
                    s.outbox[i]
                },
        ),
        replies: Seq::new(
            s.replies.len(),
            |i: int|
                if s.replies[i].session_id == from {
                    ReplyView { session_id: to, ..s.replies[i] }
                } else {
                    s.replies[i]
                },
        ),
        ..s
    }
}

/// The sessions with their directories.
pub open spec fn session_places(s: StoreView) -> Seq<(Seq<char>, Seq<char>)> {
    Seq::new(s.sessions.len(), |i: int| (s.sessions[i].session_id, s.sessions[i].cwd))
}

/// With the first `n` of `places` under keys that take the directory into
/// account; stops where such a key is taken, and says whether it did not.
pub open spec fn rescoped(
    s: StoreView,
    places: Seq<(Seq<char>, Seq<char>)>,
    n: nat,
) -> (StoreView, bool)
    decreases n,
{
    if n == 0 {
        (s, true)
    } else {
        let (before, fine) = rescoped(s, places, (n - 1) as nat);
        let (name, cwd) = places[n - 1];
        let key = hook_event::session_key(name, cwd, None);
        if !fine || text::begins(name, hook_event::session_prefix()) {
            (before, fine)
        } else if session_at(before.sessions, key, 0) is Some {
            (before, false)
        } else {
            (session_renamed(before, name, key), true)
        }
    }
}

/// With every session under a key of the present form; says whether that went
/// through.
pub open spec fn scope_migrated(s: StoreView) -> (StoreView, bool) {
    if setting(s, "session_scope_version"@) == Some("2"@) {
        (s, true)
    } else {
        let (moved, fine) = rescoped(s, session_places(s), s.sessions.len());
        if fine {
            (with_setting(moved, "session_scope_version"@, "2"@), true)
        } else {
            (moved, false)
        }
    }
}

} // verus!
