//! The operations of the store that the rest of the bridge uses.
use vstd::prelude::*;
use vstd::utf8;
use crate::clock;
use crate::delivery;
use crate::digest;
use crate::hook_event;
use crate::json;
use crate::json::{Json, JsonNumber};
use crate::processes;
use crate::processes::HostProcess;
use crate::security;
use crate::store;
use crate::store::{
    HookPlanView, InboundRow, InboundView, LastReply, OutboxItem, OutboxRow, OutboxState,
    OutboxView, QQTaskInfo, SessionInfo, Store, StoreError, StoreView, TaskView,
    TurnFailureNotification,
};
use crate::store_rows;
use crate::text;
use crate::text::text_eq;

verus! {

impl StoreError {
    /// The message of the error.
    pub open spec fn text(self) -> Seq<char> {
        match self {
            StoreError::Sqlite(detail) => "SQLite state error: "@ + detail@,
            StoreError::Io(detail) => "state I/O error: "@ + detail@,
            StoreError::Json(detail) => "invalid JSON state: "@ + detail@,
            StoreError::PayloadNotObject => "hook payload must be a JSON object"@,
            StoreError::UnsupportedHookEvent(name) => "unsupported hook event: "@ + name@,
            StoreError::InvalidOutboxState(state) => "invalid outbox state: "@ + state@,
            StoreError::Conflict => "SQLite state error: a unique key is taken"@,
            StoreError::Exhausted => "SQLite state error: no further row id"@,
        }
    }

    pub fn message(&self) -> (result: String)
        ensures
            result@ == self.text(),
    {
        match self {
            StoreError::Sqlite(detail) => {
                let mut result = "SQLite state error: ".to_owned();
                result.append(detail.as_str());
                result
            },
            StoreError::Io(detail) => {
                let mut result = "state I/O error: ".to_owned();
                result.append(detail.as_str());
                result
            },
            StoreError::Json(detail) => {
                let mut result = "invalid JSON state: ".to_owned();
                result.append(detail.as_str());
                result
            },
            StoreError::PayloadNotObject => "hook payload must be a JSON object".to_owned(),
            StoreError::UnsupportedHookEvent(name) => {
                let mut result = "unsupported hook event: ".to_owned();
                result.append(name.as_str());
                result
            },
            StoreError::InvalidOutboxState(state) => {
                let mut result = "invalid outbox state: ".to_owned();
                result.append(state.as_str());
                result
            },
            StoreError::Conflict => "SQLite state error: a unique key is taken".to_owned(),
            StoreError::Exhausted => "SQLite state error: no further row id".to_owned(),
        }
    }
}

// ---------------------------------------------------------------------------
// A new store
// ---------------------------------------------------------------------------

/// How long content is kept: as long as was asked for, or else as the text of
/// the environment says, or else, and where that is no finite number of at
/// least zero seconds, a week.
pub open spec fn resolved_ttl(value: Option<i64>, environment: Option<Seq<char>>) -> i64 {
    let configured = match (value, environment) {
        (Some(ttl), _) => Some(ttl as int),
        (None, Some(raw)) => clock::finite_read(raw),
        (None, None) => None,
    };
    match configured {
        Some(ttl) => if ttl >= 0 {
            ttl as i64
        } else {
            store::DEFAULT_CONTENT_TTL
        },
        None => store::DEFAULT_CONTENT_TTL,
    }
}

/// How long content is kept.
pub fn resolve_ttl(value: Option<i64>, environment: Option<&str>) -> (result: i64)
    ensures
        result == resolved_ttl(value, text::opt_str(environment)),
{
    let configured: Option<i64> = match value {
        Some(ttl) => Some(ttl),
        None => match environment {
            Some(raw) => clock::parse_finite_seconds(raw),
            None => None,
        },
    };
    match configured {
        Some(ttl) => if ttl >= 0 {
            ttl
        } else {
            store::DEFAULT_CONTENT_TTL
        },
        None => store::DEFAULT_CONTENT_TTL,
    }
}

/// A state with nothing in it.
pub open spec fn empty_store(
    last_reply_ttl: i64,
    outbox_ttl: i64,
    last_reply_limit: nat,
) -> StoreView {
    StoreView {
        settings: Map::empty(),
        sessions: Seq::empty(),
        hosts: Seq::empty(),
        outbox: Seq::empty(),
        replies: Seq::empty(),
        inbound: Seq::empty(),
        tasks: Seq::empty(),
        next_outbox_id: 1,
        next_reply_id: 1,
        last_reply_ttl,
        outbox_ttl,
        last_reply_limit,
    }
}

/// A state in the present form.
pub open spec fn initialized(s: StoreView) -> (StoreView, bool) {
    store::scope_migrated(store::with_setting(s, "last_reply_schema_version"@, "2"@))
}

impl Store {
    /// A new state with the usual lifetimes.
    pub fn new() -> (result: Store)
        ensures
            initialized(
                empty_store(
                    store::DEFAULT_CONTENT_TTL,
                    store::DEFAULT_CONTENT_TTL,
                    store::DEFAULT_LAST_REPLY_HISTORY_LIMIT as nat,
                ),
            ) == (result@, true),
            store::consistent(result@),
    {
        Store::with_options(None, None, None, None, None)
    }

    /// A new state. Lifetimes that are not asked for come from the environment.
    pub fn with_options(
        last_reply_ttl: Option<i64>,
        reply_ttl_environment: Option<&str>,
        outbox_ttl: Option<i64>,
        outbox_ttl_environment: Option<&str>,
        last_reply_limit: Option<usize>,
    ) -> (result: Store)
        ensures
            initialized(
                empty_store(
                    resolved_ttl(last_reply_ttl, text::opt_str(reply_ttl_environment)),
                    resolved_ttl(outbox_ttl, text::opt_str(outbox_ttl_environment)),
                    store::clamped_limit(
                        match last_reply_limit {
                            Some(limit) => limit as nat,
                            None => store::DEFAULT_LAST_REPLY_HISTORY_LIMIT as nat,
                        },
                    ),
                ),
            ) == (result@, true),
            store::consistent(result@),
    {
        let asked: usize = match last_reply_limit {
            Some(limit) => limit,
            None => store::DEFAULT_LAST_REPLY_HISTORY_LIMIT,
        };
        let limit: usize = if asked < 1 {
            1
        } else if asked > store::MAX_LAST_REPLY_HISTORY_LIMIT {
            store::MAX_LAST_REPLY_HISTORY_LIMIT
        } else {
            asked
        };
        let mut result = Store {
            settings: Vec::new(),
            sessions: Vec::new(),
            hosts: Vec::new(),
            outbox: Vec::new(),
            replies: Vec::new(),
            inbound: Vec::new(),
            tasks: Vec::new(),
            next_outbox_id: 1,
            next_reply_id: 1,
            last_reply_ttl: resolve_ttl(last_reply_ttl, reply_ttl_environment),
            outbox_ttl: resolve_ttl(outbox_ttl, outbox_ttl_environment),
            last_reply_limit: limit,
        };
        let ghost start = empty_store(
            result.last_reply_ttl,
            result.outbox_ttl,
            result.last_reply_limit as nat,
        );
        assert(result@ =~= start);
        assert(store::consistent(result@));
        proof {
            reveal_strlit("session_scope_version");
            reveal_strlit("last_reply_schema_version");
            assert("session_scope_version"@.len() != "last_reply_schema_version"@.len());
            let versioned = store::with_setting(start, "last_reply_schema_version"@, "2"@);
            assert(store::setting(versioned, "session_scope_version"@) is None);
            assert(versioned.sessions.len() == 0);
            assert(store::rescoped(versioned, store::session_places(versioned), 0) == (
                versioned,
                true,
            ));
        }
        let _ = result.initialize();
        result
    }

    /// Brings the state into the present form. Fails where the key that a
    /// session is to have is taken.
    pub fn initialize(&mut self) -> (result: Result<(), StoreError>)
        ensures
            initialized(old(self)@) == (final(self)@, result is Ok),
            result matches Err(error) ==> error is Conflict,
            store::consistent(old(self)@) ==> store::consistent(final(self)@),
    {
        self.set_setting("last_reply_schema_version", "2");
        self.migrate_session_scope()
    }
}

// ---------------------------------------------------------------------------
// Session keys of old
// ---------------------------------------------------------------------------

/// Renaming a session to a free id keeps the state consistent.
pub proof fn lemma_session_renamed(s: StoreView, from: Seq<char>, to: Seq<char>)
    requires
        store::session_at(s.sessions, to, 0) is None,
    ensures
        store::consistent(s) ==> store::consistent(store::session_renamed(s, from, to)),
{
    store_rows::lemma_session_at(s.sessions, to, 0);
    let after = store::session_renamed(s, from, to);
    if store::consistent(s) {
        assert forall|i: int, j: int| 0 <= i < j < after.sessions.len() implies (
        #[trigger] after.sessions[i]).session_id != (#[trigger] after.sessions[j]).session_id by {
            assert(s.sessions[i].session_id != s.sessions[j].session_id);
        }
        assert forall|i: int, j: int| 0 <= i < j < after.outbox.len() implies (
        #[trigger] after.outbox[i]).event_key != (#[trigger] after.outbox[j]).event_key
            && after.outbox[i].id < after.outbox[j].id by {
            assert(s.outbox[i].event_key != s.outbox[j].event_key);
        }
        assert forall|i: int| 0 <= i < after.outbox.len() implies (#[trigger] after.outbox[i]).id
            < after.next_outbox_id by {
            assert(s.outbox[i].id < s.next_outbox_id);
        }
        assert forall|i: int, j: int| 0 <= i < j < after.replies.len() implies (
        #[trigger] after.replies[i]).reply_id < (#[trigger] after.replies[j]).reply_id by {
            assert(s.replies[i].reply_id < s.replies[j].reply_id);
        }
        assert forall|i: int| 0 <= i < after.replies.len() implies (
        #[trigger] after.replies[i]).reply_id < after.next_reply_id by {
            assert(s.replies[i].reply_id < s.next_reply_id);
        }
    }
}

impl Store {
    fn rename_session(&mut self, from: &str, to: &str)
        ensures
            final(self)@ == store::session_renamed(old(self)@, from@, to@),
    {
        let ghost goal = store::session_renamed(old(self)@, from@, to@);
        let mut sessions: Vec<SessionInfo> = Vec::new();
        std::mem::swap(&mut sessions, &mut self.sessions);
        let ghost source = sessions@;
        let mut moved: Vec<SessionInfo> = Vec::new();
        for row in iter: sessions
            invariant
                iter.seq() == source,
                old(self)@.sessions == store::session_views(source),
                goal == store::session_renamed(old(self)@, from@, to@),
                store::session_views(moved@) == goal.sessions.take(iter.index() as int),
        {
            let ghost n = iter.index() as int;
            let ghost held = store::session_views(moved@);
            let mut row = row;
            assert(row@ == old(self)@.sessions[n]);
            if text_eq(row.session_id.as_str(), from) {
                row.session_id = to.to_owned();
            }
            assert(row@ == goal.sessions[n]);
            moved.push(row);
            assert(store::session_views(moved@) =~= held.push(goal.sessions[n]));
            assert(goal.sessions.take(n + 1) =~= held.push(goal.sessions[n]));
        }
        assert(goal.sessions.take(goal.sessions.len() as int) =~= goal.sessions);
        self.sessions = moved;
        let mut outbox: Vec<OutboxRow> = Vec::new();
        std::mem::swap(&mut outbox, &mut self.outbox);
        let ghost source = outbox@;
        let mut moved: Vec<OutboxRow> = Vec::new();
        for row in iter: outbox
            invariant
                iter.seq() == source,
                old(self)@.outbox == store::outbox_views(source),
                goal == store::session_renamed(old(self)@, from@, to@),
                store::outbox_views(moved@) == goal.outbox.take(iter.index() as int),
        {
            let ghost n = iter.index() as int;
            let ghost held = store::outbox_views(moved@);
            let mut row = row;
            assert(row@ == old(self)@.outbox[n]);
            if text_eq(row.session_id.as_str(), from) {
                row.session_id = to.to_owned();
            }
            assert(row@ == goal.outbox[n]);
            moved.push(row);
            assert(store::outbox_views(moved@) =~= held.push(goal.outbox[n]));
            assert(goal.outbox.take(n + 1) =~= held.push(goal.outbox[n]));
        }
        assert(goal.outbox.take(goal.outbox.len() as int) =~= goal.outbox);
        self.outbox = moved;
        let mut replies: Vec<LastReply> = Vec::new();
        std::mem::swap(&mut replies, &mut self.replies);
        let ghost source = replies@;
        let mut moved: Vec<LastReply> = Vec::new();
        for row in iter: replies
            invariant
                iter.seq() == source,
                old(self)@.replies == store::reply_views(source),
                goal == store::session_renamed(old(self)@, from@, to@),
                store::reply_views(moved@) == goal.replies.take(iter.index() as int),
        {
            let ghost n = iter.index() as int;
            let ghost held = store::reply_views(moved@);
            let mut row = row;
            assert(row@ == old(self)@.replies[n]);
            if text_eq(row.session_id.as_str(), from) {
                row.session_id = to.to_owned();
            }
            assert(row@ == goal.replies[n]);
            moved.push(row);
            assert(store::reply_views(moved@) =~= held.push(goal.replies[n]));
            assert(goal.replies.take(n + 1) =~= held.push(goal.replies[n]));
        }
        assert(goal.replies.take(goal.replies.len() as int) =~= goal.replies);
        self.replies = moved;
        assert(self@ =~= goal);
    }

    /// Gives every session a key that takes its directory into account.
    pub fn migrate_session_scope(&mut self) -> (result: Result<(), StoreError>)
        ensures
            store::scope_migrated(old(self)@) == (final(self)@, result is Ok),
            result matches Err(error) ==> error is Conflict,
            store::consistent(old(self)@) ==> store::consistent(final(self)@),
    {
        match self.get_setting("session_scope_version") {
            Some(version) => if text_eq(version.as_str(), "2") {
                return Ok(());
            },
            None => {},
        }
        let ghost start = self@;
        let ghost places = store::session_places(start);
        let mut todo: Vec<(String, String)> = Vec::new();
        for i in 0..self.sessions.len()
            invariant
                *self == *old(self),
                start == self@,
                places == store::session_places(start),
                json::pairs(todo@) == places.take(i as int),
        {
            let ghost held = json::pairs(todo@);
            todo.push((self.sessions[i].session_id.clone(), self.sessions[i].cwd.clone()));
            assert(json::pairs(todo@) =~= held.push(places[i as int]));
            assert(places.take(i + 1) =~= held.push(places[i as int]));
        }
        assert(places.take(places.len() as int) =~= places);
        for i in 0..todo.len()
            invariant
                json::pairs(todo@) == places,
                start == old(self)@,
                places == store::session_places(start),
                store::setting(start, "session_scope_version"@) != Some("2"@),
                places.len() == start.sessions.len(),
                store::rescoped(start, places, i as nat) == (self@, true),
                store::consistent(start) ==> store::consistent(self@),
        {
            assert(places[i as int] == (todo@[i as int].0@, todo@[i as int].1@));
            if !text::starts_with(todo[i].0.as_str(), "v2:") {
                let key = hook_event::scoped_session_id(
                    todo[i].0.as_str(),
                    todo[i].1.as_str(),
                    None,
                );
                if self.find_session(key.as_str()).is_some() {
                    proof {
                        lemma_rescoped_stuck(start, places, (i + 1) as nat, places.len());
                    }
                    return Err(StoreError::Conflict);
                }
                proof {
                    lemma_session_renamed(self@, todo@[i as int].0@, key@);
                }
                self.rename_session(todo[i].0.as_str(), key.as_str());
            }
        }
        self.set_setting("session_scope_version", "2");
        Ok(())
    }
}

proof fn lemma_rescoped_stuck(
    s: StoreView,
    places: Seq<(Seq<char>, Seq<char>)>,
    n: nat,
    m: nat,
)
    requires
        n <= m,
        !store::rescoped(s, places, n).1,
    ensures
        store::rescoped(s, places, m) == store::rescoped(s, places, n),
    decreases m - n,
{
    if n < m {
        lemma_rescoped_stuck(s, places, n, (m - 1) as nat);
    }
}

// ---------------------------------------------------------------------------
// Hook events
// ---------------------------------------------------------------------------

/// What an event means.
#[derive(Debug, PartialEq, Eq)]
pub struct HookPlan {
    pub status: String,
    pub preview: Option<String>,
    pub kind: Option<String>,
    pub payload: Json,
}

impl HookPlan {
    pub open spec fn view(&self) -> HookPlanView {
        HookPlanView {
            status: self.status@,
            preview: text::opt_text(self.preview),
            kind: text::opt_text(self.kind),
            payload: self.payload@,
        }
    }
}

fn time_value(at: i64) -> (result: Json)
    ensures
        result@ == store::time_json(at),
{
    Json::Number(JsonNumber::Float(clock::seconds_number_text(at)))
}

fn quiet(status: &str) -> (result: HookPlan)
    ensures
        result@ == store::quiet_plan(status@),
{
    HookPlan { status: status.to_owned(), preview: None, kind: None, payload: Json::Null }
}

fn project_in(event: &Json) -> (result: String)
    ensures
        result@ == store::event_project(event@),
{
    let cwd = hook_event::event_text(event, "cwd", "");
    hook_event::project_name(cwd.as_str())
}

fn turn_in(event: &Json) -> (result: Option<String>)
    ensures
        text::opt_text(result) == store::event_turn(event@),
{
    match event.get("turn_id") {
        None => None,
        Some(value) => match value {
            Json::Null => None,
            _ => Some(hook_event::event_text(event, "turn_id", "")),
        },
    }
}

fn permission_plan(event: &Json, now: i64) -> (result: HookPlan)
    requires
        hook_event::event_name(event@) == "PermissionRequest"@,
    ensures
        forall|notify: bool| #[trigger]
            hook_event::permission_announced(event@, notify) ==> result@ == store::hook_plan(
                event@,
                notify,
                now,
            ),
{
    proof {
        lemma_event_names();
    }
    let project = project_in(event);
    let model = hook_event::event_text(event, "model", "unknown");
    let tool = hook_event::event_text(event, "tool_name", "unknown");
    let use_id = hook_event::event_text(event, "tool_use_id", "");
    let reason = hook_event::permission_preview(event);
    let mut parts: Vec<(String, Json)> = Vec::new();
    parts.push(json::member("project", Json::Text(project)));
    parts.push(json::member("model", Json::Text(model)));
    parts.push(json::member("tool", Json::Text(tool)));
    parts.push(json::member("tool_use_id", Json::Text(use_id)));
    parts.push(json::member("reason", Json::Text(reason)));
    parts.push(json::member("created_at", time_value(now)));
    assert forall|notify: bool| #[trigger]
        hook_event::permission_announced(event@, notify) implies json::members(parts@)
        == store::hook_plan(event@, notify, now).payload->Object_0 by {
        assert(json::members(parts@) =~= store::hook_plan(event@, notify, now).payload->Object_0);
    }
    HookPlan {
        status: "awaiting_approval".to_owned(),
        preview: None,
        kind: Some("permission_required".to_owned()),
        payload: json::object(parts),
    }
}

fn stop_plan(event: &Json, now: i64) -> (result: HookPlan)
    requires
        hook_event::event_name(event@) == "Stop"@,
    ensures
        forall|notify: bool| result@ == #[trigger] store::hook_plan(event@, notify, now),
{
    proof {
        lemma_event_names();
    }
    let project = project_in(event);
    let model = hook_event::event_text(event, "model", "unknown");
    let answer = hook_event::event_text(event, "last_assistant_message", "");
    let ghost plan = store::hook_plan(event@, false, now);
    let mut parts: Vec<(String, Json)> = Vec::new();
    parts.push(json::member("project", Json::Text(project)));
    parts.push(json::member("model", Json::Text(model)));
    let kind = if answer.as_str().is_empty() {
        "turn_ended_without_reply".to_owned()
    } else {
        parts.push(json::member("content", Json::Text(answer)));
        "final_reply".to_owned()
    };
    parts.push(json::member("created_at", time_value(now)));
    let thread = hook_event::event_text(event, "session_id", "unknown");
    parts.push(json::member("thread_id", Json::Text(thread)));
    assert(json::members(parts@) =~= plan.payload->Object_0);
    let result = HookPlan {
        status: "completed".to_owned(),
        preview: None,
        kind: Some(kind),
        payload: json::object(parts),
    };
    assert forall|notify: bool| result@ == #[trigger] store::hook_plan(event@, notify, now) by {
        assert(store::hook_plan(event@, notify, now) == plan);
    }
    result
}

/// The event names differ from each other.
proof fn lemma_event_names()
    ensures
        "PermissionRequest"@ != "UserPromptSubmit"@,
        "PostToolUse"@ != "UserPromptSubmit"@,
        "PostToolUse"@ != "PermissionRequest"@,
        "Stop"@ != "UserPromptSubmit"@,
        "Stop"@ != "PermissionRequest"@,
        "Stop"@ != "PostToolUse"@,
        "final_reply"@ != "permission_required"@,
        "final_reply"@ != "turn_ended_without_reply"@,
        "permission_required"@ != "turn_ended_without_reply"@,
{
    reveal_strlit("PermissionRequest");
    reveal_strlit("UserPromptSubmit");
    reveal_strlit("PostToolUse");
    reveal_strlit("Stop");
    reveal_strlit("final_reply");
    reveal_strlit("permission_required");
    reveal_strlit("turn_ended_without_reply");
    assert("PermissionRequest"@.len() == 17);
    assert("UserPromptSubmit"@.len() == 16);
    assert("PostToolUse"@.len() == 11);
    assert("Stop"@.len() == 4);
    assert("final_reply"@.len() == 11);
    assert("permission_required"@.len() == 19);
    assert("turn_ended_without_reply"@.len() == 24);
}

/// Decides what an event means.
pub fn plan_hook(event: &Json, notify: bool, now: i64) -> (result: HookPlan)
    ensures
        result@ == store::hook_plan(event@, notify, now),
{
    proof {
        lemma_event_names();
    }
    let name = hook_event::event_text(event, "hook_event_name", "");
    if text_eq(name.as_str(), "UserPromptSubmit") {
        let prompt = hook_event::event_text(event, "prompt", "");
        let preview = security::prompt_preview(prompt.as_str(), 120);
        return HookPlan {
            status: "running".to_owned(),
            preview: Some(preview),
            kind: None,
            payload: Json::Null,
        };
    }
    if text_eq(name.as_str(), "PermissionRequest") {
        if hook_event::announces_permission(event, notify) {
            return permission_plan(event, now);
        }
        return quiet("running");
    }
    if text_eq(name.as_str(), "PostToolUse") {
        return quiet("running");
    }
    if text_eq(name.as_str(), "Stop") {
        return stop_plan(event, now);
    }
    if text_eq(name.as_str(), "SessionEnd") {
        return quiet("closed");
    }
    if text_eq(name.as_str(), "SessionStart") {
        let source = hook_event::event_text(event, "source", "");
        if text::eq_ignore_ascii_case(source.as_str(), "compact") {
            return quiet("preserve");
        }
    }
    quiet("idle")
}

/// Whether an event belongs to a subagent and is passed over.
pub fn ignores_event(event: &Json, line: Option<&Vec<u8>>) -> (result: bool)
    ensures
        result == store::event_ignored(event@, opt_bytes(line)),
{
    let name = hook_event::event_text(event, "hook_event_name", "");
    if text_eq(name.as_str(), "SubagentStart") || text_eq(name.as_str(), "SubagentStop") {
        return true;
    }
    if text_eq(name.as_str(), "UserPromptSubmit") || text_eq(name.as_str(), "Stop") {
        if hook_event::has_subagent_identity(event) {
            return true;
        }
        if hook_event::transcript_path(event).is_some() {
            return match line {
                Some(line) => hook_event::transcript_marks_subagent(line),
                None => false,
            };
        }
    }
    false
}

/// The bytes of an optional list.
pub open spec fn opt_bytes(line: Option<&Vec<u8>>) -> Option<Seq<u8>> {
    match line {
        Some(line) => Some(line@),
        None => None,
    }
}

fn supports_event(name: &str) -> (result: bool)
    ensures
        result == (name@ == "SessionStart"@ || name@ == "UserPromptSubmit"@ || name@
            == "PermissionRequest"@ || name@ == "PostToolUse"@ || name@ == "Stop"@ || name@
            == "SessionEnd"@),
{
    text_eq(name, "SessionStart") || text_eq(name, "UserPromptSubmit") || text_eq(
        name,
        "PermissionRequest",
    ) || text_eq(name, "PostToolUse") || text_eq(name, "Stop") || text_eq(name, "SessionEnd")
}

/// Whether a further row of either kind could get an id.
pub open spec fn has_ids(s: StoreView) -> bool {
    s.next_outbox_id < i64::MAX && s.next_reply_id < i64::MAX
}

impl Store {
    fn status_for(&self, session_id: &str, status: &str) -> (result: String)
        ensures
            result@ == store::effective_status(self@, session_id@, status@),
    {
        if text_eq(status, "preserve") {
            match self.find_session(session_id) {
                Some(at) => self.sessions[at].status.clone(),
                None => "running".to_owned(),
            }
        } else {
            status.to_owned()
        }
    }

    fn ingest_session(
        &mut self,
        event: &Json,
        host: Option<&HostProcess>,
        plan: &HookPlan,
        session_id: &str,
        notify: bool,
        now: i64,
    )
        requires
            plan@ == store::hook_plan(event@, notify, now),
            session_id@ == store::event_session(event@, processes::opt_host_ref(host)),
        ensures
            final(self)@ == store::session_ingested(
                old(self)@,
                event@,
                processes::opt_host_ref(host),
                notify,
                now,
            ),
            store::consistent(old(self)@) ==> store::consistent(final(self)@),
            final(self)@.next_outbox_id == old(self)@.next_outbox_id,
            final(self)@.next_reply_id == old(self)@.next_reply_id,
    {
        self.cleanup_expired_content(now);
        match host {
            Some(host) => {
                self.record_host(host, now);
            },
            None => {},
        }
        let name = hook_event::event_text(event, "hook_event_name", "");
        let turn_id = turn_in(event);
        if text_eq(name.as_str(), "PostToolUse") {
            let tool = hook_event::event_text(event, "tool_name", "");
            let use_id = hook_event::event_text(event, "tool_use_id", "");
            self.resolve_permission_outbox(session_id, &turn_id, tool.as_str(), use_id.as_str());
        }
        let status = self.status_for(session_id, plan.status.as_str());
        let row = SessionInfo {
            session_id: session_id.to_owned(),
            cwd: hook_event::event_text(event, "cwd", ""),
            project: project_in(event),
            model: hook_event::event_text(event, "model", "unknown"),
            turn_id,
            status,
            prompt_preview: text::copied(&plan.preview),
            updated_at: now,
        };
        self.upsert_session(row);
    }

    /// Takes in a lifecycle event. `line` is the first line of the transcript
    /// that the event names, if that could be read; `notify` says whether
    /// permission requests are announced. Tells whether a notification was
    /// queued.
    pub fn ingest_hook_at(
        &mut self,
        event: &Json,
        host: Option<&HostProcess>,
        line: Option<&Vec<u8>>,
        notify: bool,
        now: i64,
    ) -> (result: Result<bool, StoreError>)
        ensures
            match result {
                Ok(queued) => event@ is Object && (if store::event_ignored(
                    event@,
                    opt_bytes(line),
                ) {
                    !queued && final(self)@ == old(self)@
                } else {
                    store::event_supported(event@) && has_ids(old(self)@) && (
                        final(self)@,
                        queued,
                    ) == store::ingested(
                        old(self)@,
                        event@,
                        processes::opt_host_ref(host),
                        notify,
                        now,
                    )
                }),
                Err(error) => final(self)@ == old(self)@ && match error {
                    StoreError::PayloadNotObject => !(event@ is Object),
                    StoreError::UnsupportedHookEvent(name) => event@ is Object
                        && !store::event_ignored(event@, opt_bytes(line))
                        && !store::event_supported(event@) && name@ == hook_event::event_name(
                        event@,
                    ),
                    StoreError::Exhausted => event@ is Object && !store::event_ignored(
                        event@,
                        opt_bytes(line),
                    ) && store::event_supported(event@) && !has_ids(old(self)@),
                    _ => false,
                },
            },
            store::consistent(old(self)@) ==> store::consistent(final(self)@),
    {
        match event {
            Json::Object(_) => {},
            _ => {
                return Err(StoreError::PayloadNotObject);
            },
        }
        if ignores_event(event, line) {
            return Ok(false);
        }
        let name = hook_event::event_text(event, "hook_event_name", "");
        if !supports_event(name.as_str()) {
            return Err(StoreError::UnsupportedHookEvent(name));
        }
        if self.next_outbox_id == i64::MAX || self.next_reply_id == i64::MAX {
            return Err(StoreError::Exhausted);
        }
        let plan = plan_hook(event, notify, now);
        let raw = hook_event::event_text(event, "session_id", "unknown");
        let cwd = hook_event::event_text(event, "cwd", "");
        let session_id = hook_event::scoped_session_id(raw.as_str(), cwd.as_str(), host);
        self.ingest_session(event, host, &plan, session_id.as_str(), notify, now);
        let ghost met = self@;
        let kind = match plan.kind {
            Some(kind) => kind,
            None => {
                return Ok(false);
            },
        };
        let event_key = match hook_event::event_key(event, Some(session_id.as_str())) {
            Some(key) => key,
            None => {
                return Ok(false);
            },
        };
        let legacy_key = match hook_event::event_key(event, None) {
            Some(key) => key,
            None => {
                return Ok(false);
            },
        };
        if self.knows_event(event_key.as_str(), legacy_key.as_str(), session_id.as_str()) {
            return Ok(false);
        }
        let ghost key = event_key@;
        assert(!store::has_event(met.outbox, key)) by {
            if store::has_event(met.outbox, key) {
                let k = choose|k: int|
                    0 <= k < met.outbox.len() && (#[trigger] met.outbox[k]).event_key == key;
                assert(met.outbox[k].event_key == key);
                assert(store::event_known(met.outbox, key, legacy_key@, session_id@));
            }
        }
        let turn_id = turn_in(event);
        if text_eq(kind.as_str(), "final_reply") {
            let reply = LastReply {
                reply_id: 0,
                session_id: session_id.clone(),
                turn_id: text::copied(&turn_id),
                project: project_in(event),
                model: hook_event::event_text(event, "model", "unknown"),
                content: hook_event::event_text(event, "last_assistant_message", ""),
                created_at: now,
            };
            self.insert_reply(reply);
        }
        let first: i64 = if text_eq(kind.as_str(), "permission_required") && !self.is_muted() {
            clock::move_by(now, store::PERMISSION_NOTIFICATION_DELAY)
        } else {
            0
        };
        let ghost replied = self@;
        assert(replied.outbox == met.outbox);
        self.insert_row(
            event_key,
            kind.as_str(),
            session_id.as_str(),
            turn_id,
            plan.payload,
            now,
            first,
        );
        proof {
            let row = self@.outbox.last();
            store_rows::lemma_with_row(replied, row);
        }
        Ok(true)
    }
}

// ---------------------------------------------------------------------------
// Failures of turns
// ---------------------------------------------------------------------------

fn failure_value(failure: &TurnFailureNotification<'_>) -> (result: Json)
    ensures
        result@ == store::failure_payload(failure@),
{
    let project = hook_event::project_name(failure.cwd);
    let message = security::safe_words_text(failure.error_message, 500);
    let mut parts: Vec<(String, Json)> = Vec::new();
    parts.push(json::member("project", Json::Text(project)));
    parts.push(json::member("error", Json::Text(message)));
    parts.push(json::member("created_at", time_value(failure.occurred_at)));
    match failure.error_type {
        Some(kind) => {
            let shown = security::safe_words_text(kind, 120);
            if !shown.as_str().is_empty() {
                parts.push(json::member("error_type", Json::Text(shown)));
            }
        },
        None => {},
    }
    match failure.http_status {
        Some(status) => {
            parts.push(
                json::member("http_status", Json::Number(JsonNumber::Unsigned(status as u64))),
            );
        },
        None => {},
    }
    assert(json::members(parts@) =~= store::failure_payload(failure@)->Object_0);
    json::object(parts)
}

impl Store {
    /// Takes in the final failure of a turn. Tells whether a notification was
    /// queued; for one turn that happens at most once.
    pub fn enqueue_turn_failure(
        &mut self,
        failure: TurnFailureNotification<'_>,
        now: i64,
    ) -> (result: Result<bool, StoreError>)
        ensures
            match result {
                Ok(queued) => old(self)@.next_outbox_id < i64::MAX && (final(self)@, queued)
                    == store::failed(old(self)@, failure@, now),
                Err(error) => error is Exhausted && old(self)@.next_outbox_id == i64::MAX
                    && final(self)@ == old(self)@,
            },
            store::consistent(old(self)@) ==> store::consistent(final(self)@),
    {
        if self.next_outbox_id == i64::MAX {
            return Err(StoreError::Exhausted);
        }
        let session_id = hook_event::scoped_session_id(failure.thread_id, failure.cwd, None);
        let mut event_key = "turn_failed:".to_owned();
        event_key.append(failure.thread_id);
        event_key.append(":");
        event_key.append(failure.turn_id);
        let row = SessionInfo {
            session_id: session_id.clone(),
            cwd: failure.cwd.to_owned(),
            project: hook_event::project_name(failure.cwd),
            model: "unknown".to_owned(),
            turn_id: Some(failure.turn_id.to_owned()),
            status: "failed".to_owned(),
            prompt_preview: None,
            updated_at: failure.occurred_at,
        };
        self.upsert_failed_session(row);
        if self.holds_event(event_key.as_str()) {
            return Ok(false);
        }
        let ghost met = self@;
        let payload = failure_value(&failure);
        self.insert_row(
            event_key,
            "turn_failed",
            session_id.as_str(),
            Some(failure.turn_id.to_owned()),
            payload,
            now,
            0,
        );
        proof {
            store_rows::lemma_with_row(met, self@.outbox.last());
        }
        Ok(true)
    }

    /// Takes in the end of a turn of the other assistant. Tells whether a notification was
    /// queued.
    pub fn enqueue_claude_reply(
        &mut self,
        session_id: &str,
        cwd: &str,
        content: &str,
        failed: bool,
        now: i64,
    ) -> (result: Result<bool, StoreError>)
        ensures
            match result {
                Ok(queued) => old(self)@.next_outbox_id < i64::MAX && (final(self)@, queued)
                    == store::claude_replied(
                    old(self)@,
                    session_id@,
                    cwd@,
                    content@,
                    failed,
                    now,
                ),
                Err(error) => error is Exhausted && old(self)@.next_outbox_id == i64::MAX
                    && final(self)@ == old(self)@,
            },
            store::consistent(old(self)@) ==> store::consistent(final(self)@),
    {
        if self.next_outbox_id == i64::MAX {
            return Err(StoreError::Exhausted);
        }
        let session = hook_event::scoped_session_id(session_id, cwd, None);
        let mut identity = session.clone();
        identity.append("\n");
        let shown = clock::seconds_text(now);
        identity.append(shown.as_str());
        identity.append("\n");
        identity.append(content);
        let mut event_key = "claude_turn:".to_owned();
        let hash = digest::digest_text(identity.as_str());
        event_key.append(hash.as_str());
        if self.holds_event(event_key.as_str()) {
            return Ok(false);
        }
        let project = hook_event::project_name(cwd);
        let mut parts: Vec<(String, Json)> = Vec::new();
        parts.push(json::member("project", Json::Text(project)));
        parts.push(json::member("content", json::text_json(content)));
        parts.push(json::member("created_at", time_value(now)));
        let ghost goal = store::claude_replied(
            old(self)@,
            session_id@,
            cwd@,
            content@,
            failed,
            now,
        ).0.outbox.last().payload->0;
        assert(json::members(parts@) =~= goal->Object_0);
        let payload = json::object(parts);
        let kind = if failed {
            "claude_failed"
        } else {
            "claude_reply"
        };
        self.insert_row(event_key, kind, session.as_str(), None, payload, now, 0);
        proof {
            store_rows::lemma_with_row(old(self)@, self@.outbox.last());
        }
        Ok(true)
    }
}

// ---------------------------------------------------------------------------
// Pairing
// ---------------------------------------------------------------------------

impl Store {
    /// The user that the bridge is bound to.
    pub fn get_bound_openid(&self) -> (result: Option<String>)
        ensures
            text::opt_text(result) == store::setting(self@, "bound_openid"@),
    {
        self.get_setting("bound_openid")
    }

    /// Lets a code wait for its user until it expires.
    pub fn create_pairing(&mut self, code: &str, expires_at: i64)
        ensures
            final(self)@ == store::with_setting(
                store::with_setting(
                    old(self)@,
                    "pairing_hash"@,
                    digest::text_digest(security::pairing_key(code@)),
                ),
                "pairing_expires_at"@,
                clock::seconds_shown(expires_at as int),
            ),
            store::consistent(old(self)@) ==> store::consistent(final(self)@),
    {
        let hash = security::hash_pairing_code(code);
        self.set_setting("pairing_hash", hash.as_str());
        let shown = clock::seconds_text(expires_at);
        self.set_setting("pairing_expires_at", shown.as_str());
    }

    fn pairing_expiry_at(&self) -> (result: Option<i64>)
        ensures
            match result {
                Some(at) => store::pairing_expiry(self@) == Some(at as int),
                None => store::pairing_expiry(self@) is None,
            },
    {
        match self.get_setting("pairing_expires_at") {
            Some(shown) => clock::parse_seconds(shown.as_str()),
            None => None,
        }
    }

    /// Binds the bridge to the user who sends the code that waits. Tells
    /// whether it was that code, in time.
    pub fn consume_pairing_at(&mut self, code: &str, openid: &str, now: i64) -> (result: bool)
        ensures
            result == store::pairing_fits(old(self)@, code@, now),
            final(self)@ == (if result {
                store::bound(old(self)@, openid@, now)
            } else {
                old(self)@
            }),
            store::consistent(old(self)@) ==> store::consistent(final(self)@),
    {
        let supplied = security::hash_pairing_code(code);
        let stored = match self.get_setting("pairing_hash") {
            Some(stored) => stored,
            None => {
                return false;
            },
        };
        let expiry: i64 = match self.pairing_expiry_at() {
            Some(expiry) => expiry,
            None => {
                return false;
            },
        };
        let same = digest::constant_time_eq(stored.as_str().as_bytes(), supplied.as_str().as_bytes());
        proof {
            vstd::utf8::encode_utf8_decode_utf8(stored@);
            vstd::utf8::encode_utf8_decode_utf8(supplied@);
        }
        if now > expiry || !same {
            return false;
        }
        self.set_setting("bound_openid", openid);
        let mut used: Vec<String> = Vec::new();
        used.push("pairing_hash".to_owned());
        used.push("pairing_expires_at".to_owned());
        let ghost named = self@;
        self.delete_settings(&used);
        proof {
            let keys = text::texts(used@);
            assert(keys =~= seq!["pairing_hash"@, "pairing_expires_at"@]);
            reveal_with_fuel(store::without_settings, 3);
            assert(keys[0] == "pairing_hash"@ && keys[1] == "pairing_expires_at"@);
            assert(store::without_settings(named, keys, 0) == named);
            assert(store::without_settings(named, keys, 1) == store::without_setting(
                named,
                "pairing_hash"@,
            ));
        }
        self.forget_before_binding(now);
        true
    }

    fn forget_before_binding(&mut self, now: i64)
        ensures
            final(self)@ == store::pending_suppressed(
                old(self)@,
                store::created_until(now),
                "created before QQ binding"@,
            ),
            store::consistent(old(self)@) ==> store::consistent(final(self)@),
    {
        self.suppress_created_until(now);
        proof {
            store_rows::lemma_pending_suppressed(
                old(self)@,
                store::created_until(now),
                "created before QQ binding"@,
            );
        }
    }

    /// Whether a code waits that has not expired, and when it expires.
    pub fn pairing_status_at(&self, now: i64) -> (result: (bool, Option<i64>))
        ensures
            result.0 == store::pairing_state(self@, now).0,
            match result.1 {
                Some(at) => store::pairing_state(self@, now).1 == Some(at as int),
                None => store::pairing_state(self@, now).1 is None,
            },
    {
        if self.get_setting("pairing_hash").is_none() {
            return (false, None);
        }
        match self.pairing_expiry_at() {
            Some(expiry) => (expiry >= now, Some(expiry)),
            None => (false, None),
        }
    }

    /// Mutes notifications or lets them through again.
    pub fn set_muted(&mut self, muted: bool)
        ensures
            final(self)@ == store::with_setting(
                old(self)@,
                "muted"@,
                if muted {
                    "1"@
                } else {
                    "0"@
                },
            ),
            store::consistent(old(self)@) ==> store::consistent(final(self)@),
    {
        if muted {
            self.set_setting("muted", "1");
        } else {
            self.set_setting("muted", "0");
        }
    }
}

// ---------------------------------------------------------------------------
// Received messages
// ---------------------------------------------------------------------------

/// Whether a message was received before.
pub open spec fn message_known(s: StoreView, id: Seq<char>) -> bool {
    exists|i: int| 0 <= i < s.inbound.len() && (#[trigger] s.inbound[i]).message_id == id
}

/// With a further received message.
pub open spec fn message_noted(s: StoreView, id: Seq<char>, now: i64) -> StoreView {
    StoreView { inbound: s.inbound.push(InboundView { message_id: id, created_at: now }), ..s }
}

impl Store {
    /// Notes a received message. Tells whether it is new.
    pub fn remember_inbound_at(&mut self, message_id: &str, now: i64) -> (result: bool)
        ensures
            result == !message_known(old(self)@, message_id@),
            final(self)@ == (if result {
                message_noted(old(self)@, message_id@, now)
            } else {
                old(self)@
            }),
            store::consistent(old(self)@) ==> store::consistent(final(self)@),
    {
        for i in 0..self.inbound.len()
            invariant
                *self == *old(self),
                forall|j: int| 0 <= j < i ==> (#[trigger] self.inbound@[j]).message_id@ != message_id@,
        {
            if text_eq(self.inbound[i].message_id.as_str(), message_id) {
                assert(self@.inbound[i as int].message_id == message_id@);
                return false;
            }
        }
        proof {
            if message_known(self@, message_id@) {
                let k = choose|k: int|
                    0 <= k < self@.inbound.len() && (#[trigger] self@.inbound[k]).message_id
                        == message_id@;
                assert(self.inbound@[k].message_id@ == message_id@);
            }
        }
        let row = InboundRow { message_id: message_id.to_owned(), created_at: now };
        let ghost view = row@;
        self.inbound.push(row);
        assert(store::inbound_views(self.inbound@) =~= old(self)@.inbound.push(view));
        proof {
            let rows = self@.inbound;
            assert(self@ == message_noted(old(self)@, message_id@, now));
            if store::consistent(old(self)@) {
                assert forall|i: int, j: int| 0 <= i < j < rows.len() implies (
                #[trigger] rows[i]).message_id != (#[trigger] rows[j]).message_id by {
                    assert(rows[i] == old(self)@.inbound[i]);
                    if j < old(self)@.inbound.len() {
                        assert(rows[j] == old(self)@.inbound[j]);
                    }
                }
            }
        }
        true
    }
}

// ---------------------------------------------------------------------------
// Delivery
// ---------------------------------------------------------------------------

/// A change to a notification.
#[derive(Debug)]
pub enum RowEdit {
    Segments(Vec<String>, usize),
    Advance(usize, usize),
    Reschedule(i64, String),
    Mark(OutboxState, String),
}

/// What a change makes of a notification.
pub open spec fn edited(edit: RowEdit) -> spec_fn(OutboxView) -> OutboxView {
    match edit {
        RowEdit::Segments(segments, index) => store::segments_set(
            text::texts(segments@),
            index as nat,
        ),
        RowEdit::Advance(current, total) => store::segment_advanced(current as nat, total as nat),
        RowEdit::Reschedule(at, error) => store::rescheduled(at, error@),
        RowEdit::Mark(state, reason) => store::marked(state, reason@),
    }
}

fn edit_row(row: OutboxRow, edit: &RowEdit) -> (result: OutboxRow)
    ensures
        result@ == edited(*edit)(row@),
{
    let mut row = row;
    match edit {
        RowEdit::Segments(segments, index) => {
            row.segments = Some(text::copied_list(segments));
            row.segment_index = *index;
        },
        RowEdit::Advance(current, total) => {
            if *total <= 1 || *current >= *total - 1 {
                row.state = OutboxState::Delivered;
                row.segment_index = *total;
                row.last_error = None;
            } else {
                row.segment_index = *current + 1;
                row.attempts = 0;
                row.next_attempt_at = 0;
                row.last_error = None;
            }
        },
        RowEdit::Reschedule(at, error) => {
            if row.attempts < u32::MAX {
                row.attempts = row.attempts + 1;
            }
            row.next_attempt_at = *at;
            row.last_error = Some(text::clip(error.as_str(), 500));
            row.state = OutboxState::Pending;
        },
        RowEdit::Mark(state, reason) => {
            row.state = *state;
            row.last_error = Some(text::clip(reason.as_str(), 500));
        },
    }
    row
}

impl Store {
    fn change_row(&mut self, id: i64, edit: RowEdit)
        ensures
            final(self)@ == store::row_changed(old(self)@, id, edited(edit)),
            store::consistent(old(self)@) ==> store::consistent(final(self)@),
    {
        let ghost goal = store::row_changed(old(self)@, id, edited(edit)).outbox;
        let mut rows: Vec<OutboxRow> = Vec::new();
        std::mem::swap(&mut rows, &mut self.outbox);
        let ghost source = rows@;
        let mut kept: Vec<OutboxRow> = Vec::new();
        for row in iter: rows
            invariant
                iter.seq() == source,
                store::outbox_views(source) == old(self)@.outbox,
                goal == store::row_changed(old(self)@, id, edited(edit)).outbox,
                store::outbox_views(kept@) == goal.take(iter.index() as int),
        {
            let ghost n = iter.index() as int;
            let ghost held = store::outbox_views(kept@);
            assert(row@ == old(self)@.outbox[n]);
            let changed = if row.id == id {
                edit_row(row, &edit)
            } else {
                row
            };
            assert(changed@ == goal[n]);
            kept.push(changed);
            assert(store::outbox_views(kept@) =~= held.push(goal[n]));
            assert(goal.take(n + 1) =~= held.push(goal[n]));
        }
        assert(goal.take(goal.len() as int) =~= goal);
        self.outbox = kept;
        proof {
            assert forall|row: OutboxView|
                (#[trigger] edited(edit)(row)).id == row.id && edited(edit)(row).event_key
                    == row.event_key by {
                match edit {
                    RowEdit::Segments(_, _) => {},
                    RowEdit::Advance(_, _) => {},
                    RowEdit::Reschedule(_, _) => {},
                    RowEdit::Mark(_, _) => {},
                }
            }
            store_rows::lemma_row_changed(old(self)@, id, edited(edit));
        }
    }

    /// Gives a notification its segments, from the first on.
    pub fn prepare_segments(&mut self, item_id: i64, segments: &Vec<String>)
        ensures
            final(self)@ == store::row_changed(
                old(self)@,
                item_id,
                store::segments_set(text::texts(segments@), 0),
            ),
            store::consistent(old(self)@) ==> store::consistent(final(self)@),
    {
        self.replace_segments(item_id, segments, 0);
    }

    /// Gives a notification other segments, from `index` on.
    pub fn replace_segments(&mut self, item_id: i64, segments: &Vec<String>, index: usize)
        ensures
            final(self)@ == store::row_changed(
                old(self)@,
                item_id,
                store::segments_set(text::texts(segments@), index as nat),
            ),
            store::consistent(old(self)@) ==> store::consistent(final(self)@),
    {
        self.change_row(item_id, RowEdit::Segments(text::copied_list(segments), index));
    }

    /// Notes that a segment of a notification was sent.
    pub fn advance_segment(&mut self, item_id: i64, current_index: usize, total: usize)
        ensures
            final(self)@ == store::row_changed(
                old(self)@,
                item_id,
                store::segment_advanced(current_index as nat, total as nat),
            ),
            store::consistent(old(self)@) ==> store::consistent(final(self)@),
    {
        self.change_row(item_id, RowEdit::Advance(current_index, total));
    }

    /// Lets a notification wait for its next attempt.
    pub fn reschedule_at(&mut self, item_id: i64, delay: i64, error: &str, now: i64)
        ensures
            final(self)@ == store::row_changed(
                old(self)@,
                item_id,
                store::rescheduled(clock::moved(now as int, delay as int) as i64, error@),
            ),
            store::consistent(old(self)@) ==> store::consistent(final(self)@),
    {
        let at: i64 = clock::move_by(now, delay);
        self.change_row(item_id, RowEdit::Reschedule(at, error.to_owned()));
    }

    /// Ends a notification.
    pub fn mark_outbox(&mut self, item_id: i64, state: &str, reason: &str) -> (result: Result<
        (),
        StoreError,
    >)
        ensures
            match result {
                Ok(()) => store::final_state(state@) is Some && final(self)@ == store::row_changed(
                    old(self)@,
                    item_id,
                    store::marked(store::final_state(state@)->0, reason@),
                ),
                Err(StoreError::InvalidOutboxState(name)) => store::final_state(state@) is None
                    && name@ == state@ && final(self)@ == old(self)@,
                Err(_) => false,
            },
            store::consistent(old(self)@) ==> store::consistent(final(self)@),
    {
        let target = if text_eq(state, "delivered") {
            OutboxState::Delivered
        } else if text_eq(state, "suppressed") {
            OutboxState::Suppressed
        } else if text_eq(state, "failed_permanent") {
            OutboxState::FailedPermanent
        } else {
            return Err(StoreError::InvalidOutboxState(state.to_owned()));
        };
        self.change_row(item_id, RowEdit::Mark(target, reason.to_owned()));
        Ok(())
    }

    /// The first notification that is pending and due. What has expired is
    /// dropped first. Fails where the payload cannot be read.
    pub fn get_due_outbox_at(&mut self, now: i64) -> (result: Result<Option<OutboxItem>, StoreError>)
        ensures
            final(self)@ == store::cleaned(old(self)@, now),
            store::consistent(old(self)@) ==> store::consistent(final(self)@),
            ({
                let rows = final(self)@.outbox;
                let due = store::due_at(rows, now, 0);
                match result {
                    Ok(Some(item)) => due is Some && store_rows::item_of(rows[due->0]) == Some(
                        item@,
                    ),
                    Ok(None) => due is None,
                    Err(error) => due is Some && store_rows::item_of(rows[due->0]) is None && (
                    error matches StoreError::Json(detail) && detail@ == store_rows::fault_of(
                        rows[due->0],
                    )),
                }
            }),
    {
        self.cleanup_expired_content(now);
        let ghost rows = self@.outbox;
        let mut i: usize = 0;
        while i < self.outbox.len()
            invariant
                i <= self.outbox@.len(),
                self@ == store::cleaned(old(self)@, now),
                rows == store::outbox_views(self.outbox@),
                store::due_at(rows, now, 0) == store::due_at(rows, now, i as int),
                store::consistent(old(self)@) ==> store::consistent(self@),
            decreases self.outbox.len() - i,
        {
            if self.outbox[i].state == OutboxState::Pending && self.outbox[i].next_attempt_at
                <= now {
                return match store_rows::due_item(&self.outbox[i]) {
                    Ok(item) => Ok(Some(item)),
                    Err(fault) => Err(StoreError::Json(fault)),
                };
            }
            i += 1;
        }
        Ok(None)
    }

    /// Whether a notification is pending.
    pub fn has_pending_outbox(&self) -> (result: bool)
        ensures
            result == store::has_pending(self@),
    {
        for i in 0..self.outbox.len()
            invariant
                forall|j: int|
                    0 <= j < i ==> (#[trigger] self.outbox@[j]).state != OutboxState::Pending,
        {
            if self.outbox[i].state == OutboxState::Pending {
                assert(self@.outbox[i as int].state == OutboxState::Pending);
                return true;
            }
        }
        proof {
            if store::has_pending(self@) {
                let k = choose|k: int|
                    0 <= k < self@.outbox.len() && (#[trigger] self@.outbox[k]).state
                        == OutboxState::Pending;
                assert(self.outbox@[k].state == OutboxState::Pending);
            }
        }
        false
    }

    /// Whether the companion has something to do: a code waits, or a
    /// notification does for a bound user.
    pub fn companion_work_pending(&self, now: i64) -> (result: bool)
        ensures
            result == (store::pairing_state(self@, now).0 || (store::setting(
                self@,
                "bound_openid"@,
            ) is Some && store::has_pending(self@))),
    {
        if self.pairing_status_at(now).0 {
            return true;
        }
        self.get_bound_openid().is_some() && self.has_pending_outbox()
    }
}

// ---------------------------------------------------------------------------
// Tasks and the companion
// ---------------------------------------------------------------------------

proof fn lemma_task_at(rows: Seq<TaskView>, thread: Seq<char>, from: int)
    requires
        0 <= from <= rows.len(),
    ensures
        match store::task_at(rows, thread, from) {
            Some(i) => from <= i < rows.len() && rows[i].thread_id == thread,
            None => forall|i: int|
                from <= i < rows.len() ==> (#[trigger] rows[i]).thread_id != thread,
        },
    decreases rows.len() - from,
{
    if from < rows.len() && rows[from].thread_id != thread {
        lemma_task_at(rows, thread, from + 1);
    }
}

/// Entering a task or moving its state keeps the state consistent.
pub proof fn lemma_tasks_consistent(
    s: StoreView,
    task: TaskView,
    thread: Seq<char>,
    turn: Seq<char>,
    state: Seq<char>,
    now: i64,
)
    ensures
        store::consistent(s) ==> store::consistent(store::with_task(s, task)),
        store::consistent(s) ==> store::consistent(store::task_moved(s, thread, turn, state, now)),
{
    lemma_task_at(s.tasks, task.thread_id, 0);
    if store::consistent(s) {
        let after = store::task_moved(s, thread, turn, state, now);
        assert forall|i: int, j: int| 0 <= i < j < after.tasks.len() implies (
        #[trigger] after.tasks[i]).thread_id != (#[trigger] after.tasks[j]).thread_id by {
            assert(s.tasks[i].thread_id != s.tasks[j].thread_id);
        }
    }
}

impl Store {
    fn find_task(&self, thread_id: &str) -> (result: Option<usize>)
        ensures
            match result {
                Some(at) => at < self.tasks@.len() && store::task_at(self@.tasks, thread_id@, 0)
                    == Some(at as int),
                None => store::task_at(self@.tasks, thread_id@, 0) is None,
            },
    {
        let ghost rows = self@.tasks;
        let mut i: usize = 0;
        while i < self.tasks.len()
            invariant
                i <= self.tasks@.len(),
                rows == store::task_views(self.tasks@),
                store::task_at(rows, thread_id@, 0) == store::task_at(rows, thread_id@, i as int),
            decreases self.tasks.len() - i,
        {
            if text_eq(self.tasks[i].thread_id.as_str(), thread_id) {
                return Some(i);
            }
            i += 1;
        }
        None
    }

    /// The task of a thread.
    pub fn get_qq_task(&self, thread_id: &str) -> (result: Option<QQTaskInfo>)
        ensures
            match result {
                Some(task) => store::task_at(self@.tasks, thread_id@, 0) is Some && task@
                    == self@.tasks[store::task_at(self@.tasks, thread_id@, 0)->0],
                None => store::task_at(self@.tasks, thread_id@, 0) is None,
            },
    {
        match self.find_task(thread_id) {
            Some(at) => Some(self.tasks[at].copy()),
            None => None,
        }
    }

    /// Enters a task.
    pub fn upsert_qq_task(&mut self, task: &QQTaskInfo)
        ensures
            final(self)@ == store::with_task(old(self)@, task@),
            store::consistent(old(self)@) ==> store::consistent(final(self)@),
    {
        let row = task.copy();
        match self.find_task(task.thread_id.as_str()) {
            Some(at) => {
                self.tasks.set(at, row);
                assert(store::task_views(self.tasks@) =~= old(self)@.tasks.update(at as int, task@));
            },
            None => {
                self.tasks.push(row);
                assert(store::task_views(self.tasks@) =~= old(self)@.tasks.push(task@));
            },
        }
        proof {
            assert(self@ =~= store::with_task(old(self)@, task@));
            lemma_tasks_consistent(old(self)@, task@, ""@, ""@, ""@, 0);
        }
    }

    /// Sets the state of a task's turn.
    pub fn update_qq_task_state(&mut self, thread_id: &str, turn_id: &str, state: &str, now: i64)
        ensures
            final(self)@ == store::task_moved(old(self)@, thread_id@, turn_id@, state@, now),
            store::consistent(old(self)@) ==> store::consistent(final(self)@),
    {
        let ghost goal = store::task_moved(old(self)@, thread_id@, turn_id@, state@, now).tasks;
        let mut rows: Vec<QQTaskInfo> = Vec::new();
        std::mem::swap(&mut rows, &mut self.tasks);
        let ghost source = rows@;
        let mut kept: Vec<QQTaskInfo> = Vec::new();
        for row in iter: rows
            invariant
                iter.seq() == source,
                store::task_views(source) == old(self)@.tasks,
                goal == store::task_moved(old(self)@, thread_id@, turn_id@, state@, now).tasks,
                store::task_views(kept@) == goal.take(iter.index() as int),
        {
            let ghost n = iter.index() as int;
            let ghost held = store::task_views(kept@);
            let mut row = row;
            assert(row@ == old(self)@.tasks[n]);
            if text_eq(row.thread_id.as_str(), thread_id) && text_eq(row.turn_id.as_str(), turn_id) {
                row.state = state.to_owned();
                row.updated_at = now;
            }
            assert(row@ == goal[n]);
            kept.push(row);
            assert(store::task_views(kept@) =~= held.push(goal[n]));
            assert(goal.take(n + 1) =~= held.push(goal[n]));
        }
        assert(goal.take(goal.len() as int) =~= goal);
        self.tasks = kept;
        proof {
            lemma_tasks_consistent(
                old(self)@,
                TaskView {
                    thread_id: ""@,
                    turn_id: ""@,
                    cwd: ""@,
                    model: ""@,
                    effort: ""@,
                    state: ""@,
                    updated_at: 0,
                },
                thread_id@,
                turn_id@,
                state@,
                now,
            );
        }
    }

    /// How many tasks are running.
    pub fn count_running_qq_tasks(&self) -> (result: usize)
        ensures
            result == store::running_tasks(self@),
    {
        let ghost all = self@.tasks;
        let ghost pred = store::active_task();
        let mut count: usize = 0;
        proof {
            store_rows::lemma_filter_none(all, pred);
        }
        for i in 0..self.tasks.len()
            invariant
                count <= i,
                all == store::task_views(self.tasks@),
                pred == store::active_task(),
                count == all.take(i as int).filter(pred).len(),
        {
            proof {
                store_rows::lemma_filter_step(all, pred, i as int);
            }
            if text_eq(self.tasks[i].state.as_str(), "active") {
                count += 1;
            }
        }
        assert(all.take(all.len() as int) =~= all);
        count
    }

    /// Records the companion process.
    pub fn set_daemon_info(&mut self, pid: u32, create_time: i64)
        ensures
            final(self)@ == store::with_setting(
                old(self)@,
                "daemon"@,
                json::compact_json(store::daemon_json(pid, create_time)),
            ),
            store::consistent(old(self)@) ==> store::consistent(final(self)@),
    {
        let shown = daemon_text(pid, create_time);
        self.set_setting("daemon", shown.as_str());
    }

    /// The recorded companion process.
    pub fn get_daemon_info(&self) -> (result: Option<(u32, i64)>)
        ensures
            result == store::companion(self@),
    {
        match self.get_setting("daemon") {
            Some(raw) => read_daemon(raw.as_str()),
            None => None,
        }
    }

    /// Forgets the companion process, if it is the recorded one.
    pub fn clear_daemon_info(&mut self, pid: u32)
        ensures
            final(self)@ == store::companion_cleared(old(self)@, pid),
            store::consistent(old(self)@) ==> store::consistent(final(self)@),
    {
        match self.get_daemon_info() {
            Some((current, _)) => if current == pid {
                let mut keys: Vec<String> = Vec::new();
                keys.push("daemon".to_owned());
                let ghost before = self@;
                self.delete_settings(&keys);
                proof {
                    let names = text::texts(keys@);
                    assert(names =~= seq!["daemon"@]);
                    reveal_with_fuel(store::without_settings, 2);
                    assert(names[0] == "daemon"@);
                    assert(store::without_settings(before, names, 0) == before);
                }
            },
            None => {},
        }
    }
}

/// The record of the companion process as a text.
pub fn daemon_text(pid: u32, create_time: i64) -> (result: String)
    ensures
        result@ == json::compact_json(store::daemon_json(pid, create_time)),
{
    let mut parts: Vec<(String, Json)> = Vec::new();
    parts.push(json::member("create_time", time_value(create_time)));
    parts.push(json::member("pid", Json::Number(JsonNumber::Unsigned(pid as u64))));
    assert(json::members(parts@) =~= store::daemon_json(pid, create_time)->Object_0);
    json::compact_text(&json::object(parts))
}

/// The record of the companion process that a text holds.
pub fn read_daemon(raw: &str) -> (result: Option<(u32, i64)>)
    ensures
        result == store::daemon_read(raw@),
{
    let value = match json::parse_json(raw.as_bytes()) {
        Some(value) => value,
        None => {
            return None;
        },
    };
    let pid: u64 = match value.get("pid") {
        Some(pid) => match pid.as_unsigned() {
            Some(pid) => pid,
            None => {
                return None;
            },
        },
        None => {
            return None;
        },
    };
    let created: i64 = match value.get("create_time") {
        Some(Json::Number(number)) => match delivery::number_time(number) {
            Some(created) => created,
            None => {
                return None;
            },
        },
        _ => {
            return None;
        },
    };
    if pid <= u32::MAX as u64 {
        Some((pid as u32, created))
    } else {
        None
    }
}

// ---------------------------------------------------------------------------
// Names of events and sessions
// ---------------------------------------------------------------------------

impl Store {
    /// A working directory in one notation.
    pub fn normalize_cwd(cwd: &str) -> (result: String)
        ensures
            result@ == hook_event::normalized(cwd@),
            utf8::is_ascii_chars(cwd@) ==> result@ == hook_event::ascii_normalized(cwd@),
    {
        hook_event::normalize_cwd(cwd)
    }

    /// The key of a session.
    pub fn scoped_session_id(session_id: &str, cwd: &str, host: Option<&HostProcess>) -> (result:
        String)
        ensures
            result@ == hook_event::session_key(
                session_id@,
                cwd@,
                processes::opt_host_ref(host),
            ),
            hook_event::is_session_key(result@),
    {
        hook_event::scoped_session_id(session_id, cwd, host)
    }

    /// The name of the project in a working directory.
    pub fn project_name(cwd: &str) -> (result: String)
        ensures
            result@ == hook_event::project_of(cwd@),
    {
        hook_event::project_name(cwd)
    }

    /// The digest of what tells an event apart.
    pub fn event_key(event: &Json, session_id: Option<&str>) -> (result: Result<String, StoreError>)
        ensures
            match result {
                Ok(key) => event@ is Object && key@ == hook_event::event_digest(
                    event@,
                    text::opt_str(session_id),
                ),
                Err(error) => error is PayloadNotObject && !(event@ is Object),
            },
    {
        match hook_event::event_key(event, session_id) {
            Some(key) => Ok(key),
            None => Err(StoreError::PayloadNotObject),
        }
    }

    /// Whether a setting of the environment switches permission notifications
    /// on.
    pub fn permission_notifications_enabled(value: Option<&str>) -> (result: bool)
        ensures
            result == hook_event::switched_on(text::opt_str(value)),
    {
        hook_event::permission_notifications_enabled(value)
    }
}

} // verus!
