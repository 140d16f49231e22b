//! What the desktop shows and does.
use vstd::prelude::*;
use crate::cli;
use crate::codex_login;
use crate::daemon;
use crate::hook_event;
use crate::processes;
use crate::security;
use crate::store;
use crate::store::{LastReply, ReplyView, SessionInfo, SessionView, Store, StoreView};
use crate::store_rows;
use crate::text;
use crate::text::text_eq;

verus! {

/// The setting that holds the version of the installed runtime.
pub const RUNTIME_VERSION_SETTING: &'static str = "desktop_runtime_version";

/// An error on one redacted line of at most four hundred characters.
pub fn safe_error(error: &str) -> (result: String)
    ensures
        result@ == codex_login::detail(error@, 400),
{
    codex_login::safe_detail(error, 400)
}

/// A hint at an application id: its first and last characters.
pub open spec fn masked(app_id: Seq<char>) -> Seq<char> {
    if app_id.len() == 0 {
        ""@
    } else if app_id.len() <= 4 {
        seq![app_id[0]] + "••"@ + seq![app_id.last()]
    } else {
        app_id.take(3) + "••••"@ + app_id.skip(app_id.len() - 4)
    }
}

/// A hint at an application id.
pub fn mask_app_id(app_id: &str) -> (result: String)
    ensures
        result@ == masked(app_id@),
{
    let chars = text::chars_of(app_id);
    let count: usize = chars.len();
    if count == 0 {
        return "".to_owned();
    }
    if count <= 4 {
        let mut result = String::new();
        result.push(chars[0]);
        result.append("••");
        result.push(chars[count - 1]);
        assert(result@ =~= masked(app_id@));
        return result;
    }
    let mut result = text::text_between(&chars, 0, 3);
    assert(chars@.subrange(0, 3) =~= app_id@.take(3));
    result.append("••••");
    let tail = text::text_between(&chars, count - 4, count);
    assert(chars@.subrange(count - 4, count as int) =~= app_id@.skip(app_id@.len() - 4));
    result.append(tail.as_str());
    result
}

/// The most characters of an application id.
pub const MAX_APP_ID: usize = 128;

/// The most characters of a secret.
pub const MAX_APP_SECRET: usize = 512;

/// Credentials without white space around them, if they can be saved.
pub fn save_qq_credentials(app_id: &str, app_secret: &str) -> (result: Result<
    (String, String),
    String,
>)
    ensures
        ({
            let id = text::trimmed(app_id@);
            let secret = text::trimmed(app_secret@);
            match result {
                Ok((kept, key)) => kept@ == id && key@ == secret && 0 < id.len() <= MAX_APP_ID && 0
                    < secret.len() <= MAX_APP_SECRET,
                Err(error) => if id.len() == 0 || secret.len() == 0 {
                    error@ == "AppID 和 AppSecret 均不能为空"@
                } else {
                    (id.len() > MAX_APP_ID || secret.len() > MAX_APP_SECRET) && error@
                        == "QQ 凭据长度超出允许范围"@
                },
            }
        }),
{
    let id = text::trim(app_id);
    let secret = text::trim(app_secret);
    if id.as_str().is_empty() || secret.as_str().is_empty() {
        return Err("AppID 和 AppSecret 均不能为空".to_owned());
    }
    let id_chars = text::chars_of(id.as_str());
    let secret_chars = text::chars_of(secret.as_str());
    if id_chars.len() > MAX_APP_ID || secret_chars.len() > MAX_APP_SECRET {
        return Err("QQ 凭据长度超出允许范围".to_owned());
    }
    Ok((id, secret))
}

// ---------------------------------------------------------------------------
// The dashboard
// ---------------------------------------------------------------------------

/// What is shown of a session.
#[derive(Debug, PartialEq, Eq)]
pub struct SessionSummary {
    pub project: String,
    pub model: String,
    pub status: String,
    pub prompt_preview: Option<String>,
    pub updated_at: i64,
}

/// What is shown of a reply.
#[derive(Debug, PartialEq, Eq)]
pub struct ReplySummary {
    pub reply_id: i64,
    pub project: String,
    pub model: String,
    pub preview: String,
    pub created_at: i64,
}

pub struct SessionSummaryView {
    pub project: Seq<char>,
    pub model: Seq<char>,
    pub status: Seq<char>,
    pub prompt_preview: Option<Seq<char>>,
    pub updated_at: i64,
}

pub struct ReplySummaryView {
    pub reply_id: i64,
    pub project: Seq<char>,
    pub model: Seq<char>,
    pub preview: Seq<char>,
    pub created_at: i64,
}

impl SessionSummary {
    pub open spec fn view(&self) -> SessionSummaryView {
        SessionSummaryView {
            project: self.project@,
            model: self.model@,
            status: self.status@,
            prompt_preview: text::opt_text(self.prompt_preview),
            updated_at: self.updated_at,
        }
    }
}

impl ReplySummary {
    pub open spec fn view(&self) -> ReplySummaryView {
        ReplySummaryView {
            reply_id: self.reply_id,
            project: self.project@,
            model: self.model@,
            preview: self.preview@,
            created_at: self.created_at,
        }
    }
}

pub open spec fn session_summaries(rows: Seq<SessionSummary>) -> Seq<SessionSummaryView> {
    Seq::new(rows.len(), |i: int| rows[i]@)
}

pub open spec fn reply_summaries(rows: Seq<ReplySummary>) -> Seq<ReplySummaryView> {
    Seq::new(rows.len(), |i: int| rows[i]@)
}

/// What is found on the machine.
#[derive(Debug, PartialEq, Eq)]
pub struct DashboardFacts {
    pub runtime_installed: bool,
    pub manifest_present: bool,
    pub marketplace_listed: bool,
    /// The application id of the saved credentials.
    pub app_id: Option<String>,
    /// When the process that is recorded as the companion was started, if it is
    /// there.
    pub daemon_started: Option<i64>,
    /// The same of each host, the last seen first.
    pub hosts_started: Vec<Option<i64>>,
    /// Whether a look at all processes found a host.
    pub host_discovered: bool,
    /// The variable that switches permission notifications.
    pub permission_setting: Option<String>,
}

/// What the desktop shows.
#[derive(Debug, PartialEq, Eq)]
pub struct DashboardState {
    pub version: &'static str,
    pub integration_ready: bool,
    pub runtime_installed: bool,
    pub plugin_installed: bool,
    pub credentials_configured: bool,
    pub app_id_hint: Option<String>,
    pub qq_bound: bool,
    pub daemon_running: bool,
    pub daemon_pid: Option<u32>,
    pub standalone: bool,
    pub codex_running: bool,
    pub muted: bool,
    pub permission_notifications: bool,
    pub queue_pending: bool,
    pub pairing_active: bool,
    pub pairing_expires_at: Option<i64>,
    pub sessions: Vec<SessionSummary>,
    pub recent_replies: Vec<ReplySummary>,
}

/// What the desktop shows.
pub struct DashboardView {
    pub version: Seq<char>,
    pub integration_ready: bool,
    pub runtime_installed: bool,
    pub plugin_installed: bool,
    pub credentials_configured: bool,
    pub app_id_hint: Option<Seq<char>>,
    pub qq_bound: bool,
    pub daemon_running: bool,
    pub daemon_pid: Option<u32>,
    pub standalone: bool,
    pub codex_running: bool,
    pub muted: bool,
    pub permission_notifications: bool,
    pub queue_pending: bool,
    pub pairing_active: bool,
    pub pairing_expires_at: Option<int>,
    pub sessions: Seq<SessionSummaryView>,
    pub recent_replies: Seq<ReplySummaryView>,
}

impl DashboardState {
    pub open spec fn view(&self) -> DashboardView {
        DashboardView {
            version: self.version@,
            integration_ready: self.integration_ready,
            runtime_installed: self.runtime_installed,
            plugin_installed: self.plugin_installed,
            credentials_configured: self.credentials_configured,
            app_id_hint: text::opt_text(self.app_id_hint),
            qq_bound: self.qq_bound,
            daemon_running: self.daemon_running,
            daemon_pid: self.daemon_pid,
            standalone: self.standalone,
            codex_running: self.codex_running,
            muted: self.muted,
            permission_notifications: self.permission_notifications,
            queue_pending: self.queue_pending,
            pairing_active: self.pairing_active,
            pairing_expires_at: codex_login::opt_int(self.pairing_expires_at),
            sessions: session_summaries(self.sessions@),
            recent_replies: reply_summaries(self.recent_replies@),
        }
    }
}

/// Whether a session is not over.
pub open spec fn session_lives(status: Seq<char>) -> bool {
    status == "running"@ || status == "awaiting_approval"@ || status == "idle"@
}

/// Whether Codex runs: a session that is shown is not over, a host runs, or one
/// was found.
pub open spec fn codex_runs(s: StoreView, facts: DashboardFacts) -> bool {
    any_lives(store::status_sessions(s)) || daemon::any_host_runs(
        store::hosts_by_sight(s),
        facts.hosts_started@,
    ) || facts.host_discovered
}

/// What is shown of sessions.
pub open spec fn sessions_shown(sessions: Seq<SessionView>) -> Seq<SessionSummaryView> {
    Seq::new(
        sessions.len(),
        |i: int|
            SessionSummaryView {
                project: sessions[i].project,
                model: sessions[i].model,
                status: sessions[i].status,
                prompt_preview: sessions[i].prompt_preview,
                updated_at: sessions[i].updated_at,
            },
    )
}

/// What is shown of replies.
pub open spec fn replies_shown(replies: Seq<ReplyView>) -> Seq<ReplySummaryView> {
    Seq::new(
        replies.len(),
        |i: int|
            ReplySummaryView {
                reply_id: replies[i].reply_id,
                project: replies[i].project,
                model: replies[i].model,
                preview: security::preview(replies[i].content, 140),
                created_at: replies[i].created_at,
            },
    )
}

/// Whether one of these sessions is not over.
pub open spec fn any_lives(sessions: Seq<SessionView>) -> bool {
    exists|i: int| 0 <= i < sessions.len() && session_lives((#[trigger] sessions[i]).status)
}

/// What the desktop shows. Replies that have expired are dropped before.
pub open spec fn dashboard(s: StoreView, facts: DashboardFacts, now: i64) -> DashboardView {
    let sessions = store::status_sessions(s);
    let after = store::cleaned(s, now);
    let replies = store_rows::replies_asked(after, None, None, 8);
    let plugin = facts.manifest_present && facts.marketplace_listed;
    let running = cli::companion_runs(s, facts.daemon_started);
    let (pairing_active, expiry) = store::pairing_state(s, now);
    DashboardView {
        version: crate::VERSION@,
        integration_ready: facts.runtime_installed && plugin,
        runtime_installed: facts.runtime_installed,
        plugin_installed: plugin,
        credentials_configured: facts.app_id is Some,
        app_id_hint: match facts.app_id {
            Some(app_id) => Some(masked(app_id@)),
            None => None,
        },
        qq_bound: store::setting(s, "bound_openid"@) is Some,
        daemon_running: running,
        daemon_pid: match store::companion(s) {
            Some((pid, _)) => if running {
                Some(pid)
            } else {
                None
            },
            None => None,
        },
        standalone: running && store::setting(s, daemon::STANDALONE_SETTING@) == Some("1"@),
        codex_running: codex_runs(s, facts),
        muted: store::muted(s),
        permission_notifications: hook_event::switched_on(
            text::opt_text(facts.permission_setting),
        ),
        queue_pending: store::has_pending(after),
        pairing_active,
        pairing_expires_at: expiry,
        sessions: sessions_shown(sessions),
        recent_replies: replies_shown(replies),
    }
}

fn lives(status: &str) -> (result: bool)
    ensures
        result == session_lives(status@),
{
    text_eq(status, "running") || text_eq(status, "awaiting_approval") || text_eq(status, "idle")
}

fn hosts_run(store: &Store, started: &Vec<Option<i64>>) -> (result: bool)
    ensures
        result == daemon::any_host_runs(store::hosts_by_sight(store@), started@),
{
    let hosts = store.list_hosts();
    let ghost views = daemon::host_list(hosts@);
    assert(views == store::hosts_by_sight(store@));
    for i in 0..hosts.len()
        invariant
            views == daemon::host_list(hosts@),
            views == store::hosts_by_sight(store@),
            forall|j: int| 0 <= j < i ==> !#[trigger] daemon::host_runs(views, started@, j),
    {
        if i < started.len() && processes::process_matches(started[i], hosts[i].create_time) {
            assert(daemon::host_runs(views, started@, i as int));
            return true;
        }
        assert(!daemon::host_runs(views, started@, i as int));
    }
    assert(views.len() == hosts@.len());
    false
}

fn summarize_sessions(sessions: &Vec<SessionInfo>) -> (result: (Vec<SessionSummary>, bool))
    ensures
        session_summaries(result.0@) == sessions_shown(store::session_views(sessions@)),
        result.1 == any_lives(store::session_views(sessions@)),
{
    let ghost views = store::session_views(sessions@);
    let ghost shown = sessions_shown(views);
    let mut summaries: Vec<SessionSummary> = Vec::new();
    let mut living = false;
    assert(session_summaries(summaries@) =~= shown.take(0));
    for i in 0..sessions.len()
        invariant
            views == store::session_views(sessions@),
            shown == sessions_shown(views),
            session_summaries(summaries@) == shown.take(i as int),
            living == (exists|j: int| 0 <= j < i && session_lives((#[trigger] views[j]).status)),
    {
        let ghost held = session_summaries(summaries@);
        let session = &sessions[i];
        assert(views[i as int] == session@);
        if lives(session.status.as_str()) {
            assert(session_lives(views[i as int].status));
            living = true;
        }
        let summary = SessionSummary {
            project: session.project.clone(),
            model: session.model.clone(),
            status: session.status.clone(),
            prompt_preview: text::copied(&session.prompt_preview),
            updated_at: session.updated_at,
        };
        let ghost view = summary@;
        summaries.push(summary);
        assert(session_summaries(summaries@) =~= held.push(view));
        assert(shown.take(i + 1) =~= held.push(view));
    }
    assert(views.len() == sessions@.len());
    assert(shown.take(shown.len() as int) =~= shown);
    (summaries, living)
}

fn summarize_replies(replies: &Vec<LastReply>) -> (result: Vec<ReplySummary>)
    ensures
        reply_summaries(result@) == replies_shown(store::reply_views(replies@)),
{
    let ghost rows = store::reply_views(replies@);
    let ghost shown = replies_shown(rows);
    let mut recent: Vec<ReplySummary> = Vec::new();
    assert(reply_summaries(recent@) =~= shown.take(0));
    for i in 0..replies.len()
        invariant
            rows == store::reply_views(replies@),
            shown == replies_shown(rows),
            reply_summaries(recent@) == shown.take(i as int),
    {
        let ghost held = reply_summaries(recent@);
        let reply = &replies[i];
        assert(rows[i as int] == reply@);
        let summary = ReplySummary {
            reply_id: reply.reply_id,
            project: reply.project.clone(),
            model: reply.model.clone(),
            preview: security::prompt_preview(reply.content.as_str(), 140),
            created_at: reply.created_at,
        };
        let ghost view = summary@;
        recent.push(summary);
        assert(reply_summaries(recent@) =~= held.push(view));
        assert(shown.take(i + 1) =~= held.push(view));
    }
    assert(rows.len() == replies@.len());
    assert(shown.take(shown.len() as int) =~= shown);
    recent
}

/// What the desktop shows.
pub fn dashboard_state(store: &mut Store, facts: &DashboardFacts, now: i64) -> (result:
    DashboardState)
    ensures
        result@ == dashboard(old(store)@, *facts, now),
        final(store)@ == store::cleaned(old(store)@, now),
        store::consistent(old(store)@) ==> store::consistent(final(store)@),
{
    let sessions = store.get_sessions_for_status();
    let (summaries, living) = summarize_sessions(&sessions);
    let codex_running = living || hosts_run(store, &facts.hosts_started) || facts.host_discovered;
    let (daemon_running, daemon_pid) = match store.get_daemon_info() {
        Some((pid, created)) => if processes::process_matches(facts.daemon_started, created) {
            (true, Some(pid))
        } else {
            (false, None)
        },
        None => (false, None),
    };
    let wished = match store.get_setting(daemon::STANDALONE_SETTING) {
        Some(value) => text_eq(value.as_str(), "1"),
        None => false,
    };
    let qq_bound = store.get_bound_openid().is_some();
    let muted = store.is_muted();
    let (pairing_active, pairing_expires_at) = store.pairing_status_at(now);
    let app_id_hint = match &facts.app_id {
        Some(app_id) => Some(mask_app_id(app_id.as_str())),
        None => None,
    };
    let permission_notifications = match &facts.permission_setting {
        Some(value) => hook_event::permission_notifications_enabled(Some(value.as_str())),
        None => hook_event::permission_notifications_enabled(None),
    };
    let replies = store.get_last_replies_at(None, None, Some(8), now);
    let recent = summarize_replies(&replies);
    let plugin_installed = facts.manifest_present && facts.marketplace_listed;
    DashboardState {
        version: crate::VERSION,
        integration_ready: facts.runtime_installed && plugin_installed,
        runtime_installed: facts.runtime_installed,
        plugin_installed,
        credentials_configured: facts.app_id.is_some(),
        app_id_hint,
        qq_bound,
        daemon_running,
        daemon_pid,
        standalone: daemon_running && wished,
        codex_running,
        muted,
        permission_notifications,
        queue_pending: store.has_pending_outbox(),
        pairing_active,
        pairing_expires_at,
        sessions: summaries,
        recent_replies: recent,
    }
}

// ---------------------------------------------------------------------------
// The bridge
// ---------------------------------------------------------------------------

/// Whether the bridge can be started.
pub fn start_bridge(has_credentials: bool, runtime_installed: bool, plugin_installed: bool) -> (result:
    Result<(), String>)
    ensures
        match result {
            Ok(()) => has_credentials && runtime_installed && plugin_installed,
            Err(error) => if !has_credentials {
                error@ == "请先配置 QQ 机器人凭据"@
            } else {
                !(runtime_installed && plugin_installed) && error@ == "请先安装 Codex 集成"@
            },
        },
{
    if !has_credentials {
        return Err("请先配置 QQ 机器人凭据".to_owned());
    }
    if !runtime_installed || !plugin_installed {
        return Err("请先安装 Codex 集成".to_owned());
    }
    Ok(())
}

/// What is said once the bridge runs.
pub open spec fn started_text(s: StoreView, launched: bool) -> Seq<char> {
    if launched {
        match store::companion(s) {
            Some((pid, _)) => "桥接服务已启动"@ + "（PID "@ + text::decimal(pid as nat) + "）"@,
            None => "桥接服务已启动"@,
        }
    } else {
        "桥接服务已在运行，并已切换为常驻模式"@
    }
}

/// Records that the bridge runs on its own. `launched` says that it was started
/// only now.
pub fn bridge_started(store: &mut Store, launched: bool) -> (result: String)
    ensures
        final(store)@ == store::with_setting(
            old(store)@,
            daemon::STANDALONE_SETTING@,
            "1"@,
        ),
        result@ == started_text(final(store)@, launched),
        store::consistent(old(store)@) ==> store::consistent(final(store)@),
{
    store.set_setting(daemon::STANDALONE_SETTING, "1");
    if !launched {
        return "桥接服务已在运行，并已切换为常驻模式".to_owned();
    }
    let mut result = "桥接服务已启动".to_owned();
    match store.get_daemon_info() {
        Some((pid, _)) => {
            result.append("（PID ");
            let number = text::decimal_text(pid as u64);
            result.append(number.as_str());
            result.append("）");
        },
        None => {},
    }
    result
}

/// What stopping the bridge does first.
#[derive(Debug, PartialEq, Eq)]
pub enum BridgeStop {
    /// It does not run; what is said.
    Absent(String),
    /// Its process is stopped.
    Kill { pid: u32, created: i64 },
}

/// What stopping the bridge does first. `own` is the process of the desktop,
/// which is never stopped.
pub fn stop_bridge(store: &mut Store, started: Option<i64>, own: u32) -> (result: Result<
    BridgeStop,
    String,
>)
    ensures
        match store::companion(old(store)@) {
            None => (result matches Ok(BridgeStop::Absent(line)) && line@ == "桥接服务当前未运行"@)
                && final(store)@ == cli::unattended(old(store)@),
            Some((pid, created)) => if !cli::companion_runs(old(store)@, started) {
                (result matches Ok(BridgeStop::Absent(line)) && line@ == "已清理失效的桥接进程记录"@)
                    && final(store)@ == cli::unattended(store::companion_cleared(old(store)@, pid))
            } else if pid == own {
                (result matches Err(error) && error@ == "安全检查阻止了停止当前桌面进程"@)
                    && final(store)@ == old(store)@
            } else {
                result == Ok::<BridgeStop, String>(BridgeStop::Kill { pid, created })
                    && final(store)@ == old(store)@
            },
        },
        store::consistent(old(store)@) ==> store::consistent(final(store)@),
{
    let recorded = store.get_daemon_info().is_some();
    match cli::command_stop(store, started) {
        cli::StopStep::Kill { pid, created } => if pid == own {
            Err("安全检查阻止了停止当前桌面进程".to_owned())
        } else {
            Ok(BridgeStop::Kill { pid, created })
        },
        cli::StopStep::Absent(_) => if recorded {
            Ok(BridgeStop::Absent("已清理失效的桥接进程记录".to_owned()))
        } else {
            Ok(BridgeStop::Absent("桥接服务当前未运行".to_owned()))
        },
    }
}

/// How the end of the process of the bridge was waited for.
#[derive(Debug, Clone, Copy, PartialEq, Eq, Structural)]
pub enum BridgeKill {
    /// It could not be stopped.
    Refused,
    /// It did not end in time.
    StillRuns,
    Ended,
}

/// Clears the record of the bridge once its process has ended.
pub fn bridge_stopped(store: &mut Store, pid: u32, kill: BridgeKill) -> (result: Result<
    String,
    String,
>)
    ensures
        match kill {
            BridgeKill::Refused => (result matches Err(error) && error@
                == "无法停止 CodexBot 桥接进程（PID "@ + text::decimal(pid as nat) + "）"@)
                && final(store)@ == old(store)@,
            BridgeKill::StillRuns => (result matches Err(error) && error@ == "桥接进程（PID "@
                + text::decimal(pid as nat) + "）未在预期时间内退出"@) && final(store)@
                == old(store)@,
            BridgeKill::Ended => (result matches Ok(line) && line@
                == "桥接服务已停止；Codex Hooks 会在需要时重新唤起它"@) && final(store)@
                == cli::unattended(store::companion_cleared(old(store)@, pid)),
        },
        store::consistent(old(store)@) ==> store::consistent(final(store)@),
{
    let number = text::decimal_text(pid as u64);
    match kill {
        BridgeKill::Refused => {
            let mut error = "无法停止 CodexBot 桥接进程（PID ".to_owned();
            error.append(number.as_str());
            error.append("）");
            Err(error)
        },
        BridgeKill::StillRuns => {
            let mut error = "桥接进程（PID ".to_owned();
            error.append(number.as_str());
            error.append("）未在预期时间内退出");
            Err(error)
        },
        BridgeKill::Ended => {
            let _ = cli::stop_killed(store, pid, true);
            Ok("桥接服务已停止；Codex Hooks 会在需要时重新唤起它".to_owned())
        },
    }
}

/// What is said once the plugin was installed.
pub fn install_message(runtime_updated: bool, plugin: &str) -> (result: String)
    ensures
        result@ == "Codex 集成已安装"@ + (if runtime_updated {
            "并更新本地运行时"@
        } else {
            ""@
        }) + "；插件位置："@ + plugin@,
{
    let mut result = "Codex 集成已安装".to_owned();
    if runtime_updated {
        result.append("并更新本地运行时");
    } else {
        result.append("");
    }
    result.append("；插件位置：");
    result.append(plugin);
    result
}

} // verus!
