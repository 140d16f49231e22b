//! The commands of the command line.
use vstd::prelude::*;
use crate::clock;
use crate::commands;
use crate::daemon;
use crate::digest;
use crate::hook_event;
use crate::json;
use crate::json::{Json, JsonView};
use crate::processes;
use crate::qq_client;
use crate::security;
use crate::store;
use crate::store::{Store, StoreView};
use crate::store_ops;
use crate::text;
use crate::text::text_eq;

verus! {

/// How long a pairing code is valid, in microseconds.
pub const PAIRING_TTL: i64 = 1_800_000_000;

// ---------------------------------------------------------------------------
// Texts
// ---------------------------------------------------------------------------

/// Whether an argument asks for the command line.
pub open spec fn asks_for_command(argument: Seq<char>) -> bool {
    argument == "setup"@ || argument == "pair"@ || argument == "doctor"@ || argument == "start"@
        || argument == "stop"@ || argument == "daemon"@ || argument == "hook"@ || argument
        == "--help"@ || argument == "-h"@ || argument == "--version"@ || argument == "-V"@
}

/// Whether the first argument asks for the command line.
pub fn cli_command_requested(argument: Option<&str>) -> (result: bool)
    ensures
        result == (text::opt_str(argument) matches Some(given) && asks_for_command(given)),
{
    match argument {
        Some(given) => text_eq(given, "setup") || text_eq(given, "pair") || text_eq(
            given,
            "doctor",
        ) || text_eq(given, "start") || text_eq(given, "stop") || text_eq(given, "daemon")
            || text_eq(given, "hook") || text_eq(given, "--help") || text_eq(given, "-h")
            || text_eq(given, "--version") || text_eq(given, "-V"),
        None => false,
    }
}

/// The status of the process for a code.
pub fn exit_status(code: i32) -> (result: u8)
    ensures
        result == (if code < 0 {
            0int
        } else if code > 255 {
            255int
        } else {
            code as int
        }),
{
    if code < 0 {
        0
    } else if code > 255 {
        255
    } else {
        code as u8
    }
}

/// What is printed of an error.
pub fn error_line(error: &str) -> (result: String)
    ensures
        result@ == "错误："@ + security::without_breaks(security::redacted(error@)),
{
    let redacted = security::redact_secrets(error);
    let first = text::replace_char(redacted.as_str(), '\r', ' ');
    let second = text::replace_char(first.as_str(), '\n', ' ');
    qq_client::headed("错误：", second.as_str())
}

/// The home of the user, from the variables that may name it.
pub fn home_dir(profile: Option<&str>, home: Option<&str>) -> (result: String)
    ensures
        result@ == (match (text::opt_str(profile), text::opt_str(home)) {
            (Some(profile), _) => profile,
            (None, Some(home)) => home,
            (None, None) => "."@,
        }),
{
    match profile {
        Some(profile) => profile.to_owned(),
        None => match home {
            Some(home) => home.to_owned(),
            None => ".".to_owned(),
        },
    }
}

/// Whether a variable is set to something that means yes.
pub fn truthy_environment(value: Option<&str>) -> (result: bool)
    ensures
        result == hook_event::switched_on(text::opt_str(value)),
{
    hook_event::permission_notifications_enabled(value)
}

/// What another program said, on one redacted line of at most `limit`
/// characters.
pub fn safe_cli_text(value: &str, limit: usize) -> (result: String)
    ensures
        result@ == commands::field_shown(Some(value@), "外部命令失败"@, limit as nat),
{
    commands::safe_field(Some(value), "外部命令失败", limit)
}

// ---------------------------------------------------------------------------
// Pairing
// ---------------------------------------------------------------------------

/// The state with a code that waits for its user.
pub open spec fn pairing_made(s: StoreView, code: Seq<char>, expiry: int) -> StoreView {
    store::with_setting(
        store::with_setting(
            s,
            "pairing_hash"@,
            digest::text_digest(security::pairing_key(code)),
        ),
        "pairing_expires_at"@,
        clock::seconds_shown(expiry),
    )
}

/// Lets a given code wait for its user. Tells when it expires.
pub fn create_pairing_with(store: &mut Store, code: &str, now: i64) -> (result: i64)
    ensures
        result == clock::moved(now as int, PAIRING_TTL as int),
        final(store)@ == pairing_made(old(store)@, code@, result as int),
        store::consistent(old(store)@) ==> store::consistent(final(store)@),
{
    let expiry: i64 = clock::move_by(now, PAIRING_TTL);
    store.create_pairing(code, expiry);
    expiry
}

/// Lets a random code wait for its user. Tells the code and when it expires.
pub fn create_pairing(store: &mut Store, now: i64) -> (result: (String, i64))
    ensures
        result.1 == clock::moved(now as int, PAIRING_TTL as int),
        final(store)@ == pairing_made(old(store)@, result.0@, result.1 as int),
        exists|draws: Seq<u32>|
            draws.len() == 8 && result.0@ == #[trigger] security::drawn_code(draws),
        store::consistent(old(store)@) ==> store::consistent(final(store)@),
{
    let code = security::generate_pairing_code();
    let expiry: i64 = create_pairing_with(store, code.as_str(), now);
    (code, expiry)
}

/// What is printed of a new code, with the local time at which it expires.
pub open spec fn pair_text(code: Seq<char>, expiry: Seq<char>) -> Seq<Seq<char>> {
    seq![
        "一次性配对码："@ + code,
        "有效期至："@ + expiry,
        "请用沙箱 QQ 私聊机器人发送：/bind "@ + code,
    ]
}

/// What is printed of a new code.
pub fn pair_lines(code: &str, expiry: &Option<String>) -> (result: Result<Vec<String>, String>)
    ensures
        match result {
            Ok(lines) => text::opt_text(*expiry) matches Some(shown) && text::texts(lines@)
                == pair_text(code@, shown),
            Err(error) => expiry is None && error@ == "配对码到期时间无效"@,
        },
{
    match expiry {
        Some(shown) => {
            let mut lines: Vec<String> = Vec::new();
            lines.push(qq_client::headed("一次性配对码：", code));
            lines.push(qq_client::headed("有效期至：", shown.as_str()));
            lines.push(qq_client::headed("请用沙箱 QQ 私聊机器人发送：/bind ", code));
            assert(text::texts(lines@) =~= pair_text(code@, shown@));
            Ok(lines)
        },
        None => Err("配对码到期时间无效".to_owned()),
    }
}

/// What is printed of a code, and the state in which it waits, on a clock that
/// has the given offset when the code expires.
pub open spec fn paired(
    s: StoreView,
    code: Seq<char>,
    offset: i32,
    now: i64,
    result: Result<Vec<String>, String>,
    after: StoreView,
) -> bool {
    let expiry = clock::moved(now as int, PAIRING_TTL as int);
    let shown = clock::zone_shown(expiry, offset, "%Y-%m-%d %H:%M:%S"@);
    &&& clock::told(expiry, offset, "%Y-%m-%d %H:%M:%S"@)
    &&& after == pairing_made(s, code, expiry)
    &&& match result {
        Ok(lines) => shown matches Some(shown) && text::texts(lines@) == pair_text(code, shown),
        Err(error) => shown is None && error@ == "配对码到期时间无效"@,
    }
}

/// Makes a code that waits for its user, and tells what is printed of it,
/// wherever the time of its expiry can be shown. The code is random and the
/// zone of the machine is left open.
pub fn command_pair(store: &mut Store, now: i64) -> (result: Result<Vec<String>, String>)
    ensures
        result is Ok == clock::has_moment(
            clock::whole_seconds(clock::moved(now as int, PAIRING_TTL as int)),
        ),
        exists|draws: Seq<u32>, offset: i32|
            draws.len() == 8 && #[trigger] paired(
                old(store)@,
                security::drawn_code(draws),
                offset,
                now,
                result,
                final(store)@,
            ),
        store::consistent(old(store)@) ==> store::consistent(final(store)@),
{
    let (code, expiry) = create_pairing(store, now);
    let shown = clock::local_time(expiry, "%Y-%m-%d %H:%M:%S");
    let ghost draws = choose|draws: Seq<u32>|
        draws.len() == 8 && code@ == #[trigger] security::drawn_code(draws);
    let ghost offset = choose|offset: i32|
        clock::told(expiry as int, offset, "%Y-%m-%d %H:%M:%S"@) && text::opt_text(shown)
            == #[trigger] clock::zone_shown(expiry as int, offset, "%Y-%m-%d %H:%M:%S"@);
    let result = pair_lines(code.as_str(), &shown);
    assert(paired(old(store)@, security::drawn_code(draws), offset, now, result, store@));
    result
}

/// A code that was just made fits until it expires, half an hour later. Once
/// it has bound somebody it fits no more, and a code that waited before it
/// fits no more from the start, unless the two have one digest.
pub proof fn lemma_new_code_fits(
    s: StoreView,
    code: Seq<char>,
    earlier: Seq<char>,
    openid: Seq<char>,
    now: i64,
    later: i64,
    again: i64,
)
    ensures
        ({
            let expiry = clock::moved(now as int, PAIRING_TTL as int);
            let made = pairing_made(s, code, expiry);
            &&& now + PAIRING_TTL <= i64::MAX ==> expiry == now + PAIRING_TTL
            &&& store::pairing_fits(made, code, later) == (later <= expiry)
            &&& !store::pairing_fits(store::bound(made, openid, later), code, again)
            &&& digest::text_digest(security::pairing_key(earlier)) != digest::text_digest(
                security::pairing_key(code),
            ) ==> !store::pairing_fits(made, earlier, later)
        }),
{
    let expiry = clock::moved(now as int, PAIRING_TTL as int);
    clock::lemma_seconds_read_back(expiry);
    commands::lemma_code_serves_once(pairing_made(s, code, expiry), openid, code, later, again);
    reveal_strlit("pairing_hash");
    reveal_strlit("pairing_expires_at");
    assert("pairing_hash"@.len() != "pairing_expires_at"@.len());
}

/// The command that is printed for a new code binds whoever sends it before the
/// code expires.
pub proof fn lemma_printed_command_binds(
    s: StoreView,
    draws: Seq<u32>,
    made_at: i64,
    openid: Seq<char>,
    message_id: Seq<char>,
    stamps: Seq<Option<Seq<char>>>,
    now: i64,
)
    requires
        draws.len() == 8,
        now <= clock::moved(made_at as int, PAIRING_TTL as int),
        !store_ops::message_known(s, message_id),
    ensures
        ({
            let code = security::drawn_code(draws);
            let made = pairing_made(s, code, clock::moved(made_at as int, PAIRING_TTL as int));
            let (after, step) = commands::message_step(
                made,
                openid,
                message_id,
                "/bind "@ + code,
                stamps,
                now,
            );
            &&& store::setting(after, "bound_openid"@) == Some(openid)
            &&& step is Probe
        }),
{
    let code = security::drawn_code(draws);
    let expiry = clock::moved(made_at as int, PAIRING_TTL as int);
    let made = pairing_made(s, code, expiry);
    let noted = store_ops::message_noted(made, message_id, now);
    commands::lemma_code_is_read_back(draws);
    lemma_new_code_fits(s, code, code, openid, made_at, now, now);
    commands::lemma_code_serves_once(noted, openid, code, now, now);
    assert(!store_ops::message_known(made, message_id));
    assert(store::pairing_fits(noted, code, now) == store::pairing_fits(made, code, now));
}

/// What is printed after the setup.
pub open spec fn setup_text(
    plugin: Seq<char>,
    marketplace: Seq<char>,
    output: Seq<char>,
    code: Seq<char>,
    expiry: Seq<char>,
) -> Seq<Seq<char>> {
    let head = seq!["插件已安装："@ + plugin, "个人 marketplace："@ + marketplace];
    (if output.len() > 0 {
        head.push(commands::field_shown(Some(output), "外部命令失败"@, 300))
    } else {
        head
    }).push(""@).push("接下来："@).push(
        "1. 重启 Codex，在 /hooks 中检查并信任 codexbot Hooks。"@,
    ).push("2. 确认 QQ 已加入机器人沙箱并允许机器人主动发送。"@).push(
        "3. 在 "@ + expiry + " 前私聊发送：/bind "@ + code,
    )
}

/// What is printed after the setup.
pub fn command_setup(
    plugin: &str,
    marketplace: &str,
    output: &str,
    code: &str,
    expiry: &str,
) -> (result: Vec<String>)
    ensures
        text::texts(result@) == setup_text(plugin@, marketplace@, output@, code@, expiry@),
{
    let mut lines: Vec<String> = Vec::new();
    lines.push(qq_client::headed("插件已安装：", plugin));
    lines.push(qq_client::headed("个人 marketplace：", marketplace));
    if !output.is_empty() {
        lines.push(safe_cli_text(output, 300));
    }
    lines.push("".to_owned());
    lines.push("接下来：".to_owned());
    lines.push("1. 重启 Codex，在 /hooks 中检查并信任 codexbot Hooks。".to_owned());
    lines.push("2. 确认 QQ 已加入机器人沙箱并允许机器人主动发送。".to_owned());
    let mut last = "3. 在 ".to_owned();
    last.append(expiry);
    last.append(" 前私聊发送：/bind ");
    last.append(code);
    lines.push(last);
    assert(text::texts(lines@) =~= setup_text(plugin@, marketplace@, output@, code@, expiry@));
    lines
}

/// The local time of day at which a code expires. The zone of the machine is
/// left open.
pub fn expiry_time(expiry: i64) -> (result: Result<String, String>)
    ensures
        result is Ok == clock::has_moment(clock::whole_seconds(expiry as int)),
        exists|offset: i32|
            clock::told(expiry as int, offset, "%H:%M:%S"@) && match (
                #[trigger] clock::zone_shown(expiry as int, offset, "%H:%M:%S"@),
                result,
            ) {
                (Some(shown), Ok(result)) => result@ == shown,
                (None, Err(error)) => error@ == "配对码到期时间无效"@,
                _ => false,
            },
{
    match clock::local_time(expiry, "%H:%M:%S") {
        Some(shown) => Ok(shown),
        None => Err("配对码到期时间无效".to_owned()),
    }
}

// ---------------------------------------------------------------------------
// The plugin
// ---------------------------------------------------------------------------

/// Whether a text names the plugin.
pub open spec fn names_plugin(value: Seq<char>) -> bool {
    value == "codexbot"@ || text::begins(value, "codexbot@"@)
}

pub open spec fn member_names_plugin(value: JsonView, key: Seq<char>) -> bool {
    match value.text_at(key) {
        Some(named) => names_plugin(named),
        None => false,
    }
}

/// Whether a report names the plugin anywhere: as a text, or under a name that
/// identifies an entry.
pub open spec fn reports_plugin(value: JsonView) -> bool
    decreases value,
{
    match value {
        JsonView::Text(shown) => names_plugin(shown),
        JsonView::List(items) => items_report(items).contains(true),
        JsonView::Object(members) => member_names_plugin(value, "name"@) || member_names_plugin(
            value,
            "id"@,
        ) || member_names_plugin(value, "ref"@) || member_names_plugin(value, "identifier"@)
            || member_names_plugin(value, "plugin"@) || member_names_plugin(value, "pluginId"@)
            || members_report(members).contains(true),
        _ => false,
    }
}

pub open spec fn items_report(items: Seq<JsonView>) -> Seq<bool>
    decreases items,
{
    Seq::new(
        items.len(),
        |i: int| 0 <= i < items.len() && reports_plugin(items[i]),
    )
}

pub open spec fn members_report(members: Seq<(Seq<char>, JsonView)>) -> Seq<bool>
    decreases members,
{
    Seq::new(
        members.len(),
        |i: int| 0 <= i < members.len() && reports_plugin(members[i].1),
    )
}

fn text_names_plugin(value: &str) -> (result: bool)
    ensures
        result == names_plugin(value@),
{
    text_eq(value, "codexbot") || text::starts_with(value, "codexbot@")
}

fn names_under(value: &Json, key: &str) -> (result: bool)
    ensures
        result == member_names_plugin(value@, key@),
{
    match value.text_at(key) {
        Some(named) => text_names_plugin(named),
        None => false,
    }
}

/// Whether a report names the plugin anywhere.
pub fn json_reports_plugin(value: &Json) -> (result: bool)
    ensures
        result == reports_plugin(value@),
    decreases value,
{
    match value {
        Json::Text(shown) => text_names_plugin(shown.as_str()),
        Json::List(items) => {
            let ghost flags = items_report(value@->List_0);
            for i in 0..items.len()
                invariant
                    value == Json::List(*items),
                    flags.len() == items@.len(),
                    flags == items_report(value@->List_0),
                    forall|j: int|
                        0 <= j < items@.len() ==> #[trigger] flags[j] == reports_plugin(
                            items@[j]@,
                        ),
                    forall|j: int| 0 <= j < i ==> !#[trigger] flags[j],
            {
                assert(decreases_to!(value => value->List_0));
                assert(decreases_to!(*items => items@));
                assert(decreases_to!(items@ => items@[i as int]));
                if json_reports_plugin(&items[i]) {
                    assert(flags[i as int]);
                    return true;
                }
            }
            false
        },
        Json::Object(members) => {
            if names_under(value, "name") || names_under(value, "id") || names_under(value, "ref")
                || names_under(value, "identifier") || names_under(value, "plugin") || names_under(
                value,
                "pluginId",
            ) {
                return true;
            }
            let ghost flags = members_report(value@->Object_0);
            for i in 0..members.len()
                invariant
                    value == Json::Object(*members),
                    flags.len() == members@.len(),
                    flags == members_report(value@->Object_0),
                    forall|j: int|
                        0 <= j < members@.len() ==> #[trigger] flags[j] == reports_plugin(
                            members@[j].1@,
                        ),
                    forall|j: int| 0 <= j < i ==> !#[trigger] flags[j],
            {
                assert(decreases_to!(value => value->Object_0));
                assert(decreases_to!(*members => members@));
                assert(decreases_to!(members@ => members@[i as int]));
                assert(decreases_to!(members@[i as int] => members@[i as int].1));
                if json_reports_plugin(&members[i].1) {
                    assert(flags[i as int]);
                    return true;
                }
            }
            false
        },
        _ => false,
    }
}

/// How the list of plugins was got.
#[derive(Debug, PartialEq, Eq)]
pub enum PluginListing {
    /// There is no Codex to ask.
    NoCommand,
    /// Codex could not be asked; the message of the error.
    Failed(String),
    /// Codex answered; whether it went well, and what it wrote.
    Answered { success: bool, stdout: Vec<u8>, stderr: Vec<u8> },
}

/// Whether the plugin is installed, and what is said of it.
pub open spec fn plugin_state(listing: PluginListing) -> (bool, Seq<char>) {
    match listing {
        PluginListing::NoCommand => (false, "找不到 codex/codex.cmd"@),
        PluginListing::Failed(error) => (
            false,
            commands::field_shown(Some(error@), "外部命令失败"@, 180),
        ),
        PluginListing::Answered { success, stdout, stderr } => if success {
            match json::read_json(stdout@) {
                Ok(report) => if reports_plugin(report) {
                    (true, "已安装并启用"@)
                } else {
                    (false, "Codex 未报告已安装的 codexbot"@)
                },
                Err((_, message)) => (
                    false,
                    commands::field_shown(Some(message), "外部命令失败"@, 180),
                ),
            }
        } else {
            (
                false,
                commands::field_shown(
                    Some(
                        qq_client::lossy_text(
                            if stderr@.len() == 0 {
                                stdout@
                            } else {
                                stderr@
                            },
                        ),
                    ),
                    "外部命令失败"@,
                    180,
                ),
            )
        },
    }
}

/// Whether the plugin is installed, and what is said of it.
pub fn codex_plugin_installed(listing: &PluginListing) -> (result: (bool, String))
    ensures
        (result.0, result.1@) == plugin_state(*listing),
{
    match listing {
        PluginListing::NoCommand => (false, "找不到 codex/codex.cmd".to_owned()),
        PluginListing::Failed(error) => (false, safe_cli_text(error.as_str(), 180)),
        PluginListing::Answered { success, stdout, stderr } => {
            if *success {
                match json::parse_json_or_fault(stdout.as_slice()) {
                    Ok(report) => if json_reports_plugin(&report) {
                        (true, "已安装并启用".to_owned())
                    } else {
                        (false, "Codex 未报告已安装的 codexbot".to_owned())
                    },
                    Err((_, message)) => (false, safe_cli_text(message.as_str(), 180)),
                }
            } else {
                let shown = if stderr.len() == 0 {
                    qq_client::from_utf8_lossy(stdout.as_slice())
                } else {
                    qq_client::from_utf8_lossy(stderr.as_slice())
                };
                (false, safe_cli_text(shown.as_str(), 180))
            }
        },
    }
}

// ---------------------------------------------------------------------------
// The doctor
// ---------------------------------------------------------------------------

/// A text that is not empty under a name.
pub open spec fn filled_at(value: JsonView, key: Seq<char>) -> Option<Seq<char>> {
    match value.text_at(key) {
        Some(found) => if found.len() > 0 {
            Some(found)
        } else {
            None
        },
        None => None,
    }
}

/// The access token in an answer of the service.
pub fn online_token(answer: &Json) -> (result: Result<String, String>)
    ensures
        match result {
            Ok(token) => filled_at(answer@, "access_token"@) == Some(token@),
            Err(error) => filled_at(answer@, "access_token"@) is None && error@
                == "QQ 沙箱认证未返回 access_token"@,
        },
{
    match answer.text_at("access_token") {
        Some(token) => if token.is_empty() {
            Err("QQ 沙箱认证未返回 access_token".to_owned())
        } else {
            Ok(token.to_owned())
        },
        None => Err("QQ 沙箱认证未返回 access_token".to_owned()),
    }
}

/// Whether an answer of the service names its gateway.
pub fn qq_online_check(answer: &Json) -> (result: Result<(), String>)
    ensures
        match result {
            Ok(()) => filled_at(answer@, "url"@) is Some,
            Err(error) => filled_at(answer@, "url"@) is None && error@
                == "QQ 沙箱 API 未返回 Gateway URL"@,
        },
{
    match answer.text_at("url") {
        Some(url) => if url.is_empty() {
            Err("QQ 沙箱 API 未返回 Gateway URL".to_owned())
        } else {
            Ok(())
        },
        None => Err("QQ 沙箱 API 未返回 Gateway URL".to_owned()),
    }
}

/// What is found on the machine.
#[derive(Debug, PartialEq, Eq)]
pub struct DoctorFacts {
    pub executable: String,
    pub executable_present: bool,
    pub credentials_present: bool,
    pub manifest: String,
    pub manifest_present: bool,
    pub marketplace: String,
    pub marketplace_listed: bool,
    pub plugin: PluginListing,
    /// When the process that is recorded as the companion was started, if it is
    /// there.
    pub daemon_started: Option<i64>,
    /// What the service said, unless it is not to be asked; the message of the
    /// error where it failed.
    pub online: Option<Result<(), String>>,
    pub data_dir: String,
}

/// One result of the doctor.
#[derive(Debug, PartialEq, Eq)]
pub struct Check {
    pub label: String,
    pub ok: bool,
    pub detail: String,
    pub required: bool,
}

pub struct CheckView {
    pub label: Seq<char>,
    pub ok: bool,
    pub detail: Seq<char>,
    pub required: bool,
}

impl Check {
    pub open spec fn view(&self) -> CheckView {
        CheckView {
            label: self.label@,
            ok: self.ok,
            detail: self.detail@,
            required: self.required,
        }
    }
}

pub open spec fn check_views(checks: Seq<Check>) -> Seq<CheckView> {
    Seq::new(checks.len(), |i: int| checks[i]@)
}

/// Whether the recorded companion runs.
pub open spec fn companion_runs(s: StoreView, started: Option<i64>) -> bool {
    match store::companion(s) {
        Some((_, created)) => processes::same_process(
            started,
            created as int,
            processes::START_TOLERANCE as int,
        ),
        None => false,
    }
}

/// The result on the service.
pub open spec fn online_check(facts: DoctorFacts) -> Seq<CheckView> {
    match facts.online {
        None => Seq::empty(),
        Some(answer) => seq![
            CheckView {
                label: "QQ 沙箱连接"@,
                ok: facts.credentials_present && answer is Ok,
                detail: if !facts.credentials_present {
                    "未配置凭据"@
                } else {
                    match answer {
                        Ok(()) => "沙箱认证与 Gateway 检查成功"@,
                        Err(error) => commands::field_shown(
                            Some(error@),
                            "外部命令失败"@,
                            180,
                        ),
                    }
                },
                required: true,
            },
        ],
    }
}

/// The results of the doctor.
pub open spec fn doctor_checks(s: StoreView, facts: DoctorFacts) -> Seq<CheckView> {
    let (installed, detail) = plugin_state(facts.plugin);
    let bound = store::setting(s, "bound_openid"@) is Some;
    let running = companion_runs(s, facts.daemon_started);
    seq![
        CheckView {
            label: "原生运行时"@,
            ok: facts.executable_present,
            detail: facts.executable@,
            required: true,
        },
        CheckView {
            label: "QQ 凭据"@,
            ok: facts.credentials_present,
            detail: if facts.credentials_present {
                "已存入凭据管理器"@
            } else {
                "缺失"@
            },
            required: true,
        },
        CheckView {
            label: "个人插件文件"@,
            ok: facts.manifest_present,
            detail: facts.manifest@,
            required: true,
        },
        CheckView {
            label: "Marketplace 条目"@,
            ok: facts.marketplace_listed,
            detail: facts.marketplace@,
            required: true,
        },
        CheckView { label: "Codex 插件状态"@, ok: installed, detail, required: true },
        CheckView {
            label: "QQ 单用户绑定"@,
            ok: bound,
            detail: if bound {
                "已绑定"@
            } else {
                "尚未绑定"@
            },
            required: false,
        },
        CheckView {
            label: "伴随进程"@,
            ok: running,
            detail: if running {
                "PID "@ + text::decimal(recorded_pid(s))
            } else {
                "当前未运行"@
            },
            required: false,
        },
    ] + online_check(facts)
}

/// The line of a result.
pub open spec fn check_line(check: CheckView) -> Seq<char> {
    "["@ + (if check.ok {
        "OK"@
    } else if check.required {
        "FAIL"@
    } else {
        "WARN"@
    }) + "] "@ + check.label + ": "@ + check.detail
}

/// Whether a result that has to be good is not.
pub open spec fn any_failed(checks: Seq<CheckView>) -> bool {
    exists|i: int| 0 <= i < checks.len() && (#[trigger] checks[i]).required && !checks[i].ok
}

/// What the doctor prints.
pub open spec fn doctor_text(s: StoreView, facts: DoctorFacts) -> Seq<Seq<char>> {
    let checks = doctor_checks(s, facts);
    Seq::new(checks.len(), |i: int| check_line(checks[i])).push(
        "[INFO] 数据目录: "@ + facts.data_dir@,
    ).push(
        "[INFO] 常驻模式: "@ + (if store::setting(s, daemon::STANDALONE_SETTING@) == Some("1"@) {
            "是"@
        } else {
            "否"@
        }),
    ).push("[INFO] Hook 信任状态需在 Codex /hooks 中人工确认。"@)
}

fn check(label: &str, ok: bool, detail: &str, required: bool) -> (result: Check)
    ensures
        result@ == (CheckView { label: label@, ok, detail: detail@, required }),
{
    Check { label: label.to_owned(), ok, detail: detail.to_owned(), required }
}

fn is_standalone(store: &Store) -> (result: bool)
    ensures
        result == (store::setting(store@, daemon::STANDALONE_SETTING@) == Some("1"@)),
{
    match store.get_setting(daemon::STANDALONE_SETTING) {
        Some(value) => text_eq(value.as_str(), "1"),
        None => false,
    }
}

fn run_checks(store: &Store, facts: &DoctorFacts) -> (result: Vec<Check>)
    ensures
        check_views(result@) == doctor_checks(store@, *facts),
{
    let mut checks: Vec<Check> = Vec::new();
    checks.push(
        check("原生运行时", facts.executable_present, facts.executable.as_str(), true),
    );
    let stored = if facts.credentials_present {
        "已存入凭据管理器"
    } else {
        "缺失"
    };
    checks.push(check("QQ 凭据", facts.credentials_present, stored, true));
    checks.push(check("个人插件文件", facts.manifest_present, facts.manifest.as_str(), true));
    checks.push(
        check("Marketplace 条目", facts.marketplace_listed, facts.marketplace.as_str(), true),
    );
    let (installed, detail) = codex_plugin_installed(&facts.plugin);
    checks.push(check("Codex 插件状态", installed, detail.as_str(), true));
    let bound = store.get_bound_openid().is_some();
    checks.push(
        check(
            "QQ 单用户绑定",
            bound,
            if bound {
                "已绑定"
            } else {
                "尚未绑定"
            },
            false,
        ),
    );
    let (running, shown) = match store.get_daemon_info() {
        Some((pid, created)) => if processes::process_matches(facts.daemon_started, created) {
            let number = text::decimal_text(pid as u64);
            (true, qq_client::headed("PID ", number.as_str()))
        } else {
            (false, "当前未运行".to_owned())
        },
        None => (false, "当前未运行".to_owned()),
    };
    checks.push(check("伴随进程", running, shown.as_str(), false));
    match &facts.online {
        Some(answer) => {
            let reached = match answer {
                Ok(()) => true,
                Err(_) => false,
            };
            let said = if !facts.credentials_present {
                "未配置凭据".to_owned()
            } else {
                match answer {
                    Ok(()) => "沙箱认证与 Gateway 检查成功".to_owned(),
                    Err(error) => safe_cli_text(error.as_str(), 180),
                }
            };
            checks.push(
                check("QQ 沙箱连接", facts.credentials_present && reached, said.as_str(), true),
            );
        },
        None => {},
    }
    assert(check_views(checks@) =~= doctor_checks(store@, *facts));
    checks
}

fn line_of(check: &Check) -> (result: String)
    ensures
        result@ == check_line(check@),
{
    let mut line = "[".to_owned();
    let marker = if check.ok {
        "OK"
    } else if check.required {
        "FAIL"
    } else {
        "WARN"
    };
    line.append(marker);
    line.append("] ");
    line.append(check.label.as_str());
    line.append(": ");
    line.append(check.detail.as_str());
    line
}

/// What the doctor prints, and the code with which it ends: one where something
/// that has to be good is not.
pub fn command_doctor(store: &Store, facts: &DoctorFacts) -> (result: (Vec<String>, i32))
    ensures
        text::texts(result.0@) == doctor_text(store@, *facts),
        result.1 == (if any_failed(doctor_checks(store@, *facts)) {
            1int
        } else {
            0int
        }),
{
    let checks = run_checks(store, facts);
    let ghost views = check_views(checks@);
    let ghost shown = Seq::new(views.len(), |i: int| check_line(views[i]));
    let mut lines: Vec<String> = Vec::new();
    let mut failed = false;
    assert(text::texts(lines@) =~= shown.take(0));
    for i in 0..checks.len()
        invariant
            views == check_views(checks@),
            shown == Seq::new(views.len(), |i: int| check_line(views[i])),
            text::texts(lines@) == shown.take(i as int),
            failed == (exists|j: int|
                0 <= j < i && (#[trigger] views[j]).required && !views[j].ok),
    {
        let ghost held = text::texts(lines@);
        assert(views[i as int] == checks@[i as int]@);
        lines.push(line_of(&checks[i]));
        assert(text::texts(lines@) =~= held.push(shown[i as int]));
        assert(shown.take(i + 1) =~= held.push(shown[i as int]));
        if checks[i].required && !checks[i].ok {
            assert(views[i as int].required && !views[i as int].ok);
            failed = true;
        }
    }
    assert(shown.take(views.len() as int) =~= shown);
    let ghost listed = text::texts(lines@);
    lines.push(qq_client::headed("[INFO] 数据目录: ", facts.data_dir.as_str()));
    let mode = if is_standalone(store) {
        "是"
    } else {
        "否"
    };
    lines.push(qq_client::headed("[INFO] 常驻模式: ", mode));
    lines.push("[INFO] Hook 信任状态需在 Codex /hooks 中人工确认。".to_owned());
    assert(text::texts(lines@) =~= doctor_text(store@, *facts));
    let code: i32 = if failed {
        1
    } else {
        0
    };
    (lines, code)
}

// ---------------------------------------------------------------------------
// Start and stop
// ---------------------------------------------------------------------------

/// What `start` does first.
#[derive(Debug, PartialEq, Eq)]
pub enum StartStep {
    /// The companion runs already; what is printed.
    Running(String),
    /// The companion is started.
    Launch,
}

/// What is printed of a companion that runs.
pub open spec fn running_text(s: StoreView) -> Seq<char> {
    "CodexBot 伴随进程已在运行（PID "@ + text::decimal(recorded_pid(s)) + "，"@ + (
    if store::setting(s, daemon::STANDALONE_SETTING@) == Some("1"@) {
        "常驻运行中"@
    } else {
        "运行中（跟随 Codex）"@
    }) + "）。"@
}

/// What `start` does first. `started` is when the process that is recorded as
/// the companion was started, if it is there.
pub fn command_start(store: &Store, started: Option<i64>, has_credentials: bool) -> (result: Result<
    StartStep,
    String,
>)
    ensures
        match result {
            Ok(StartStep::Running(line)) => companion_runs(store@, started) && line@
                == running_text(store@),
            Ok(StartStep::Launch) => !companion_runs(store@, started) && has_credentials,
            Err(error) => !companion_runs(store@, started) && !has_credentials && error@
                == "未配置 QQ 凭据，请先运行 .\\codexbot.cmd setup 或 install.cmd"@,
        },
{
    match store.get_daemon_info() {
        Some((pid, created)) => {
            if processes::process_matches(started, created) {
                let mut line = "CodexBot 伴随进程已在运行（PID ".to_owned();
                let number = text::decimal_text(pid as u64);
                line.append(number.as_str());
                line.append("，");
                if is_standalone(store) {
                    line.append("常驻运行中");
                } else {
                    line.append("运行中（跟随 Codex）");
                }
                line.append("）。");
                return Ok(StartStep::Running(line));
            }
        },
        None => {},
    }
    if !has_credentials {
        return Err(
            "未配置 QQ 凭据，请先运行 .\\codexbot.cmd setup 或 install.cmd".to_owned(),
        );
    }
    Ok(StartStep::Launch)
}

/// The process that is recorded as the companion, or zero.
pub open spec fn recorded_pid(s: StoreView) -> nat {
    match store::companion(s) {
        Some((pid, _)) => pid as nat,
        None => 0,
    }
}

/// What is printed once the companion was started, and stays.
pub open spec fn launched_text(s: StoreView) -> Seq<Seq<char>> {
    seq![
        "CodexBot 常驻进程已启动（PID "@ + text::decimal(recorded_pid(s))
            + "），QQ 机器人将保持在线。"@,
        "停止请运行：.\\codexbot.cmd stop"@,
    ]
}

/// Records that the companion runs on its own, once it was started.
pub fn start_launched(store: &mut Store, launched: bool) -> (result: Result<Vec<String>, String>)
    ensures
        match result {
            Ok(lines) => launched && final(store)@ == store::with_setting(
                old(store)@,
                daemon::STANDALONE_SETTING@,
                "1"@,
            ) && text::texts(lines@) == launched_text(final(store)@),
            Err(error) => !launched && final(store)@ == old(store)@ && error@
                == "未能启动常驻进程，请查看日志排查"@,
        },
        store::consistent(old(store)@) ==> store::consistent(final(store)@),
{
    if !launched {
        return Err("未能启动常驻进程，请查看日志排查".to_owned());
    }
    store.set_setting(daemon::STANDALONE_SETTING, "1");
    let pid: u32 = match store.get_daemon_info() {
        Some((pid, _)) => pid,
        None => 0,
    };
    let mut first = "CodexBot 常驻进程已启动（PID ".to_owned();
    let number = text::decimal_text(pid as u64);
    first.append(number.as_str());
    first.append("），QQ 机器人将保持在线。");
    let mut lines: Vec<String> = Vec::new();
    lines.push(first);
    lines.push("停止请运行：.\\codexbot.cmd stop".to_owned());
    assert(text::texts(lines@) =~= launched_text(store@));
    Ok(lines)
}

/// What `stop` does first.
#[derive(Debug, PartialEq, Eq)]
pub enum StopStep {
    /// The companion does not run; what is printed.
    Absent(String),
    /// The process of the companion is stopped.
    Kill { pid: u32, created: i64 },
}

/// The state without the wish that the companion runs on its own.
pub open spec fn unattended(s: StoreView) -> StoreView {
    store::without_setting(s, daemon::STANDALONE_SETTING@)
}

fn forget_standalone(store: &mut Store)
    ensures
        final(store)@ == unattended(old(store)@),
        store::consistent(old(store)@) ==> store::consistent(final(store)@),
{
    let mut keys: Vec<String> = Vec::new();
    keys.push(daemon::STANDALONE_SETTING.to_owned());
    let ghost before = store@;
    store.delete_settings(&keys);
    proof {
        let names = text::texts(keys@);
        assert(names =~= seq![daemon::STANDALONE_SETTING@]);
        reveal_with_fuel(store::without_settings, 2);
        assert(names[0] == daemon::STANDALONE_SETTING@);
        assert(store::without_settings(before, names, 0) == before);
    }
}

/// What `stop` does first. The record of a companion that does not run is
/// cleared.
pub fn command_stop(store: &mut Store, started: Option<i64>) -> (result: StopStep)
    ensures
        match store::companion(old(store)@) {
            None => (result matches StopStep::Absent(line) && line@ == "CodexBot 进程未在运行。"@)
                && final(store)@ == unattended(old(store)@),
            Some((pid, created)) => if companion_runs(old(store)@, started) {
                result == (StopStep::Kill { pid, created }) && final(store)@ == old(store)@
            } else {
                (result matches StopStep::Absent(line) && line@ == "CodexBot 进程（PID "@
                    + text::decimal(pid as nat) + "）已退出，清理记录。"@) && final(store)@
                    == unattended(store::companion_cleared(old(store)@, pid))
            },
        },
        store::consistent(old(store)@) ==> store::consistent(final(store)@),
{
    let (pid, created) = match store.get_daemon_info() {
        Some(recorded) => recorded,
        None => {
            forget_standalone(store);
            return StopStep::Absent("CodexBot 进程未在运行。".to_owned());
        },
    };
    if processes::process_matches(started, created) {
        return StopStep::Kill { pid, created };
    }
    let mut line = "CodexBot 进程（PID ".to_owned();
    let number = text::decimal_text(pid as u64);
    line.append(number.as_str());
    line.append("）已退出，清理记录。");
    store.clear_daemon_info(pid);
    forget_standalone(store);
    StopStep::Absent(line)
}

/// Clears the record of a companion that was stopped, or tells that it could
/// not be.
pub fn stop_killed(store: &mut Store, pid: u32, killed: bool) -> (result: Result<String, String>)
    ensures
        match result {
            Ok(line) => killed && final(store)@ == unattended(store::companion_cleared(old(store)@, pid))
                && line@ == "CodexBot 进程（PID "@ + text::decimal(pid as nat)
                + "）已停止，QQ 机器人已下线。"@,
            Err(error) => !killed && final(store)@ == old(store)@ && error@
                == "无法停止 CodexBot 进程（PID "@ + text::decimal(pid as nat) + "）"@,
        },
        store::consistent(old(store)@) ==> store::consistent(final(store)@),
{
    let number = text::decimal_text(pid as u64);
    if !killed {
        let mut error = "无法停止 CodexBot 进程（PID ".to_owned();
        error.append(number.as_str());
        error.append("）");
        return Err(error);
    }
    store.clear_daemon_info(pid);
    forget_standalone(store);
    let mut line = "CodexBot 进程（PID ".to_owned();
    line.append(number.as_str());
    line.append("）已停止，QQ 机器人已下线。");
    Ok(line)
}

/// How often it is looked whether a process has ended.
pub const STOP_CHECKS: u32 = 50;

/// Whether it is looked again whether a process has ended, after so many looks.
pub fn keeps_waiting(looks: u32, started: Option<i64>, created: i64) -> (result: bool)
    ensures
        result == (looks < STOP_CHECKS && processes::same_process(
            started,
            created as int,
            processes::START_TOLERANCE as int,
        )),
{
    looks < STOP_CHECKS && processes::process_matches(started, created)
}

} // verus!
