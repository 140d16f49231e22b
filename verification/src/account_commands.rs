//! The commands of the chat on usage and accounts.
use vstd::prelude::*;
use crate::account_switch::{AccountSnapshot, SnapshotView};
use crate::codex_app::AccountSwitchOutcome;
use crate::codex_login;
use crate::codex_login::{AccountInfo, AccountView, AppServerError, ServerErrorView};
use crate::commands;
use crate::commands::safe_field;
use crate::text;
use crate::text::text_eq;

verus! {

// ---------------------------------------------------------------------------
// The account of the app server
// ---------------------------------------------------------------------------

/// A kind of login in lower case, with underscores for hyphens.
pub open spec fn auth_kind(value: Seq<char>) -> Seq<char> {
    text::replaced(text::lowercase(value), '-', '_')
}

pub open spec fn api_key_kind(kind: Seq<char>) -> bool {
    kind == "apikey"@ || kind == "api_key"@ || kind == "api key"@
}

/// A kind of login in words.
pub open spec fn auth_type_shown(value: Seq<char>) -> Seq<char> {
    let kind = auth_kind(value);
    if api_key_kind(kind) {
        "API key"@
    } else if kind == "chatgpt"@ || kind == "chatgpt_login"@ || kind == "openai"@ || kind
        == "openai_auth"@ {
        "ChatGPT 登录"@
    } else if kind == "not_logged_in"@ {
        "未登录"@
    } else {
        commands::field_shown(Some(value), "未知"@, 160)
    }
}

fn kind_of(value: &str) -> (result: String)
    ensures
        result@ == auth_kind(value@),
{
    let lower = text::to_lower(value);
    text::replace_char(lower.as_str(), '-', '_')
}

fn is_api_key(kind: &str) -> (result: bool)
    ensures
        result == api_key_kind(kind@),
{
    text_eq(kind, "apikey") || text_eq(kind, "api_key") || text_eq(kind, "api key")
}

/// A kind of login in words.
pub fn auth_type_text(value: &str) -> (result: String)
    ensures
        result@ == auth_type_shown(value@),
{
    let owned = kind_of(value);
    let kind = owned.as_str();
    if is_api_key(kind) {
        "API key".to_owned()
    } else if text_eq(kind, "chatgpt") || text_eq(kind, "chatgpt_login") || text_eq(kind, "openai")
        || text_eq(kind, "openai_auth") {
        "ChatGPT 登录".to_owned()
    } else if text_eq(kind, "not_logged_in") {
        "未登录".to_owned()
    } else {
        safe_field(Some(value), "未知", 160)
    }
}

/// Whether an account is an API key.
pub fn is_api_key_account(account: &AccountInfo) -> (result: bool)
    ensures
        result == api_key_kind(auth_kind(account@.auth_type)),
{
    let kind = kind_of(account.auth_type.as_str());
    is_api_key(kind.as_str())
}

/// What the chat is told of an account.
pub open spec fn account_shown(account: AccountView) -> Seq<char> {
    if !codex_login::authenticated(account) {
        "Codex 当前未登录（或当前认证方式不支持 OpenAI 账号读取）。\n认证类型：未登录\n请在 Codex 中登录后重试 /account。"@
    } else {
        "Codex 当前账号\n邮箱："@ + commands::field_shown(account.email, "未知"@, 160)
            + "\n套餐："@ + commands::field_shown(account.plan, "未知"@, 160) + "\n认证类型："@
            + auth_type_shown(account.auth_type)
    }
}

fn opt_field(value: &Option<String>, fallback: &str) -> (result: String)
    ensures
        result@ == commands::field_shown(text::opt_text(*value), fallback@, 160),
{
    match value {
        Some(value) => safe_field(Some(value.as_str()), fallback, 160),
        None => safe_field(None, fallback, 160),
    }
}

/// What the chat is told of an account.
pub fn account_text(account: &AccountInfo) -> (result: String)
    ensures
        result@ == account_shown(account@),
{
    if !account.is_authenticated() {
        return "Codex 当前未登录（或当前认证方式不支持 OpenAI 账号读取）。\n认证类型：未登录\n请在 Codex 中登录后重试 /account。".to_owned();
    }
    let email = opt_field(&account.email, "未知");
    let plan = opt_field(&account.plan, "未知");
    let kind = auth_type_text(account.auth_type.as_str());
    let mut result = "Codex 当前账号\n邮箱：".to_owned();
    result.append(email.as_str());
    result.append("\n套餐：");
    result.append(plan.as_str());
    result.append("\n认证类型：");
    result.append(kind.as_str());
    result
}

/// Whether a refusal asks for a login.
pub open spec fn needs_login(error: ServerErrorView) -> bool {
    (error matches ServerErrorView::Rpc { code, .. } && code == Some(-32600int)) || text::occurs(
        text::lowercase(codex_login::server_message(error)),
        "authentication required"@,
    )
}

/// Whether a refusal asks for a login.
pub fn auth_required_error(error: &AppServerError) -> (result: bool)
    ensures
        result == needs_login(error@),
{
    match error.rpc_code() {
        Some(code) => {
            if code == -32600 {
                return true;
            }
        },
        None => {},
    }
    let message = error.message();
    let lower = text::to_lower(message.as_str());
    text::contains(lower.as_str(), "authentication required")
}

/// What the chat is told of an error of the app server; `hint` follows it.
pub open spec fn failure_shown(
    action: Seq<char>,
    error: ServerErrorView,
    hint: Option<Seq<char>>,
) -> Seq<char> {
    let base = if error is Timeout {
        "Codex "@ + action + "超时，请稍后重试。"@
    } else if needs_login(error) {
        "Codex "@ + action + "需要 ChatGPT 账号认证；当前可能未登录或使用 API key。"@
    } else if error matches ServerErrorView::Rpc { code, .. } && code == Some(-32601int) {
        "当前 Codex 版本不支持 "@ + action
            + " 接口，请升级 Codex CLI（建议 0.146.0 或更新版本）。"@
    } else {
        "Codex "@ + action + "暂不可用，可能是旧版 app-server 或进程未运行。"@
    };
    match hint {
        Some(hint) => base + "\n"@ + hint,
        None => base,
    }
}

/// What the chat is told of an error of the app server.
pub fn codex_failure_text(action: &str, error: &AppServerError, hint: Option<&str>) -> (result:
    String)
    ensures
        result@ == failure_shown(action@, error@, text::opt_str(hint)),
{
    let unsupported = match error.rpc_code() {
        Some(code) => code == -32601,
        None => false,
    };
    let mut result = if error.is_timeout() || auth_required_error(error) || !unsupported {
        "Codex ".to_owned()
    } else {
        "当前 Codex 版本不支持 ".to_owned()
    };
    result.append(action);
    if error.is_timeout() {
        result.append("超时，请稍后重试。");
    } else if auth_required_error(error) {
        result.append("需要 ChatGPT 账号认证；当前可能未登录或使用 API key。");
    } else if unsupported {
        result.append(" 接口，请升级 Codex CLI（建议 0.146.0 或更新版本）。");
    } else {
        result.append("暂不可用，可能是旧版 app-server 或进程未运行。");
    }
    match hint {
        Some(hint) => {
            result.append("\n");
            result.append(hint);
        },
        None => {},
    }
    result
}

/// Answers a request for the account, from what the app server said.
pub fn account_reply(account: Result<AccountInfo, AppServerError>) -> (result: String)
    ensures
        result@ == (match account {
            Ok(account) => account_shown(account@),
            Err(error) => failure_shown("账号读取"@, error@, None),
        }),
{
    match account {
        Ok(account) => account_text(&account),
        Err(error) => codex_failure_text("账号读取", &error, None),
    }
}

/// Answers a request for the usage from the account, unless the limits have to
/// be read first. `hint` tells where the usage is shown.
pub fn usage_text(account: &Result<AccountInfo, AppServerError>, hint: &str) -> (result: Option<String>)
    ensures
        text::opt_text(result) == (match account {
            Ok(account) => if !codex_login::authenticated(account@) || api_key_kind(
                auth_kind(account@.auth_type),
            ) {
                Some("Codex 当前未登录或使用 API key，app-server 无法读取限额。\n"@ + hint@)
            } else {
                None
            },
            Err(error) => Some(failure_shown("用量读取"@, error@, Some(hint@))),
        }),
{
    match account {
        Ok(account) => if !account.is_authenticated() || is_api_key_account(account) {
            let mut result = "Codex 当前未登录或使用 API key，app-server 无法读取限额。\n".to_owned();
            result.append(hint);
            Some(result)
        } else {
            None
        },
        Err(error) => Some(codex_failure_text("用量读取", error, Some(hint))),
    }
}

// ---------------------------------------------------------------------------
// Commands on saved accounts
// ---------------------------------------------------------------------------

/// A command on saved accounts.
#[derive(Debug, PartialEq, Eq)]
pub enum AccountCommand {
    List,
    Save(String),
    Use(String),
    Delete(String),
    /// The command is incomplete or unknown; what the chat is told.
    Explain(String),
}

/// What a command on saved accounts is.
pub enum AccountCommandView {
    List,
    Save(Seq<char>),
    Use(Seq<char>),
    Delete(Seq<char>),
    Explain(Seq<char>),
}

impl AccountCommand {
    pub open spec fn view(&self) -> AccountCommandView {
        match self {
            AccountCommand::List => AccountCommandView::List,
            AccountCommand::Save(name) => AccountCommandView::Save(name@),
            AccountCommand::Use(selector) => AccountCommandView::Use(selector@),
            AccountCommand::Delete(name) => AccountCommandView::Delete(name@),
            AccountCommand::Explain(text) => AccountCommandView::Explain(text@),
        }
    }
}

/// The command on saved accounts that an argument is.
pub open spec fn account_command(argument: Seq<char>) -> AccountCommandView {
    let words = text::words(argument);
    let action = if words.len() > 0 {
        text::lowercase(words[0])
    } else {
        ""@
    };
    let rest = text::joined(words.skip(1), " "@);
    if action == "list"@ {
        AccountCommandView::List
    } else if action == "save"@ {
        if words.len() < 2 {
            AccountCommandView::Explain("用法：/account save 名称"@)
        } else {
            AccountCommandView::Save(rest)
        }
    } else if action == "use"@ {
        if words.len() < 2 {
            AccountCommandView::Explain("用法：/account use 序号、名称、邮箱或账号 ID"@)
        } else {
            AccountCommandView::Use(rest)
        }
    } else if action == "delete"@ {
        if words.len() < 2 {
            AccountCommandView::Explain("用法：/account delete 名称"@)
        } else {
            AccountCommandView::Delete(rest)
        }
    } else {
        AccountCommandView::Explain(
            "用法：\n/account save 名称 - 保存当前账号\n/account list - 列出 codex_login 账号和加密快照\n/account use 序号/名称/邮箱/ID - 关闭 Codex、切换并自动重新打开\n/account delete 名称 - 删除 CodexBot 加密快照"@,
        )
    }
}

/// The command on saved accounts that an argument is.
pub fn account_switch_text(argument: &str) -> (result: AccountCommand)
    ensures
        result@ == account_command(argument@),
{
    let mut words = text::split_words(argument);
    let ghost all = text::texts(words@);
    assert(all.len() == words@.len());
    let complete = words.len() >= 2;
    let action = if words.len() > 0 {
        let action = text::to_lower(words[0].as_str());
        let _ = words.remove(0);
        assert(text::texts(words@) =~= all.skip(1));
        action
    } else {
        "".to_owned()
    };
    let name = action.as_str();
    if text_eq(name, "list") {
        AccountCommand::List
    } else if text_eq(name, "save") {
        if complete {
            AccountCommand::Save(text::join(&words, " "))
        } else {
            AccountCommand::Explain("用法：/account save 名称".to_owned())
        }
    } else if text_eq(name, "use") {
        if complete {
            AccountCommand::Use(text::join(&words, " "))
        } else {
            AccountCommand::Explain("用法：/account use 序号、名称、邮箱或账号 ID".to_owned())
        }
    } else if text_eq(name, "delete") {
        if complete {
            AccountCommand::Delete(text::join(&words, " "))
        } else {
            AccountCommand::Explain("用法：/account delete 名称".to_owned())
        }
    } else {
        AccountCommand::Explain(
            "用法：\n/account save 名称 - 保存当前账号\n/account list - 列出 codex_login 账号和加密快照\n/account use 序号/名称/邮箱/ID - 关闭 Codex、切换并自动重新打开\n/account delete 名称 - 删除 CodexBot 加密快照".to_owned(),
        )
    }
}

/// What the chat is told of an operation on accounts that failed.
pub open spec fn switch_error_shown(prefix: Seq<char>, error: Seq<char>) -> Seq<char> {
    let detail = commands::field_shown(Some(error), "请稍后重试"@, 220);
    let base = prefix + "失败："@ + detail;
    if text::occurs(detail, "正在运行"@) || text::occurs(detail, "关闭 Codex"@) {
        base + "\n自动关闭未完成；请保存当前工作，手动退出 Codex/ChatGPT 后重试。"@
    } else {
        base
    }
}

/// What the chat is told of an operation on accounts that failed.
pub fn account_switch_error(prefix: &str, error: &str) -> (result: String)
    ensures
        result@ == switch_error_shown(prefix@, error@),
{
    let detail = safe_field(Some(error), "请稍后重试", 220);
    let mut result = prefix.to_owned();
    result.append("失败：");
    result.append(detail.as_str());
    if text::contains(detail.as_str(), "正在运行") || text::contains(
        detail.as_str(),
        "关闭 Codex",
    ) {
        result.append("\n自动关闭未完成；请保存当前工作，手动退出 Codex/ChatGPT 后重试。");
    }
    result
}

/// What the chat is told of a change of account that went through.
pub open spec fn switch_success_shown(base: Seq<char>, closed: nat, opened: bool) -> Seq<char> {
    if opened {
        if closed > 0 {
            base + "\n已关闭 "@ + text::decimal(closed)
                + " 个旧 Codex 进程，并使用新账号自动重新打开 Codex。"@
        } else {
            base + "\nCodex 已使用新账号自动打开。"@
        }
    } else {
        base + "\n账号已切换，但未能自动打开 Codex；请手动启动 Codex。"@
    }
}

/// What the chat is told of a change of account that went through.
pub fn account_switch_success<T>(base: String, outcome: &AccountSwitchOutcome<T>) -> (result: String)
    ensures
        result@ == switch_success_shown(
            base@,
            outcome.closed_processes as nat,
            outcome.app_opened,
        ),
{
    let mut result = base;
    if outcome.app_opened {
        if outcome.closed_processes > 0 {
            result.append("\n已关闭 ");
            let count = text::decimal_text(outcome.closed_processes as u64);
            result.append(count.as_str());
            result.append(" 个旧 Codex 进程，并使用新账号自动重新打开 Codex。");
        } else {
            result.append("\nCodex 已使用新账号自动打开。");
        }
    } else {
        result.append("\n账号已切换，但未能自动打开 Codex；请手动启动 Codex。");
    }
    result
}

/// What the chat is told once the current account was saved, or not.
pub open spec fn saved_shown(saved: Result<SnapshotView, Seq<char>>) -> Seq<char> {
    match saved {
        Ok(snapshot) => "已保存当前账号为 "@ + commands::field_shown(
            Some(snapshot.name),
            "未知"@,
            160,
        ) + "（"@ + commands::field_shown(snapshot.email, "未识别邮箱"@, 160)
            + "）。\n用 /account use "@ + commands::field_shown(Some(snapshot.name), "未知"@, 160)
            + " 可随时切换。"@,
        Err(error) => switch_error_shown("保存"@, error),
    }
}

/// What the chat is told once the current account was saved, or not.
pub fn saved_text(saved: &Result<AccountSnapshot, String>) -> (result: String)
    ensures
        result@ == saved_shown(
            match saved {
                Ok(snapshot) => Ok(snapshot@),
                Err(error) => Err(error@),
            },
        ),
{
    match saved {
        Ok(snapshot) => {
            let name = safe_field(Some(snapshot.name.as_str()), "未知", 160);
            let email = opt_field(&snapshot.email, "未识别邮箱");
            let mut result = "已保存当前账号为 ".to_owned();
            result.append(name.as_str());
            result.append("（");
            result.append(email.as_str());
            result.append("）。\n用 /account use ");
            result.append(name.as_str());
            result.append(" 可随时切换。");
            result
        },
        Err(error) => account_switch_error("保存", error.as_str()),
    }
}

/// What the chat is told once a saved account was deleted, or not.
pub fn deleted_text(name: &str, deleted: &Result<(), String>) -> (result: String)
    ensures
        result@ == (match deleted {
            Ok(()) => "已删除账号 "@ + commands::field_shown(Some(name@), "未知"@, 160) + "。"@,
            Err(error) => switch_error_shown("删除"@, error@),
        }),
{
    match deleted {
        Ok(()) => {
            let shown = safe_field(Some(name), "未知", 160);
            let mut result = "已删除账号 ".to_owned();
            result.append(shown.as_str());
            result.append("。");
            result
        },
        Err(error) => account_switch_error("删除", error.as_str()),
    }
}

// ---------------------------------------------------------------------------
// The list of accounts
// ---------------------------------------------------------------------------

/// An account of another program.
#[derive(Debug, PartialEq, Eq)]
pub struct ExternalAccount {
    pub id: String,
    pub name: String,
    pub email: Option<String>,
    pub ready: bool,
}

/// What such an account is.
pub struct ExternalView {
    pub id: Seq<char>,
    pub name: Seq<char>,
    pub email: Option<Seq<char>>,
    pub ready: bool,
}

impl ExternalAccount {
    pub open spec fn view(&self) -> ExternalView {
        ExternalView {
            id: self.id@,
            name: self.name@,
            email: text::opt_text(self.email),
            ready: self.ready,
        }
    }
}

pub open spec fn external_views(accounts: Seq<ExternalAccount>) -> Seq<ExternalView> {
    Seq::new(accounts.len(), |i: int| accounts[i]@)
}

pub open spec fn snapshot_views(snapshots: Seq<AccountSnapshot>) -> Seq<SnapshotView> {
    Seq::new(snapshots.len(), |i: int| snapshots[i]@)
}

/// The remarks on an account.
pub open spec fn markers(current: bool, ready: bool) -> Seq<char> {
    if current && !ready {
        "（当前、登录过期）"@
    } else if current {
        "（当前）"@
    } else if !ready {
        "（登录过期）"@
    } else {
        ""@
    }
}

/// The line on the account at `i`.
pub open spec fn external_line(account: ExternalView, i: nat, active: Option<Seq<char>>) -> Seq<char> {
    text::decimal(i + 1) + ". "@ + commands::field_shown(Some(account.name), "未知"@, 160) + " · "@
        + commands::field_shown(account.email, "无邮箱"@, 160) + markers(
        active == Some(account.id),
        account.ready,
    )
}

/// The line on a snapshot.
pub open spec fn snapshot_line(snapshot: SnapshotView) -> Seq<char> {
    "• "@ + commands::field_shown(Some(snapshot.name), "未知"@, 160) + "（"@ + commands::field_shown(
        snapshot.email,
        "未识别邮箱"@,
        160,
    ) + "）"@
}

pub open spec fn external_lines(accounts: Seq<ExternalView>, active: Option<Seq<char>>) -> Seq<
    Seq<char>,
> {
    if accounts.len() == 0 {
        Seq::empty()
    } else {
        seq!["codex_login 已保存账号："@] + Seq::new(
            accounts.len(),
            |i: int| external_line(accounts[i], i as nat, active),
        )
    }
}

/// `lines` with those on snapshots behind them.
pub open spec fn snapshots_appended(lines: Seq<Seq<char>>, snapshots: Seq<SnapshotView>) -> Seq<
    Seq<char>,
> {
    if snapshots.len() == 0 {
        lines
    } else {
        (if lines.len() > 0 {
            lines.push(""@)
        } else {
            lines
        }).push("CodexBot 加密快照："@) + Seq::new(
            snapshots.len(),
            |i: int| snapshot_line(snapshots[i]),
        )
    }
}

/// What answers a request for the accounts.
pub open spec fn sources_shown(
    accounts: Seq<ExternalView>,
    active: Option<Seq<char>>,
    snapshots: Seq<SnapshotView>,
) -> Seq<char> {
    let lines = snapshots_appended(external_lines(accounts, active), snapshots);
    if lines.len() == 0 {
        "还没有可切换的账号。\n可先在 codex_login 中添加账号，或用 /account save 名称保存当前登录。"@
    } else {
        text::joined(
            lines.push(""@).push("切换：/account use 序号、名称、邮箱或账号 ID"@),
            "\n"@,
        )
    }
}

/// Adds the lines on snapshots.
pub fn append_snapshots(lines: &mut Vec<String>, snapshots: &Vec<AccountSnapshot>)
    ensures
        text::texts(final(lines)@) == snapshots_appended(
            text::texts(old(lines)@),
            snapshot_views(snapshots@),
        ),
{
    let ghost views = snapshot_views(snapshots@);
    let ghost before = text::texts(lines@);
    if snapshots.len() == 0 {
        return;
    }
    if lines.len() > 0 {
        lines.push("".to_owned());
        assert(text::texts(lines@) =~= before.push(""@));
    }
    let ghost opened = text::texts(lines@);
    lines.push("CodexBot 加密快照：".to_owned());
    let ghost head = text::texts(lines@);
    assert(head =~= opened.push("CodexBot 加密快照："@));
    let ghost shown = Seq::new(views.len(), |i: int| snapshot_line(views[i]));
    assert(head =~= head + shown.take(0));
    for i in 0..snapshots.len()
        invariant
            views == snapshot_views(snapshots@),
            shown == Seq::new(views.len(), |i: int| snapshot_line(views[i])),
            text::texts(lines@) == head + shown.take(i as int),
    {
        let ghost held = text::texts(lines@);
        let snapshot = &snapshots[i];
        assert(views[i as int] == snapshot@);
        let name = safe_field(Some(snapshot.name.as_str()), "未知", 160);
        let email = opt_field(&snapshot.email, "未识别邮箱");
        let mut line = "• ".to_owned();
        line.append(name.as_str());
        line.append("（");
        line.append(email.as_str());
        line.append("）");
        lines.push(line);
        assert(text::texts(lines@) =~= held.push(snapshot_line(views[i as int])));
        assert(shown.take(i + 1) =~= shown.take(i as int).push(shown[i as int]));
        assert(text::texts(lines@) =~= head + shown.take(i + 1));
    }
    assert(shown.take(views.len() as int) =~= shown);
}

/// Answers a request for the accounts.
pub fn account_sources_text(
    accounts: &Vec<ExternalAccount>,
    active: &Option<String>,
    snapshots: &Vec<AccountSnapshot>,
) -> (result: String)
    ensures
        result@ == sources_shown(
            external_views(accounts@),
            text::opt_text(*active),
            snapshot_views(snapshots@),
        ),
{
    let ghost views = external_views(accounts@);
    let ghost current = text::opt_text(*active);
    let ghost goal = external_lines(views, current);
    let mut lines: Vec<String> = Vec::new();
    if accounts.len() > 0 {
        lines.push("codex_login 已保存账号：".to_owned());
        assert(text::texts(lines@) =~= goal.take(1));
    }
    assert(text::texts(lines@) =~= goal.take(if views.len() > 0 { 1 } else { 0 }));
    for i in 0..accounts.len()
        invariant
            views == external_views(accounts@),
            current == text::opt_text(*active),
            goal == external_lines(views, current),
            text::texts(lines@) == goal.take(
                if views.len() > 0 {
                    i + 1
                } else {
                    0
                },
            ),
    {
        let ghost held = text::texts(lines@);
        let account = &accounts[i];
        assert(views[i as int] == account@);
        let is_current = match active {
            Some(active) => text_eq(active.as_str(), account.id.as_str()),
            None => false,
        };
        let mut line = text::decimal_text((i + 1) as u64);
        line.append(". ");
        let name = safe_field(Some(account.name.as_str()), "未知", 160);
        line.append(name.as_str());
        line.append(" · ");
        let email = opt_field(&account.email, "无邮箱");
        line.append(email.as_str());
        let remark = if is_current && !account.ready {
            "（当前、登录过期）"
        } else if is_current {
            "（当前）"
        } else if !account.ready {
            "（登录过期）"
        } else {
            ""
        };
        line.append(remark);
        lines.push(line);
        assert(text::texts(lines@) =~= held.push(external_line(views[i as int], i as nat, current)));
        assert(goal.take(i + 2) =~= goal.take(i + 1).push(goal[i + 1]));
        assert(goal[i + 1] == external_line(views[i as int], i as nat, current));
    }
    assert(goal.take(goal.len() as int) =~= goal);
    assert(text::texts(lines@) == goal);
    append_snapshots(&mut lines, snapshots);
    let ghost all = text::texts(lines@);
    assert(all.len() == lines@.len());
    if lines.len() == 0 {
        return "还没有可切换的账号。\n可先在 codex_login 中添加账号，或用 /account save 名称保存当前登录。".to_owned();
    }
    lines.push("".to_owned());
    lines.push("切换：/account use 序号、名称、邮箱或账号 ID".to_owned());
    assert(text::texts(lines@) =~= all.push(""@).push(
        "切换：/account use 序号、名称、邮箱或账号 ID"@,
    ));
    text::join(&lines, "\n")
}

// ---------------------------------------------------------------------------
// Changing the account
// ---------------------------------------------------------------------------

/// What came of a step on the way to another account.
#[derive(Debug)]
pub enum UseEvent {
    /// How many accounts the other program has.
    Loaded(Result<usize, String>),
    /// Whether the account that was looked for among them is logged in.
    Resolved(Result<bool, String>),
    /// The name and the address of the account of the other program.
    ExternalSwitched(Result<AccountSwitchOutcome<(String, Option<String>)>, String>),
    /// The snapshots, and why the other program did not have the account if it
    /// was asked.
    Listed(Result<Vec<AccountSnapshot>, String>, Option<String>),
    /// The address of the account of the snapshot.
    SnapshotSwitched(Result<AccountSwitchOutcome<Option<String>>, String>),
}

/// What is done next.
#[derive(Debug, PartialEq, Eq)]
pub enum UseStep {
    /// The account is looked for among those of the other program.
    Resolve,
    /// The account of the other program is put in place.
    SwitchExternal,
    /// The snapshots are listed.
    List(Option<String>),
    /// The snapshot is put in place.
    SwitchSnapshot,
    /// The chat is answered.
    Reply(String),
}

/// What is done next.
pub enum UseStepView {
    Resolve,
    SwitchExternal,
    List(Option<Seq<char>>),
    SwitchSnapshot,
    Reply(Seq<char>),
}

impl UseStep {
    pub open spec fn view(&self) -> UseStepView {
        match self {
            UseStep::Resolve => UseStepView::Resolve,
            UseStep::SwitchExternal => UseStepView::SwitchExternal,
            UseStep::List(error) => UseStepView::List(text::opt_text(*error)),
            UseStep::SwitchSnapshot => UseStepView::SwitchSnapshot,
            UseStep::Reply(text) => UseStepView::Reply(text@),
        }
    }
}

/// Whether a snapshot has a name, up to the case of its letters.
pub open spec fn has_snapshot(snapshots: Seq<SnapshotView>, name: Seq<char>) -> bool {
    exists|i: int| 0 <= i < snapshots.len() && text::same_ascii(
        (#[trigger] snapshots[i]).name,
        name,
    )
}

/// What follows from an event on the way to the account `selector`: an account
/// of the other program comes first, and a snapshot is taken where that program
/// has no such account.
pub open spec fn use_step(selector: Seq<char>, event: UseEvent) -> UseStepView {
    match event {
        UseEvent::Loaded(Err(error)) => UseStepView::Reply(
            switch_error_shown("读取 codex_login 账号"@, error@),
        ),
        UseEvent::Loaded(Ok(count)) => if count > 0 {
            UseStepView::Resolve
        } else {
            UseStepView::List(None)
        },
        UseEvent::Resolved(Ok(ready)) => if ready {
            UseStepView::SwitchExternal
        } else {
            UseStepView::Reply(
                "切换 codex_login 账号失败：该账号登录已过期，请先在 codex_login 中重新认证。"@,
            )
        },
        UseEvent::Resolved(Err(error)) => UseStepView::List(Some(error@)),
        UseEvent::ExternalSwitched(Ok(outcome)) => UseStepView::Reply(
            switch_success_shown(
                "已切换到 codex_login 账号 "@ + commands::field_shown(
                    Some(outcome.value.0@),
                    "未知"@,
                    160,
                ) + "（"@ + commands::field_shown(
                    text::opt_text(outcome.value.1),
                    "无邮箱"@,
                    160,
                ) + "）。\n已更新 Codex 登录并同步当前账号。"@,
                outcome.closed_processes as nat,
                outcome.app_opened,
            ),
        ),
        UseEvent::ExternalSwitched(Err(error)) => UseStepView::Reply(
            switch_error_shown("切换 codex_login 账号"@, error@),
        ),
        UseEvent::Listed(Err(error), _) => UseStepView::Reply(
            switch_error_shown("读取 CodexBot 加密快照"@, error@),
        ),
        UseEvent::Listed(Ok(snapshots), Some(error)) => if has_snapshot(
            snapshot_views(snapshots@),
            selector,
        ) {
            UseStepView::SwitchSnapshot
        } else {
            UseStepView::Reply(switch_error_shown("切换 codex_login 账号"@, error@))
        },
        UseEvent::Listed(Ok(_), None) => UseStepView::SwitchSnapshot,
        UseEvent::SnapshotSwitched(Ok(outcome)) => UseStepView::Reply(
            switch_success_shown(
                "已切换到 CodexBot 加密快照 "@ + commands::field_shown(
                    Some(selector),
                    "未知"@,
                    160,
                ) + "（"@ + commands::field_shown(
                    text::opt_text(outcome.value),
                    "未知邮箱"@,
                    160,
                ) + "）。\n已更新 Codex 登录。"@,
                outcome.closed_processes as nat,
                outcome.app_opened,
            ),
        ),
        UseEvent::SnapshotSwitched(Err(error)) => UseStepView::Reply(
            switch_error_shown("切换 CodexBot 加密快照"@, error@),
        ),
    }
}

fn finds_snapshot(snapshots: &Vec<AccountSnapshot>, name: &str) -> (result: bool)
    ensures
        result == has_snapshot(snapshot_views(snapshots@), name@),
{
    let ghost views = snapshot_views(snapshots@);
    for i in 0..snapshots.len()
        invariant
            views == snapshot_views(snapshots@),
            forall|j: int| 0 <= j < i ==> !text::same_ascii((#[trigger] views[j]).name, name@),
    {
        assert(views[i as int] == snapshots@[i as int]@);
        if text::eq_ignore_ascii_case(snapshots[i].name.as_str(), name) {
            return true;
        }
    }
    false
}

/// What is done next on the way to the account `selector`.
pub fn use_account(selector: &str, event: UseEvent) -> (result: UseStep)
    ensures
        result@ == use_step(selector@, event),
{
    match event {
        UseEvent::Loaded(Err(error)) => UseStep::Reply(
            account_switch_error("读取 codex_login 账号", error.as_str()),
        ),
        UseEvent::Loaded(Ok(count)) => if count > 0 {
            UseStep::Resolve
        } else {
            UseStep::List(None)
        },
        UseEvent::Resolved(Ok(ready)) => if ready {
            UseStep::SwitchExternal
        } else {
            UseStep::Reply(
                "切换 codex_login 账号失败：该账号登录已过期，请先在 codex_login 中重新认证。".to_owned(),
            )
        },
        UseEvent::Resolved(Err(error)) => UseStep::List(Some(error)),
        UseEvent::ExternalSwitched(Ok(outcome)) => {
            let name = safe_field(Some(outcome.value.0.as_str()), "未知", 160);
            let email = opt_field(&outcome.value.1, "无邮箱");
            let mut base = "已切换到 codex_login 账号 ".to_owned();
            base.append(name.as_str());
            base.append("（");
            base.append(email.as_str());
            base.append("）。\n已更新 Codex 登录并同步当前账号。");
            UseStep::Reply(account_switch_success(base, &outcome))
        },
        UseEvent::ExternalSwitched(Err(error)) => UseStep::Reply(
            account_switch_error("切换 codex_login 账号", error.as_str()),
        ),
        UseEvent::Listed(Err(error), _) => UseStep::Reply(
            account_switch_error("读取 CodexBot 加密快照", error.as_str()),
        ),
        UseEvent::Listed(Ok(snapshots), Some(error)) => if finds_snapshot(&snapshots, selector) {
            UseStep::SwitchSnapshot
        } else {
            UseStep::Reply(account_switch_error("切换 codex_login 账号", error.as_str()))
        },
        UseEvent::Listed(Ok(_), None) => UseStep::SwitchSnapshot,
        UseEvent::SnapshotSwitched(Ok(outcome)) => {
            let name = safe_field(Some(selector), "未知", 160);
            let email = opt_field(&outcome.value, "未知邮箱");
            let mut base = "已切换到 CodexBot 加密快照 ".to_owned();
            base.append(name.as_str());
            base.append("（");
            base.append(email.as_str());
            base.append("）。\n已更新 Codex 登录。");
            UseStep::Reply(account_switch_success(base, &outcome))
        },
        UseEvent::SnapshotSwitched(Err(error)) => UseStep::Reply(
            account_switch_error("切换 CodexBot 加密快照", error.as_str()),
        ),
    }
}

} // verus!
