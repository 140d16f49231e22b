//! The JSON-RPC conversation with the Codex app server, and its account
//! endpoints.
use vstd::prelude::*;
use crate::json;
use crate::json::{Json, JsonNumber, JsonView, NumberView};
use crate::security;
use crate::store;
use crate::text;
use crate::VERSION;
use crate::text::text_eq;

verus! {

/// Where the usage of an account is shown.
pub const APP_SERVER_DASHBOARD_URL: &'static str = "https://chatgpt.com/codex/settings/usage";

/// How long an answer of the app server is waited for, in seconds.
pub const DEFAULT_APP_SERVER_TIMEOUT: u64 = 20;

/// How long a sign-in with a device code is waited for, in seconds.
pub const DEFAULT_DEVICE_LOGIN_TIMEOUT: u64 = 600;

/// How long it is waited between two looks at a sign-in, in seconds.
pub const DEFAULT_DEVICE_LOGIN_POLL_INTERVAL: u64 = 1;

// ---------------------------------------------------------------------------
// Errors
// ---------------------------------------------------------------------------

/// Why the app server gave no answer, or not the one that was asked for.
#[derive(Debug)]
pub enum AppServerError {
    Unavailable(String),
    Timeout(String),
    Protocol(String),
    Rpc { code: Option<i64>, message: String, data_summary: String },
    LoginCancelled(String),
    LoginFailed(String),
    LoginInProgress,
}

/// What an error is.
pub enum ServerErrorView {
    Unavailable(Seq<char>),
    Timeout(Seq<char>),
    Protocol(Seq<char>),
    Rpc { code: Option<int>, message: Seq<char>, data_summary: Seq<char> },
    LoginCancelled(Seq<char>),
    LoginFailed(Seq<char>),
    LoginInProgress,
}

pub open spec fn code_shown(code: Option<int>) -> Seq<char> {
    match code {
        Some(code) => "Some("@ + text::signed_decimal(code) + ")"@,
        None => "None"@,
    }
}

/// The message of an error.
pub open spec fn server_message(error: ServerErrorView) -> Seq<char> {
    match error {
        ServerErrorView::Unavailable(detail) => detail,
        ServerErrorView::Timeout(detail) => detail,
        ServerErrorView::Protocol(detail) => detail,
        ServerErrorView::Rpc { code, message, .. } => "RPC error "@ + code_shown(code) + ": "@
            + message,
        ServerErrorView::LoginCancelled(detail) => detail,
        ServerErrorView::LoginFailed(detail) => detail,
        ServerErrorView::LoginInProgress => "已有 Codex 账号切换正在进行"@,
    }
}

pub open spec fn opt_int(value: Option<i64>) -> Option<int> {
    match value {
        Some(n) => Some(n as int),
        None => None,
    }
}

impl AppServerError {
    pub open spec fn view(&self) -> ServerErrorView {
        match self {
            AppServerError::Unavailable(detail) => ServerErrorView::Unavailable(detail@),
            AppServerError::Timeout(detail) => ServerErrorView::Timeout(detail@),
            AppServerError::Protocol(detail) => ServerErrorView::Protocol(detail@),
            AppServerError::Rpc { code, message, data_summary } => ServerErrorView::Rpc {
                code: opt_int(*code),
                message: message@,
                data_summary: data_summary@,
            },
            AppServerError::LoginCancelled(detail) => ServerErrorView::LoginCancelled(detail@),
            AppServerError::LoginFailed(detail) => ServerErrorView::LoginFailed(detail@),
            AppServerError::LoginInProgress => ServerErrorView::LoginInProgress,
        }
    }

    /// The code of a refusal by the server.
    pub fn rpc_code(&self) -> (result: Option<i64>)
        ensures
            opt_int(result) == (match self@ {
                ServerErrorView::Rpc { code, .. } => code,
                _ => None,
            }),
    {
        match self {
            AppServerError::Rpc { code, .. } => *code,
            _ => None,
        }
    }

    pub fn is_timeout(&self) -> (result: bool)
        ensures
            result == (self@ is Timeout),
    {
        match self {
            AppServerError::Timeout(_) => true,
            _ => false,
        }
    }

    pub fn message(&self) -> (result: String)
        ensures
            result@ == server_message(self@),
    {
        match self {
            AppServerError::Unavailable(detail) => detail.clone(),
            AppServerError::Timeout(detail) => detail.clone(),
            AppServerError::Protocol(detail) => detail.clone(),
            AppServerError::Rpc { code, message, .. } => {
                let mut result = "RPC error ".to_owned();
                let shown = match code {
                    Some(code) => {
                        let mut shown = "Some(".to_owned();
                        let number = text::signed_decimal_text(*code);
                        shown.append(number.as_str());
                        shown.append(")");
                        shown
                    },
                    None => "None".to_owned(),
                };
                result.append(shown.as_str());
                result.append(": ");
                result.append(message.as_str());
                result
            },
            AppServerError::LoginCancelled(detail) => detail.clone(),
            AppServerError::LoginFailed(detail) => detail.clone(),
            AppServerError::LoginInProgress => "已有 Codex 账号切换正在进行".to_owned(),
        }
    }
}

/// A text on one redacted line, at most `limit` characters long.
pub open spec fn detail(value: Seq<char>, limit: nat) -> Seq<char> {
    text::clipped(text::compacted(security::without_breaks(security::redacted(value))), limit)
}

/// A text on one redacted line, at most `limit` characters long.
pub fn safe_detail(value: &str, limit: usize) -> (result: String)
    ensures
        result@ == detail(value@, limit as nat),
{
    let clean = security::redact_secrets(value);
    let first = text::replace_char(clean.as_str(), '\r', ' ');
    let second = text::replace_char(first.as_str(), '\n', ' ');
    let line = text::compact(second.as_str());
    text::clip(line.as_str(), limit)
}

// ---------------------------------------------------------------------------
// Accounts
// ---------------------------------------------------------------------------

/// The account that is logged in.
#[derive(Debug, PartialEq, Eq)]
pub struct AccountInfo {
    pub email: Option<String>,
    pub plan: Option<String>,
    pub auth_type: String,
    pub requires_openai_auth: bool,
}

/// What an account is.
pub struct AccountView {
    pub email: Option<Seq<char>>,
    pub plan: Option<Seq<char>>,
    pub auth_type: Seq<char>,
    pub requires_openai_auth: bool,
}

/// Whether somebody is logged in.
pub open spec fn authenticated(account: AccountView) -> bool {
    &&& (account.email is Some || account.plan is Some || (account.auth_type != ""@
        && account.auth_type != "unknown"@ && account.auth_type != "not_logged_in"@))
    &&& !(account.requires_openai_auth && account.auth_type == "not_logged_in"@)
}

impl AccountInfo {
    pub open spec fn view(&self) -> AccountView {
        AccountView {
            email: text::opt_text(self.email),
            plan: text::opt_text(self.plan),
            auth_type: self.auth_type@,
            requires_openai_auth: self.requires_openai_auth,
        }
    }

    /// Whether somebody is logged in.
    pub fn is_authenticated(&self) -> (result: bool)
        ensures
            result == authenticated(self@),
    {
        let kind = self.auth_type.as_str();
        let has_identity = self.email.is_some() || self.plan.is_some() || (!text_eq(kind, "")
            && !text_eq(kind, "unknown") && !text_eq(kind, "not_logged_in"));
        has_identity && !(self.requires_openai_auth && text_eq(kind, "not_logged_in"))
    }

    pub fn copy(&self) -> (result: AccountInfo)
        ensures
            result@ == self@,
    {
        AccountInfo {
            email: text::copied(&self.email),
            plan: text::copied(&self.plan),
            auth_type: self.auth_type.clone(),
            requires_openai_auth: self.requires_openai_auth,
        }
    }
}

/// A value as a text, if it is not null.
pub open spec fn text_of_value(value: Option<JsonView>) -> Option<Seq<char>> {
    match value {
        None => None,
        Some(JsonView::Null) => None,
        Some(JsonView::Text(text)) => Some(text),
        Some(other) => Some(json::compact_json(other)),
    }
}

/// The first of `keys`, from index `from` on, under which `value` holds more
/// than white space.
pub open spec fn first_filled(value: JsonView, keys: Seq<Seq<char>>, from: int) -> Option<Seq<char>>
    decreases keys.len() - from,
{
    if 0 <= from < keys.len() {
        match text_of_value(value.get(keys[from])) {
            Some(text) => if text::trimmed(text).len() > 0 {
                Some(text::trimmed(text))
            } else {
                first_filled(value, keys, from + 1)
            },
            None => first_filled(value, keys, from + 1),
        }
    } else {
        None
    }
}

/// The account that the server reports.
pub open spec fn account_read(payload: JsonView) -> AccountView {
    let needs_login = match payload.get("requiresOpenaiAuth"@) {
        Some(JsonView::Bool(flag)) => flag,
        _ => false,
    };
    let account = match payload.get("account"@) {
        Some(account) => account,
        None => payload,
    };
    if !(payload is Object) {
        AccountView {
            email: None,
            plan: None,
            auth_type: "unknown"@,
            requires_openai_auth: false,
        }
    } else if !(account is Object) || account->Object_0.len() == 0 {
        AccountView {
            email: None,
            plan: None,
            auth_type: if needs_login {
                "not_logged_in"@
            } else {
                "unknown"@
            },
            requires_openai_auth: needs_login,
        }
    } else {
        AccountView {
            email: first_filled(account, seq!["email"@, "emailAddress"@], 0),
            plan: first_filled(account, seq!["planType"@, "plan"@, "subscriptionType"@], 0),
            auth_type: match store::or_else(
                first_filled(account, seq!["authType"@, "auth_type"@, "type"@], 0),
                first_filled(payload, seq!["authType"@], 0),
            ) {
                Some(kind) => kind,
                None => "unknown"@,
            },
            requires_openai_auth: needs_login,
        }
    }
}

fn value_text(value: Option<&Json>) -> (result: Option<String>)
    ensures
        text::opt_text(result) == text_of_value(json::opt_json(value)),
{
    match value {
        None => None,
        Some(value) => match value {
            Json::Null => None,
            Json::Text(shown) => Some(shown.clone()),
            _ => Some(json::compact_text(value)),
        },
    }
}

fn first_text(value: &Json, keys: &Vec<&str>) -> (result: Option<String>)
    ensures
        text::opt_text(result) == first_filled(
            value@,
            Seq::new(keys@.len(), |i: int| keys@[i]@),
            0,
        ),
{
    let ghost names = Seq::new(keys@.len(), |i: int| keys@[i]@);
    let mut i: usize = 0;
    while i < keys.len()
        invariant
            i <= keys@.len(),
            names == Seq::new(keys@.len(), |i: int| keys@[i]@),
            first_filled(value@, names, 0) == first_filled(value@, names, i as int),
        decreases keys.len() - i,
    {
        match value_text(value.get(keys[i])) {
            Some(shown) => {
                let trimmed = text::trim(shown.as_str());
                if !trimmed.as_str().is_empty() {
                    return Some(trimmed);
                }
            },
            None => {},
        }
        i += 1;
    }
    None
}

/// The account that the server reports.
pub fn parse_account_result(payload: &Json) -> (result: AccountInfo)
    ensures
        result@ == account_read(payload@),
{
    match payload {
        Json::Object(_) => {},
        _ => {
            return AccountInfo {
                email: None,
                plan: None,
                auth_type: "unknown".to_owned(),
                requires_openai_auth: false,
            };
        },
    }
    let needs_login = match payload.get("requiresOpenaiAuth") {
        Some(flag) => match flag.as_bool() {
            Some(flag) => flag,
            None => false,
        },
        None => false,
    };
    let account = match payload.get("account") {
        Some(account) => account,
        None => payload,
    };
    let filled = match account {
        Json::Object(items) => {
            assert(account@->Object_0.len() == items@.len());
            items.len() > 0
        },
        _ => false,
    };
    if !filled {
        return AccountInfo {
            email: None,
            plan: None,
            auth_type: if needs_login {
                "not_logged_in".to_owned()
            } else {
                "unknown".to_owned()
            },
            requires_openai_auth: needs_login,
        };
    }
    let email_keys = vec!["email", "emailAddress"];
    let plan_keys = vec!["planType", "plan", "subscriptionType"];
    let type_keys = vec!["authType", "auth_type", "type"];
    let root_keys = vec!["authType"];
    proof {
        assert(Seq::new(email_keys@.len(), |i: int| email_keys@[i]@) =~= seq![
            "email"@,
            "emailAddress"@,
        ]);
        assert(Seq::new(plan_keys@.len(), |i: int| plan_keys@[i]@) =~= seq![
            "planType"@,
            "plan"@,
            "subscriptionType"@,
        ]);
        assert(Seq::new(type_keys@.len(), |i: int| type_keys@[i]@) =~= seq![
            "authType"@,
            "auth_type"@,
            "type"@,
        ]);
        assert(Seq::new(root_keys@.len(), |i: int| root_keys@[i]@) =~= seq!["authType"@]);
    }
    let auth_type = match first_text(account, &type_keys) {
        Some(kind) => kind,
        None => match first_text(payload, &root_keys) {
            Some(kind) => kind,
            None => "unknown".to_owned(),
        },
    };
    AccountInfo {
        email: first_text(account, &email_keys),
        plan: first_text(account, &plan_keys),
        auth_type,
        requires_openai_auth: needs_login,
    }
}

// ---------------------------------------------------------------------------
// Device login
// ---------------------------------------------------------------------------

/// A login that waits for a code to be entered elsewhere.
#[derive(Debug, PartialEq, Eq)]
pub struct DeviceLoginStart {
    pub login_id: String,
    pub verification_url: String,
    pub user_code: String,
}

/// What such a login came to.
#[derive(Debug, PartialEq, Eq)]
pub struct DeviceLoginResult {
    pub started: DeviceLoginStart,
    pub completed: bool,
    pub account: Option<AccountInfo>,
    pub error: Option<String>,
    pub cancelled: bool,
}

pub open spec fn incomplete_code() -> ServerErrorView {
    ServerErrorView::Protocol("account/login/start did not return a complete device code"@)
}

/// The id, the address and the code of a login that was started.
pub open spec fn device_login(payload: JsonView) -> Option<(Seq<char>, Seq<char>, Seq<char>)> {
    match (
        text_of_value(payload.get("type"@)),
        first_filled(payload, seq!["loginId"@, "login_id"@], 0),
        first_filled(payload, seq!["verificationUrl"@, "verification_url"@], 0),
        first_filled(payload, seq!["userCode"@, "user_code"@], 0),
    ) {
        (Some(_), Some(id), Some(url), Some(code)) => if payload is Object {
            Some((id, url, code))
        } else {
            None
        },
        _ => None,
    }
}

fn incomplete() -> (result: AppServerError)
    ensures
        result@ == incomplete_code(),
{
    AppServerError::Protocol(
        "account/login/start did not return a complete device code".to_owned(),
    )
}

/// The login that was started, if the answer says all of it.
pub fn parse_device_login_result(payload: &Json) -> (result: Result<
    DeviceLoginStart,
    AppServerError,
>)
    ensures
        match result {
            Ok(start) => device_login(payload@) == Some(
                (start.login_id@, start.verification_url@, start.user_code@),
            ),
            Err(error) => device_login(payload@) is None && error@ == incomplete_code(),
        },
{
    match payload {
        Json::Object(_) => {},
        _ => {
            return Err(incomplete());
        },
    }
    let id_keys = vec!["loginId", "login_id"];
    let url_keys = vec!["verificationUrl", "verification_url"];
    let code_keys = vec!["userCode", "user_code"];
    proof {
        assert(Seq::new(id_keys@.len(), |i: int| id_keys@[i]@) =~= seq!["loginId"@, "login_id"@]);
        assert(Seq::new(url_keys@.len(), |i: int| url_keys@[i]@) =~= seq![
            "verificationUrl"@,
            "verification_url"@,
        ]);
        assert(Seq::new(code_keys@.len(), |i: int| code_keys@[i]@) =~= seq![
            "userCode"@,
            "user_code"@,
        ]);
    }
    let kind = value_text(payload.get("type"));
    let login_id = first_text(payload, &id_keys);
    let verification_url = first_text(payload, &url_keys);
    let user_code = first_text(payload, &code_keys);
    match (kind, login_id, verification_url, user_code) {
        (Some(_), Some(login_id), Some(verification_url), Some(user_code)) => Ok(
            DeviceLoginStart { login_id, verification_url, user_code },
        ),
        _ => Err(incomplete()),
    }
}

/// What a device login came to, from how the wait for it ended.
pub fn device_login_result(
    started: DeviceLoginStart,
    outcome: Result<Option<AccountInfo>, AppServerError>,
) -> (result: DeviceLoginResult)
    ensures
        result.started == started,
        match outcome {
            Ok(account) => result.completed && result.account == account && result.error is None
                && !result.cancelled,
            Err(error) => !result.completed && result.account is None && match error@ {
                ServerErrorView::LoginCancelled(detail) => result.cancelled && text::opt_text(
                    result.error,
                ) == Some(detail),
                other => !result.cancelled && text::opt_text(result.error) == Some(
                    detail(server_message(other), 240),
                ),
            },
        },
{
    match outcome {
        Ok(account) => DeviceLoginResult {
            started,
            completed: true,
            account,
            error: None,
            cancelled: false,
        },
        Err(error) => match error {
            AppServerError::LoginCancelled(message) => DeviceLoginResult {
                started,
                completed: false,
                account: None,
                error: Some(message),
                cancelled: true,
            },
            _ => {
                let message = error.message();
                DeviceLoginResult {
                    started,
                    completed: false,
                    account: None,
                    error: Some(safe_detail(message.as_str(), 240)),
                    cancelled: false,
                }
            },
        },
    }
}

/// Whether a device login may start: none is under way. `finished` tells of the
/// last one, if there was any, whether it has ended.
pub fn start_device_login(finished: Option<bool>) -> (result: Result<(), AppServerError>)
    ensures
        match result {
            Ok(()) => finished != Some(false),
            Err(error) => finished == Some(false) && error@ == ServerErrorView::LoginInProgress,
        },
{
    match finished {
        Some(false) => Err(AppServerError::LoginInProgress),
        _ => Ok(()),
    }
}

// ---------------------------------------------------------------------------
// Requests
// ---------------------------------------------------------------------------

/// What the client says of itself.
pub open spec fn initialize_json(experimental: bool) -> JsonView {
    JsonView::Object(
        seq![
            (
                "clientInfo"@,
                JsonView::Object(
                    seq![
                        ("name"@, JsonView::Text("codexbot"@)),
                        ("title"@, JsonView::Text("CodexBot"@)),
                        ("version"@, JsonView::Text(VERSION@)),
                    ],
                ),
            ),
            (
                "capabilities"@,
                JsonView::Object(seq![("experimentalApi"@, JsonView::Bool(experimental))]),
            ),
        ],
    )
}

/// What the client says of itself.
pub fn initialize_params(experimental_api: bool) -> (result: Json)
    ensures
        result@ == initialize_json(experimental_api),
{
    let ghost goal = initialize_json(experimental_api)->Object_0;
    let mut client: Vec<(String, Json)> = Vec::new();
    client.push(json::member("name", json::text_json("codexbot")));
    client.push(json::member("title", json::text_json("CodexBot")));
    client.push(json::member("version", json::text_json(VERSION)));
    assert(json::members(client@) =~= goal[0].1->Object_0);
    let mut capabilities: Vec<(String, Json)> = Vec::new();
    capabilities.push(json::member("experimentalApi", Json::Bool(experimental_api)));
    assert(json::members(capabilities@) =~= goal[1].1->Object_0);
    let mut parts: Vec<(String, Json)> = Vec::new();
    parts.push(json::member("clientInfo", json::object(client)));
    parts.push(json::member("capabilities", json::object(capabilities)));
    assert(json::members(parts@) =~= goal);
    json::object(parts)
}

/// The messages of a conversation that wait to be read.
#[derive(Debug)]
pub struct CodexAppServerSession {
    pub pending: Vec<(u64, Json)>,
    pub notifications: Vec<Json>,
    pub next_id: u64,
}

/// What waits in a conversation: answers by the id of their request, and
/// notifications in order.
#[verifier::ext_equal]
pub struct SessionState {
    pub pending: Map<u64, JsonView>,
    pub notifications: Seq<JsonView>,
    pub next_id: u64,
}

/// The answers that a list of entries makes, later entries first.
pub open spec fn pending_map(entries: Seq<(u64, Json)>) -> Map<u64, JsonView>
    decreases entries.len(),
{
    if entries.len() == 0 {
        Map::empty()
    } else {
        pending_map(entries.drop_last()).insert(entries.last().0, entries.last().1@)
    }
}

impl CodexAppServerSession {
    pub open spec fn view(&self) -> SessionState {
        SessionState {
            pending: pending_map(self.pending@),
            notifications: json::values(self.notifications@),
            next_id: self.next_id,
        }
    }
}

/// A message as the server expects a request.
pub open spec fn request_json(method: Seq<char>, id: u64, params: JsonView) -> JsonView {
    JsonView::Object(
        seq![
            ("method"@, JsonView::Text(method)),
            ("id"@, JsonView::Number(NumberView::Unsigned(id as nat))),
            ("params"@, params),
        ],
    )
}

/// What a line of the server holds, if it is a message.
pub open spec fn message_in(line: Seq<u8>) -> Option<JsonView> {
    match json::parsed(line) {
        Some(value) => if value is Object {
            Some(value)
        } else {
            None
        },
        None => None,
    }
}

/// Reads a line of the server.
pub fn read_message(line: &Vec<u8>) -> (result: Option<Json>)
    ensures
        match result {
            Some(message) => message_in(line@) == Some(message@),
            None => message_in(line@) is None,
        },
{
    match json::parse_json(line.as_slice()) {
        Some(value) => match value {
            Json::Object(_) => Some(value),
            _ => None,
        },
        None => None,
    }
}

/// The id of the request that a message answers.
pub open spec fn message_id(message: JsonView) -> Option<u64> {
    match message.get("id"@) {
        Some(JsonView::Number(NumberView::Unsigned(n))) => Some(n as u64),
        _ => None,
    }
}

/// Whether the server asks something itself.
pub open spec fn is_server_request(message: JsonView) -> bool {
    message.get("method"@) is Some && message.get("result"@) is None && message.get(
        "error"@,
    ) is None
}

/// Whether a message only tells something.
pub open spec fn is_notification(message: JsonView) -> bool {
    message.get("id"@) is None && message.get("method"@) is Some
}

/// What a message makes of a conversation that waits for the answer to a
/// request, and whether it is that answer.
pub open spec fn message_routed(s: SessionState, message: JsonView, request: u64) -> (
    SessionState,
    bool,
) {
    if message.get("id"@) is None {
        if message.get("method"@) is Some {
            (SessionState { notifications: s.notifications.push(message), ..s }, false)
        } else {
            (s, false)
        }
    } else if is_server_request(message) {
        (s, false)
    } else {
        match message_id(message) {
            Some(id) => if id == request {
                (s, true)
            } else {
                (SessionState { pending: s.pending.insert(id, message), ..s }, false)
            },
            None => (s, false),
        }
    }
}

fn id_of(message: &Json) -> (result: Option<u64>)
    ensures
        result == message_id(message@),
{
    match message.get("id") {
        Some(id) => id.as_unsigned(),
        None => None,
    }
}

impl CodexAppServerSession {
    pub fn new() -> (result: Self)
        ensures
            result@ == (SessionState {
                pending: Map::empty(),
                notifications: Seq::empty(),
                next_id: 0,
            }),
    {
        let result = CodexAppServerSession {
            pending: Vec::new(),
            notifications: Vec::new(),
            next_id: 0,
        };
        assert(result@.notifications =~= Seq::<JsonView>::empty());
        result
    }

    fn has_pending(&self, id: u64) -> (result: bool)
        ensures
            result == self@.pending.contains_key(id),
    {
        let ghost entries = self.pending@;
        for i in 0..self.pending.len()
            invariant
                entries == self.pending@,
                !pending_map(entries.take(i as int)).contains_key(id),
        {
            assert(entries.take(i + 1).drop_last() =~= entries.take(i as int));
            if self.pending[i].0 == id {
                proof {
                    lemma_pending_has(entries, i as int);
                }
                return true;
            }
        }
        assert(entries.take(entries.len() as int) =~= entries);
        false
    }

    fn keep(&mut self, id: u64, message: Json)
        ensures
            final(self)@ == (SessionState {
                pending: old(self)@.pending.insert(id, message@),
                ..old(self)@
            }),
    {
        let ghost before = self.pending@;
        self.pending.push((id, message));
        assert(self.pending@.drop_last() =~= before);
    }

    fn notify(&mut self, message: Json)
        ensures
            final(self)@ == (SessionState {
                notifications: old(self)@.notifications.push(message@),
                ..old(self)@
            }),
    {
        self.notifications.push(message);
        assert(json::values(self.notifications@) =~= old(self)@.notifications.push(message@));
    }

    /// Takes the answer to a request out of those that wait.
    pub fn take_pending(&mut self, id: u64) -> (result: Option<Json>)
        ensures
            match result {
                Some(message) => old(self)@.pending.contains_key(id) && message@
                    == old(self)@.pending[id],
                None => !old(self)@.pending.contains_key(id),
            },
            final(self)@ == (SessionState { pending: old(self)@.pending.remove(id), ..old(self)@ }),
    {
        let mut entries: Vec<(u64, Json)> = Vec::new();
        std::mem::swap(&mut entries, &mut self.pending);
        let ghost all = entries@;
        let mut kept: Vec<(u64, Json)> = Vec::new();
        let mut found: Option<Json> = None;
        assert(pending_map(all.take(0)) =~= Map::<u64, JsonView>::empty());
        assert(pending_map(kept@) =~= pending_map(all.take(0)).remove(id));
        for entry in iter: entries
            invariant
                iter.seq() == all,
                pending_map(kept@) == pending_map(all.take(iter.index() as int)).remove(id),
                match found {
                    Some(message) => pending_map(all.take(iter.index() as int)).contains_key(id)
                        && pending_map(all.take(iter.index() as int))[id] == message@,
                    None => !pending_map(all.take(iter.index() as int)).contains_key(id),
                },
        {
            let ghost n = iter.index() as int;
            let ghost before = pending_map(all.take(n));
            let ghost held = kept@;
            assert(all.take(n + 1).drop_last() =~= all.take(n));
            assert(all.take(n + 1).last() == all[n]);
            if entry.0 == id {
                found = Some(entry.1);
                assert(pending_map(all.take(n + 1)).remove(id) =~= before.remove(id));
            } else {
                let ghost pair = entry;
                kept.push(entry);
                assert(kept@.drop_last() =~= held);
                assert(pending_map(all.take(n + 1)).remove(id) =~= before.remove(id).insert(
                    pair.0,
                    pair.1@,
                ));
            }
        }
        assert(all.take(all.len() as int) =~= all);
        self.pending = kept;
        found
    }

    /// Begins a request: its id, and the message to send unless the answer is
    /// there already.
    pub fn raw_request(&mut self, method: &str, params: Json) -> (result: (u64, Option<Json>))
        requires
            old(self).next_id < u64::MAX,
        ensures
            result.0 == old(self)@.next_id,
            final(self)@ == (SessionState {
                next_id: (old(self)@.next_id + 1) as u64,
                ..old(self)@
            }),
            match result.1 {
                Some(message) => !old(self)@.pending.contains_key(result.0) && message@
                    == request_json(method@, result.0, params@),
                None => old(self)@.pending.contains_key(result.0),
            },
    {
        let id: u64 = self.next_id;
        self.next_id = self.next_id + 1;
        if self.has_pending(id) {
            return (id, None);
        }
        let mut parts: Vec<(String, Json)> = Vec::new();
        parts.push(json::member("method", json::text_json(method)));
        parts.push(json::member("id", Json::Number(JsonNumber::Unsigned(id))));
        parts.push(json::member("params", params));
        assert(json::members(parts@) =~= request_json(method@, id, params@)->Object_0);
        (id, Some(json::object(parts)))
    }

    /// Takes in a message while the answer to a request is waited for, and
    /// gives it back if it is that answer.
    pub fn accept(&mut self, message: Json, request_id: u64) -> (result: Option<Json>)
        ensures
            ({
                let (after, answered) = message_routed(old(self)@, message@, request_id);
                final(self)@ == after && match result {
                    Some(response) => answered && response@ == message@,
                    None => !answered,
                }
            }),
    {
        if message.get("id").is_none() {
            if message.get("method").is_some() {
                self.notify(message);
            }
            return None;
        }
        if message.get("method").is_some() && message.get("result").is_none() && message.get(
            "error",
        ).is_none() {
            return None;
        }
        match id_of(&message) {
            Some(id) => if id == request_id {
                Some(message)
            } else {
                self.keep(id, message);
                None
            },
            None => None,
        }
    }

    /// Takes in a message while nothing is waited for, and gives it back if it
    /// is a notification.
    pub fn pump_notification(&mut self, message: Json) -> (result: Option<Json>)
        ensures
            match result {
                Some(notice) => is_notification(message@) && notice@ == message@ && final(self)@
                    == old(self)@,
                None => !is_notification(message@) && final(self)@ == (match message_id(message@) {
                    Some(id) => SessionState {
                        pending: old(self)@.pending.insert(id, message@),
                        ..old(self)@
                    },
                    None => old(self)@,
                }),
            },
    {
        if message.get("id").is_none() && message.get("method").is_some() {
            return Some(message);
        }
        match id_of(&message) {
            Some(id) => {
                self.keep(id, message);
            },
            None => {},
        }
        None
    }

    /// The notifications that wait, which are then gone.
    pub fn drain_notifications(&mut self) -> (result: Vec<Json>)
        ensures
            json::values(result@) == old(self)@.notifications,
            final(self)@ == (SessionState { notifications: Seq::empty(), ..old(self)@ }),
    {
        let mut taken: Vec<Json> = Vec::new();
        std::mem::swap(&mut taken, &mut self.notifications);
        assert(json::values(self.notifications@) =~= Seq::<JsonView>::empty());
        taken
    }
}

proof fn lemma_pending_has(entries: Seq<(u64, Json)>, i: int)
    requires
        0 <= i < entries.len(),
    ensures
        pending_map(entries).contains_key(entries[i].0),
    decreases entries.len(),
{
    if i < entries.len() - 1 {
        lemma_pending_has(entries.drop_last(), i);
        assert(entries.drop_last()[i] == entries[i]);
    }
}

// ---------------------------------------------------------------------------
// Answers
// ---------------------------------------------------------------------------

/// The code of an error, as a number or written as one.
pub open spec fn error_code(error: JsonView) -> Option<int> {
    match error.get("code"@) {
        Some(JsonView::Text(shown)) => text::parsed_signed(shown),
        Some(code) => code.signed(),
        None => None,
    }
}

/// A member of an error on one redacted line.
pub open spec fn error_detail(error: JsonView, key: Seq<char>) -> Seq<char> {
    match error.get(key) {
        Some(value) => detail(json::compact_json(value), 240),
        None => detail(""@, 240),
    }
}

/// What the server answered: a result, or why there is none.
pub open spec fn answer_of(response: JsonView) -> Result<JsonView, ServerErrorView> {
    if !(response is Object) {
        Err(ServerErrorView::Protocol("Codex app-server response is not an object"@))
    } else {
        match response.get("error"@) {
            Some(JsonView::Object(members)) => {
                let error = JsonView::Object(members);
                Err(
                    ServerErrorView::Rpc {
                        code: error_code(error),
                        message: error_detail(error, "message"@),
                        data_summary: match error.get("data"@) {
                            Some(value) => detail(json::compact_json(value), 240),
                            None => ""@,
                        },
                    },
                )
            },
            _ => match response.get("result"@) {
                Some(result) => Ok(result),
                None => Err(
                    ServerErrorView::Protocol("Codex app-server response missing result"@),
                ),
            },
        }
    }
}

/// The views of a result.
pub open spec fn server_result(result: Result<Json, AppServerError>) -> Result<
    JsonView,
    ServerErrorView,
> {
    match result {
        Ok(value) => Ok(value@),
        Err(error) => Err(error@),
    }
}

fn code_of(error: &Json) -> (result: Option<i64>)
    ensures
        opt_int(result) == error_code(error@),
{
    match error.get("code") {
        Some(code) => match code {
            Json::Text(shown) => text::parse_signed(shown.as_str()),
            _ => code.as_signed(),
        },
        None => None,
    }
}

/// What the server answered.
pub fn response_for(response: &Json) -> (result: Result<Json, AppServerError>)
    ensures
        server_result(result) == answer_of(response@),
{
    match response {
        Json::Object(_) => {},
        _ => {
            return Err(
                AppServerError::Protocol("Codex app-server response is not an object".to_owned()),
            );
        },
    }
    match response.get("error") {
        Some(error) => match error {
            Json::Object(_) => {
                let message = match error.get("message") {
                    Some(value) => json::compact_text(value),
                    None => "".to_owned(),
                };
                let data_summary = match error.get("data") {
                    Some(value) => {
                        let shown = json::compact_text(value);
                        safe_detail(shown.as_str(), 240)
                    },
                    None => "".to_owned(),
                };
                return Err(
                    AppServerError::Rpc {
                        code: code_of(error),
                        message: safe_detail(message.as_str(), 240),
                        data_summary,
                    },
                );
            },
            _ => {},
        },
        None => {},
    }
    match response.get("result") {
        Some(value) => Ok(value.copy()),
        None => Err(
            AppServerError::Protocol("Codex app-server response missing result".to_owned()),
        ),
    }
}

/// The limits that the server reports, which have to be an object.
pub fn read_rate_limits(value: Json) -> (result: Result<Json, AppServerError>)
    ensures
        server_result(result) == (if value@ is Object {
            Ok::<JsonView, ServerErrorView>(value@)
        } else {
            Err(
                ServerErrorView::Protocol("account/rateLimits/read returned an invalid result"@),
            )
        }),
{
    match value {
        Json::Object(_) => Ok(value),
        _ => Err(
            AppServerError::Protocol(
                "account/rateLimits/read returned an invalid result".to_owned(),
            ),
        ),
    }
}

// ---------------------------------------------------------------------------
// The end of a login
// ---------------------------------------------------------------------------

/// What a notification says of a login.
pub enum LoginNotice {
    /// Nothing.
    Unrelated,
    /// It is done; the account, if told.
    Completed(Option<AccountView>),
    /// It failed, or the notification makes no sense.
    Failed(ServerErrorView),
}

/// The members of a notification, none if they are no object.
pub open spec fn params_of(message: JsonView) -> JsonView {
    match message.get("params"@) {
        Some(params) => if params is Object {
            params
        } else {
            JsonView::Object(Seq::empty())
        },
        None => JsonView::Object(Seq::empty()),
    }
}

/// A value written out without the quotation marks at its ends.
pub open spec fn unquoted(value: JsonView) -> Seq<char> {
    text::stripped_end(text::stripped_start(json::compact_json(value), "\""@), "\""@)
}

/// What a notification says of the login `login_id`.
pub open spec fn login_notice(message: JsonView, login_id: Seq<char>) -> LoginNotice {
    let method = match message.text_at("method"@) {
        Some(method) => method,
        None => ""@,
    };
    let params = params_of(message);
    if !(message is Object) || text::lowercase(method) != "account/login/completed"@ {
        LoginNotice::Unrelated
    } else if params.get("loginId"@) is Some && unquoted(params.get("loginId"@)->0) != login_id {
        LoginNotice::Unrelated
    } else {
        match params.get("success"@) {
            Some(JsonView::Bool(success)) => if success {
                LoginNotice::Completed(
                    match params.get("account"@) {
                        Some(account) => Some(account_read(account)),
                        None => None,
                    },
                )
            } else {
                LoginNotice::Failed(
                    ServerErrorView::LoginFailed(
                        match params.get("error"@) {
                            Some(error) => if detail(json::compact_json(error), 240).len() > 0 {
                                detail(json::compact_json(error), 240)
                            } else {
                                "设备码登录失败"@
                            },
                            None => "设备码登录失败"@,
                        },
                    ),
                )
            },
            _ => LoginNotice::Failed(
                ServerErrorView::Protocol("account/login/completed missing boolean success"@),
            ),
        }
    }
}

pub open spec fn opt_account(account: Option<AccountInfo>) -> Option<AccountView> {
    match account {
        Some(account) => Some(account@),
        None => None,
    }
}

/// What a notification says of a login.
pub fn notification_login_result(message: &Json, login_id: &str) -> (result: Result<
    Option<Option<AccountInfo>>,
    AppServerError,
>)
    ensures
        login_notice(message@, login_id@) == (match result {
            Ok(None) => LoginNotice::Unrelated,
            Ok(Some(account)) => LoginNotice::Completed(opt_account(account)),
            Err(error) => LoginNotice::Failed(error@),
        }),
{
    match message {
        Json::Object(_) => {},
        _ => {
            return Ok(None);
        },
    }
    let method = match message.text_at("method") {
        Some(method) => method,
        None => "",
    };
    let lower = text::to_lower(method);
    if !text_eq(lower.as_str(), "account/login/completed") {
        return Ok(None);
    }
    let empty = json::object(Vec::new());
    proof {
        assert(json::members(Seq::<(String, Json)>::empty()) =~= Seq::empty());
        assert(empty@->Object_0 =~= Seq::empty());
    }
    let params = match message.get("params") {
        Some(params) => match params {
            Json::Object(_) => params,
            _ => &empty,
        },
        None => &empty,
    };
    match params.get("loginId") {
        Some(id) => {
            let shown = json::compact_text(id);
            let head = text::strip_start(shown.as_str(), "\"");
            let bare = text::strip_end(head.as_str(), "\"");
            if !text_eq(bare.as_str(), login_id) {
                return Ok(None);
            }
        },
        None => {},
    }
    let success = match params.get("success") {
        Some(flag) => flag.as_bool(),
        None => None,
    };
    match success {
        None => Err(
            AppServerError::Protocol("account/login/completed missing boolean success".to_owned()),
        ),
        Some(true) => match params.get("account") {
            Some(account) => Ok(Some(Some(parse_account_result(account)))),
            None => Ok(Some(None)),
        },
        Some(false) => {
            let shown = match params.get("error") {
                Some(error) => {
                    let written = json::compact_text(error);
                    safe_detail(written.as_str(), 240)
                },
                None => String::new(),
            };
            if shown.as_str().is_empty() {
                Err(AppServerError::LoginFailed("设备码登录失败".to_owned()))
            } else {
                Err(AppServerError::LoginFailed(shown))
            }
        },
    }
}

/// The index of the first notification, from `from` on, that says something of
/// a login.
pub open spec fn notice_at(notifications: Seq<JsonView>, login_id: Seq<char>, from: int) -> Option<
    int,
>
    decreases notifications.len() - from,
{
    if 0 <= from < notifications.len() {
        if login_notice(notifications[from], login_id) is Unrelated {
            notice_at(notifications, login_id, from + 1)
        } else {
            Some(from)
        }
    } else {
        None
    }
}

impl CodexAppServerSession {
    /// Takes the notification that ends a login out of those that wait. Where
    /// it tells of a failure, the other notifications are dropped with it.
    pub fn take_login_notification(&mut self, login_id: &str) -> (result: Result<
        Option<Option<AccountInfo>>,
        AppServerError,
    >)
        ensures
            ({
                let waiting = old(self)@.notifications;
                match notice_at(waiting, login_id@, 0) {
                    None => result matches Ok(None) && final(self)@ == old(self)@,
                    Some(i) => match login_notice(waiting[i], login_id@) {
                        LoginNotice::Completed(account) => (result matches Ok(Some(found))
                            && opt_account(found) == account) && final(self)@ == (SessionState {
                            notifications: waiting.remove(i),
                            ..old(self)@
                        }),
                        LoginNotice::Failed(error) => (result matches Err(found) && found@ == error)
                            && final(self)@ == (SessionState {
                            notifications: Seq::empty(),
                            ..old(self)@
                        }),
                        LoginNotice::Unrelated => false,
                    },
                }
            }),
    {
        let ghost waiting = self@.notifications;
        let mut i: usize = 0;
        while i < self.notifications.len()
            invariant
                i <= self.notifications@.len(),
                *self == *old(self),
                waiting == json::values(self.notifications@),
                notice_at(waiting, login_id@, 0) == notice_at(waiting, login_id@, i as int),
            decreases self.notifications.len() - i,
        {
            match notification_login_result(&self.notifications[i], login_id) {
                Ok(None) => {},
                Ok(Some(account)) => {
                    let _ = self.notifications.remove(i);
                    assert(json::values(self.notifications@) =~= waiting.remove(i as int));
                    return Ok(Some(account));
                },
                Err(error) => {
                    self.notifications = Vec::new();
                    assert(json::values(self.notifications@) =~= Seq::<JsonView>::empty());
                    return Err(error);
                },
            }
            i += 1;
        }
        Ok(None)
    }

    /// Takes in a message while a login is waited for.
    pub fn wait_for_login(&mut self, message: Json)
        ensures
            final(self)@ == (match message_id(message@) {
                Some(id) => if is_server_request(message@) {
                    old(self)@
                } else {
                    SessionState {
                        pending: old(self)@.pending.insert(id, message@),
                        ..old(self)@
                    }
                },
                None => if message@.get("method"@) is Some {
                    SessionState {
                        notifications: old(self)@.notifications.push(message@),
                        ..old(self)@
                    }
                } else {
                    old(self)@
                },
            }),
    {
        match id_of(&message) {
            Some(id) => {
                if message.get("method").is_none() || message.get("result").is_some()
                    || message.get("error").is_some() {
                    self.keep(id, message);
                }
            },
            None => {
                if message.get("method").is_some() {
                    self.notify(message);
                }
            },
        }
    }
}

/// Each answer finds its request: a message is taken for the answer to a request
/// exactly if it bears its id and asks nothing itself; the answer to another
/// request is kept under that one's id, and what is only told is kept behind
/// what was told before. Nothing that waits is lost or changed.
pub proof fn lemma_answers_find_their_requests(
    s: SessionState,
    message: JsonView,
    request: u64,
    other: u64,
)
    requires
        request != other,
    ensures
        ({
            let (after, answers) = message_routed(s, message, request);
            let asks = message.get("method"@) is Some && message.get("result"@) is None
                && message.get("error"@) is None;
            let bears = |id: u64|
                message.get("id"@) == Some(JsonView::Number(NumberView::Unsigned(id as nat)));
            &&& bears(request) && !asks ==> answers && after == s
            &&& answers ==> !asks && message_id(message) == Some(request)
            &&& bears(other) && !asks ==> !answers && after.pending == s.pending.insert(
                other,
                message,
            ) && after.notifications == s.notifications
            &&& message.get("id"@) is None && message.get("method"@) is Some ==> !answers
                && after.notifications == s.notifications.push(message) && after.pending
                == s.pending
            &&& after.next_id == s.next_id
            &&& s.notifications.is_prefix_of(after.notifications)
            &&& s.pending.dom().subset_of(after.pending.dom())
        }),
{
}

/// A request bears its id, its method and its parameters.
pub proof fn lemma_request_bears_its_id(method: Seq<char>, id: u64, params: JsonView)
    ensures
        ({
            let request = request_json(method, id, params);
            &&& message_id(request) == Some(id)
            &&& request.get("method"@) == Some(JsonView::Text(method))
            &&& request.get("params"@) == Some(params)
        }),
{
    reveal_strlit("method");
    reveal_strlit("id");
    reveal_strlit("params");
    assert("method"@[0] != "params"@[0]);
    assert("id"@.len() == 2 && "method"@.len() == 6);
    reveal_with_fuel(json::member_of, 4);
    let members = request_json(method, id, params)->Object_0;
    assert(members.drop_first()[0] == members[1]);
    assert(members.drop_first().drop_first()[0] == members[2]);
}

/// An answer that tells of an error is one, whatever else it holds; any other
/// one gives its result as it is.
pub proof fn lemma_answer_gives_its_result(response: JsonView, result: JsonView)
    requires
        response is Object,
        response.get("result"@) == Some(result),
    ensures
        answer_of(response) is Err <==> (response.get("error"@) matches Some(error) && error is Object),
        answer_of(response) matches Ok(given) ==> given == result,
{
}

/// A login ends well exactly if the server says so, with the account that it
/// names.
pub proof fn lemma_login_ends_as_told(
    message: JsonView,
    login_id: Seq<char>,
    params: JsonView,
    success: bool,
)
    requires
        message.text_at("method"@) matches Some(method) && text::lowercase(method)
            == "account/login/completed"@,
        message.get("params"@) == Some(params),
        params is Object,
        params.get("loginId"@) is None,
        params.get("success"@) == Some(JsonView::Bool(success)),
    ensures
        login_notice(message, login_id) is Completed <==> success,
        login_notice(message, login_id) is Failed <==> !success,
        params.get("account"@) is None ==> (login_notice(
            message,
            login_id,
        ) matches LoginNotice::Completed(account) ==> account is None),
{
}

} // verus!
