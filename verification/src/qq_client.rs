//! What is said to the chat service and what it answers.
use vstd::prelude::*;
use crate::codex_login;
use crate::digest;
use crate::json;
use crate::json::{Json, JsonNumber, JsonView, NumberView};
use crate::qq_menu;
use crate::qq_menu::{MenuReply, ReplyContent};
use crate::store::StoreError;
use crate::text;

verus! {

/// Where an access token is asked for.
pub const QQ_TOKEN_ENDPOINT: &'static str = "https://bots.qq.com/app/getAppAccessToken";

/// Where the service stands.
pub const QQ_API_BASE: &'static str = "https://sandbox.api.sgroup.qq.com";

/// The events that are asked for: messages of a single user.
pub const QQ_C2C_INTENT: u64 = 33_554_432;

// ---------------------------------------------------------------------------
// Errors
// ---------------------------------------------------------------------------

/// A refusal by the service.
#[derive(Debug, PartialEq, Eq)]
pub struct QQApiError {
    pub code: Option<i64>,
    pub status: Option<u16>,
    pub message: String,
}

/// What a refusal is.
pub struct ApiErrorView {
    pub code: Option<int>,
    pub status: Option<u16>,
    pub message: Seq<char>,
}

/// The message of a refusal.
pub open spec fn api_message(error: ApiErrorView) -> Seq<char> {
    "code="@ + (match error.code {
        Some(code) => text::signed_decimal(code),
        None => ""@,
    }) + " status="@ + (match error.status {
        Some(status) => text::decimal(status as nat),
        None => ""@,
    }) + " "@ + error.message
}

/// A detail on one redacted line of at most three hundred characters.
pub open spec fn detail(value: Seq<char>) -> Seq<char> {
    codex_login::detail(value, 300)
}

/// A detail on one redacted line.
pub fn safe_detail(value: &str) -> (result: String)
    ensures
        result@ == detail(value@),
{
    codex_login::safe_detail(value, 300)
}

/// What `String::from_utf8_lossy` makes of some bytes.
pub uninterp spec fn lossy_text(bytes: Seq<u8>) -> Seq<char>;

/// Calls `String::from_utf8_lossy`, which leaves valid UTF-8 as it is.
#[verifier::external_body]
pub(crate) fn from_utf8_lossy(bytes: &[u8]) -> (result: String)
    ensures
        result@ == lossy_text(bytes@),
        digest::utf8_text(bytes@) is Some ==> digest::utf8_text(bytes@) == Some(result@),
{
    String::from_utf8_lossy(bytes).into_owned()
}

/// The code of a refusal, as a number or written as one.
pub open spec fn refusal_code(value: Option<JsonView>) -> Option<int> {
    match value {
        Some(JsonView::Text(shown)) => text::parsed_signed(shown),
        Some(code) => code.signed(),
        None => None,
    }
}

/// The refusal that a status and a body are. `lossy` is the body as a text.
pub open spec fn refusal_read(status: u16, body: Option<JsonView>, lossy: Seq<char>) -> ApiErrorView {
    let told = match json::opt_get(body, "message"@) {
        Some(message) => Some(message),
        None => json::opt_get(body, "msg"@),
    };
    ApiErrorView {
        code: refusal_code(json::opt_get(body, "code"@)),
        status: Some(status),
        message: match json::opt_text_of(told) {
            Some(message) => detail(message),
            None => detail(lossy),
        },
    }
}

impl QQApiError {
    pub open spec fn view(&self) -> ApiErrorView {
        ApiErrorView {
            code: codex_login::opt_int(self.code),
            status: self.status,
            message: self.message@,
        }
    }

    /// The refusal that a status and a readable body are.
    pub fn from_body(status: u16, body: Option<&Json>, lossy: &str) -> (result: QQApiError)
        ensures
            result@ == refusal_read(status, json::opt_json(body), lossy@),
    {
        let code: Option<i64> = match json::field(body, "code") {
            Some(code) => match code {
                Json::Text(shown) => text::parse_signed(shown.as_str()),
                _ => code.as_signed(),
            },
            None => None,
        };
        let told = match json::field(body, "message") {
            Some(message) => Some(message),
            None => json::field(body, "msg"),
        };
        let message = match json::text_in(told) {
            Some(message) => safe_detail(message),
            None => safe_detail(lossy),
        };
        QQApiError { code, status: Some(status), message }
    }

    /// The refusal that a status and a body are.
    pub fn from_response(status: u16, body: &[u8]) -> (result: QQApiError)
        ensures
            result@ == refusal_read(status, json::parsed(body@), lossy_text(body@)),
    {
        let value = json::parse_json(body);
        let lossy = from_utf8_lossy(body);
        match &value {
            Some(value) => QQApiError::from_body(status, Some(value), lossy.as_str()),
            None => QQApiError::from_body(status, None, lossy.as_str()),
        }
    }

    /// A failure on the way to the service or back.
    pub fn from_failure(status: Option<u16>, error: &str) -> (result: QQApiError)
        ensures
            result@ == (ApiErrorView { code: None, status, message: detail(error@) }),
    {
        QQApiError { code: None, status, message: safe_detail(error) }
    }

    pub fn message(&self) -> (result: String)
        ensures
            result@ == api_message(self@),
    {
        let mut result = "code=".to_owned();
        match self.code {
            Some(code) => {
                let shown = text::signed_decimal_text(code);
                result.append(shown.as_str());
            },
            None => {
                result.append("");
            },
        }
        result.append(" status=");
        match self.status {
            Some(status) => {
                let shown = text::decimal_text(status as u64);
                result.append(shown.as_str());
            },
            None => {
                result.append("");
            },
        }
        result.append(" ");
        result.append(self.message.as_str());
        result
    }
}

/// Why the chat is not served.
#[derive(Debug)]
pub enum QQRuntimeError {
    Store(StoreError),
    Http(String),
    WebSocket(String),
    Protocol(String),
    Api(QQApiError),
}

impl QQRuntimeError {
    pub open spec fn text(self) -> Seq<char> {
        match self {
            QQRuntimeError::Store(error) => error.text(),
            QQRuntimeError::Http(detail) => "QQ HTTP request failed: "@ + detail@,
            QQRuntimeError::WebSocket(detail) => "QQ websocket failed: "@ + detail@,
            QQRuntimeError::Protocol(detail) => "QQ protocol error: "@ + detail@,
            QQRuntimeError::Api(error) => "QQ API error: "@ + api_message(error@),
        }
    }

    pub fn message(&self) -> (result: String)
        ensures
            result@ == self.text(),
    {
        match self {
            QQRuntimeError::Store(error) => error.message(),
            QQRuntimeError::Http(detail) => headed("QQ HTTP request failed: ", detail.as_str()),
            QQRuntimeError::WebSocket(detail) => headed("QQ websocket failed: ", detail.as_str()),
            QQRuntimeError::Protocol(detail) => headed("QQ protocol error: ", detail.as_str()),
            QQRuntimeError::Api(error) => {
                let shown = error.message();
                headed("QQ API error: ", shown.as_str())
            },
        }
    }
}

/// `head` with `tail` behind it.
pub fn headed(head: &str, tail: &str) -> (result: String)
    ensures
        result@ == head@ + tail@,
{
    let mut result = head.to_owned();
    result.append(tail);
    result
}

/// Whether an error is this protocol error.
pub open spec fn is_protocol(error: QQRuntimeError, detail: Seq<char>) -> bool {
    error matches QQRuntimeError::Protocol(shown) && shown@ == detail
}

pub fn protocol(detail: &str) -> (result: QQRuntimeError)
    ensures
        is_protocol(result, detail@),
{
    QQRuntimeError::Protocol(detail.to_owned())
}

/// The error of a task that broke off.
pub fn flatten_join(label: &str, error: &str) -> (result: QQRuntimeError)
    ensures
        is_protocol(result, label@ + " task failed: "@ + detail(error@)),
{
    let mut shown = label.to_owned();
    shown.append(" task failed: ");
    let detail = safe_detail(error);
    shown.append(detail.as_str());
    QQRuntimeError::Protocol(shown)
}

// ---------------------------------------------------------------------------
// Requests
// ---------------------------------------------------------------------------

/// Whether a status says that a request went well.
pub open spec fn is_success(status: u16) -> bool {
    200 <= status < 300
}

/// What asks for an access token.
pub open spec fn token_request_json(app_id: Seq<char>, app_secret: Seq<char>) -> JsonView {
    JsonView::Object(
        seq![
            ("appId"@, JsonView::Text(app_id)),
            ("clientSecret"@, JsonView::Text(app_secret)),
        ],
    )
}

/// What asks for an access token.
pub fn token_request(app_id: &str, app_secret: &str) -> (result: Json)
    ensures
        result@ == token_request_json(app_id@, app_secret@),
{
    let mut parts: Vec<(String, Json)> = Vec::new();
    parts.push(json::member("appId", json::text_json(app_id)));
    parts.push(json::member("clientSecret", json::text_json(app_secret)));
    assert(json::members(parts@) =~= token_request_json(app_id@, app_secret@)->Object_0);
    json::object(parts)
}

/// How long a token is used, in seconds: a minute less than it is valid, and a
/// second at least. A token whose validity is not told is valid five minutes.
pub open spec fn token_lifetime(expires_in: JsonView) -> nat {
    let told = match expires_in {
        JsonView::Text(shown) => text::parsed_unsigned(shown, u64::MAX as nat),
        other => other.unsigned(),
    };
    let expires = match told {
        Some(seconds) => seconds,
        None => 300,
    };
    if expires > 61 {
        (expires - 60) as nat
    } else {
        1
    }
}

/// How long a token is used, in seconds, if the service gave one.
pub fn access_token(token: &str, expires_in: &Json) -> (result: Result<u64, QQRuntimeError>)
    ensures
        match result {
            Ok(lifetime) => text::trimmed(token@).len() > 0 && lifetime == token_lifetime(
                expires_in@,
            ),
            Err(error) => text::trimmed(token@).len() == 0 && is_protocol(
                error,
                "access-token response did not include a token"@,
            ),
        },
{
    let trimmed = text::trim(token);
    if trimmed.as_str().is_empty() {
        return Err(protocol("access-token response did not include a token"));
    }
    let told: Option<u64> = match expires_in {
        Json::Text(shown) => text::parse_unsigned(shown.as_str(), u64::MAX),
        _ => expires_in.as_unsigned(),
    };
    let expires: u64 = match told {
        Some(seconds) => seconds,
        None => 300,
    };
    if expires > 61 {
        Ok(expires - 60)
    } else {
        Ok(1)
    }
}

/// What the service says of a token that it gives.
#[derive(Debug, PartialEq, Eq)]
pub struct TokenResponse {
    pub access_token: String,
    pub expires_in: Json,
}

/// The token that the service gave and how long it is used, in seconds. `told`
/// is what the body says, where it can be read.
pub fn token_answer(status: u16, body: &[u8], told: Option<TokenResponse>) -> (result: Result<
    (String, u64),
    QQRuntimeError,
>)
    ensures
        match result {
            Ok((token, lifetime)) => is_success(status) && text::trimmed(token@).len() > 0 && (
            told matches Some(answer) && answer.access_token@ == token@ && lifetime
                == token_lifetime(answer.expires_in@)),
            Err(QQRuntimeError::Api(error)) => !is_success(status) && error@ == refusal_read(
                status,
                json::parsed(body@),
                lossy_text(body@),
            ),
            Err(error) => is_success(status) && match told {
                None => is_protocol(error, "access-token response is not valid JSON"@),
                Some(answer) => text::trimmed(answer.access_token@).len() == 0 && is_protocol(
                    error,
                    "access-token response did not include a token"@,
                ),
            },
        },
{
    if status < 200 || status >= 300 {
        return Err(QQRuntimeError::Api(QQApiError::from_response(status, body)));
    }
    match told {
        Some(answer) => match access_token(answer.access_token.as_str(), &answer.expires_in) {
            Ok(lifetime) => Ok((answer.access_token, lifetime)),
            Err(error) => Err(error),
        },
        None => Err(protocol("access-token response is not valid JSON")),
    }
}

/// A token that is held, and until when it is used. Times are in milliseconds.
#[derive(Debug, PartialEq, Eq)]
pub struct AccessToken {
    pub value: String,
    pub refresh_at: u64,
}

impl AccessToken {
    /// A token that was given now and is used for so many seconds.
    pub fn new(value: String, lifetime: u64, now: u64) -> (result: AccessToken)
        ensures
            result.value == value,
            result.refresh_at == (if now + lifetime * 1_000 <= u64::MAX {
                now + lifetime * 1_000
            } else {
                u64::MAX as int
            }),
    {
        let room: u64 = (u64::MAX - now) / 1_000;
        let refresh_at: u64 = if lifetime <= room {
            now + lifetime * 1_000
        } else {
            u64::MAX
        };
        AccessToken { value, refresh_at }
    }

    /// The token, while it is used.
    pub fn usable(&self, now: u64) -> (result: Option<&str>)
        ensures
            text::opt_str(result) == (if self.refresh_at > now {
                Some(self.value@)
            } else {
                None
            }),
    {
        if self.refresh_at > now {
            Some(self.value.as_str())
        } else {
            None
        }
    }
}

/// The address of the gateway in an answer.
pub open spec fn gateway_in(body: JsonView) -> Option<Seq<char>> {
    match body.text_at("url"@) {
        Some(url) => if url.len() > 0 {
            Some(url)
        } else {
            None
        },
        None => None,
    }
}

/// The address of the gateway, from a status and a body.
pub fn gateway_url(status: u16, body: &[u8]) -> (result: Result<String, QQRuntimeError>)
    ensures
        match result {
            Ok(url) => is_success(status) && (json::parsed(body@) matches Some(value)
                && gateway_in(value) == Some(url@)),
            Err(QQRuntimeError::Api(error)) => !is_success(status) && error@ == refusal_read(
                status,
                json::parsed(body@),
                lossy_text(body@),
            ),
            Err(error) => is_success(status) && match json::parsed(body@) {
                None => is_protocol(error, "gateway response is not valid JSON"@),
                Some(value) => gateway_in(value) is None && is_protocol(
                    error,
                    "gateway response missing url"@,
                ),
            },
        },
{
    if status < 200 || status >= 300 {
        return Err(QQRuntimeError::Api(QQApiError::from_response(status, body)));
    }
    let value = match json::parse_json(body) {
        Some(value) => value,
        None => {
            return Err(protocol("gateway response is not valid JSON"));
        },
    };
    match value.text_at("url") {
        Some(url) => if url.is_empty() {
            Err(protocol("gateway response missing url"))
        } else {
            Ok(url.to_owned())
        },
        None => Err(protocol("gateway response missing url")),
    }
}

/// What the service said to a message.
pub fn post_c2c_message(status: u16, body: &[u8]) -> (result: Result<(), QQApiError>)
    ensures
        match result {
            Ok(()) => is_success(status),
            Err(error) => !is_success(status) && error@ == refusal_read(
                status,
                json::parsed(body@),
                lossy_text(body@),
            ),
        },
{
    if status >= 200 && status < 300 {
        Ok(())
    } else {
        Err(QQApiError::from_response(status, body))
    }
}

/// Where a message to a user goes.
pub fn message_url(openid: &str) -> (result: String)
    ensures
        result@ == QQ_API_BASE@ + "/v2/users/"@ + openid@ + "/messages"@,
{
    let mut result = QQ_API_BASE.to_owned();
    result.append("/v2/users/");
    result.append(openid);
    result.append("/messages");
    result
}

/// A message to a user. An answer names the message that it answers, and its
/// place among the answers to it.
pub open spec fn message_json_of(content: Seq<char>, reply_to: Option<(Seq<char>, u32)>) -> JsonView {
    let base = seq![
        ("msg_type"@, JsonView::Number(NumberView::Unsigned(0))),
        ("content"@, JsonView::Text(content)),
    ];
    JsonView::Object(
        match reply_to {
            Some((id, sequence)) => base.push(("msg_id"@, JsonView::Text(id))).push(
                ("msg_seq"@, JsonView::Number(NumberView::Unsigned(sequence as nat))),
            ),
            None => base,
        },
    )
}

pub open spec fn opt_source(reply_to: Option<(&str, u32)>) -> Option<(Seq<char>, u32)> {
    match reply_to {
        Some((id, sequence)) => Some((id@, sequence)),
        None => None,
    }
}

/// A message to a user.
pub fn c2c_message_payload(content: &str, reply_to: Option<(&str, u32)>) -> (result: Json)
    ensures
        result@ == message_json_of(content@, opt_source(reply_to)),
{
    let mut parts: Vec<(String, Json)> = Vec::new();
    parts.push(json::member("msg_type", Json::Number(JsonNumber::Unsigned(0))));
    parts.push(json::member("content", json::text_json(content)));
    match reply_to {
        Some((id, sequence)) => {
            parts.push(json::member("msg_id", json::text_json(id)));
            parts.push(
                json::member("msg_seq", Json::Number(JsonNumber::Unsigned(sequence as u64))),
            );
        },
        None => {},
    }
    assert(json::members(parts@) =~= message_json_of(content@, opt_source(reply_to))->Object_0);
    json::object(parts)
}

/// A message with a keyboard under it to a user.
pub open spec fn keyboard_json_of(
    content: Seq<char>,
    keyboard: JsonView,
    reply_to: Option<(Seq<char>, u32)>,
) -> JsonView {
    let base = seq![
        ("msg_type"@, JsonView::Number(NumberView::Unsigned(2))),
        ("markdown"@, JsonView::Object(seq![("content"@, JsonView::Text(content))])),
        ("keyboard"@, keyboard),
    ];
    JsonView::Object(
        match reply_to {
            Some((id, sequence)) => base.push(("msg_id"@, JsonView::Text(id))).push(
                ("msg_seq"@, JsonView::Number(NumberView::Unsigned(sequence as nat))),
            ),
            None => base,
        },
    )
}

/// A message with a keyboard under it to a user.
pub fn keyboard_message_payload(
    content: &str,
    keyboard: &Json,
    reply_to: Option<(&str, u32)>,
) -> (result: Json)
    ensures
        result@ == keyboard_json_of(content@, keyboard@, opt_source(reply_to)),
{
    let mut inner: Vec<(String, Json)> = Vec::new();
    inner.push(json::member("content", json::text_json(content)));
    assert(json::members(inner@) =~= seq![("content"@, JsonView::Text(content@))]);
    let mut parts: Vec<(String, Json)> = Vec::new();
    parts.push(json::member("msg_type", Json::Number(JsonNumber::Unsigned(2))));
    parts.push(json::member("markdown", json::object(inner)));
    parts.push(json::member("keyboard", keyboard.copy()));
    match reply_to {
        Some((id, sequence)) => {
            parts.push(json::member("msg_id", json::text_json(id)));
            parts.push(
                json::member("msg_seq", Json::Number(JsonNumber::Unsigned(sequence as u64))),
            );
        },
        None => {},
    }
    assert(json::members(parts@) =~= keyboard_json_of(
        content@,
        keyboard@,
        opt_source(reply_to),
    )->Object_0);
    json::object(parts)
}

/// What is sent of a reply: with its keyboard where the chat takes keyboards,
/// else as a text that lists the commands.
pub open spec fn reply_sent(
    reply: ReplyContent,
    keyboards: bool,
    reply_to: Option<(Seq<char>, u32)>,
) -> JsonView {
    match reply.keyboard {
        Some(keyboard) => if keyboards {
            keyboard_json_of(reply.text, keyboard, reply_to)
        } else {
            message_json_of(qq_menu::fallback(reply), reply_to)
        },
        None => message_json_of(reply.text, reply_to),
    }
}

/// What is sent of a reply.
pub fn reply_payload(reply: &MenuReply, keyboards: bool, reply_to: Option<(&str, u32)>) -> (result:
    Json)
    ensures
        result@ == reply_sent(reply@, keyboards, opt_source(reply_to)),
{
    match &reply.keyboard {
        Some(keyboard) => if keyboards {
            keyboard_message_payload(reply.text.as_str(), keyboard, reply_to)
        } else {
            let shown = reply.fallback_text();
            c2c_message_payload(shown.as_str(), reply_to)
        },
        None => c2c_message_payload(reply.text.as_str(), reply_to),
    }
}

/// Whether the chat refused a message for what it is, and not for its pace: one
/// with a keyboard is then sent again as a text.
pub fn refuses_keyboard(error: &QQApiError) -> (result: bool)
    ensures
        result == (error.status matches Some(status) && 400 <= status < 500 && status != 429),
{
    match error.status {
        Some(status) => 400 <= status && status < 500 && status != 429,
        None => false,
    }
}

// ---------------------------------------------------------------------------
// The gateway
// ---------------------------------------------------------------------------

/// What came through the gateway.
#[derive(Debug, PartialEq, Eq)]
pub enum GatewayFrame {
    /// Nothing more will come.
    End,
    Close,
    Ping(Vec<u8>),
    Text(Vec<u8>),
    Binary(Vec<u8>),
    Other,
}

/// The value that a frame holds.
pub fn message_json(frame: &GatewayFrame) -> (result: Result<Json, QQRuntimeError>)
    ensures
        match frame {
            GatewayFrame::Text(bytes) => match result {
                Ok(value) => json::parsed(bytes@) == Some(value@),
                Err(error) => json::parsed(bytes@) is None && is_protocol(
                    error,
                    "gateway message is invalid JSON"@,
                ),
            },
            GatewayFrame::Binary(bytes) => match result {
                Ok(value) => json::parsed(bytes@) == Some(value@),
                Err(error) => json::parsed(bytes@) is None && is_protocol(
                    error,
                    "gateway message is invalid JSON"@,
                ),
            },
            _ => result matches Err(error) && is_protocol(
                error,
                "gateway message is not JSON text"@,
            ),
        },
{
    let bytes = match frame {
        GatewayFrame::Text(bytes) => bytes,
        GatewayFrame::Binary(bytes) => bytes,
        _ => {
            return Err(protocol("gateway message is not JSON text"));
        },
    };
    match json::parse_json(bytes.as_slice()) {
        Some(value) => Ok(value),
        None => Err(protocol("gateway message is invalid JSON")),
    }
}

/// A member that is a whole number.
pub open spec fn number_at(value: JsonView, key: Seq<char>) -> Option<int> {
    match value.get(key) {
        Some(member) => member.signed(),
        None => None,
    }
}

fn number_in(value: &Json, key: &str) -> (result: Option<i64>)
    ensures
        codex_login::opt_int(result) == number_at(value@, key@),
{
    match value.get(key) {
        Some(member) => member.as_signed(),
        None => None,
    }
}

/// How often the gateway wants to hear from the bridge, in milliseconds: what
/// it asks for, and a second at least.
pub open spec fn heartbeat_interval(hello: JsonView) -> nat {
    let asked = match json::opt_get(hello.get("d"@), "heartbeat_interval"@) {
        Some(interval) => match interval.unsigned() {
            Some(n) => n,
            None => 30_000,
        },
        None => 30_000,
    };
    if asked < 1_000 {
        1_000
    } else {
        asked
    }
}

/// How often the gateway wants to hear from the bridge, if it began with a
/// greeting.
pub fn read_hello(frame: Option<GatewayFrame>) -> (result: Result<u64, QQRuntimeError>)
    ensures
        ({
            let hello = match frame {
                Some(GatewayFrame::Text(bytes)) => json::parsed(bytes@),
                Some(GatewayFrame::Binary(bytes)) => json::parsed(bytes@),
                _ => None,
            };
            match result {
                Ok(interval) => hello matches Some(value) && number_at(value, "op"@) == Some(10int)
                    && interval == heartbeat_interval(value),
                Err(error) => match (frame, hello) {
                    (None, _) => is_protocol(error, "gateway closed before hello"@),
                    (Some(_), Some(value)) => number_at(value, "op"@) != Some(10int) && is_protocol(
                        error,
                        "gateway did not send Hello"@,
                    ),
                    (Some(GatewayFrame::Text(_)), None) => is_protocol(
                        error,
                        "gateway message is invalid JSON"@,
                    ),
                    (Some(GatewayFrame::Binary(_)), None) => is_protocol(
                        error,
                        "gateway message is invalid JSON"@,
                    ),
                    (Some(_), None) => is_protocol(error, "gateway message is not JSON text"@),
                },
            }
        }),
{
    let frame = match frame {
        Some(frame) => frame,
        None => {
            return Err(protocol("gateway closed before hello"));
        },
    };
    let hello = match message_json(&frame) {
        Ok(hello) => hello,
        Err(error) => {
            return Err(error);
        },
    };
    let greets = match number_in(&hello, "op") {
        Some(op) => op == 10,
        None => false,
    };
    if !greets {
        return Err(protocol("gateway did not send Hello"));
    }
    let asked: u64 = match json::field(hello.get("d"), "heartbeat_interval") {
        Some(interval) => match interval.as_unsigned() {
            Some(n) => n,
            None => 30_000,
        },
        None => 30_000,
    };
    if asked < 1_000 {
        Ok(1_000)
    } else {
        Ok(asked)
    }
}

pub open spec fn whole(n: int) -> JsonView {
    JsonView::Number(
        if n >= 0 {
            NumberView::Unsigned(n as nat)
        } else {
            NumberView::Negative(n)
        },
    )
}

fn number(n: i64) -> (result: Json)
    ensures
        result@ == whole(n as int),
{
    if n >= 0 {
        Json::Number(JsonNumber::Unsigned(n as u64))
    } else {
        Json::Number(JsonNumber::Negative(n))
    }
}

/// How the bridge presents itself.
pub open spec fn identify_json(token: Seq<char>) -> JsonView {
    JsonView::Object(
        seq![
            ("op"@, whole(2)),
            (
                "d"@,
                JsonView::Object(
                    seq![
                        ("token"@, JsonView::Text("QQBot "@ + token)),
                        ("intents"@, whole(QQ_C2C_INTENT as int)),
                        ("shard"@, JsonView::List(seq![whole(0), whole(1)])),
                    ],
                ),
            ),
        ],
    )
}

/// How the bridge presents itself.
pub fn identify(token: &str) -> (result: Json)
    ensures
        result@ == identify_json(token@),
{
    let ghost goal = identify_json(token@)->Object_0;
    let mut shard: Vec<Json> = Vec::new();
    shard.push(number(0));
    shard.push(number(1));
    assert(json::values(shard@) =~= goal[1].1->Object_0[2].1->List_0);
    let shown = headed("QQBot ", token);
    let mut data: Vec<(String, Json)> = Vec::new();
    data.push(json::member("token", Json::Text(shown)));
    data.push(json::member("intents", Json::Number(JsonNumber::Unsigned(QQ_C2C_INTENT))));
    data.push(json::member("shard", json::list(shard)));
    assert(json::members(data@) =~= goal[1].1->Object_0);
    let mut parts: Vec<(String, Json)> = Vec::new();
    parts.push(json::member("op", number(2)));
    parts.push(json::member("d", json::object(data)));
    assert(json::members(parts@) =~= goal);
    json::object(parts)
}

/// A sign of life, with the number of the last event that came.
pub open spec fn heartbeat_json(sequence: Option<int>) -> JsonView {
    JsonView::Object(
        seq![
            ("op"@, whole(1)),
            (
                "d"@,
                match sequence {
                    Some(n) => whole(n),
                    None => JsonView::Null,
                },
            ),
        ],
    )
}

/// A sign of life.
pub fn heartbeat(sequence: Option<i64>) -> (result: Json)
    ensures
        result@ == heartbeat_json(codex_login::opt_int(sequence)),
{
    let last = match sequence {
        Some(n) => number(n),
        None => Json::Null,
    };
    let mut parts: Vec<(String, Json)> = Vec::new();
    parts.push(json::member("op", number(1)));
    parts.push(json::member("d", last));
    assert(json::members(parts@) =~= heartbeat_json(
        codex_login::opt_int(sequence),
    )->Object_0);
    json::object(parts)
}

/// The conversation with the gateway: the number of the last event, and whether
/// the service is ready.
#[derive(Debug, Clone, Copy, PartialEq, Eq, Structural)]
pub struct Gateway {
    pub sequence: Option<i64>,
    pub ready: bool,
}

/// What happened.
#[derive(Debug, PartialEq, Eq)]
pub enum GatewayEvent {
    /// The bridge stops.
    Stop,
    /// A sign of life is due.
    Tick,
    Frame(GatewayFrame),
}

/// What is to be done.
#[derive(Debug, PartialEq, Eq)]
pub enum GatewayAction {
    Nothing,
    /// The conversation is closed.
    Close,
    /// A value is sent.
    Send(Json),
    /// A ping is answered.
    Pong(Vec<u8>),
    /// An event is served. `became_ready` tells whether the service is ready
    /// from now on.
    Dispatch { event: Json, became_ready: bool },
}

/// What is to be done.
pub enum GatewayActionView {
    Nothing,
    Close,
    Send(JsonView),
    Pong(Seq<u8>),
    Dispatch { event: JsonView, became_ready: bool },
}

impl GatewayAction {
    pub open spec fn view(&self) -> GatewayActionView {
        match self {
            GatewayAction::Nothing => GatewayActionView::Nothing,
            GatewayAction::Close => GatewayActionView::Close,
            GatewayAction::Send(value) => GatewayActionView::Send(value@),
            GatewayAction::Pong(bytes) => GatewayActionView::Pong(bytes@),
            GatewayAction::Dispatch { event, became_ready } => GatewayActionView::Dispatch {
                event: event@,
                became_ready: *became_ready,
            },
        }
    }
}

/// Whether an event tells that the service is ready.
pub open spec fn tells_ready(event: JsonView) -> bool {
    match event.text_at("t"@) {
        Some(name) => text::same_ascii(name, "READY"@),
        None => false,
    }
}

/// What a value from the gateway makes of the conversation and what is to be
/// done; none where the gateway wants the bridge to come again.
pub open spec fn value_served(gateway: Gateway, event: JsonView) -> Option<
    (Gateway, GatewayActionView),
> {
    let sequence = match number_at(event, "s"@) {
        Some(n) => Some(n as i64),
        None => gateway.sequence,
    };
    let counted = Gateway { sequence, ..gateway };
    match number_at(event, "op"@) {
        Some(op) => if op == 0 {
            let ready = gateway.ready || tells_ready(event);
            Some(
                (
                    Gateway { ready, ..counted },
                    GatewayActionView::Dispatch { event, became_ready: ready && !gateway.ready },
                ),
            )
        } else if op == 1 {
            Some(
                (
                    counted,
                    GatewayActionView::Send(heartbeat_json(codex_login::opt_int(sequence))),
                ),
            )
        } else if op == 7 || op == 9 {
            None
        } else {
            Some((counted, GatewayActionView::Nothing))
        },
        None => Some((counted, GatewayActionView::Nothing)),
    }
}

/// What an event makes of the conversation: the new state and what is to be
/// done, or the detail of the error that ends it.
pub open spec fn gateway_step(gateway: Gateway, event: GatewayEvent) -> Result<
    (Gateway, GatewayActionView),
    Seq<char>,
> {
    match event {
        GatewayEvent::Stop => Ok((gateway, GatewayActionView::Close)),
        GatewayEvent::Tick => Ok(
            (
                gateway,
                GatewayActionView::Send(heartbeat_json(codex_login::opt_int(gateway.sequence))),
            ),
        ),
        GatewayEvent::Frame(GatewayFrame::End) => Err("gateway disconnected"@),
        GatewayEvent::Frame(GatewayFrame::Close) => Err("gateway closed"@),
        GatewayEvent::Frame(GatewayFrame::Ping(bytes)) => Ok(
            (gateway, GatewayActionView::Pong(bytes@)),
        ),
        GatewayEvent::Frame(GatewayFrame::Other) => Ok((gateway, GatewayActionView::Nothing)),
        GatewayEvent::Frame(GatewayFrame::Text(bytes)) => frame_served(gateway, bytes@),
        GatewayEvent::Frame(GatewayFrame::Binary(bytes)) => frame_served(gateway, bytes@),
    }
}

pub open spec fn frame_served(gateway: Gateway, bytes: Seq<u8>) -> Result<
    (Gateway, GatewayActionView),
    Seq<char>,
> {
    match json::parsed(bytes) {
        Some(value) => match value_served(gateway, value) {
            Some(served) => Ok(served),
            None => Err("gateway requested reconnect"@),
        },
        None => Err("gateway message is invalid JSON"@),
    }
}

impl Gateway {
    pub fn new() -> (result: Gateway)
        ensures
            result == (Gateway { sequence: None, ready: false }),
    {
        Gateway { sequence: None, ready: false }
    }

    fn serve_value(self, event: Json) -> (result: Option<(Gateway, GatewayAction)>)
        ensures
            match result {
                Some((after, action)) => value_served(self, event@) == Some((after, action@)),
                None => value_served(self, event@) is None,
            },
    {
        let sequence: Option<i64> = match number_in(&event, "s") {
            Some(n) => Some(n),
            None => self.sequence,
        };
        let counted = Gateway { sequence, ready: self.ready };
        let op: i64 = match number_in(&event, "op") {
            Some(op) => op,
            None => {
                return Some((counted, GatewayAction::Nothing));
            },
        };
        if op == 0 {
            let tells = match event.text_at("t") {
                Some(name) => text::eq_ignore_ascii_case(name, "READY"),
                None => false,
            };
            let ready = self.ready || tells;
            let became_ready = ready && !self.ready;
            Some((Gateway { sequence, ready }, GatewayAction::Dispatch { event, became_ready }))
        } else if op == 1 {
            Some((counted, GatewayAction::Send(heartbeat(sequence))))
        } else if op == 7 || op == 9 {
            None
        } else {
            Some((counted, GatewayAction::Nothing))
        }
    }

    /// What an event makes of the conversation, and what is to be done.
    pub fn gateway_session(self, event: GatewayEvent) -> (result: Result<
        (Gateway, GatewayAction),
        QQRuntimeError,
    >)
        ensures
            match result {
                Ok((after, action)) => gateway_step(self, event) == Ok::<
                    (Gateway, GatewayActionView),
                    Seq<char>,
                >((after, action@)),
                Err(error) => gateway_step(self, event) matches Err(detail) && is_protocol(
                    error,
                    detail,
                ),
            },
    {
        let frame = match event {
            GatewayEvent::Stop => {
                return Ok((self, GatewayAction::Close));
            },
            GatewayEvent::Tick => {
                return Ok((self, GatewayAction::Send(heartbeat(self.sequence))));
            },
            GatewayEvent::Frame(frame) => frame,
        };
        match frame {
            GatewayFrame::End => {
                return Err(protocol("gateway disconnected"));
            },
            GatewayFrame::Close => {
                return Err(protocol("gateway closed"));
            },
            GatewayFrame::Ping(bytes) => {
                return Ok((self, GatewayAction::Pong(bytes)));
            },
            GatewayFrame::Other => {
                return Ok((self, GatewayAction::Nothing));
            },
            _ => {},
        }
        let value = match message_json(&frame) {
            Ok(value) => value,
            Err(error) => {
                return Err(error);
            },
        };
        match self.serve_value(value) {
            Some(served) => Ok(served),
            None => Err(protocol("gateway requested reconnect")),
        }
    }
}

// ---------------------------------------------------------------------------
// Messages of users
// ---------------------------------------------------------------------------

/// A message of a user.
#[derive(Debug, PartialEq, Eq)]
pub struct IncomingMessage {
    pub openid: String,
    pub message_id: String,
    pub content: String,
}

/// The message that an event tells of: its user, its id and its text.
pub open spec fn message_told(event: JsonView) -> Option<(Seq<char>, Seq<char>, Seq<char>)> {
    let name = match event.text_at("t"@) {
        Some(name) => name,
        None => ""@,
    };
    let data = event.get("d"@);
    if !text::same_ascii(name, "C2C_MESSAGE_CREATE"@) {
        None
    } else {
        match (
            json::opt_text_of(json::opt_get(json::opt_get(data, "author"@), "user_openid"@)),
            json::opt_text_of(json::opt_get(data, "id"@)),
        ) {
            (Some(openid), Some(id)) => Some(
                (
                    openid,
                    id,
                    match json::opt_text_of(json::opt_get(data, "content"@)) {
                        Some(content) => content,
                        None => ""@,
                    },
                ),
            ),
            _ => None,
        }
    }
}

/// The message that an event tells of.
pub fn handle_dispatch(event: &Json) -> (result: Option<IncomingMessage>)
    ensures
        match result {
            Some(message) => message_told(event@) == Some(
                (message.openid@, message.message_id@, message.content@),
            ),
            None => message_told(event@) is None,
        },
{
    let name = match event.text_at("t") {
        Some(name) => name,
        None => "",
    };
    if !text::eq_ignore_ascii_case(name, "C2C_MESSAGE_CREATE") {
        return None;
    }
    let data = event.get("d");
    let openid = match json::text_in(json::field(json::field(data, "author"), "user_openid")) {
        Some(openid) => openid.to_owned(),
        None => {
            return None;
        },
    };
    let message_id = match json::text_in(json::field(data, "id")) {
        Some(id) => id.to_owned(),
        None => {
            return None;
        },
    };
    let content = match json::text_in(json::field(data, "content")) {
        Some(content) => content.to_owned(),
        None => "".to_owned(),
    };
    Some(IncomingMessage { openid, message_id, content })
}

/// A service that is ready stays so for the whole conversation, and becomes so
/// at most once.
pub proof fn lemma_ready_is_kept(gateway: Gateway, event: GatewayEvent)
    ensures
        gateway_step(gateway, event) matches Ok((after, action)) ==> {
            &&& gateway.ready ==> after.ready
            &&& (action matches GatewayActionView::Dispatch { became_ready, .. } && became_ready)
                ==> !gateway.ready && after.ready
        },
{
}

proof fn lemma_payload_names()
    ensures
        "msg_type"@.len() == 8,
        "content"@.len() == 7,
        "markdown"@.len() == 8,
        "keyboard"@.len() == 8,
        "msg_id"@.len() == 6,
        "msg_seq"@.len() == 7,
        "content"@ != "msg_seq"@,
        "msg_type"@ != "markdown"@,
        "msg_type"@ != "keyboard"@,
        "markdown"@ != "keyboard"@,
{
    reveal_strlit("msg_type");
    reveal_strlit("content");
    reveal_strlit("markdown");
    reveal_strlit("keyboard");
    reveal_strlit("msg_id");
    reveal_strlit("msg_seq");
    assert("content"@[0] != "msg_seq"@[0]);
    assert("msg_type"@[1] != "markdown"@[1]);
    assert("msg_type"@[0] != "keyboard"@[0]);
    assert("markdown"@[0] != "keyboard"@[0]);
}

/// The text of a reply is what the chat is sent of it, with the keyboard under
/// it where the chat takes keyboards. An answer names the message that it
/// answers, and its place; what is no answer names none.
pub proof fn lemma_reply_is_sent_whole(
    reply: ReplyContent,
    keyboards: bool,
    reply_to: Option<(Seq<char>, u32)>,
)
    ensures
        ({
            let sent = reply_sent(reply, keyboards, reply_to);
            &&& reply.keyboard is None ==> sent.get("content"@) == Some(JsonView::Text(reply.text))
                && sent.get("keyboard"@) is None
            &&& reply.keyboard matches Some(keyboard) ==> if keyboards {
                &&& sent.get("keyboard"@) == Some(keyboard)
                &&& sent.get("markdown"@) matches Some(markdown) && markdown.get("content"@)
                    == Some(JsonView::Text(reply.text))
            } else {
                sent.get("content"@) == Some(JsonView::Text(qq_menu::fallback(reply)))
            }
            &&& match reply_to {
                Some((id, sequence)) => sent.get("msg_id"@) == Some(JsonView::Text(id)) && sent.get(
                    "msg_seq"@,
                ) == Some(JsonView::Number(NumberView::Unsigned(sequence as nat))),
                None => sent.get("msg_id"@) is None && sent.get("msg_seq"@) is None,
            }
        }),
{
    lemma_payload_names();
    reveal_with_fuel(json::member_of, 6);
    let members = reply_sent(reply, keyboards, reply_to)->Object_0;
    let m1 = members.drop_first();
    let m2 = m1.drop_first();
    let m3 = m2.drop_first();
    let m4 = m3.drop_first();
    assert(members.len() > 1 ==> m1[0] == members[1]);
    assert(members.len() > 2 ==> m2[0] == members[2]);
    assert(members.len() > 3 ==> m3[0] == members[3]);
    assert(members.len() > 4 ==> m4[0] == members[4]);
    assert(JsonView::Object(seq![("content"@, JsonView::Text(reply.text))]).get("content"@) == Some(
        JsonView::Text(reply.text),
    ));
}

/// A message of a user is told with its user, its id and its text as they are,
/// and no other event is taken for one.
pub proof fn lemma_message_is_told_as_it_came(
    event: JsonView,
    name: Seq<char>,
    data: JsonView,
    author: JsonView,
    openid: Seq<char>,
    id: Seq<char>,
    content: Seq<char>,
)
    requires
        event.get("t"@) == Some(JsonView::Text(name)),
        event.get("d"@) == Some(data),
        data.get("author"@) == Some(author),
        author.get("user_openid"@) == Some(JsonView::Text(openid)),
        data.get("id"@) == Some(JsonView::Text(id)),
        data.get("content"@) == Some(JsonView::Text(content)),
    ensures
        message_told(event) == (if text::ascii_lower(name) == text::ascii_lower(
            "C2C_MESSAGE_CREATE"@,
        ) {
            Some((openid, id, content))
        } else {
            None
        }),
{
}

/// Whether an action is a sign of life that tells the number of an event.
pub open spec fn tells_life(action: GatewayActionView, sequence: Option<i64>) -> bool {
    action matches GatewayActionView::Send(value) && value.get("op"@) == Some(whole(1))
        && value.get("d"@) == Some(
        match sequence {
            Some(n) => whole(n as int),
            None => JsonView::Null,
        },
    )
}

/// Whether an action serves an event.
pub open spec fn serves(action: GatewayActionView, event: JsonView) -> bool {
    action matches GatewayActionView::Dispatch { event: served, .. } && served == event
}

/// A sign of life tells the number of the last event that came with one; each
/// event is served as it came; a gateway that wants the bridge to come again,
/// or that no longer knows it, ends the conversation.
pub proof fn lemma_events_are_served_and_counted(
    gateway: Gateway,
    event: JsonView,
    op: int,
    last: Option<int>,
)
    requires
        number_at(event, "op"@) == Some(op),
        number_at(event, "s"@) == last,
        last matches Some(n) ==> i64::MIN <= n <= i64::MAX,
    ensures
        value_served(gateway, event) is None <==> op == 7 || op == 9,
        value_served(gateway, event) matches Some((after, action)) ==> {
            &&& last matches Some(n) ==> after.sequence == Some(n as i64)
            &&& last is None ==> after.sequence == gateway.sequence
            &&& op == 0 ==> serves(action, event)
            &&& op != 0 ==> after.ready == gateway.ready
            &&& op == 1 ==> tells_life(action, after.sequence)
            &&& op != 0 && op != 1 ==> action is Nothing
        },
{
    lemma_sign_of_life(value_served(gateway, event).unwrap().0);
}

/// With every beat the gateway is told the number of the last event.
pub proof fn lemma_sign_of_life(gateway: Gateway)
    ensures
        gateway_step(gateway, GatewayEvent::Tick) matches Ok((after, action)) && after == gateway
            && tells_life(action, gateway.sequence),
        tells_life(
            GatewayActionView::Send(heartbeat_json(codex_login::opt_int(gateway.sequence))),
            gateway.sequence,
        ),
{
    reveal_strlit("op");
    reveal_strlit("d");
    assert("op"@.len() == 2 && "d"@.len() == 1);
    reveal_with_fuel(json::member_of, 3);
    let members = heartbeat_json(codex_login::opt_int(gateway.sequence))->Object_0;
    assert(members.drop_first()[0] == members[1]);
}

} // verus!
