//! The commands that the chat accepts.
use vstd::prelude::*;
use vstd::utf8;
use crate::clock;
use crate::codex_login;
use crate::digest;
use crate::formatting;
use crate::security;
use crate::store;
use crate::store::{ReplyView, SessionView, Store, StoreError, StoreView};
use crate::store_ops;
use crate::store_rows;
use crate::text;
use crate::text::text_eq;

verus! {

/// What the chat is told of the commands.
pub const HELP_TEXT: &'static str = "CodexBot QQ 命令\n/bind 配对码 - 首次绑定或使用新配对码换绑\n/status - 查看 Codex 当前状态\n/last [项目] [页码] - 查看最近回复；只写页码时保持兼容\n/mute - 暂停主动通知\n/unmute - 恢复主动通知\n/help - 显示此帮助";

/// Whether the commands on usage and accounts are served.
pub const EXTENDED_COMMANDS_ENABLED: bool = false;

/// What answers a command that is not served.
pub const EXTENDED_COMMANDS_DISABLED_TEXT: &'static str = "该命令在通知模式下未启用。";

/// The characters that a page of a reply holds.
pub const PAGE_SIZE: usize = 1000;

// ---------------------------------------------------------------------------
// Outcomes
// ---------------------------------------------------------------------------

/// What a command came to.
#[derive(Debug, Clone, Copy, PartialEq, Eq, Structural)]
pub enum CommandOutcome {
    Duplicate,
    BadPairing,
    Bound,
    Unbound,
    Unauthorized,
    Replied,
}

impl CommandOutcome {
    pub open spec fn name(self) -> Seq<char> {
        match self {
            CommandOutcome::Duplicate => "duplicate"@,
            CommandOutcome::BadPairing => "bad_pairing"@,
            CommandOutcome::Bound => "bound"@,
            CommandOutcome::Unbound => "unbound"@,
            CommandOutcome::Unauthorized => "unauthorized"@,
            CommandOutcome::Replied => "replied"@,
        }
    }

    pub fn as_str(self) -> (result: &'static str)
        ensures
            result@ == self.name(),
    {
        match self {
            CommandOutcome::Duplicate => "duplicate",
            CommandOutcome::BadPairing => "bad_pairing",
            CommandOutcome::Bound => "bound",
            CommandOutcome::Unbound => "unbound",
            CommandOutcome::Unauthorized => "unauthorized",
            CommandOutcome::Replied => "replied",
        }
    }
}

/// Why a command could not be answered.
#[derive(Debug)]
pub enum CommandError {
    Store(StoreError),
    PassiveSend(String),
    Background(String),
}

impl CommandError {
    pub open spec fn text(self) -> Seq<char> {
        match self {
            CommandError::Store(error) => error.text(),
            CommandError::PassiveSend(detail) => "QQ passive reply failed: "@ + detail@,
            CommandError::Background(detail) => "background account operation failed: "@ + detail@,
        }
    }

    pub fn message(&self) -> (result: String)
        ensures
            result@ == self.text(),
    {
        match self {
            CommandError::Store(error) => error.message(),
            CommandError::PassiveSend(detail) => {
                let mut result = "QQ passive reply failed: ".to_owned();
                result.append(detail.as_str());
                result
            },
            CommandError::Background(detail) => {
                let mut result = "background account operation failed: ".to_owned();
                result.append(detail.as_str());
                result
            },
        }
    }
}

/// The failure of a reply, by the message of the error.
pub fn send_passive(error: &str) -> (result: CommandError)
    ensures
        result matches CommandError::PassiveSend(detail) && detail@ == field_shown(
            Some(error@),
            "unknown"@,
            240,
        ),
{
    CommandError::PassiveSend(safe_field(Some(error), "unknown", 240))
}

/// A value on one redacted line of at most `limit` characters, or a fallback
/// where nothing is left of it.
pub open spec fn field_shown(value: Option<Seq<char>>, fallback: Seq<char>, limit: nat) -> Seq<char> {
    let shown = codex_login::detail(
        match value {
            Some(value) => value,
            None => ""@,
        },
        limit,
    );
    if shown.len() == 0 {
        fallback
    } else {
        shown
    }
}

/// A value on one redacted line, or a fallback.
pub fn safe_field(value: Option<&str>, fallback: &str, limit: usize) -> (result: String)
    ensures
        result@ == field_shown(text::opt_str(value), fallback@, limit as nat),
{
    let shown = match value {
        Some(value) => codex_login::safe_detail(value, limit),
        None => codex_login::safe_detail("", limit),
    };
    if shown.as_str().is_empty() {
        fallback.to_owned()
    } else {
        shown
    }
}

/// Whether two texts are equal, in a time that does not depend on where they
/// differ.
pub fn hmac_equal(left: &str, right: &str) -> (result: bool)
    ensures
        result == (left@ == right@),
{
    proof {
        utf8::encode_utf8_decode_utf8(left@);
        utf8::encode_utf8_decode_utf8(right@);
    }
    digest::constant_time_eq(left.as_bytes(), right.as_bytes())
}

// ---------------------------------------------------------------------------
// Reading a command
// ---------------------------------------------------------------------------

/// The bytes that a character takes.
pub open spec fn char_width(c: char) -> nat {
    let n = c as int;
    if n < 0x80 {
        1
    } else if n < 0x800 {
        2
    } else if n < 0x10000 {
        3
    } else {
        4
    }
}

/// What follows the first `n` bytes of a text, if they end with a character.
pub open spec fn after_bytes(text: Seq<char>, n: nat) -> Option<Seq<char>>
    decreases text.len(),
{
    if n == 0 {
        Some(text)
    } else if text.len() == 0 || char_width(text[0]) > n {
        None
    } else {
        after_bytes(text.drop_first(), (n - char_width(text[0])) as nat)
    }
}

fn width_of(c: char) -> (result: usize)
    ensures
        result == char_width(c),
{
    let n = c as u32;
    if n < 0x80 {
        1
    } else if n < 0x800 {
        2
    } else if n < 0x10000 {
        3
    } else {
        4
    }
}

/// What follows the first `n` bytes of a text; nothing if they end within a
/// character or beyond the text.
pub fn text_after(text: &str, n: usize) -> (result: String)
    ensures
        match after_bytes(text@, n as nat) {
            Some(rest) => result@ == rest,
            None => result@ == ""@,
        },
{
    let chars = text::chars_of(text);
    let mut at: usize = 0;
    let mut left: usize = n;
    assert(chars@.skip(0) =~= chars@);
    while left > 0
        invariant
            at <= chars@.len(),
            chars@ == text@,
            after_bytes(text@, n as nat) == after_bytes(chars@.skip(at as int), left as nat),
        decreases left,
    {
        if at >= chars.len() {
            return "".to_owned();
        }
        let width: usize = width_of(chars[at]);
        let ghost rest = chars@.skip(at as int);
        assert(rest[0] == chars@[at as int]);
        if width > left {
            return "".to_owned();
        }
        assert(rest.drop_first() =~= chars@.skip(at + 1));
        left = left - width;
        at += 1;
    }
    assert(chars@.subrange(at as int, chars@.len() as int) =~= chars@.skip(at as int));
    text::text_between(&chars, at, chars.len())
}

/// A command with single spaces between its words and a slash before it.
pub open spec fn normal_command(content: Seq<char>) -> Seq<char> {
    let command = text::compacted(content);
    if command.len() > 0 && command[0] == '\\' {
        seq!['/'] + command.skip(1)
    } else {
        command
    }
}

pub(crate) fn normalize(content: &str) -> (result: String)
    ensures
        result@ == normal_command(content@),
{
    let command = text::compact(content);
    let chars = text::chars_of(command.as_str());
    if chars.len() > 0 && chars[0] == '\\' {
        let mut result = String::new();
        result.push('/');
        let rest = text::text_between(&chars, 1, chars.len());
        result.append(rest.as_str());
        assert(chars@.subrange(1, chars@.len() as int) =~= chars@.skip(1));
        assert(result@ =~= normal_command(content@));
        result
    } else {
        command
    }
}

/// Whether a pairing code may hold a character: a letter, a digit or a hyphen.
/// The long s and the Kelvin sign pass for the letters of which they are forms.
pub open spec fn is_code_char(c: char) -> bool {
    let n = c as int;
    48 <= n <= 57 || 65 <= n <= 90 || 97 <= n <= 122 || n == 45 || n == 0x17f || n == 0x212a
}

/// The pairing code of a command that binds.
pub open spec fn bind_code(command: Seq<char>) -> Option<Seq<char>> {
    if command.len() > 6 && text::same_ascii(command.take(5), "/bind"@) && command[5] == ' '
        && (forall|i: int| 6 <= i < command.len() ==> is_code_char(#[trigger] command[i])) {
        Some(command.skip(6))
    } else {
        None
    }
}

fn code_char(c: char) -> (result: bool)
    ensures
        result == is_code_char(c),
{
    let n = c as u32;
    (n >= 48 && n <= 57) || (n >= 65 && n <= 90) || (n >= 97 && n <= 122) || n == 45 || n == 0x17f
        || n == 0x212a
}

/// The pairing code of a command that binds.
pub fn bind_regex(command: &str) -> (result: Option<String>)
    ensures
        text::opt_text(result) == bind_code(command@),
{
    let chars = text::chars_of(command);
    if chars.len() <= 6 {
        return None;
    }
    let head = text::text_between(&chars, 0, 5);
    assert(chars@.subrange(0, 5) =~= command@.take(5));
    if !text::eq_ignore_ascii_case(head.as_str(), "/bind") || chars[5] != ' ' {
        return None;
    }
    for i in 6..chars.len()
        invariant
            chars@ == command@,
            forall|j: int| 6 <= j < i ==> is_code_char(#[trigger] command@[j]),
    {
        if !code_char(chars[i]) {
            assert(!is_code_char(command@[i as int]));
            return None;
        }
    }
    assert(chars@.subrange(6, chars@.len() as int) =~= command@.skip(6));
    Some(text::text_between(&chars, 6, chars.len()))
}

/// The words of a request for a reply, without the option that may stand
/// before the project; none where the option stands alone.
pub open spec fn last_words(argument: Seq<char>) -> Option<Seq<Seq<char>>> {
    let all = text::words(argument);
    let option = all.len() > 0 && (text::lowercase(all[0]) == "--project"@ || text::lowercase(all[0])
        == "-p"@);
    let rest = if option {
        all.skip(1)
    } else {
        all
    };
    if option && rest.len() == 0 {
        None
    } else if rest.len() > 0 && text::begins(text::lowercase(rest[0]), "--project="@) {
        Some(rest.update(0, behind(rest[0], '=')))
    } else {
        Some(rest)
    }
}

/// What follows the first `separator` in a text; nothing if there is none.
pub open spec fn behind(text: Seq<char>, separator: char) -> Seq<char> {
    let n = text::field_len(text, separator) as int;
    if n < text.len() {
        text.skip(n + 1)
    } else {
        ""@
    }
}

/// The page that a word names.
pub open spec fn page_named(word: Seq<char>) -> Option<nat> {
    if text::all_digits(word) {
        text::parsed_unsigned(word, usize::MAX as nat)
    } else {
        None
    }
}

/// The project and the page that a request for a reply names.
pub open spec fn last_asked(argument: Seq<char>) -> Option<(Option<Seq<char>>, nat)> {
    match last_words(argument) {
        None => None,
        Some(words) => {
            let named = if words.len() > 0 {
                page_named(words.last())
            } else {
                None
            };
            let page = match named {
                Some(page) => page,
                None => 1,
            };
            let rest = if named is Some {
                words.drop_last()
            } else {
                words
            };
            if page < 1 {
                None
            } else if rest.len() == 0 {
                Some((None, page))
            } else {
                Some((Some(text::joined(rest, " "@)), page))
            }
        },
    }
}

fn text_behind(text: &str, separator: char) -> (result: String)
    ensures
        result@ == behind(text@, separator),
{
    let chars = text::chars_of(text);
    let mut at: usize = 0;
    assert(chars@.skip(0) =~= chars@);
    while at < chars.len() && chars[at] != separator
        invariant
            at <= chars@.len(),
            chars@ == text@,
            text::field_len(text@, separator) == at + text::field_len(
                chars@.skip(at as int),
                separator,
            ),
        decreases chars.len() - at,
    {
        assert(chars@.skip(at as int).drop_first() =~= chars@.skip(at + 1));
        at += 1;
    }
    if at < chars.len() {
        assert(chars@.subrange(at + 1, chars@.len() as int) =~= chars@.skip(at + 1));
        text::text_between(&chars, at + 1, chars.len())
    } else {
        "".to_owned()
    }
}

fn digits_only(text: &str) -> (result: bool)
    ensures
        result == text::all_digits(text@),
{
    let chars = text::chars_of(text);
    for i in 0..chars.len()
        invariant
            chars@ == text@,
            forall|j: int| 0 <= j < i ==> text::is_digit(#[trigger] text@[j]),
    {
        let c = chars[i];
        let n = c as u32;
        if n < 48 || n > 57 {
            assert(!text::is_digit(text@[i as int]));
            return false;
        }
    }
    true
}

fn page_in(word: &str) -> (result: Option<usize>)
    ensures
        result is Some == page_named(word@) is Some,
        result matches Some(page) ==> page_named(word@) == Some(page as nat),
{
    if !digits_only(word) {
        return None;
    }
    match text::parse_unsigned(word, usize::MAX as u64) {
        Some(page) => Some(page as usize),
        None => None,
    }
}

pub open spec fn asked_view(asked: Option<(Option<String>, usize)>) -> Option<
    (Option<Seq<char>>, nat),
> {
    match asked {
        Some((project, page)) => Some((text::opt_text(project), page as nat)),
        None => None,
    }
}

/// The project and the page that a request for a reply names.
pub fn last_arguments(argument: &str) -> (result: Option<(Option<String>, usize)>)
    ensures
        asked_view(result) == last_asked(argument@),
{
    let mut words = text::split_words(argument);
    let ghost all = text::texts(words@);
    let option = words.len() > 0 && {
        let first = text::to_lower(words[0].as_str());
        text_eq(first.as_str(), "--project") || text_eq(first.as_str(), "-p")
    };
    if option {
        let _ = words.remove(0);
        assert(text::texts(words@) =~= all.skip(1));
        if words.len() == 0 {
            return None;
        }
    }
    let ghost rest = text::texts(words@);
    let assigned = words.len() > 0 && {
        let first = text::to_lower(words[0].as_str());
        text::starts_with(first.as_str(), "--project=")
    };
    if assigned {
        let value = text_behind(words[0].as_str(), '=');
        words.set(0, value);
        assert(text::texts(words@) =~= rest.update(0, behind(rest[0], '=')));
    }
    let ghost wanted = text::texts(words@);
    assert(last_words(argument@) == Some(wanted));
    let named: Option<usize> = if words.len() > 0 {
        page_in(words[words.len() - 1].as_str())
    } else {
        None
    };
    let page: usize = match named {
        Some(page) => page,
        None => 1,
    };
    if named.is_some() {
        let _ = words.pop();
        assert(text::texts(words@) =~= wanted.drop_last());
    }
    if page < 1 {
        return None;
    }
    assert(text::texts(words@).len() == words@.len());
    if words.len() == 0 {
        Some((None, page))
    } else {
        Some((Some(text::join(&words, " ")), page))
    }
}

// ---------------------------------------------------------------------------
// The last reply
// ---------------------------------------------------------------------------

/// What answers a request for a reply, in a state without expired content.
pub open spec fn last_shown(s: StoreView, page: nat, project: Option<Seq<char>>) -> Seq<char> {
    let asked = store_rows::replies_asked(s, project, None, 1);
    if asked.len() == 0 {
        match project {
            Some(project) => {
                let available = store_rows::projects_by_age(s.replies);
                "找不到项目“"@ + field_shown(Some(project), "未知"@, 160) + "”的 Codex 回复。"@
                    + (if available.len() == 0 {
                    "当前没有可用项目"@
                } else {
                    "可用项目："@ + text::joined(available, "、"@)
                }) + "。"@
            },
            None => "还没有可读取的 Codex 最终回复。"@,
        }
    } else {
        page_shown(asked[0], page, project is Some)
    }
}

/// A page of a reply.
pub open spec fn page_shown(reply: ReplyView, page: nat, of_project: bool) -> Seq<char> {
    let pages = formatting::chunks(reply.content, PAGE_SIZE as nat);
    if page < 1 || page > pages.len() {
        "页码无效，可用范围：1-"@ + text::decimal(pages.len()) + "。"@
    } else {
        (if of_project {
            "项目 "@ + reply.project + " 最近一次"@
        } else {
            "最近一次"@
        }) + " Codex 回复 ["@ + text::decimal(page) + "/"@ + text::decimal(pages.len())
            + "]\n项目："@ + reply.project + "\n模型："@ + reply.model + "\n\n"@ + pages[page - 1]
    }
}

/// Expired content that was dropped is not dropped again.
pub proof fn lemma_cleaned_once(s: StoreView, now: i64)
    ensures
        store::cleaned(store::cleaned(s, now), now) == store::cleaned(s, now),
{
    let once = store::cleaned(s, now);
    let replies = store::reply_since(now - s.last_reply_ttl);
    let rows = store::row_since(now - s.outbox_ttl);
    assert forall|i: int| 0 <= i < once.replies.len() implies replies(#[trigger] once.replies[i]) by {
        let _ = store_rows::lemma_filter_source(s.replies, replies, i);
    }
    assert forall|i: int| 0 <= i < once.outbox.len() implies rows(#[trigger] once.outbox[i]) by {
        let _ = store_rows::lemma_filter_source(s.outbox, rows, i);
    }
    store_rows::lemma_filter_all(once.replies, replies);
    store_rows::lemma_filter_all(once.outbox, rows);
}

/// A page of a reply.
fn page_text(reply: &store::LastReply, page: usize, of_project: bool) -> (result: String)
    ensures
        result@ == page_shown(reply@, page as nat, of_project),
{
    let pages = match formatting::split_text(reply.content.as_str(), PAGE_SIZE) {
        Ok(pages) => pages,
        Err(_) => Vec::new(),
    };
    assert(text::texts(pages@).len() == pages@.len());
    let count = text::decimal_text(pages.len() as u64);
    if page < 1 || page > pages.len() {
        let mut result = "页码无效，可用范围：1-".to_owned();
        result.append(count.as_str());
        result.append("。");
        return result;
    }
    let mut result = if of_project {
        let mut title = "项目 ".to_owned();
        title.append(reply.project.as_str());
        title.append(" 最近一次");
        title
    } else {
        "最近一次".to_owned()
    };
    result.append(" Codex 回复 [");
    let number = text::decimal_text(page as u64);
    result.append(number.as_str());
    result.append("/");
    result.append(count.as_str());
    result.append("]\n项目：");
    result.append(reply.project.as_str());
    result.append("\n模型：");
    result.append(reply.model.as_str());
    result.append("\n\n");
    result.append(pages[page - 1].as_str());
    result
}

/// Answers a request for a reply. What has expired is dropped first.
pub fn last_text(store: &mut Store, page: usize, project: Option<&str>, now: i64) -> (result: String)
    ensures
        final(store)@ == store::cleaned(old(store)@, now),
        result@ == last_shown(final(store)@, page as nat, text::opt_str(project)),
        store::consistent(old(store)@) ==> store::consistent(final(store)@),
{
    match store.get_last_reply_at(project, None, now) {
        Some(reply) => page_text(&reply, page, project.is_some()),
        None => match project {
            Some(project) => {
                proof {
                    lemma_cleaned_once(old(store)@, now);
                }
                let available = store.get_last_reply_projects_at(now);
                assert(text::texts(available@).len() == available@.len());
                let mut result = "找不到项目“".to_owned();
                let shown = safe_field(Some(project), "未知", 160);
                result.append(shown.as_str());
                result.append("”的 Codex 回复。");
                let suffix = if available.len() == 0 {
                    "当前没有可用项目".to_owned()
                } else {
                    let mut listed = "可用项目：".to_owned();
                    let names = text::join(&available, "、");
                    listed.append(names.as_str());
                    listed
                };
                result.append(suffix.as_str());
                result.append("。");
                result
            },
            None => "还没有可读取的 Codex 最终回复。".to_owned(),
        },
    }
}

// ---------------------------------------------------------------------------
// The status
// ---------------------------------------------------------------------------

/// The status of a session in words.
pub open spec fn status_word(status: Seq<char>) -> Seq<char> {
    if status == "idle"@ {
        "空闲"@
    } else if status == "running"@ {
        "处理中"@
    } else if status == "awaiting_approval"@ {
        "等待本机审批"@
    } else if status == "completed"@ {
        "已完成"@
    } else if status == "closed"@ {
        "已关闭"@
    } else {
        status
    }
}

/// The local time at `i`, where it is known.
pub open spec fn stamp_shown(stamps: Seq<Option<Seq<char>>>, i: int) -> Seq<char> {
    if 0 <= i < stamps.len() {
        match stamps[i] {
            Some(stamp) => stamp,
            None => "未知"@,
        }
    } else {
        "未知"@
    }
}

/// The lines on the first `n` sessions, after the line on notifications.
pub open spec fn status_lines(
    muted: bool,
    sessions: Seq<SessionView>,
    stamps: Seq<Option<Seq<char>>>,
    n: nat,
) -> Seq<Seq<char>>
    decreases n,
{
    if n == 0 {
        seq![
            "CodexBot："@ + (if muted {
                "已静音"@
            } else {
                "通知开启"@
            }),
        ]
    } else {
        let session = sessions[n - 1];
        status_lines(muted, sessions, stamps, (n - 1) as nat).push(""@).push(
            "项目："@ + session.project,
        ).push("模型："@ + session.model).push("状态："@ + status_word(session.status)).push(
            "更新："@ + stamp_shown(stamps, n - 1),
        )
    }
}

/// What answers a request for the status. `stamps` are the local times at which
/// the sessions that are shown last changed.
pub open spec fn status_shown(s: StoreView, stamps: Seq<Option<Seq<char>>>) -> Seq<char> {
    let sessions = store::status_sessions(s);
    if sessions.len() == 0 {
        "当前还没有收到 Codex 任务状态。"@
    } else {
        text::joined(status_lines(store::muted(s), sessions, stamps, sessions.len()), "\n"@)
    }
}

pub open spec fn opt_stamps(stamps: Seq<Option<String>>) -> Seq<Option<Seq<char>>> {
    Seq::new(stamps.len(), |i: int| text::opt_text(stamps[i]))
}

fn word_of_status(status: &str) -> (result: String)
    ensures
        result@ == status_word(status@),
{
    if text_eq(status, "idle") {
        "空闲".to_owned()
    } else if text_eq(status, "running") {
        "处理中".to_owned()
    } else if text_eq(status, "awaiting_approval") {
        "等待本机审批".to_owned()
    } else if text_eq(status, "completed") {
        "已完成".to_owned()
    } else if text_eq(status, "closed") {
        "已关闭".to_owned()
    } else {
        status.to_owned()
    }
}

/// `head` with `tail` behind it.
fn line(head: &str, tail: &str) -> (result: String)
    ensures
        result@ == head@ + tail@,
{
    let mut result = head.to_owned();
    result.append(tail);
    result
}

/// Answers a request for the status at given local times.
pub fn status_text_at(store: &Store, stamps: &Vec<Option<String>>) -> (result: String)
    ensures
        result@ == status_shown(store@, opt_stamps(stamps@)),
{
    let sessions = store.get_sessions_for_status();
    let ghost views = store::session_views(sessions@);
    let ghost times = opt_stamps(stamps@);
    let ghost muted = store::muted(store@);
    if sessions.len() == 0 {
        return "当前还没有收到 Codex 任务状态。".to_owned();
    }
    let mut lines: Vec<String> = Vec::new();
    let state = if store.is_muted() {
        "已静音"
    } else {
        "通知开启"
    };
    lines.push(line("CodexBot：", state));
    assert(text::texts(lines@) =~= status_lines(muted, views, times, 0));
    for i in 0..sessions.len()
        invariant
            views == store::session_views(sessions@),
            times == opt_stamps(stamps@),
            text::texts(lines@) == status_lines(muted, views, times, i as nat),
    {
        let ghost held = text::texts(lines@);
        let session = &sessions[i];
        let ghost view = views[i as int];
        assert(view == session@);
        let word = word_of_status(session.status.as_str());
        let stamp = if i < stamps.len() {
            assert(times[i as int] == text::opt_text(stamps@[i as int]));
            match &stamps[i] {
                Some(stamp) => stamp.as_str(),
                None => "未知",
            }
        } else {
            "未知"
        };
        lines.push("".to_owned());
        lines.push(line("项目：", session.project.as_str()));
        lines.push(line("模型：", session.model.as_str()));
        lines.push(line("状态：", word.as_str()));
        lines.push(line("更新：", stamp));
        assert(text::texts(lines@) =~= held.push(""@).push("项目："@ + view.project).push(
            "模型："@ + view.model,
        ).push("状态："@ + status_word(view.status)).push(
            "更新："@ + stamp_shown(times, i as int),
        ));
    }
    assert(views.len() == sessions@.len());
    text::join(&lines, "\n")
}

/// The times at which the sessions that a status report shows changed, as a
/// clock shows them that has the given offset at each.
pub open spec fn status_times(s: StoreView, offsets: Seq<i32>) -> Seq<Option<Seq<char>>> {
    Seq::new(
        store::status_sessions(s).len(),
        |i: int|
            clock::zone_shown(
                store::status_sessions(s)[i].updated_at as int,
                offsets[i],
                "%m-%d %H:%M:%S"@,
            ),
    )
}

/// Whether a clock that has the given offset at each of those times tells them.
pub open spec fn status_told(s: StoreView, offsets: Seq<i32>) -> bool {
    &&& offsets.len() == store::status_sessions(s).len()
    &&& forall|i: int|
        0 <= i < offsets.len() ==> clock::told(
            store::status_sessions(s)[i].updated_at as int,
            #[trigger] offsets[i],
            "%m-%d %H:%M:%S"@,
        )
}

/// The local times at which the sessions that a status report shows changed.
fn status_stamps(store: &Store) -> (result: Vec<Option<String>>)
    ensures
        exists|offsets: Seq<i32>|
            status_told(store@, offsets) && opt_stamps(result@) == #[trigger] status_times(
                store@,
                offsets,
            ),
{
    let sessions = store.get_sessions_for_status();
    let ghost views = store::status_sessions(store@);
    let ghost mut offsets: Seq<i32> = Seq::empty();
    let mut result: Vec<Option<String>> = Vec::new();
    for i in 0..sessions.len()
        invariant
            views == store::session_views(sessions@),
            result@.len() == i,
            offsets.len() == i,
            forall|j: int|
                0 <= j < i ==> text::opt_text(#[trigger] result@[j]) == clock::zone_shown(
                    views[j].updated_at as int,
                    offsets[j],
                    "%m-%d %H:%M:%S"@,
                ),
            forall|j: int|
                0 <= j < i ==> clock::told(
                    views[j].updated_at as int,
                    #[trigger] offsets[j],
                    "%m-%d %H:%M:%S"@,
                ),
    {
        let shown = clock::local_time(sessions[i].updated_at, "%m-%d %H:%M:%S");
        proof {
            let at = views[i as int].updated_at as int;
            let offset = choose|offset: i32|
                clock::told(at, offset, "%m-%d %H:%M:%S"@) && text::opt_text(shown)
                    == #[trigger] clock::zone_shown(at, offset, "%m-%d %H:%M:%S"@);
            offsets = offsets.push(offset);
        }
        result.push(shown);
    }
    assert(store::session_views(sessions@).len() == sessions@.len());
    assert(opt_stamps(result@) =~= status_times(store@, offsets));
    assert(status_told(store@, offsets));
    result
}

/// Answers a request for the status at the local time. The zone of the machine
/// is left open.
pub fn status_text(store: &Store) -> (result: String)
    ensures
        exists|offsets: Seq<i32>|
            status_told(store@, offsets) && result@ == status_shown(
                store@,
                #[trigger] status_times(store@, offsets),
            ),
{
    let stamps = status_stamps(store);
    status_text_at(store, &stamps)
}

// ---------------------------------------------------------------------------
// Serving a command
// ---------------------------------------------------------------------------

/// An answer to a message of the chat.
#[derive(Debug, PartialEq, Eq)]
pub struct PassiveReply {
    pub openid: String,
    pub text: String,
    pub message_id: String,
    pub sequence: u32,
}

/// What an answer is.
pub struct PassiveView {
    pub openid: Seq<char>,
    pub text: Seq<char>,
    pub message_id: Seq<char>,
    pub sequence: u32,
}

impl PassiveReply {
    pub open spec fn view(&self) -> PassiveView {
        PassiveView {
            openid: self.openid@,
            text: self.text@,
            message_id: self.message_id@,
            sequence: self.sequence,
        }
    }
}

/// What is to be done for a message.
#[derive(Debug, PartialEq, Eq)]
pub enum CommandStep {
    /// Nothing.
    Finish(CommandOutcome),
    /// The answer is sent.
    Reply(PassiveReply, CommandOutcome),
    /// A notification is sent to test them; `bound_reply` then answers.
    Probe { openid: String, text: String },
    /// The usage is read.
    Usage,
    /// The account is read.
    Account,
    /// A command on accounts is served.
    AccountCommand(String),
}

/// What a step is.
pub enum StepView {
    Finish(CommandOutcome),
    Reply(PassiveView, CommandOutcome),
    Probe { openid: Seq<char>, text: Seq<char> },
    Usage,
    Account,
    AccountCommand(Seq<char>),
}

impl CommandStep {
    pub open spec fn view(&self) -> StepView {
        match self {
            CommandStep::Finish(outcome) => StepView::Finish(*outcome),
            CommandStep::Reply(reply, outcome) => StepView::Reply(reply@, *outcome),
            CommandStep::Probe { openid, text } => StepView::Probe { openid: openid@, text: text@ },
            CommandStep::Usage => StepView::Usage,
            CommandStep::Account => StepView::Account,
            CommandStep::AccountCommand(argument) => StepView::AccountCommand(argument@),
        }
    }
}

/// The answer `text` to a message.
pub open spec fn answer(openid: Seq<char>, message_id: Seq<char>, text: Seq<char>) -> PassiveView {
    PassiveView { openid, text, message_id, sequence: 1 }
}

/// What a command of the bound user makes of the state, and what is done for
/// it. `stamps` are the local times that a status report shows.
pub open spec fn user_step(
    s: StoreView,
    openid: Seq<char>,
    message_id: Seq<char>,
    command: Seq<char>,
    stamps: Seq<Option<Seq<char>>>,
    now: i64,
) -> (StoreView, StepView) {
    let lower = text::lowercase(command);
    let of_account = text::begins(lower, "/account "@);
    if lower == "/status"@ {
        (s, replied(openid, message_id, status_shown(s, stamps)))
    } else if EXTENDED_COMMANDS_ENABLED && lower == "/usage"@ {
        (s, StepView::Usage)
    } else if EXTENDED_COMMANDS_ENABLED && lower == "/account"@ {
        (s, StepView::Account)
    } else if EXTENDED_COMMANDS_ENABLED && of_account {
        (s, StepView::AccountCommand(text::trimmed(tail_of(command, 8))))
    } else if lower == "/usage"@ || lower == "/account"@ || of_account {
        (s, replied(openid, message_id, EXTENDED_COMMANDS_DISABLED_TEXT@))
    } else if lower == "/last"@ || text::begins(lower, "/last "@) {
        match last_asked(tail_of(command, 5)) {
            Some((project, page)) => (
                store::cleaned(s, now),
                replied(openid, message_id, last_shown(store::cleaned(s, now), page, project)),
            ),
            None => (s, replied(openid, message_id, "用法：/last、/last 页码、/last 项目 [页码]"@)),
        }
    } else if lower == "/mute"@ {
        (
            store::with_setting(s, "muted"@, "1"@),
            replied(
                openid,
                message_id,
                "主动通知已暂停；状态和最近回复仍会更新，不会补发静音期间的旧通知。"@,
            ),
        )
    } else if lower == "/unmute"@ {
        (
            store::with_setting(s, "muted"@, "0"@),
            replied(openid, message_id, "主动通知已恢复，只推送之后的新事件。"@),
        )
    } else if lower == "/help"@ {
        (s, replied(openid, message_id, HELP_TEXT@))
    } else {
        (s, replied(openid, message_id, "未知命令。\n\n"@ + HELP_TEXT@))
    }
}

pub open spec fn replied(openid: Seq<char>, message_id: Seq<char>, text: Seq<char>) -> StepView {
    StepView::Reply(answer(openid, message_id, text), CommandOutcome::Replied)
}

/// What follows the first `n` bytes of a text, or nothing.
pub open spec fn tail_of(text: Seq<char>, n: nat) -> Seq<char> {
    match after_bytes(text, n) {
        Some(rest) => rest,
        None => ""@,
    }
}

/// What a message makes of the state, and what is done for it.
pub open spec fn message_step(
    s: StoreView,
    openid: Seq<char>,
    message_id: Seq<char>,
    content: Seq<char>,
    stamps: Seq<Option<Seq<char>>>,
    now: i64,
) -> (StoreView, StepView) {
    let noted = store_ops::message_noted(s, message_id, now);
    let command = normal_command(content);
    if store_ops::message_known(s, message_id) {
        (s, StepView::Finish(CommandOutcome::Duplicate))
    } else {
        match bind_code(command) {
            Some(code) => if store::pairing_fits(noted, code, now) {
                (
                    store::bound(noted, openid, now),
                    StepView::Probe { openid, text: "CodexBot 主动通知测试成功。"@ },
                )
            } else {
                (
                    noted,
                    StepView::Reply(
                        answer(
                            openid,
                            message_id,
                            "配对码无效或已过期，请在源码目录运行 .\\codexbot.cmd pair。"@,
                        ),
                        CommandOutcome::BadPairing,
                    ),
                )
            },
            None => match store::setting(noted, "bound_openid"@) {
                None => (
                    noted,
                    StepView::Reply(
                        answer(
                            openid,
                            message_id,
                            "机器人尚未绑定。请在源码目录运行 .\\codexbot.cmd pair 后发送 /bind 配对码。"@,
                        ),
                        CommandOutcome::Unbound,
                    ),
                ),
                Some(owner) => if owner != openid {
                    (noted, StepView::Finish(CommandOutcome::Unauthorized))
                } else {
                    user_step(noted, openid, message_id, command, stamps, now)
                },
            },
        }
    }
}

fn reply_to(openid: &str, message_id: &str, text: String, outcome: CommandOutcome) -> (result:
    CommandStep)
    ensures
        result@ == StepView::Reply(answer(openid@, message_id@, text@), outcome),
{
    CommandStep::Reply(
        PassiveReply {
            openid: openid.to_owned(),
            text,
            message_id: message_id.to_owned(),
            sequence: 1,
        },
        outcome,
    )
}

fn serve(
    store: &mut Store,
    openid: &str,
    message_id: &str,
    command: &str,
    stamps: &Vec<Option<String>>,
    now: i64,
) -> (result: CommandStep)
    ensures
        (final(store)@, result@) == user_step(
            old(store)@,
            openid@,
            message_id@,
            command@,
            opt_stamps(stamps@),
            now,
        ),
        store::consistent(old(store)@) ==> store::consistent(final(store)@),
{
    let lowered = text::to_lower(command);
    let lower = lowered.as_str();
    let of_account = text::starts_with(lower, "/account ");
    let text = if text_eq(lower, "/status") {
        status_text_at(store, stamps)
    } else if EXTENDED_COMMANDS_ENABLED && text_eq(lower, "/usage") {
        return CommandStep::Usage;
    } else if EXTENDED_COMMANDS_ENABLED && text_eq(lower, "/account") {
        return CommandStep::Account;
    } else if EXTENDED_COMMANDS_ENABLED && of_account {
        let tail = text_after(command, 8);
        return CommandStep::AccountCommand(text::trim(tail.as_str()));
    } else if text_eq(lower, "/usage") || text_eq(lower, "/account") || of_account {
        EXTENDED_COMMANDS_DISABLED_TEXT.to_owned()
    } else if text_eq(lower, "/last") || text::starts_with(lower, "/last ") {
        let tail = text_after(command, 5);
        match last_arguments(tail.as_str()) {
            Some((project, page)) => match &project {
                Some(name) => last_text(store, page, Some(name.as_str()), now),
                None => last_text(store, page, None, now),
            },
            None => "用法：/last、/last 页码、/last 项目 [页码]".to_owned(),
        }
    } else if text_eq(lower, "/mute") {
        store.set_muted(true);
        "主动通知已暂停；状态和最近回复仍会更新，不会补发静音期间的旧通知。".to_owned()
    } else if text_eq(lower, "/unmute") {
        store.set_muted(false);
        "主动通知已恢复，只推送之后的新事件。".to_owned()
    } else if text_eq(lower, "/help") {
        HELP_TEXT.to_owned()
    } else {
        line("未知命令。\n\n", HELP_TEXT)
    };
    reply_to(openid, message_id, text, CommandOutcome::Replied)
}

/// Serves the messages of the chat.
#[derive(Debug)]
pub struct CommandService {
    /// How long the app server may take to answer, in milliseconds.
    pub codex_timeout: u64,
}

impl CommandService {
    pub fn new() -> (result: Self)
        ensures
            result.codex_timeout == 30_000,
    {
        CommandService { codex_timeout: 30_000 }
    }

    /// With another time for the app server, of a tenth of a second at least.
    pub fn with_clients(codex_timeout: u64) -> (result: Self)
        ensures
            result.codex_timeout == (if codex_timeout < 100 {
                100
            } else {
                codex_timeout
            }),
    {
        if codex_timeout < 100 {
            CommandService { codex_timeout: 100 }
        } else {
            CommandService { codex_timeout }
        }
    }

    /// Serves a message at given local times.
    pub fn handle_at(
        &self,
        store: &mut Store,
        openid: &str,
        message_id: &str,
        content: &str,
        stamps: &Vec<Option<String>>,
        now: i64,
    ) -> (result: CommandStep)
        ensures
            (final(store)@, result@) == message_step(
                old(store)@,
                openid@,
                message_id@,
                content@,
                opt_stamps(stamps@),
                now,
            ),
            store::consistent(old(store)@) ==> store::consistent(final(store)@),
    {
        if !store.remember_inbound_at(message_id, now) {
            return CommandStep::Finish(CommandOutcome::Duplicate);
        }
        let command = normalize(content);
        match bind_regex(command.as_str()) {
            Some(code) => {
                if !store.consume_pairing_at(code.as_str(), openid, now) {
                    return reply_to(
                        openid,
                        message_id,
                        "配对码无效或已过期，请在源码目录运行 .\\codexbot.cmd pair。".to_owned(),
                        CommandOutcome::BadPairing,
                    );
                }
                return CommandStep::Probe {
                    openid: openid.to_owned(),
                    text: "CodexBot 主动通知测试成功。".to_owned(),
                };
            },
            None => {},
        }
        let owner = match store.get_bound_openid() {
            Some(owner) => owner,
            None => {
                return reply_to(
                    openid,
                    message_id,
                    "机器人尚未绑定。请在源码目录运行 .\\codexbot.cmd pair 后发送 /bind 配对码。".to_owned(),
                    CommandOutcome::Unbound,
                );
            },
        };
        if !hmac_equal(owner.as_str(), openid) {
            return CommandStep::Finish(CommandOutcome::Unauthorized);
        }
        serve(store, openid, message_id, command.as_str(), stamps, now)
    }

    /// Serves a message at the local time.
    pub fn handle(
        &self,
        store: &mut Store,
        openid: &str,
        message_id: &str,
        content: &str,
        now: i64,
    ) -> (result: CommandStep)
        ensures
            exists|offsets: Seq<i32>|
                status_told(old(store)@, offsets) && (final(store)@, result@) == message_step(
                    old(store)@,
                    openid@,
                    message_id@,
                    content@,
                    #[trigger] status_times(old(store)@, offsets),
                    now,
                ),
            store::consistent(old(store)@) ==> store::consistent(final(store)@),
    {
        let stamps = status_stamps(store);
        self.handle_at(store, openid, message_id, content, &stamps, now)
    }

    /// The answer to a user who was bound, by whether the test arrived.
    pub fn bound_reply(&self, openid: &str, message_id: &str, active_ok: bool) -> (result: CommandStep)
        ensures
            result@ == StepView::Reply(
                answer(
                    openid@,
                    message_id@,
                    if active_ok {
                        "绑定成功，主动通知能力正常。"@
                    } else {
                        "绑定已完成，但主动通知测试失败。请在 QQ 中开启“允许主动发送”，再用 /status 检查。"@
                    },
                ),
                CommandOutcome::Bound,
            ),
    {
        let text = if active_ok {
            "绑定成功，主动通知能力正常。".to_owned()
        } else {
            "绑定已完成，但主动通知测试失败。请在 QQ 中开启“允许主动发送”，再用 /status 检查。".to_owned()
        };
        reply_to(openid, message_id, text, CommandOutcome::Bound)
    }
}

impl Default for CommandService {
    fn default() -> (result: Self)
        ensures
            result.codex_timeout == 30_000,
    {
        CommandService::new()
    }
}

// ---------------------------------------------------------------------------
// Laws
// ---------------------------------------------------------------------------

/// A message that comes again is not served again and leaves the state alone.
pub proof fn lemma_served_once(
    s: StoreView,
    openid: Seq<char>,
    message_id: Seq<char>,
    first: Seq<char>,
    second: Seq<char>,
    stamps: Seq<Option<Seq<char>>>,
    now: i64,
    later: i64,
)
    ensures
        ({
            let after = message_step(s, openid, message_id, first, stamps, now).0;
            message_step(after, openid, message_id, second, stamps, later) == (
                after,
                StepView::Finish(CommandOutcome::Duplicate),
            )
        }),
{
    let noted = store_ops::message_noted(s, message_id, now);
    let after = message_step(s, openid, message_id, first, stamps, now).0;
    if !store_ops::message_known(s, message_id) {
        assert(after.inbound == noted.inbound);
        assert(after.inbound[noted.inbound.len() - 1].message_id == message_id);
    }
}

/// Whoever is not bound changes nothing but the list of received messages, and
/// is not answered once somebody else is bound, unless the message binds.
pub proof fn lemma_stranger_is_ignored(
    s: StoreView,
    openid: Seq<char>,
    message_id: Seq<char>,
    content: Seq<char>,
    stamps: Seq<Option<Seq<char>>>,
    now: i64,
)
    requires
        store::setting(s, "bound_openid"@) is Some,
        store::setting(s, "bound_openid"@) != Some(openid),
        bind_code(normal_command(content)) is None,
    ensures
        ({
            let (after, step) = message_step(s, openid, message_id, content, stamps, now);
            &&& step is Finish
            &&& after.settings == s.settings
            &&& after.outbox == s.outbox
            &&& after.replies == s.replies
            &&& after.sessions == s.sessions
            &&& after.tasks == s.tasks
        }),
{
}

/// A pairing code serves once: after it bound somebody, no code fits until a
/// new one is made.
pub proof fn lemma_code_serves_once(s: StoreView, openid: Seq<char>, code: Seq<char>, now: i64, later: i64)
    ensures
        store::setting(store::bound(s, openid, now), "bound_openid"@) == Some(openid),
        !store::pairing_fits(store::bound(s, openid, now), code, later),
{
    reveal_strlit("bound_openid");
    reveal_strlit("pairing_hash");
    reveal_strlit("pairing_expires_at");
    let after = store::bound(s, openid, now);
    assert("bound_openid"@.len() == 12);
    assert("bound_openid"@[0] == 'b');
    assert("pairing_hash"@[0] == 'p');
    assert("pairing_expires_at"@.len() == 18);
    assert(after.settings == s.settings.insert("bound_openid"@, openid).remove(
        "pairing_hash"@,
    ).remove("pairing_expires_at"@));
}

/// A command made of `/bind` and a drawn code is read back as that code.
pub proof fn lemma_code_is_read_back(draws: Seq<u32>)
    requires
        draws.len() == 8,
    ensures
        bind_code(normal_command("/bind "@ + security::drawn_code(draws))) == Some(
            security::drawn_code(draws),
        ),
{
    reveal_strlit("/bind ");
    reveal_strlit("/bind");
    reveal_strlit("-");
    reveal_strlit("ABCDEFGHJKLMNPQRSTUVWXYZ23456789");
    let code = security::drawn_code(draws);
    let letters = security::code_letters();
    let command = "/bind "@ + code;
    assert(letters.len() == 32);
    assert forall|i: int| 0 <= i < 32 implies security::is_ascii_alnum(#[trigger] letters[i])
        && !text::is_space(letters[i]) by {}
    assert forall|i: int| 0 <= i < code.len() implies is_code_char(#[trigger] code[i])
        && !text::is_space(code[i]) by {
        if i < 4 {
            assert(code[i] == letters[draws[i] as int % 32]);
        } else if i > 4 {
            assert(code[i] == letters[draws[i - 1] as int % 32]);
        }
    }
    assert("/bind "@ =~= "/bind"@ + seq![' ']);
    text::lemma_two_words("/bind"@, code);
    assert(command =~= "/bind"@ + seq![' '] + code);
    assert(normal_command(command) == command);
    assert(command.take(5) =~= "/bind"@);
    assert(command.skip(6) =~= code);
    assert forall|i: int| 6 <= i < command.len() implies is_code_char(#[trigger] command[i]) by {
        assert(command[i] == code[i - 6]);
    }
}

// ---------------------------------------------------------------------------
// Pages
// ---------------------------------------------------------------------------

/// Where the pieces of a text begin and end.
#[verifier::spinoff_prover]
proof fn lemma_piece(text: Seq<char>, size: nat, i: int)
    requires
        size > 0,
        0 <= i < formatting::chunks(text, size).len(),
    ensures
        i * size <= text.len(),
        formatting::chunks(text, size)[i] == text.subrange(
            i * size,
            if (i + 1) * size < text.len() {
                (i + 1) * size
            } else {
                text.len() as int
            },
        ),
        i + 1 == formatting::chunks(text, size).len() <==> text.len() <= (i + 1) * size,
    decreases text.len(),
{
    let pieces = formatting::chunks(text, size);
    assert(0 * size == 0 && (0 + 1) * size == size) by (nonlinear_arith);
    if text.len() <= size {
        assert(i == 0);
        assert(text.subrange(0, text.len() as int) =~= text);
    } else {
        let rest = text.skip(size as int);
        assert(pieces =~= seq![text.take(size as int)] + formatting::chunks(rest, size));
        formatting::lemma_chunks(rest, size);
        if i == 0 {
            assert(i * size == 0 && (i + 1) * size == size);
            assert(text.subrange(0, size as int) =~= text.take(size as int));
        } else {
            lemma_piece(rest, size, i - 1);
            assert((i - 1 + 1) * size == i * size);
            assert(i * size == (i - 1) * size + size) by (nonlinear_arith);
            assert((i + 1) * size == i * size + size) by (nonlinear_arith);
            assert(pieces[i] == formatting::chunks(rest, size)[i - 1]);
            assert(pieces[i] =~= text.subrange(
                i * size,
                if (i + 1) * size < text.len() {
                    (i + 1) * size
                } else {
                    text.len() as int
                },
            ));
        }
    }
}

/// The number of pages of a reply: a thousand characters make one, what is left
/// makes the last, and an empty reply has one.
pub open spec fn page_count(length: nat) -> nat {
    if length == 0 {
        1
    } else {
        ((length + 999) / 1000) as nat
    }
}

/// What the answer with page `page` of a reply shows of it: the thousand
/// characters from where the page before it ended, as far as there are any.
pub open spec fn page_part(content: Seq<char>, page: nat) -> Seq<char> {
    content.subrange(
        (page - 1) * 1000,
        if page * 1000 < content.len() {
            (page * 1000) as int
        } else {
            content.len() as int
        },
    )
}

proof fn lemma_page_count(content: Seq<char>)
    ensures
        formatting::chunks(content, 1000).len() == page_count(content.len()),
{
    formatting::lemma_chunks(content, 1000);
    let n = formatting::chunks(content, 1000).len();
    lemma_piece(content, 1000, n - 1);
    if n > 1 {
        lemma_piece(content, 1000, n - 2);
    }
}

/// Page `page` of a reply ends in the part of the reply that begins where the
/// page before it ended. Above it stand the number of the page, how many there
/// are, the project and the model. A page that is not there is told apart.
pub proof fn lemma_page_shows_its_part(reply: ReplyView, page: nat, of_project: bool)
    ensures
        ({
            let count = page_count(reply.content.len());
            let shown = page_shown(reply, page, of_project);
            if 1 <= page <= count {
                shown == (if of_project {
                    "项目 "@ + reply.project + " 最近一次"@
                } else {
                    "最近一次"@
                }) + " Codex 回复 ["@ + text::decimal(page) + "/"@ + text::decimal(count)
                    + "]\n项目："@ + reply.project + "\n模型："@ + reply.model + "\n\n"@
                    + page_part(reply.content, page)
            } else {
                shown == "页码无效，可用范围：1-"@ + text::decimal(count) + "。"@
            }
        }),
{
    lemma_page_count(reply.content);
    if 1 <= page <= page_count(reply.content.len()) {
        lemma_piece(reply.content, 1000, page - 1);
    }
}

/// The parts of the first `n` pages, one behind another.
pub open spec fn parts_read(content: Seq<char>, n: nat) -> Seq<char>
    decreases n,
{
    if n == 0 {
        Seq::empty()
    } else {
        parts_read(content, (n - 1) as nat) + page_part(content, n)
    }
}

proof fn lemma_parts_read(content: Seq<char>, n: nat)
    requires
        n <= page_count(content.len()),
    ensures
        parts_read(content, n) == content.take(
            if n * 1000 < content.len() {
                (n * 1000) as int
            } else {
                content.len() as int
            },
        ),
    decreases n,
{
    if n == 0 {
        assert(content.take(0) =~= Seq::<char>::empty());
    } else {
        lemma_parts_read(content, (n - 1) as nat);
        assert(parts_read(content, n) =~= content.take(
            if n * 1000 < content.len() {
                (n * 1000) as int
            } else {
                content.len() as int
            },
        ));
    }
}

/// The pages make up the reply: what the answers to its pages end in, one
/// behind another, is the reply.
pub proof fn lemma_pages_make_up_the_reply(reply: ReplyView, of_project: bool)
    ensures
        parts_read(reply.content, page_count(reply.content.len())) == reply.content,
        forall|page: nat|
            1 <= page <= page_count(reply.content.len()) ==> text::ends(
                #[trigger] page_shown(reply, page, of_project),
                page_part(reply.content, page),
            ),
{
    let content = reply.content;
    lemma_parts_read(content, page_count(content.len()));
    assert(content.take(content.len() as int) =~= content);
    assert forall|page: nat| 1 <= page <= page_count(content.len()) implies text::ends(
        #[trigger] page_shown(reply, page, of_project),
        page_part(content, page),
    ) by {
        lemma_page_shows_its_part(reply, page, of_project);
        let shown = page_shown(reply, page, of_project);
        let part = page_part(content, page);
        assert(shown.subrange(shown.len() - part.len(), shown.len() as int) =~= part);
    }
}

// ---------------------------------------------------------------------------
// The status
// ---------------------------------------------------------------------------

/// The words for the statuses of a session tell them apart.
pub proof fn lemma_status_words_differ(left: Seq<char>, right: Seq<char>)
    requires
        left == "idle"@ || left == "running"@ || left == "awaiting_approval"@ || left
            == "completed"@ || left == "closed"@,
        right == "idle"@ || right == "running"@ || right == "awaiting_approval"@ || right
            == "completed"@ || right == "closed"@,
    ensures
        status_word(left) == status_word(right) ==> left == right,
        left == "running"@ ==> status_word(left) == "处理中"@,
        left == "completed"@ ==> status_word(left) == "已完成"@,
        left == "awaiting_approval"@ ==> status_word(left) == "等待本机审批"@,
        left == "closed"@ ==> status_word(left) == "已关闭"@,
        left == "idle"@ ==> status_word(left) == "空闲"@,
{
    reveal_strlit("idle");
    reveal_strlit("running");
    reveal_strlit("awaiting_approval");
    reveal_strlit("completed");
    reveal_strlit("closed");
    assert("idle"@.len() == 4);
    assert("running"@.len() == 7);
    assert("awaiting_approval"@.len() == 17);
    assert("completed"@.len() == 9);
    assert("closed"@.len() == 6);
    reveal_strlit("空闲");
    reveal_strlit("处理中");
    reveal_strlit("等待本机审批");
    reveal_strlit("已完成");
    reveal_strlit("已关闭");
    assert("空闲"@.len() == 2);
    assert("处理中"@.len() == 3 && "已完成"@.len() == 3 && "已关闭"@.len() == 3);
    assert("等待本机审批"@.len() == 6);
    assert("处理中"@[0] != "已完成"@[0] && "处理中"@[0] != "已关闭"@[0]);
    assert("已完成"@[1] != "已关闭"@[1]);
}

/// The status tells whether notifications are muted and then, in order, of each
/// session its project, its model, its status and when it last changed.
pub proof fn lemma_status_tells_of_each_session(
    muted: bool,
    sessions: Seq<SessionView>,
    stamps: Seq<Option<Seq<char>>>,
    n: nat,
    k: int,
)
    requires
        n <= sessions.len(),
    ensures
        ({
            let lines = status_lines(muted, sessions, stamps, n);
            &&& lines.len() == 1 + 5 * n
            &&& lines[0] == "CodexBot："@ + (if muted {
                "已静音"@
            } else {
                "通知开启"@
            })
            &&& 0 <= k < n ==> {
                &&& lines[2 + 5 * k] == "项目："@ + sessions[k].project
                &&& lines[3 + 5 * k] == "模型："@ + sessions[k].model
                &&& lines[4 + 5 * k] == "状态："@ + status_word(sessions[k].status)
                &&& lines[5 + 5 * k] == "更新："@ + (match stamps[k] {
                    Some(stamp) => if k < stamps.len() {
                        stamp
                    } else {
                        "未知"@
                    },
                    None => "未知"@,
                })
            }
        }),
    decreases n,
{
    if n > 0 {
        lemma_status_tells_of_each_session(muted, sessions, stamps, (n - 1) as nat, k);
    }
}

/// The bound user mutes notifications and lets them through again, and nothing
/// else that they send does either; the answer goes to them, on their message.
pub proof fn lemma_only_commands_mute(
    s: StoreView,
    openid: Seq<char>,
    message_id: Seq<char>,
    content: Seq<char>,
    stamps: Seq<Option<Seq<char>>>,
    now: i64,
)
    requires
        store::setting(s, "bound_openid"@) == Some(openid),
        !store_ops::message_known(s, message_id),
        bind_code(normal_command(content)) is None,
    ensures
        ({
            let lower = text::lowercase(normal_command(content));
            let (after, step) = message_step(s, openid, message_id, content, stamps, now);
            &&& lower == "/mute"@ ==> store::setting(after, "muted"@) == Some("1"@)
            &&& lower == "/unmute"@ ==> store::setting(after, "muted"@) == Some("0"@)
            &&& lower != "/mute"@ && lower != "/unmute"@ ==> after.settings == s.settings
            &&& forall|key: Seq<char>|
                key != "muted"@ ==> #[trigger] store::setting(after, key) == store::setting(s, key)
            &&& after.sessions == s.sessions
            &&& after.tasks == s.tasks
            &&& lower != "/last"@ && !text::begins(lower, "/last "@) ==> after.outbox == s.outbox
                && after.replies == s.replies
            &&& step matches StepView::Reply(reply, outcome) ==> reply.openid == openid
                && reply.message_id == message_id && outcome == CommandOutcome::Replied
        }),
{
    reveal_strlit("/mute");
    reveal_strlit("/unmute");
    reveal_strlit("/status");
    reveal_strlit("/usage");
    reveal_strlit("/account");
    reveal_strlit("/account ");
    reveal_strlit("/last");
    reveal_strlit("/last ");
    assert("/mute"@.len() == 5 && "/last"@.len() == 5 && "/mute"@[1] != "/last"@[1]);
    assert("/unmute"@.len() == 7 && "/status"@.len() == 7 && "/unmute"@[1] != "/status"@[1]);
    assert("/usage"@.len() == 6 && "/account"@.len() == 8);
    assert(!text::begins("/mute"@, "/last "@));
    assert(!text::begins("/mute"@, "/account "@));
    assert(!text::begins("/unmute"@, "/account "@));
    assert(!text::begins("/unmute"@, "/last "@)) by {
        if text::begins("/unmute"@, "/last "@) {
            assert("/unmute"@.subrange(0, 6)[1] == "/last "@[1]);
        }
    }
}

/// A request for a reply names a page with its last word, if that is a number,
/// and a project with the words before it; the first page is meant where it
/// names none.
pub proof fn lemma_last_names_project_and_page(argument: Seq<char>)
    requires
        ({
            let words = text::words(argument);
            words.len() > 0 ==> text::lowercase(words[0]) != "--project"@ && text::lowercase(
                words[0],
            ) != "-p"@ && !text::begins(text::lowercase(words[0]), "--project="@)
        }),
    ensures
        ({
            let words = text::words(argument);
            let number = text::parsed_unsigned(words.last(), usize::MAX as nat);
            if words.len() == 0 {
                last_asked(argument) == Some((None::<Seq<char>>, 1nat))
            } else if text::all_digits(words.last()) && number is Some {
                if number->0 == 0 {
                    last_asked(argument) is None
                } else {
                    last_asked(argument) == Some(
                        (
                            if words.len() == 1 {
                                None
                            } else {
                                Some(text::joined(words.drop_last(), " "@))
                            },
                            number->0,
                        ),
                    )
                }
            } else {
                last_asked(argument) == Some((Some(text::joined(words, " "@)), 1nat))
            }
        }),
{
}

} // verus!
