//! Reading the lifecycle events that Codex hands to its hooks.
use vstd::prelude::*;
use vstd::utf8;
use crate::clock;
use crate::digest;
use crate::json;
use crate::json::{Json, JsonView};
use crate::processes;
use crate::processes::{HostProcess, HostView};
use crate::security;
use crate::text;
use crate::text::text_eq;

verus! {

/// The prefix of a session key that takes the working directory into account.
pub open spec fn session_prefix() -> Seq<char> {
    "v2:"@
}

/// The most bytes of the first line of a transcript that are looked at.
pub const TRANSCRIPT_METADATA_MAX_BYTES: usize = 65536;

// ---------------------------------------------------------------------------
// Values as texts
// ---------------------------------------------------------------------------

/// A value as a text: itself if it is one, `default` if it is absent or null.
pub open spec fn shown(value: Option<JsonView>, default: Seq<char>) -> Seq<char> {
    match value {
        None => default,
        Some(JsonView::Null) => default,
        Some(JsonView::Text(text)) => text,
        Some(JsonView::Bool(b)) => if b {
            "True"@
        } else {
            "False"@
        },
        Some(other) => json::compact_json(other),
    }
}

/// The text that a member of an event is shown as.
pub open spec fn shown_at(event: JsonView, key: Seq<char>, default: Seq<char>) -> Seq<char> {
    shown(event.get(key), default)
}

pub open spec fn nonempty(value: Option<JsonView>) -> Option<Seq<char>> {
    let text = shown(value, ""@);
    if text.len() == 0 {
        None
    } else {
        Some(text)
    }
}

fn py_string(value: Option<&Json>, default: &str) -> (result: String)
    ensures
        result@ == shown(json::opt_json(value), default@),
{
    match value {
        None => default.to_owned(),
        Some(Json::Null) => default.to_owned(),
        Some(Json::Text(text)) => text.clone(),
        Some(Json::Bool(b)) => if *b {
            "True".to_owned()
        } else {
            "False".to_owned()
        },
        Some(other) => json::compact_text(other),
    }
}

/// The text that a member of an event is shown as.
pub fn event_text(event: &Json, key: &str, default: &str) -> (result: String)
    ensures
        result@ == shown_at(event@, key@, default@),
{
    py_string(event.get(key), default)
}

fn nonempty_string(value: Option<&Json>) -> (result: Option<String>)
    ensures
        text::opt_text(result) == nonempty(json::opt_json(value)),
{
    let shown = py_string(value, "");
    proof {
        reveal_strlit("");
    }
    if shown.as_str().is_empty() {
        None
    } else {
        Some(shown)
    }
}

// ---------------------------------------------------------------------------
// Working directories
// ---------------------------------------------------------------------------

/// Whether a path begins with a drive letter and a colon.
pub open spec fn has_drive(path: Seq<char>) -> bool {
    path.len() >= 2 && (path[0] as int) < 0x80 && path[1] == ':'
}

/// The parts of a path with `.` and `..` resolved. A `..` with nothing to leave
/// is kept if `keep_up`.
pub open spec fn resolved(parts: Seq<Seq<char>>, keep_up: bool) -> Seq<Seq<char>>
    decreases parts.len(),
{
    if parts.len() == 0 {
        Seq::empty()
    } else {
        let before = resolved(parts.drop_last(), keep_up);
        let part = parts.last();
        if part == ""@ || part == "."@ {
            before
        } else if part == ".."@ {
            if before.len() > 0 && before.last() != ".."@ {
                before.drop_last()
            } else if keep_up {
                before.push(part)
            } else {
                before
            }
        } else {
            before.push(part)
        }
    }
}

/// A path of lower-case letters and backslashes with no `.` or `..` that can
/// be resolved.
pub open spec fn tidied(path: Seq<char>) -> Seq<char> {
    let drive = has_drive(path);
    let unc = text::begins(path, "\\\\"@);
    let absolute = drive && path.len() > 2 && path[2] == '\\';
    let rooted = text::begins(path, "\\"@);
    let body = if drive {
        path.skip(2)
    } else {
        path
    };
    let joined = text::joined(
        resolved(text::fields(body, '\\'), !absolute && !unc),
        "\\"@,
    );
    if drive {
        if absolute {
            path.take(2) + "\\"@ + joined
        } else {
            path.take(2) + joined
        }
    } else if unc {
        "\\\\"@ + joined
    } else if rooted {
        "\\"@ + joined
    } else if joined.len() == 0 {
        "."@
    } else {
        joined
    }
}

/// A working directory in one notation: lower case, backslashes, no `.` or
/// `..` that can be resolved.
pub open spec fn normalized(cwd: Seq<char>) -> Seq<char> {
    let value = text::trimmed(cwd);
    if value.len() == 0 {
        ""@
    } else {
        tidied(text::lowercase(text::replaced(value, '/', '\\')))
    }
}

/// A working directory of ASCII characters in one notation.
pub open spec fn ascii_normalized(cwd: Seq<char>) -> Seq<char> {
    let value = text::trimmed(cwd);
    if value.len() == 0 {
        ""@
    } else {
        tidied(text::ascii_lower(text::replaced(value, '/', '\\')))
    }
}

/// The parts of a path that name something.
pub open spec fn named_parts(parts: Seq<Seq<char>>) -> Seq<Seq<char>>
    decreases parts.len(),
{
    if parts.len() == 0 {
        Seq::empty()
    } else if parts.last() == ""@ || parts.last() == "."@ {
        named_parts(parts.drop_last())
    } else {
        named_parts(parts.drop_last()).push(parts.last())
    }
}

/// The last of some parts that names something, unless it leads upwards.
pub open spec fn last_named(parts: Seq<Seq<char>>) -> Option<Seq<char>> {
    let named = named_parts(parts);
    if named.len() > 0 && named.last() != ".."@ {
        Some(named.last())
    } else {
        None
    }
}

/// The last component of a path with slashes, unless it leads upwards.
pub open spec fn file_name(path: Seq<char>) -> Option<Seq<char>> {
    last_named(text::fields(path, '/'))
}

/// Whether a path begins with two separators of Windows, as those of a server
/// or a device do.
pub open spec fn begins_twice(path: Seq<char>) -> bool {
    path.len() >= 2 && (path[0] == '/' || path[0] == '\\') && (path[1] == '/' || path[1] == '\\')
}

/// The last component of a path as Windows reads it, unless it leads upwards:
/// slashes of either kind separate, and the letter of a drive and its colon
/// name no component. Paths that begin with two separators are left out.
pub open spec fn windows_name(path: Seq<char>) -> Option<Seq<char>> {
    let turned = text::replaced(path, '/', '\\');
    let body = if has_drive(path) && security::is_ascii_alnum(path[0]) && !text::is_digit(path[0]) {
        turned.skip(2)
    } else {
        turned
    };
    last_named(text::fields(body, '\\'))
}

/// The parts of a path with slashes that stand behind its volume. Two slashes,
/// a server and a share name a volume of Windows.
pub open spec fn volume_parts(path: Seq<char>) -> Seq<Seq<char>> {
    let parts = text::fields(path, '/');
    if text::begins(path, "//"@) && parts.len() >= 4 && parts[2].len() > 0 && parts[3].len() > 0 {
        parts.skip(4)
    } else {
        parts
    }
}

/// The name of the project in a working directory.
pub open spec fn project_of(cwd: Seq<char>) -> Seq<char> {
    if cwd.len() == 0 {
        "unknown"@
    } else if cwd.contains('\\') || has_drive(cwd) {
        let name = text::base_name(text::stripped_end(cwd, "\\/"@));
        if name.len() == 0 {
            cwd
        } else {
            name
        }
    } else {
        match last_named(volume_parts(cwd)) {
            Some(name) => name,
            None => cwd,
        }
    }
}

/// The name of a session, or what stands for it where there is none.
pub open spec fn session_name(session: Seq<char>) -> Seq<char> {
    let name = text::trimmed(session);
    if name.len() == 0 {
        "unknown"@
    } else {
        name
    }
}

/// What tells a session apart, as one text.
pub open spec fn session_identity(name: Seq<char>, scope: Seq<char>) -> Seq<char> {
    "{\"cwd\": "@ + json::quoted(scope) + ", \"session\": "@ + json::quoted(name) + "}"@
}

/// The key of a session: the digest of its name and its working directory.
/// A nameless session without a directory is told apart by its host.
pub open spec fn session_key(
    session: Seq<char>,
    cwd: Seq<char>,
    host: Option<HostView>,
) -> Seq<char> {
    let name = session_name(session);
    let directory = normalized(cwd);
    let scope = match host {
        Some(host) => if directory.len() == 0 && name == "unknown"@ {
            "host:"@ + text::decimal(host.pid as nat) + ":"@ + clock::seconds_fixed(
                host.create_time as int,
            )
        } else {
            directory
        },
        None => directory,
    };
    session_prefix() + digest::text_digest(session_identity(name, scope))
}

/// Whether a text has the form of a session key: the prefix and sixty-four
/// hexadecimal digits.
pub open spec fn is_session_key(key: Seq<char>) -> bool {
    text::begins(key, session_prefix()) && key.len() == session_prefix().len() + 64
        && digest::all_hex(key.skip(session_prefix().len() as int))
}

fn is_drive(chars: &Vec<char>) -> (result: bool)
    ensures
        result == has_drive(chars@),
{
    chars.len() >= 2 && below_128(chars[0]) && chars[1] == ':'
}

fn below_128(c: char) -> (result: bool)
    ensures
        result == ((c as int) < 0x80),
{
    (c as u32) < 0x80
}

fn resolve(parts: &Vec<String>, keep_up: bool) -> (result: Vec<String>)
    ensures
        text::texts(result@) == resolved(text::texts(parts@), keep_up),
{
    let ghost all = text::texts(parts@);
    let mut result: Vec<String> = Vec::new();
    assert(text::texts(result@) =~= resolved(all.take(0), keep_up));
    for i in 0..parts.len()
        invariant
            all == text::texts(parts@),
            text::texts(result@) == resolved(all.take(i as int), keep_up),
    {
        let ghost before = text::texts(result@);
        assert(all.take(i + 1).drop_last() =~= all.take(i as int));
        assert(all.take(i + 1).last() == parts@[i as int]@);
        let part = parts[i].as_str();
        if text_eq(part, "") || text_eq(part, ".") {
        } else if text_eq(part, "..") {
            if result.len() > 0 && !text_eq(result[result.len() - 1].as_str(), "..") {
                assert(before.last() == result@[result@.len() - 1]@);
                let _ = result.pop();
                assert(text::texts(result@) =~= before.drop_last());
            } else if keep_up {
                assert(before.len() > 0 ==> before.last() == result@[result@.len() - 1]@);
                result.push(parts[i].clone());
                assert(text::texts(result@) =~= before.push(part@));
            } else {
                assert(before.len() > 0 ==> before.last() == result@[result@.len() - 1]@);
            }
        } else {
            result.push(parts[i].clone());
            assert(text::texts(result@) =~= before.push(part@));
        }
    }
    assert(all.take(parts@.len() as int) =~= all);
    result
}

/// A working directory in one notation.
pub fn normalize_cwd(cwd: &str) -> (result: String)
    ensures
        result@ == normalized(cwd@),
        utf8::is_ascii_chars(cwd@) ==> result@ == ascii_normalized(cwd@),
{
    let value = text::trim(cwd);
    proof {
        text::lemma_trimmed(cwd@);
    }
    if value.as_str().is_empty() {
        return "".to_owned();
    }
    let slashed = text::replace_char(value.as_str(), '/', '\\');
    let path = text::to_lower(slashed.as_str());
    let chars = text::chars_of(path.as_str());
    let drive = is_drive(&chars);
    let unc = text::starts_with(path.as_str(), "\\\\");
    let absolute = drive && chars.len() > 2 && chars[2] == '\\';
    let rooted = text::starts_with(path.as_str(), "\\");
    let start: usize = if drive {
        2
    } else {
        0
    };
    let body = text::text_between(&chars, start, chars.len());
    proof {
        assert(chars@.subrange(start as int, chars@.len() as int) =~= chars@.skip(start as int));
        assert(chars@.skip(0) =~= chars@);
    }
    let parts = text::split_char(body.as_str(), '\\');
    let kept = resolve(&parts, !absolute && !unc);
    let joined = text::join(&kept, "\\");
    if drive {
        let mut result = text::text_between(&chars, 0, 2);
        assert(result@ =~= path@.take(2));
        if absolute {
            result.append("\\");
        }
        result.append(joined.as_str());
        result
    } else if unc {
        let mut result = "\\\\".to_owned();
        result.append(joined.as_str());
        result
    } else if rooted {
        let mut result = "\\".to_owned();
        result.append(joined.as_str());
        result
    } else if joined.as_str().is_empty() {
        ".".to_owned()
    } else {
        joined
    }
}

fn last_name(parts: &Vec<String>, from: usize) -> (result: Option<String>)
    requires
        from <= parts@.len(),
    ensures
        text::opt_text(result) == last_named(text::texts(parts@).skip(from as int)),
{
    let ghost all = text::texts(parts@).skip(from as int);
    let mut named: Vec<String> = Vec::new();
    assert(text::texts(named@) =~= named_parts(all.take(0)));
    for i in from..parts.len()
        invariant
            from <= parts@.len(),
            all == text::texts(parts@).skip(from as int),
            text::texts(named@) == named_parts(all.take(i - from)),
    {
        let ghost before = text::texts(named@);
        assert(all.take(i + 1 - from).drop_last() =~= all.take(i - from));
        assert(all.take(i + 1 - from).last() == parts@[i as int]@);
        if !text_eq(parts[i].as_str(), "") && !text_eq(parts[i].as_str(), ".") {
            named.push(parts[i].clone());
            assert(text::texts(named@) =~= before.push(parts@[i as int]@));
        }
    }
    assert(all.take(parts@.len() - from) =~= all);
    let ghost found = text::texts(named@);
    if named.len() > 0 {
        assert(found.last() == named@[named@.len() - 1]@);
        let last = named[named.len() - 1].as_str();
        if text_eq(last, "..") {
            None
        } else {
            Some(last.to_owned())
        }
    } else {
        None
    }
}

/// The last component of a path with slashes behind its volume, else the whole
/// path.
pub fn file_name_or(path: &str) -> (result: String)
    ensures
        result@ == (match last_named(volume_parts(path@)) {
            Some(name) => name,
            None => path@,
        }),
{
    let parts = text::split_char(path, '/');
    assert(text::texts(parts@).len() == parts@.len());
    let from: usize = if text::starts_with(path, "//") && parts.len() >= 4
        && !parts[2].as_str().is_empty() && !parts[3].as_str().is_empty() {
        4
    } else {
        0
    };
    proof {
        let all = text::texts(parts@);
        assert(all.skip(0) =~= all);
        assert(all.len() >= 4 ==> all[2] == parts@[2]@ && all[3] == parts@[3]@);
    }
    match last_name(&parts, from) {
        Some(name) => name,
        None => path.to_owned(),
    }
}

/// The name of the project in a working directory.
pub fn project_name(cwd: &str) -> (result: String)
    ensures
        result@ == project_of(cwd@),
{
    if cwd.is_empty() {
        return "unknown".to_owned();
    }
    let chars = text::chars_of(cwd);
    if text::has_char(cwd, '\\') || is_drive(&chars) {
        let stripped = text::strip_end(cwd, "\\/");
        let name = text::windows_basename(stripped.as_str());
        if name.as_str().is_empty() {
            cwd.to_owned()
        } else {
            name
        }
    } else {
        file_name_or(cwd)
    }
}

/// The key of a session.
pub fn scoped_session_id(session_id: &str, cwd: &str, host: Option<&HostProcess>) -> (result:
    String)
    ensures
        result@ == session_key(session_id@, cwd@, processes::opt_host_ref(host)),
        is_session_key(result@),
{
    let name = text::trim(session_id);
    let raw = if name.as_str().is_empty() {
        "unknown".to_owned()
    } else {
        name
    };
    let directory = normalize_cwd(cwd);
    let scope = match host {
        Some(host) => if directory.as_str().is_empty() && text_eq(raw.as_str(), "unknown") {
            let mut scope = "host:".to_owned();
            let pid = text::decimal_text(host.pid as u64);
            scope.append(pid.as_str());
            scope.append(":");
            let created = clock::seconds_fixed_text(host.create_time);
            scope.append(created.as_str());
            scope
        } else {
            directory
        },
        None => directory,
    };
    let mut identity = "{\"cwd\": ".to_owned();
    let quoted_scope = json::quote(scope.as_str());
    identity.append(quoted_scope.as_str());
    identity.append(", \"session\": ");
    let quoted_raw = json::quote(raw.as_str());
    identity.append(quoted_raw.as_str());
    identity.append("}");
    let mut result = "v2:".to_owned();
    let digest = digest::digest_text(identity.as_str());
    result.append(digest.as_str());
    proof {
        assert(result@.subrange(0, session_prefix().len() as int) =~= session_prefix());
        assert(result@.skip(session_prefix().len() as int) =~= digest@);
    }
    result
}

// ---------------------------------------------------------------------------
// Identity of an event
// ---------------------------------------------------------------------------

/// A member of an event, null when absent.
pub open spec fn member_or_null(event: JsonView, key: Seq<char>) -> JsonView {
    match event.get(key) {
        Some(value) => value,
        None => JsonView::Null,
    }
}

/// What started or ended a session: the source of the event, else its reason.
pub open spec fn event_source(event: JsonView) -> JsonView {
    match event.get("source"@) {
        Some(value) => if value == JsonView::Null || value == JsonView::Text(""@) {
            member_or_null(event, "reason"@)
        } else {
            value
        },
        None => member_or_null(event, "reason"@),
    }
}

pub open spec fn event_name(event: JsonView) -> Seq<char> {
    shown_at(event, "hook_event_name"@, ""@)
}

/// The members by which two events are told apart.
pub open spec fn identity(event: JsonView, session: Option<Seq<char>>) -> JsonView {
    let name = event_name(event);
    let base = seq![
        ("event"@, JsonView::Text(name)),
        (
            "session"@,
            match session {
                Some(session) => JsonView::Text(session),
                None => member_or_null(event, "session_id"@),
            },
        ),
        ("turn"@, member_or_null(event, "turn_id"@)),
    ];
    JsonView::Object(
        if name == "PermissionRequest"@ {
            base.push(("tool_use_id"@, member_or_null(event, "tool_use_id"@))).push(
                ("tool"@, member_or_null(event, "tool_name"@)),
            ).push(("input"@, member_or_null(event, "tool_input"@)))
        } else if name == "UserPromptSubmit"@ {
            base.push(
                (
                    "prompt_hash"@,
                    JsonView::Text(digest::text_digest(shown_at(event, "prompt"@, ""@))),
                ),
            )
        } else if name == "Stop"@ {
            base.push(
                (
                    "answer_hash"@,
                    JsonView::Text(
                        digest::text_digest(shown_at(event, "last_assistant_message"@, ""@)),
                    ),
                ),
            )
        } else {
            base.push(("source"@, event_source(event)))
        },
    )
}

/// The digest of what tells an event apart, under the key of its session if one
/// is given.
pub open spec fn event_digest(event: JsonView, session: Option<Seq<char>>) -> Seq<char> {
    digest::text_digest(json::python_json(identity(event, session)))
}

fn copy_or_null(event: &Json, key: &str) -> (result: Json)
    ensures
        result@ == member_or_null(event@, key@),
{
    match event.get(key) {
        Some(value) => value.copy(),
        None => Json::Null,
    }
}

fn source_of(event: &Json) -> (result: Json)
    ensures
        result@ == event_source(event@),
{
    match event.get("source") {
        Some(Json::Null) => copy_or_null(event, "reason"),
        Some(Json::Text(source)) => if text_eq(source.as_str(), "") {
            copy_or_null(event, "reason")
        } else {
            Json::Text(source.clone())
        },
        Some(other) => other.copy(),
        None => copy_or_null(event, "reason"),
    }
}

/// The digest of what tells an event apart; none unless the event is an object.
pub fn event_key(event: &Json, session_id: Option<&str>) -> (result: Option<String>)
    ensures
        match result {
            Some(key) => event@ is Object && key@ == event_digest(event@, text::opt_str(session_id)),
            None => !(event@ is Object),
        },
{
    match event {
        Json::Object(_) => {},
        _ => {
            return None;
        },
    }
    let name = event_text(event, "hook_event_name", "");
    let session = match session_id {
        Some(session) => json::text_json(session),
        None => copy_or_null(event, "session_id"),
    };
    let mut parts: Vec<(String, Json)> = Vec::new();
    parts.push(json::member("event", json::text_json(name.as_str())));
    parts.push(json::member("session", session));
    parts.push(json::member("turn", copy_or_null(event, "turn_id")));
    if text_eq(name.as_str(), "PermissionRequest") {
        parts.push(json::member("tool_use_id", copy_or_null(event, "tool_use_id")));
        parts.push(json::member("tool", copy_or_null(event, "tool_name")));
        parts.push(json::member("input", copy_or_null(event, "tool_input")));
    } else if text_eq(name.as_str(), "UserPromptSubmit") {
        let prompt = event_text(event, "prompt", "");
        let hash = digest::digest_text(prompt.as_str());
        parts.push(json::member("prompt_hash", Json::Text(hash)));
    } else if text_eq(name.as_str(), "Stop") {
        let answer = event_text(event, "last_assistant_message", "");
        let hash = digest::digest_text(answer.as_str());
        parts.push(json::member("answer_hash", Json::Text(hash)));
    } else {
        parts.push(json::member("source", source_of(event)));
    }
    let ghost wanted = identity(event@, text::opt_str(session_id));
    assert(json::members(parts@) =~= wanted->Object_0);
    let value = json::object(parts);
    let line = json::python_text(&value);
    Some(digest::digest_text(line.as_str()))
}

// ---------------------------------------------------------------------------
// Permission requests
// ---------------------------------------------------------------------------

/// What a permission request asks for, before redaction.
pub open spec fn permission_candidate(event: JsonView) -> Seq<char> {
    match event.get("tool_input"@) {
        Some(JsonView::Object(input)) => {
            let value = JsonView::Object(input);
            match nonempty(value.get("description"@)) {
                Some(text) => text,
                None => match nonempty(value.get("command"@)) {
                    Some(text) => text,
                    None => json::python_json(value),
                },
            }
        },
        other => shown(other, ""@),
    }
}

/// What a permission request asks for, in one redacted line.
pub open spec fn permission_reason(event: JsonView) -> Seq<char> {
    let line = security::preview(security::redacted(permission_candidate(event)), 180);
    if line.len() == 0 {
        "Codex 请求执行需要本机确认的操作"@
    } else {
        line
    }
}

/// Whether a permission request is announced: notifications are on and the
/// session really asks.
pub open spec fn permission_announced(event: JsonView, notify: bool) -> bool {
    let mode = text::ascii_lower(shown_at(event, "permission_mode"@, ""@));
    notify && mode != "dontask"@ && mode != "bypasspermissions"@
}

/// Whether a setting of the environment switches permission notifications on.
pub open spec fn switched_on(value: Option<Seq<char>>) -> bool {
    let flag = match value {
        Some(value) => text::ascii_lower(text::trimmed(value)),
        None => text::ascii_lower(text::trimmed(""@)),
    };
    flag == "1"@ || flag == "true"@ || flag == "yes"@ || flag == "on"@
}

/// Whether a setting of the environment switches permission notifications on.
pub fn permission_notifications_enabled(value: Option<&str>) -> (result: bool)
    ensures
        result == switched_on(text::opt_str(value)),
{
    let given = match value {
        Some(value) => text::trim(value),
        None => text::trim(""),
    };
    let flag = text::to_ascii_lower(given.as_str());
    text_eq(flag.as_str(), "1") || text_eq(flag.as_str(), "true") || text_eq(flag.as_str(), "yes")
        || text_eq(flag.as_str(), "on")
}

fn candidate_text(event: &Json) -> (result: String)
    ensures
        result@ == permission_candidate(event@),
{
    match event.get("tool_input") {
        Some(input) => match input {
            Json::Object(_) => match nonempty_string(input.get("description")) {
                Some(text) => text,
                None => match nonempty_string(input.get("command")) {
                    Some(text) => text,
                    None => json::python_text(input),
                },
            },
            _ => py_string(Some(input), ""),
        },
        None => "".to_owned(),
    }
}

/// What a permission request asks for, in one redacted line.
pub fn permission_preview(event: &Json) -> (result: String)
    ensures
        result@ == permission_reason(event@),
{
    let candidate = candidate_text(event);
    let clean = security::redact_secrets(candidate.as_str());
    let line = security::prompt_preview(clean.as_str(), 180);
    if line.as_str().is_empty() {
        "Codex 请求执行需要本机确认的操作".to_owned()
    } else {
        line
    }
}

/// Whether a permission request is announced.
pub fn announces_permission(event: &Json, notify: bool) -> (result: bool)
    ensures
        result == permission_announced(event@, notify),
{
    if !notify {
        return false;
    }
    let mode = event_text(event, "permission_mode", "");
    let lower = text::to_ascii_lower(mode.as_str());
    !text_eq(lower.as_str(), "dontask") && !text_eq(lower.as_str(), "bypasspermissions")
}

// ---------------------------------------------------------------------------
// Subagents
// ---------------------------------------------------------------------------

/// Whether an event carries the identity of a subagent.
pub open spec fn names_subagent(event: JsonView) -> bool {
    ||| text::trimmed(shown_at(event, "agent_id"@, ""@)).len() > 0
    ||| text::trimmed(shown_at(event, "agent_type"@, ""@)).len() > 0
    ||| text::trimmed(shown_at(event, "agent_transcript_path"@, ""@)).len() > 0
}

/// Whether the record that opens a transcript belongs to a subagent.
pub open spec fn record_marks_subagent(record: JsonView) -> bool {
    &&& record.text_at("type"@) == Some("session_meta"@)
    &&& record.get("payload"@) is Some
    &&& record.get("payload"@)->0 is Object
    &&& ({
        let metadata = record.get("payload"@)->0;
        ||| match metadata.text_at("thread_source"@) {
            Some(name) => text::same_ascii(name, "subagent"@),
            None => false,
        }
        ||| match metadata.get("source"@) {
            Some(source) => source is Object && source.get("subagent"@) is Some,
            None => false,
        }
    })
}

/// The first line of a transcript without a byte order mark.
pub open spec fn without_mark(line: Seq<u8>) -> Seq<u8> {
    if line.len() >= 3 && line[0] == 0xef && line[1] == 0xbb && line[2] == 0xbf {
        line.skip(3)
    } else {
        line
    }
}

/// Whether the first line of a transcript says that it belongs to a subagent.
pub open spec fn line_marks_subagent(line: Seq<u8>) -> bool {
    if line.len() == 0 || line.len() > TRANSCRIPT_METADATA_MAX_BYTES {
        false
    } else {
        match json::parsed(without_mark(line)) {
            Some(record) => record_marks_subagent(record),
            None => false,
        }
    }
}

/// The transcript whose first line has to be read to judge an event.
pub open spec fn transcript_of(event: JsonView) -> Option<Seq<char>> {
    match event.text_at("transcript_path"@) {
        Some(path) => if text::trimmed(path).len() > 0 {
            Some(path)
        } else {
            None
        },
        None => None,
    }
}

fn has_words(value: &str) -> (result: bool)
    ensures
        result == (text::trimmed(value@).len() > 0),
{
    let rest = text::trim(value);
    !rest.as_str().is_empty()
}

/// Whether an event carries the identity of a subagent.
pub fn has_subagent_identity(event: &Json) -> (result: bool)
    ensures
        result == names_subagent(event@),
{
    let id = event_text(event, "agent_id", "");
    let kind = event_text(event, "agent_type", "");
    let path = event_text(event, "agent_transcript_path", "");
    has_words(id.as_str()) || has_words(kind.as_str()) || has_words(path.as_str())
}

/// The transcript whose first line has to be read to judge an event.
pub fn transcript_path(event: &Json) -> (result: Option<String>)
    ensures
        text::opt_text(result) == transcript_of(event@),
{
    match event.text_at("transcript_path") {
        Some(path) => if has_words(path) {
            Some(path.to_owned())
        } else {
            None
        },
        None => None,
    }
}

/// Whether the record that opens a transcript belongs to a subagent.
pub fn session_meta_marks_subagent(record: &Json) -> (result: bool)
    ensures
        result == record_marks_subagent(record@),
{
    match record.text_at("type") {
        Some(kind) => if !text_eq(kind, "session_meta") {
            return false;
        },
        None => {
            return false;
        },
    }
    let metadata = match record.get("payload") {
        Some(payload) => match payload {
            Json::Object(_) => payload,
            _ => {
                return false;
            },
        },
        None => {
            return false;
        },
    };
    match metadata.text_at("thread_source") {
        Some(name) => if text::eq_ignore_ascii_case(name, "subagent") {
            return true;
        },
        None => {},
    }
    match metadata.get("source") {
        Some(source) => match source {
            Json::Object(_) => source.get("subagent").is_some(),
            _ => false,
        },
        None => false,
    }
}

/// Whether the first line of a transcript says that it belongs to a subagent.
pub fn transcript_marks_subagent(line: &Vec<u8>) -> (result: bool)
    ensures
        result == line_marks_subagent(line@),
{
    if line.len() == 0 || line.len() > TRANSCRIPT_METADATA_MAX_BYTES {
        return false;
    }
    let start: usize = if line.len() >= 3 && line[0] == 0xef && line[1] == 0xbb && line[2] == 0xbf {
        3
    } else {
        0
    };
    let mut body: Vec<u8> = Vec::new();
    let mut i: usize = start;
    while i < line.len()
        invariant
            start <= i <= line@.len(),
            body@ == line@.subrange(start as int, i as int),
        decreases line.len() - i,
    {
        body.push(line[i]);
        i += 1;
    }
    assert(body@ =~= without_mark(line@));
    match json::parse_json(body.as_slice()) {
        Some(record) => session_meta_marks_subagent(&record),
        None => false,
    }
}

} // verus!
