//! The end of a turn of the second coding assistant that the bridge listens to.
//! Its hooks do not tell what the assistant is called, so its name is handed in.
use vstd::prelude::*;
use crate::hook_event;
use crate::json;
use crate::json::{Json, JsonView};
use crate::store;
use crate::store::{Store, StoreError, StoreView};
use crate::text;
use crate::text::text_eq;

verus! {

/// Why the end of a turn was not taken in.
#[derive(Debug)]
pub enum ClaudeHookError {
    NotObject,
    Store(StoreError),
}

/// What the product of an assistant is called.
pub open spec fn product(assistant: Seq<char>) -> Seq<char> {
    assistant + " Code"@
}

/// What the product of an assistant is called.
pub fn product_name(assistant: &str) -> (result: String)
    ensures
        result@ == product(assistant@),
{
    let mut result = assistant.to_owned();
    result.append(" Code");
    result
}

impl ClaudeHookError {
    /// What an error of the hook of `assistant` tells.
    pub open spec fn text(self, assistant: Seq<char>) -> Seq<char> {
        match self {
            ClaudeHookError::NotObject => assistant + " Hook payload must be an object"@,
            ClaudeHookError::Store(error) => error.text(),
        }
    }

    /// What an error of the hook of `assistant` tells.
    pub fn message(&self, assistant: &str) -> (result: String)
        ensures
            result@ == self.text(assistant@),
    {
        match self {
            ClaudeHookError::NotObject => {
                let mut result = assistant.to_owned();
                result.append(" Hook payload must be an object");
                result
            },
            ClaudeHookError::Store(error) => error.message(),
        }
    }
}

/// The value under the first of these names that is there.
pub open spec fn first_member(payload: JsonView, names: Seq<Seq<char>>, from: int) -> Option<JsonView>
    decreases names.len() - from,
{
    if 0 <= from < names.len() {
        if payload.get(names[from]) is Some {
            payload.get(names[from])
        } else {
            first_member(payload, names, from + 1)
        }
    } else {
        None
    }
}

/// The text under the first of these names that is there, without white space
/// around it; empty where that is no text.
pub open spec fn first_text(payload: JsonView, names: Seq<Seq<char>>) -> Seq<char> {
    match json::opt_text_of(first_member(payload, names, 0)) {
        Some(found) => text::trimmed(found),
        None => text::trimmed(""@),
    }
}

fn text_under(payload: &Json, names: &Vec<&str>) -> (result: String)
    ensures
        result@ == first_text(payload@, Seq::new(names@.len(), |i: int| names@[i]@)),
{
    let ghost keys = Seq::new(names@.len(), |i: int| names@[i]@);
    let mut i: usize = 0;
    while i < names.len()
        invariant
            i <= names@.len(),
            keys == Seq::new(names@.len(), |i: int| names@[i]@),
            first_member(payload@, keys, 0) == first_member(payload@, keys, i as int),
        decreases names.len() - i,
    {
        match payload.get(names[i]) {
            Some(value) => {
                return match value.as_text() {
                    Some(found) => text::trim(found),
                    None => text::trim(""),
                };
            },
            None => {},
        }
        i += 1;
    }
    text::trim("")
}

/// The name of the session.
pub open spec fn claude_session(payload: JsonView) -> Seq<char> {
    let session = first_text(payload, seq!["session_id"@, "conversation_id"@]);
    if session.len() == 0 {
        "unknown"@
    } else {
        session
    }
}

/// The working directory.
pub open spec fn claude_cwd(payload: JsonView) -> Seq<char> {
    first_text(payload, seq!["cwd"@, "project_dir"@])
}

/// What went wrong.
pub open spec fn claude_error(payload: JsonView) -> Seq<char> {
    first_text(payload, seq!["error"@, "error_message"@, "reason"@])
}

/// Whether the turn failed.
pub open spec fn claude_failed(payload: JsonView) -> bool {
    let status = text::ascii_lower(first_text(payload, seq!["status"@, "result"@]));
    let event = text::ascii_lower(first_text(payload, seq!["hook_event_name"@, "event"@]));
    claude_error(payload).len() > 0 || status == "failed"@ || status == "error"@ || status
        == "cancelled"@ || text::occurs(event, "error"@)
}

/// What the turn answered.
pub open spec fn claude_answer(payload: JsonView) -> Seq<char> {
    first_text(
        payload,
        seq!["last_assistant_message"@, "response"@, "content"@, "message"@],
    )
}

/// The end of a turn.
pub struct TurnEnd {
    pub session_id: Seq<char>,
    pub cwd: Seq<char>,
    pub failed: bool,
    pub error: Seq<char>,
    pub answer: Seq<char>,
}

/// The end of a turn that a hook tells of.
pub open spec fn turn_told(payload: JsonView) -> TurnEnd {
    TurnEnd {
        session_id: claude_session(payload),
        cwd: claude_cwd(payload),
        failed: claude_failed(payload),
        error: claude_error(payload),
        answer: claude_answer(payload),
    }
}

/// What is announced of a turn; `name` is the last component of its working
/// directory, if it has one.
pub open spec fn turn_shown(
    assistant: Seq<char>,
    turn: TurnEnd,
    name: Option<Seq<char>>,
) -> Seq<char> {
    let project = if turn.cwd.len() == 0 {
        product(assistant)
    } else {
        match name {
            Some(name) => name,
            None => turn.cwd,
        }
    };
    if turn.failed {
        "❌ "@ + product(assistant) + " 任务失败\n项目："@ + project + "\n错误："@ + (if turn.error.len() == 0 {
            "未知错误"@
        } else {
            turn.error
        })
    } else {
        "✅ "@ + product(assistant) + " 本轮已结束\n项目："@ + project + "\n\n"@ + (if turn.answer.len() == 0 {
            "（没有可显示的回答）"@
        } else {
            turn.answer
        })
    }
}

/// The end of a turn.
#[derive(Debug, PartialEq, Eq)]
pub struct ClaudeTurn {
    pub session_id: String,
    pub cwd: String,
    pub failed: bool,
    pub error: String,
    pub answer: String,
}

impl ClaudeTurn {
    pub open spec fn view(&self) -> TurnEnd {
        TurnEnd {
            session_id: self.session_id@,
            cwd: self.cwd@,
            failed: self.failed,
            error: self.error@,
            answer: self.answer@,
        }
    }
}

/// The end of a turn, read from what the hook tells.
pub fn read_turn(payload: &Json) -> (result: Option<ClaudeTurn>)
    ensures
        result is Some == payload@ is Object,
        result matches Some(turn) ==> turn@ == turn_told(payload@),
{
    match payload {
        Json::Object(_) => {},
        _ => {
            return None;
        },
    }
    let session_names = vec!["session_id", "conversation_id"];
    let cwd_names = vec!["cwd", "project_dir"];
    let event_names = vec!["hook_event_name", "event"];
    let status_names = vec!["status", "result"];
    let answer_names = vec!["last_assistant_message", "response", "content", "message"];
    let error_names = vec!["error", "error_message", "reason"];
    proof {
        assert(Seq::new(session_names@.len(), |i: int| session_names@[i]@) =~= seq![
            "session_id"@,
            "conversation_id"@,
        ]);
        assert(Seq::new(cwd_names@.len(), |i: int| cwd_names@[i]@) =~= seq![
            "cwd"@,
            "project_dir"@,
        ]);
        assert(Seq::new(event_names@.len(), |i: int| event_names@[i]@) =~= seq![
            "hook_event_name"@,
            "event"@,
        ]);
        assert(Seq::new(status_names@.len(), |i: int| status_names@[i]@) =~= seq![
            "status"@,
            "result"@,
        ]);
        assert(Seq::new(answer_names@.len(), |i: int| answer_names@[i]@) =~= seq![
            "last_assistant_message"@,
            "response"@,
            "content"@,
            "message"@,
        ]);
        assert(Seq::new(error_names@.len(), |i: int| error_names@[i]@) =~= seq![
            "error"@,
            "error_message"@,
            "reason"@,
        ]);
    }
    let found = text_under(payload, &session_names);
    let session_id = if found.as_str().is_empty() {
        "unknown".to_owned()
    } else {
        found
    };
    let shown_event = text_under(payload, &event_names);
    let event = text::to_ascii_lower(shown_event.as_str());
    let shown_status = text_under(payload, &status_names);
    let lower = text::to_ascii_lower(shown_status.as_str());
    let status = lower.as_str();
    let error = text_under(payload, &error_names);
    let failed = !error.as_str().is_empty() || text_eq(status, "failed") || text_eq(
        status,
        "error",
    ) || text_eq(status, "cancelled") || text::contains(event.as_str(), "error");
    Some(
        ClaudeTurn {
            session_id,
            cwd: text_under(payload, &cwd_names),
            failed,
            error,
            answer: text_under(payload, &answer_names),
        },
    )
}

/// What is announced of a turn; `name` is the last component of its working
/// directory, if it has one.
pub fn turn_content(assistant: &str, turn: &ClaudeTurn, name: &Option<String>) -> (result: String)
    ensures
        result@ == turn_shown(assistant@, turn@, text::opt_text(*name)),
{
    let called = product_name(assistant);
    let project = if turn.cwd.as_str().is_empty() {
        called.clone()
    } else {
        match name {
            Some(name) => name.clone(),
            None => turn.cwd.clone(),
        }
    };
    if turn.failed {
        let mut result = "❌ ".to_owned();
        result.append(called.as_str());
        result.append(" 任务失败\n项目：");
        result.append(project.as_str());
        result.append("\n错误：");
        if turn.error.as_str().is_empty() {
            result.append("未知错误");
        } else {
            result.append(turn.error.as_str());
        }
        result
    } else {
        let mut result = "✅ ".to_owned();
        result.append(called.as_str());
        result.append(" 本轮已结束\n项目：");
        result.append(project.as_str());
        result.append("\n\n");
        if turn.answer.as_str().is_empty() {
            result.append("（没有可显示的回答）");
        } else {
            result.append(turn.answer.as_str());
        }
        result
    }
}

/// Calls `std::path::Path::file_name`: the last component of a path, unless the
/// path ends in `..` or names a root. The system decides whether only slashes
/// separate components or the separators and drives of Windows count; where the
/// path holds neither a backslash nor a colon the two agree. What Windows makes
/// of a path that begins with two separators is left open.
#[verifier::external_body]
fn path_name(path: &str) -> (result: Option<String>)
    ensures
        !path@.contains('\\') && !path@.contains(':') && !text::begins(path@, "//"@)
            ==> text::opt_text(result) == hook_event::file_name(path@),
        !hook_event::begins_twice(path@) ==> text::opt_text(result) == hook_event::file_name(path@)
            || text::opt_text(result) == hook_event::windows_name(path@),
{
    let name = std::path::Path::new(path).file_name();
    name.and_then(|value| value.to_str()).map(|value| value.to_owned())
}

/// Takes in the end of a turn, with the name that the system gives its working
/// directory.
pub fn run_named(
    store: &mut Store,
    assistant: &str,
    turn: &ClaudeTurn,
    name: &Option<String>,
    now: i64,
) -> (result: Result<bool, ClaudeHookError>)
    ensures
        turn_taken(
            old(store)@,
            turn@,
            turn_shown(assistant@, turn@, text::opt_text(*name)),
            now,
            result,
            final(store)@,
        ),
        store::consistent(old(store)@) ==> store::consistent(final(store)@),
{
    let content = turn_content(assistant, turn, name);
    match store.enqueue_claude_reply(
        turn.session_id.as_str(),
        turn.cwd.as_str(),
        content.as_str(),
        turn.failed,
        now,
    ) {
        Ok(queued) => Ok(queued),
        Err(error) => Err(ClaudeHookError::Store(error)),
    }
}

/// What taking in the end of a turn gives, and the state after it, when
/// `content` is announced.
pub open spec fn turn_taken(
    s: StoreView,
    turn: TurnEnd,
    content: Seq<char>,
    now: i64,
    result: Result<bool, ClaudeHookError>,
    after: StoreView,
) -> bool {
    match result {
        Ok(queued) => s.next_outbox_id < i64::MAX && (after, queued) == store::claude_replied(
            s,
            turn.session_id,
            turn.cwd,
            content,
            turn.failed,
            now,
        ),
        Err(ClaudeHookError::Store(error)) => error is Exhausted && s.next_outbox_id == i64::MAX
            && after == s,
        Err(ClaudeHookError::NotObject) => false,
    }
}

/// Takes in the end of a turn.
pub fn run_inner(store: &mut Store, assistant: &str, payload: &Json, now: i64) -> (result: Result<
    bool,
    ClaudeHookError,
>)
    ensures
        if payload@ is Object {
            exists|name: Option<Seq<char>>|
                (!claude_cwd(payload@).contains('\\') && !claude_cwd(payload@).contains(':')
                    && !text::begins(claude_cwd(payload@), "//"@) ==> name
                    == hook_event::file_name(claude_cwd(payload@))) && (
                !hook_event::begins_twice(claude_cwd(payload@)) ==> name == hook_event::file_name(
                    claude_cwd(payload@),
                ) || name == hook_event::windows_name(claude_cwd(payload@))) && turn_taken(
                    old(store)@,
                    turn_told(payload@),
                    #[trigger] turn_shown(assistant@, turn_told(payload@), name),
                    now,
                    result,
                    final(store)@,
                )
        } else {
            result matches Err(ClaudeHookError::NotObject) && final(store)@ == old(store)@
        },
        store::consistent(old(store)@) ==> store::consistent(final(store)@),
{
    match read_turn(payload) {
        Some(turn) => {
            let name = path_name(turn.cwd.as_str());
            let result = run_named(store, assistant, &turn, &name, now);
            assert(turn_taken(
                old(store)@,
                turn_told(payload@),
                turn_shown(assistant@, turn_told(payload@), text::opt_text(name)),
                now,
                result,
                store@,
            ));
            result
        },
        None => Err(ClaudeHookError::NotObject),
    }
}

/// What is announced of a turn ends in what the turn answered, or in what went
/// wrong with it, word for word, and tells the two apart by its first sign.
pub proof fn lemma_announcement_ends_in_the_answer(
    assistant: Seq<char>,
    turn: TurnEnd,
    name: Option<Seq<char>>,
)
    ensures
        ({
            let shown = turn_shown(assistant, turn, name);
            &&& !turn.failed && turn.answer.len() > 0 ==> text::ends(shown, turn.answer)
            &&& turn.failed && turn.error.len() > 0 ==> text::ends(shown, turn.error)
            &&& turn.failed <==> shown[0] == '❌'
            &&& !turn.failed <==> shown[0] == '✅'
        }),
{
    let shown = turn_shown(assistant, turn, name);
    reveal_strlit("❌ ");
    reveal_strlit("✅ ");
    assert(turn.failed ==> shown[0] == "❌ "@[0]);
    assert(!turn.failed ==> shown[0] == "✅ "@[0]);
    if turn.failed && turn.error.len() > 0 {
        let part = turn.error;
        assert(shown.subrange(shown.len() - part.len(), shown.len() as int) =~= part);
    }
    if !turn.failed && turn.answer.len() > 0 {
        let part = turn.answer;
        assert(shown.subrange(shown.len() - part.len(), shown.len() as int) =~= part);
    }
}

/// The end of a turn is read by the names of its members: what the assistant
/// said last is its answer, and an error that is told means that it failed.
pub proof fn lemma_turn_is_read_by_name(payload: JsonView, value: Seq<char>)
    ensures
        payload.get("last_assistant_message"@) == Some(JsonView::Text(value)) ==> turn_told(
            payload,
        ).answer == text::trimmed(value),
        payload.get("error"@) == Some(JsonView::Text(value)) ==> turn_told(payload).error
            == text::trimmed(value) && (text::trimmed(value).len() > 0 ==> turn_told(
            payload,
        ).failed),
        payload.get("cwd"@) == Some(JsonView::Text(value)) ==> turn_told(payload).cwd
            == text::trimmed(value),
        payload.get("session_id"@) == Some(JsonView::Text(value)) && text::trimmed(value).len() > 0
            ==> turn_told(payload).session_id == text::trimmed(value),
{
    let answers = seq!["last_assistant_message"@, "response"@, "content"@, "message"@];
    assert(answers[0] == "last_assistant_message"@);
    let errors = seq!["error"@, "error_message"@, "reason"@];
    assert(errors[0] == "error"@);
    let places = seq!["cwd"@, "project_dir"@];
    assert(places[0] == "cwd"@);
    let names = seq!["session_id"@, "conversation_id"@];
    assert(names[0] == "session_id"@);
}

} // verus!
