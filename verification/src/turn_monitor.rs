//! The search for turns that failed for good, in what the app server tells of
//! threads and turns.
use vstd::prelude::*;
use crate::clock;
use crate::codex_login;
use crate::codex_login::AppServerError;
use crate::json;
use crate::json::{Json, JsonNumber, JsonView, NumberView};
use crate::security;
use crate::store;
use crate::store::{FailureView, Store, StoreError, StoreView, TurnFailureNotification};
use crate::text;
use crate::text::text_eq;

verus! {

/// How long the search pauses, in seconds.
pub const POLL_INTERVAL: u64 = 2;

/// The longest time before the app server is called again, in seconds.
pub const MAX_RECONNECT_DELAY: u64 = 60;

/// How far a search looks back behind the one before, in microseconds.
pub const SCAN_OVERLAP: i64 = 60_000_000;

/// The entries of a page.
pub const PAGE_SIZE: u64 = 100;

/// The setting that holds since when failures are announced.
pub const BASELINE_SETTING: &'static str = "turn_failure_monitor_baseline";

/// The setting that holds when the last search began.
pub const CURSOR_SETTING: &'static str = "turn_failure_monitor_cursor";

// ---------------------------------------------------------------------------
// Errors
// ---------------------------------------------------------------------------

/// Why a search failed.
#[derive(Debug)]
pub enum MonitorError {
    Server(AppServerError),
    InvalidThreads,
    InvalidTurns,
    Store(StoreError),
}

impl MonitorError {
    pub open spec fn text(self) -> Seq<char> {
        match self {
            MonitorError::Server(error) => codex_login::server_message(error@),
            MonitorError::InvalidThreads => "thread/list returned an invalid result"@,
            MonitorError::InvalidTurns => "thread/turns/list returned an invalid result"@,
            MonitorError::Store(error) => error.text(),
        }
    }

    pub fn message(&self) -> (result: String)
        ensures
            result@ == self.text(),
    {
        match self {
            MonitorError::Server(error) => error.message(),
            MonitorError::InvalidThreads => "thread/list returned an invalid result".to_owned(),
            MonitorError::InvalidTurns => "thread/turns/list returned an invalid result".to_owned(),
            MonitorError::Store(error) => error.message(),
        }
    }
}

// ---------------------------------------------------------------------------
// Entries
// ---------------------------------------------------------------------------

/// A thread of the app server. Its time is in seconds.
#[derive(Debug, PartialEq, Eq)]
pub struct ThreadSummary {
    pub id: String,
    pub cwd: String,
    pub updated_at: i64,
}

/// A turn of a thread. Its time is in seconds.
#[derive(Debug, PartialEq, Eq)]
pub struct TurnSummary {
    pub id: String,
    pub status: String,
    pub error: Option<Json>,
    pub completed_at: Option<i64>,
}

/// A turn that failed for good. Its time is in seconds.
#[derive(Debug, PartialEq, Eq)]
pub struct TurnFailure {
    pub thread_id: String,
    pub turn_id: String,
    pub cwd: String,
    pub error_message: String,
    pub error_type: Option<String>,
    pub http_status: Option<u16>,
    pub occurred_at: i64,
}

pub struct ThreadView {
    pub id: Seq<char>,
    pub cwd: Seq<char>,
    pub updated_at: i64,
}

pub struct TurnView {
    pub id: Seq<char>,
    pub status: Seq<char>,
    pub error: Option<JsonView>,
    pub completed_at: Option<i64>,
}

pub struct TurnFailureView {
    pub thread_id: Seq<char>,
    pub turn_id: Seq<char>,
    pub cwd: Seq<char>,
    pub error_message: Seq<char>,
    pub error_type: Option<Seq<char>>,
    pub http_status: Option<u16>,
    pub occurred_at: i64,
}

impl ThreadSummary {
    pub open spec fn view(&self) -> ThreadView {
        ThreadView { id: self.id@, cwd: self.cwd@, updated_at: self.updated_at }
    }
}

impl TurnSummary {
    pub open spec fn view(&self) -> TurnView {
        TurnView {
            id: self.id@,
            status: self.status@,
            error: store::opt_payload(self.error),
            completed_at: self.completed_at,
        }
    }
}

impl TurnFailure {
    pub open spec fn view(&self) -> TurnFailureView {
        TurnFailureView {
            thread_id: self.thread_id@,
            turn_id: self.turn_id@,
            cwd: self.cwd@,
            error_message: self.error_message@,
            error_type: text::opt_text(self.error_type),
            http_status: self.http_status,
            occurred_at: self.occurred_at,
        }
    }
}

pub open spec fn thread_views(threads: Seq<ThreadSummary>) -> Seq<ThreadView> {
    Seq::new(threads.len(), |i: int| threads[i]@)
}

pub open spec fn turn_views(turns: Seq<TurnSummary>) -> Seq<TurnView> {
    Seq::new(turns.len(), |i: int| turns[i]@)
}

pub open spec fn failure_views(failures: Seq<TurnFailure>) -> Seq<TurnFailureView> {
    Seq::new(failures.len(), |i: int| failures[i]@)
}

/// A value of a record, which stands under its name in an object, or at its
/// place in a list of all values of the record.
pub open spec fn record_value(
    record: JsonView,
    name: Seq<char>,
    place: int,
    count: nat,
) -> Option<JsonView> {
    match record {
        JsonView::List(items) => if items.len() == count {
            Some(items[place])
        } else {
            None
        },
        _ => record.get(name),
    }
}

/// Whether a value can be a record of `count` values.
pub open spec fn is_record(value: JsonView, count: nat) -> bool {
    match value {
        JsonView::Object(_) => true,
        JsonView::List(items) => items.len() == count,
        _ => false,
    }
}

/// An optional text: absent, null or a text.
pub open spec fn optional_text(value: Option<JsonView>) -> Option<Option<Seq<char>>> {
    match value {
        None => Some(None),
        Some(JsonView::Null) => Some(None),
        Some(JsonView::Text(text)) => Some(Some(text)),
        _ => None,
    }
}

/// An optional whole number: absent, null or a number.
pub open spec fn optional_number(value: Option<JsonView>) -> Option<Option<int>> {
    match value {
        None => Some(None),
        Some(JsonView::Null) => Some(None),
        Some(value) => match value.signed() {
            Some(n) => Some(Some(n)),
            None => None,
        },
    }
}

/// The thread that a value describes.
pub open spec fn thread_read(value: JsonView) -> Option<ThreadView> {
    match (
        json::opt_text_of(record_value(value, "id"@, 0, 3)),
        json::opt_text_of(record_value(value, "cwd"@, 1, 3)),
        record_value(value, "updatedAt"@, 2, 3),
    ) {
        (Some(id), Some(cwd), Some(at)) => match at.signed() {
            Some(n) => Some(ThreadView { id, cwd, updated_at: n as i64 }),
            None => None,
        },
        _ => None,
    }
}

/// The turn that a value describes.
pub open spec fn turn_read(value: JsonView) -> Option<TurnView> {
    match (
        json::opt_text_of(record_value(value, "id"@, 0, 4)),
        json::opt_text_of(record_value(value, "status"@, 1, 4)),
        optional_number(record_value(value, "completedAt"@, 3, 4)),
    ) {
        (Some(id), Some(status), Some(completed)) => Some(
            TurnView {
                id,
                status,
                error: match record_value(value, "error"@, 2, 4) {
                    Some(JsonView::Null) => None,
                    error => error,
                },
                completed_at: match completed {
                    Some(n) => Some(n as i64),
                    None => None,
                },
            },
        ),
        _ => None,
    }
}

/// The entries of a page and where the next page begins.
pub open spec fn page_read(payload: JsonView) -> Option<(Seq<JsonView>, Option<Seq<char>>)> {
    if !is_record(payload, 2) {
        None
    } else {
        match (
            record_value(payload, "data"@, 0, 2),
            optional_text(record_value(payload, "nextCursor"@, 1, 2)),
        ) {
            (Some(JsonView::List(items)), Some(cursor)) => Some((items, cursor)),
            _ => None,
        }
    }
}

/// The page of threads that a payload is.
pub open spec fn thread_page(payload: JsonView) -> Option<(Seq<ThreadView>, Option<Seq<char>>)> {
    match page_read(payload) {
        Some((items, cursor)) => if forall|i: int|
            0 <= i < items.len() ==> thread_read(#[trigger] items[i]) is Some {
            Some((Seq::new(items.len(), |i: int| thread_read(items[i])->0), cursor))
        } else {
            None
        },
        None => None,
    }
}

/// The page of turns that a payload is.
pub open spec fn turn_page(payload: JsonView) -> Option<(Seq<TurnView>, Option<Seq<char>>)> {
    match page_read(payload) {
        Some((items, cursor)) => if forall|i: int|
            0 <= i < items.len() ==> turn_read(#[trigger] items[i]) is Some {
            Some((Seq::new(items.len(), |i: int| turn_read(items[i])->0), cursor))
        } else {
            None
        },
        None => None,
    }
}

fn value_in<'a>(record: &'a Json, name: &str, place: usize, count: usize) -> (result: Option<
    &'a Json,
>)
    requires
        place < count,
    ensures
        json::opt_json(result) == record_value(record@, name@, place as int, count as nat),
{
    match record {
        Json::List(items) => {
            assert(record@->List_0.len() == items@.len());
            if items.len() == count {
                Some(&items[place])
            } else {
                None
            }
        },
        _ => record.get(name),
    }
}

fn read_optional_text(value: Option<&Json>) -> (result: Option<Option<String>>)
    ensures
        match result {
            Some(found) => optional_text(json::opt_json(value)) == Some(text::opt_text(found)),
            None => optional_text(json::opt_json(value)) is None,
        },
{
    match value {
        None => Some(None),
        Some(value) => match value {
            Json::Null => Some(None),
            Json::Text(shown) => Some(Some(shown.clone())),
            _ => None,
        },
    }
}

fn read_thread(value: &Json) -> (result: Option<ThreadSummary>)
    ensures
        match result {
            Some(thread) => thread_read(value@) == Some(thread@),
            None => thread_read(value@) is None,
        },
{
    let id = match json::text_in(value_in(value, "id", 0, 3)) {
        Some(id) => id.to_owned(),
        None => {
            return None;
        },
    };
    let cwd = match json::text_in(value_in(value, "cwd", 1, 3)) {
        Some(cwd) => cwd.to_owned(),
        None => {
            return None;
        },
    };
    match value_in(value, "updatedAt", 2, 3) {
        Some(at) => match at.as_signed() {
            Some(updated_at) => Some(ThreadSummary { id, cwd, updated_at }),
            None => None,
        },
        None => None,
    }
}

fn read_turn(value: &Json) -> (result: Option<TurnSummary>)
    ensures
        match result {
            Some(turn) => turn_read(value@) == Some(turn@),
            None => turn_read(value@) is None,
        },
{
    let id = match json::text_in(value_in(value, "id", 0, 4)) {
        Some(id) => id.to_owned(),
        None => {
            return None;
        },
    };
    let status = match json::text_in(value_in(value, "status", 1, 4)) {
        Some(status) => status.to_owned(),
        None => {
            return None;
        },
    };
    let completed_at: Option<i64> = match value_in(value, "completedAt", 3, 4) {
        Some(at) => match at {
            Json::Null => None,
            _ => match at.as_signed() {
                Some(at) => Some(at),
                None => {
                    return None;
                },
            },
        },
        None => None,
    };
    let error = match value_in(value, "error", 2, 4) {
        Some(error) => match error {
            Json::Null => None,
            _ => Some(error.copy()),
        },
        None => None,
    };
    Some(TurnSummary { id, status, error, completed_at })
}

fn read_page<'a>(payload: &'a Json) -> (result: Option<(&'a Vec<Json>, Option<String>)>)
    ensures
        match result {
            Some((items, cursor)) => page_read(payload@) == Some(
                (json::values(items@), text::opt_text(cursor)),
            ),
            None => page_read(payload@) is None,
        },
{
    let fits = match payload {
        Json::Object(_) => true,
        Json::List(items) => {
            assert(payload@->List_0.len() == items@.len());
            items.len() == 2
        },
        _ => false,
    };
    if !fits {
        return None;
    }
    let cursor = match read_optional_text(value_in(payload, "nextCursor", 1, 2)) {
        Some(cursor) => cursor,
        None => {
            return None;
        },
    };
    match value_in(payload, "data", 0, 2) {
        Some(data) => match data {
            Json::List(items) => {
                assert(data@->List_0 =~= json::values(items@));
                Some((items, cursor))
            },
            _ => None,
        },
        None => None,
    }
}

/// The page of threads that a payload is.
pub fn parse_thread_page(payload: &Json) -> (result: Result<
    (Vec<ThreadSummary>, Option<String>),
    MonitorError,
>)
    ensures
        match result {
            Ok((threads, cursor)) => thread_page(payload@) == Some(
                (thread_views(threads@), text::opt_text(cursor)),
            ),
            Err(error) => thread_page(payload@) is None && error is InvalidThreads,
        },
{
    let (items, cursor) = match read_page(payload) {
        Some(page) => page,
        None => {
            return Err(MonitorError::InvalidThreads);
        },
    };
    let ghost values = json::values(items@);
    let mut threads: Vec<ThreadSummary> = Vec::new();
    for i in 0..items.len()
        invariant
            values == json::values(items@),
            page_read(payload@) == Some((values, text::opt_text(cursor))),
            threads@.len() == i,
            forall|j: int|
                0 <= j < i ==> thread_read(#[trigger] values[j]) == Some(threads@[j]@),
    {
        assert(values[i as int] == items@[i as int]@);
        match read_thread(&items[i]) {
            Some(thread) => {
                threads.push(thread);
            },
            None => {
                assert(thread_read(values[i as int]) is None);
                return Err(MonitorError::InvalidThreads);
            },
        }
    }
    assert(thread_views(threads@) =~= Seq::new(
        values.len(),
        |i: int| thread_read(values[i])->0,
    ));
    Ok((threads, cursor))
}

fn read_turns(payload: &Json) -> (result: Option<(Vec<TurnSummary>, Option<String>)>)
    ensures
        match result {
            Some((turns, cursor)) => turn_page(payload@) == Some(
                (turn_views(turns@), text::opt_text(cursor)),
            ),
            None => turn_page(payload@) is None,
        },
{
    let (items, cursor) = match read_page(payload) {
        Some(page) => page,
        None => {
            return None;
        },
    };
    let ghost values = json::values(items@);
    let mut turns: Vec<TurnSummary> = Vec::new();
    for i in 0..items.len()
        invariant
            values == json::values(items@),
            page_read(payload@) == Some((values, text::opt_text(cursor))),
            turns@.len() == i,
            forall|j: int| 0 <= j < i ==> turn_read(#[trigger] values[j]) == Some(turns@[j]@),
    {
        assert(values[i as int] == items@[i as int]@);
        match read_turn(&items[i]) {
            Some(turn) => {
                turns.push(turn);
            },
            None => {
                assert(turn_read(values[i as int]) is None);
                return None;
            },
        }
    }
    assert(turn_views(turns@) =~= Seq::new(values.len(), |i: int| turn_read(values[i])->0));
    Some((turns, cursor))
}

// ---------------------------------------------------------------------------
// Failures
// ---------------------------------------------------------------------------

/// The name of an error: a text, or the first name in an object.
pub open spec fn error_name(info: Option<JsonView>) -> Option<Seq<char>> {
    let name = match info {
        Some(JsonView::Text(name)) => Some(name),
        Some(JsonView::Object(members)) => if members.len() > 0 {
            Some(members[0].0)
        } else {
            None
        },
        _ => None,
    };
    match name {
        Some(name) => if security::safe_words(name, 120).len() > 0 {
            Some(security::safe_words(name, 120))
        } else {
            None
        },
        None => None,
    }
}

/// The number that a value is or writes.
pub open spec fn status_code(value: Option<JsonView>) -> Option<nat> {
    match value {
        Some(JsonView::Text(shown)) => text::parsed_unsigned(shown, u64::MAX as nat),
        Some(value) => value.unsigned(),
        None => None,
    }
}

/// The first entry that is known, from `from` on.
pub open spec fn first_known(entries: Seq<Option<u16>>, from: int) -> Option<u16>
    decreases entries.len() - from,
{
    if 0 <= from < entries.len() {
        if entries[from] is Some {
            entries[from]
        } else {
            first_known(entries, from + 1)
        }
    } else {
        None
    }
}

/// The status of a request that a value tells of: that of an object itself
/// where it has one, else the first that its values have.
pub open spec fn status_in(value: JsonView) -> Option<u16>
    decreases value,
{
    match value {
        JsonView::Object(members) => match status_code(value.get("httpStatusCode"@)) {
            Some(status) => if status <= u16::MAX {
                Some(status as u16)
            } else {
                None
            },
            None => first_known(member_statuses(members), 0),
        },
        JsonView::List(items) => first_known(item_statuses(items), 0),
        _ => None,
    }
}

pub open spec fn member_statuses(members: Seq<(Seq<char>, JsonView)>) -> Seq<Option<u16>>
    decreases members,
{
    Seq::new(
        members.len(),
        |i: int|
            if 0 <= i < members.len() {
                status_in(members[i].1)
            } else {
                None
            },
    )
}

pub open spec fn item_statuses(items: Seq<JsonView>) -> Seq<Option<u16>>
    decreases items,
{
    Seq::new(
        items.len(),
        |i: int|
            if 0 <= i < items.len() {
                status_in(items[i])
            } else {
                None
            },
    )
}

/// When a turn ended, as far as it is known, in seconds.
pub open spec fn turn_time(thread: ThreadView, turn: TurnView) -> int {
    match turn.completed_at {
        Some(at) => at as int,
        None => thread.updated_at as int,
    }
}

/// Whether a point in time in seconds lies before one in microseconds.
pub open spec fn before(seconds: int, since: i64) -> bool {
    seconds * 1_000_000 < since
}

/// The failure that a turn is, if it failed since a point in time.
pub open spec fn failure_of(thread: ThreadView, turn: TurnView, since: i64) -> Option<
    TurnFailureView,
> {
    let error = match turn.error {
        Some(JsonView::Object(members)) => Some(JsonView::Object(members)),
        _ => None,
    };
    let message = json::opt_text_of(json::opt_get(error, "message"@));
    let info = json::opt_get(error, "codexErrorInfo"@);
    if before(turn_time(thread, turn), since) || turn.status != "failed"@ {
        None
    } else {
        Some(
            TurnFailureView {
                thread_id: thread.id,
                turn_id: turn.id,
                cwd: thread.cwd,
                error_message: security::safe_words(
                    match message {
                        Some(message) => if text::trimmed(message).len() > 0 {
                            message
                        } else {
                            "Codex 请求失败"@
                        },
                        None => "Codex 请求失败"@,
                    },
                    500,
                ),
                error_type: error_name(info),
                http_status: match info {
                    Some(info) => status_in(info),
                    None => None,
                },
                occurred_at: turn_time(thread, turn) as i64,
            },
        )
    }
}

/// The failures among the first `n` turns.
pub open spec fn failures_in(thread: ThreadView, turns: Seq<TurnView>, since: i64, n: nat) -> Seq<
    TurnFailureView,
>
    decreases n,
{
    if n == 0 {
        Seq::empty()
    } else {
        let found = failures_in(thread, turns, since, (n - 1) as nat);
        match failure_of(thread, turns[n - 1], since) {
            Some(failure) => found.push(failure),
            None => found,
        }
    }
}

/// Whether a page of turns reaches back before a point in time.
pub open spec fn turns_reach(thread: ThreadView, turns: Seq<TurnView>, since: i64) -> bool {
    exists|i: int| 0 <= i < turns.len() && before(turn_time(thread, #[trigger] turns[i]), since)
}

fn error_type(value: Option<&Json>) -> (result: Option<String>)
    ensures
        text::opt_text(result) == error_name(json::opt_json(value)),
{
    let name = match value {
        Some(value) => match value {
            Json::Text(name) => name.as_str(),
            Json::Object(members) => {
                assert(value@->Object_0.len() == members@.len());
                if members.len() == 0 {
                    return None;
                }
                assert(value@->Object_0[0].0 == members@[0].0@);
                members[0].0.as_str()
            },
            _ => {
                return None;
            },
        },
        None => {
            return None;
        },
    };
    let shown = security::safe_words_text(name, 120);
    if shown.as_str().is_empty() {
        None
    } else {
        Some(shown)
    }
}

fn code_in(value: Option<&Json>) -> (result: Option<u64>)
    ensures
        result is Some == status_code(json::opt_json(value)) is Some,
        result matches Some(code) ==> status_code(json::opt_json(value)) == Some(code as nat),
{
    match value {
        Some(value) => match value {
            Json::Text(shown) => text::parse_unsigned(shown.as_str(), u64::MAX),
            _ => value.as_unsigned(),
        },
        None => None,
    }
}

/// The status of a request that a value tells of.
pub fn http_status(value: &Json) -> (result: Option<u16>)
    ensures
        result == status_in(value@),
    decreases value,
{
    match value {
        Json::Object(members) => {
            match code_in(value.get("httpStatusCode")) {
                Some(code) => {
                    return if code <= 65_535 {
                        Some(code as u16)
                    } else {
                        None
                    };
                },
                None => {},
            }
            let ghost statuses = member_statuses(value@->Object_0);
            for i in 0..members.len()
                invariant
                    value == Json::Object(*members),
                    statuses.len() == members@.len(),
                    forall|j: int|
                        0 <= j < members@.len() ==> #[trigger] statuses[j] == status_in(
                            members@[j].1@,
                        ),
                    status_in(value@) == first_known(statuses, i as int),
            {
                assert(decreases_to!(value => value->Object_0));
                assert(decreases_to!(*members => members@));
                assert(decreases_to!(members@ => members@[i as int]));
                assert(decreases_to!(members@[i as int] => members@[i as int].1));
                let found = http_status(&members[i].1);
                if found.is_some() {
                    return found;
                }
            }
            None
        },
        Json::List(items) => {
            let ghost statuses = item_statuses(value@->List_0);
            for i in 0..items.len()
                invariant
                    value == Json::List(*items),
                    statuses.len() == items@.len(),
                    forall|j: int|
                        0 <= j < items@.len() ==> #[trigger] statuses[j] == status_in(items@[j]@),
                    status_in(value@) == first_known(statuses, i as int),
            {
                assert(decreases_to!(value => value->List_0));
                assert(decreases_to!(*items => items@));
                assert(decreases_to!(items@ => items@[i as int]));
                let found = http_status(&items[i]);
                if found.is_some() {
                    return found;
                }
            }
            None
        },
        _ => None,
    }
}

fn is_before(seconds: i64, since: i64) -> (result: bool)
    ensures
        result == before(seconds as int, since),
{
    (seconds as i128) * 1_000_000 < since as i128
}

/// The failure that a turn is, if it failed since a point in time.
pub fn turn_failure(thread: &ThreadSummary, turn: &TurnSummary, since: i64) -> (result: Option<
    TurnFailure,
>)
    ensures
        match result {
            Some(failure) => failure_of(thread@, turn@, since) == Some(failure@),
            None => failure_of(thread@, turn@, since) is None,
        },
{
    let occurred_at: i64 = match turn.completed_at {
        Some(at) => at,
        None => thread.updated_at,
    };
    if is_before(occurred_at, since) || !text_eq(turn.status.as_str(), "failed") {
        return None;
    }
    let error: Option<&Json> = match &turn.error {
        Some(error) => match error {
            Json::Object(_) => Some(error),
            _ => None,
        },
        None => None,
    };
    let message = match json::text_in(json::field(error, "message")) {
        Some(message) => {
            let trimmed = text::trim(message);
            if trimmed.as_str().is_empty() {
                "Codex 请求失败"
            } else {
                message
            }
        },
        None => "Codex 请求失败",
    };
    let info = json::field(error, "codexErrorInfo");
    let status: Option<u16> = match info {
        Some(info) => http_status(info),
        None => None,
    };
    Some(
        TurnFailure {
            thread_id: thread.id.clone(),
            turn_id: turn.id.clone(),
            cwd: thread.cwd.clone(),
            error_message: security::safe_words_text(message, 500),
            error_type: error_type(info),
            http_status: status,
            occurred_at,
        },
    )
}

/// The failures on a page of turns, where the next page begins, and whether the
/// page reaches back before a point in time.
pub fn parse_turn_page(thread: &ThreadSummary, payload: &Json, since: i64) -> (result: Result<
    (Vec<TurnFailure>, Option<String>, bool),
    MonitorError,
>)
    ensures
        match result {
            Ok((failures, cursor, reached)) => match turn_page(payload@) {
                Some((turns, next)) => {
                    &&& failure_views(failures@) == failures_in(
                        thread@,
                        turns,
                        since,
                        turns.len(),
                    )
                    &&& text::opt_text(cursor) == next
                    &&& reached == turns_reach(thread@, turns, since)
                },
                None => false,
            },
            Err(error) => turn_page(payload@) is None && error is InvalidTurns,
        },
{
    let (turns, cursor) = match read_turns(payload) {
        Some(page) => page,
        None => {
            return Err(MonitorError::InvalidTurns);
        },
    };
    let ghost views = turn_views(turns@);
    let mut failures: Vec<TurnFailure> = Vec::new();
    let mut reached = false;
    assert(failure_views(failures@) =~= failures_in(thread@, views, since, 0));
    for i in 0..turns.len()
        invariant
            views == turn_views(turns@),
            failure_views(failures@) == failures_in(thread@, views, since, i as nat),
            reached == (exists|j: int|
                0 <= j < i && before(turn_time(thread@, #[trigger] views[j]), since)),
    {
        let ghost held = failure_views(failures@);
        let turn = &turns[i];
        assert(views[i as int] == turn@);
        let at: i64 = match turn.completed_at {
            Some(at) => at,
            None => thread.updated_at,
        };
        if is_before(at, since) {
            reached = true;
            assert(before(turn_time(thread@, views[i as int]), since));
        }
        match turn_failure(thread, turn, since) {
            Some(failure) => {
                let ghost view = failure@;
                failures.push(failure);
                assert(failure_views(failures@) =~= held.push(view));
            },
            None => {},
        }
    }
    assert(views.len() == turns@.len());
    Ok((failures, cursor, reached))
}

// ---------------------------------------------------------------------------
// A search
// ---------------------------------------------------------------------------

/// Where a search stands.
#[derive(Debug, PartialEq, Eq)]
pub enum ScanStep {
    /// A page of threads is to be read.
    Threads { cursor: Option<String> },
    /// A page of the turns of the first of these threads is to be read; behind
    /// the last thread, the next page of threads if there is one.
    Turns { threads: Vec<ThreadSummary>, cursor: Option<String>, next: Option<String> },
    /// All is read.
    Done,
}

/// A search for failures since a point in time.
#[derive(Debug, PartialEq, Eq)]
pub struct Scan {
    pub since: i64,
    pub step: ScanStep,
    pub failures: Vec<TurnFailure>,
}

pub enum ScanStepView {
    Threads { cursor: Option<Seq<char>> },
    Turns { threads: Seq<ThreadView>, cursor: Option<Seq<char>>, next: Option<Seq<char>> },
    Done,
}

pub struct ScanView {
    pub since: i64,
    pub step: ScanStepView,
    pub failures: Seq<TurnFailureView>,
}

impl ScanStep {
    pub open spec fn view(&self) -> ScanStepView {
        match self {
            ScanStep::Threads { cursor } => ScanStepView::Threads { cursor: text::opt_text(*cursor) },
            ScanStep::Turns { threads, cursor, next } => ScanStepView::Turns {
                threads: thread_views(threads@),
                cursor: text::opt_text(*cursor),
                next: text::opt_text(*next),
            },
            ScanStep::Done => ScanStepView::Done,
        }
    }
}

impl Scan {
    pub open spec fn view(&self) -> ScanView {
        ScanView {
            since: self.since,
            step: self.step@,
            failures: failure_views(self.failures@),
        }
    }
}

/// The step that reads these threads, and behind them the next page.
pub open spec fn threads_step(threads: Seq<ThreadView>, next: Option<Seq<char>>) -> ScanStepView {
    if threads.len() > 0 {
        ScanStepView::Turns { threads, cursor: None, next }
    } else {
        match next {
            Some(cursor) => ScanStepView::Threads { cursor: Some(cursor) },
            None => ScanStepView::Done,
        }
    }
}

pub open spec fn recent(since: i64) -> spec_fn(ThreadView) -> bool {
    |thread: ThreadView| !before(thread.updated_at as int, since)
}

/// What a page makes of a search; none where the page cannot be read. Pages are
/// read from the latest back until one reaches before the point in time.
pub open spec fn scanned(scan: ScanView, payload: JsonView) -> Option<ScanView> {
    match scan.step {
        ScanStepView::Threads { .. } => match thread_page(payload) {
            Some((threads, next)) => {
                let reached = exists|i: int|
                    0 <= i < threads.len() && before(
                        (#[trigger] threads[i]).updated_at as int,
                        scan.since,
                    );
                Some(
                    ScanView {
                        step: threads_step(
                            threads.filter(recent(scan.since)),
                            if reached {
                                None
                            } else {
                                next
                            },
                        ),
                        ..scan
                    },
                )
            },
            None => None,
        },
        ScanStepView::Turns { threads, cursor, next } => match turn_page(payload) {
            Some((turns, following)) => {
                let thread = threads[0];
                Some(
                    ScanView {
                        step: if turns_reach(thread, turns, scan.since) || following is None {
                            threads_step(threads.skip(1), next)
                        } else {
                            ScanStepView::Turns { threads, cursor: following, next }
                        },
                        failures: scan.failures + failures_in(
                            thread,
                            turns,
                            scan.since,
                            turns.len(),
                        ),
                        ..scan
                    },
                )
            },
            None => None,
        },
        ScanStepView::Done => Some(scan),
    }
}

/// Whether a search that reads turns knows of which thread.
pub open spec fn scan_ready(scan: ScanView) -> bool {
    scan.step matches ScanStepView::Turns { threads, .. } ==> threads.len() > 0
}

/// The request that a search waits for: its method and its parameters.
pub open spec fn scan_request(scan: ScanView) -> Option<(Seq<char>, JsonView)> {
    match scan.step {
        ScanStepView::Threads { cursor } => Some(
            (
                "thread/list"@,
                JsonView::Object(
                    seq![
                        ("cursor"@, json::opt_text_json(cursor)),
                        ("limit"@, JsonView::Number(NumberView::Unsigned(PAGE_SIZE as nat))),
                        ("sortKey"@, JsonView::Text("updated_at"@)),
                        ("sortDirection"@, JsonView::Text("desc"@)),
                        ("useStateDbOnly"@, JsonView::Bool(true)),
                    ],
                ),
            ),
        ),
        ScanStepView::Turns { threads, cursor, .. } => Some(
            (
                "thread/turns/list"@,
                JsonView::Object(
                    seq![
                        ("threadId"@, JsonView::Text(threads[0].id)),
                        ("cursor"@, json::opt_text_json(cursor)),
                        ("limit"@, JsonView::Number(NumberView::Unsigned(PAGE_SIZE as nat))),
                        ("sortDirection"@, JsonView::Text("desc"@)),
                        ("itemsView"@, JsonView::Text("notLoaded"@)),
                    ],
                ),
            ),
        ),
        ScanStepView::Done => None,
    }
}

fn step_for(threads: Vec<ThreadSummary>, next: Option<String>) -> (result: ScanStep)
    ensures
        result@ == threads_step(thread_views(threads@), text::opt_text(next)),
{
    if threads.len() > 0 {
        ScanStep::Turns { threads, cursor: None, next }
    } else {
        match next {
            Some(cursor) => ScanStep::Threads { cursor: Some(cursor) },
            None => ScanStep::Done,
        }
    }
}

fn recent_threads(threads: Vec<ThreadSummary>, since: i64) -> (result: (Vec<ThreadSummary>, bool))
    ensures
        thread_views(result.0@) == thread_views(threads@).filter(recent(since)),
        result.1 == (exists|i: int|
            0 <= i < threads@.len() && before(
                (#[trigger] thread_views(threads@)[i]).updated_at as int,
                since,
            )),
{
    let ghost source = threads@;
    let ghost views = thread_views(threads@);
    let ghost pred = recent(since);
    let mut kept: Vec<ThreadSummary> = Vec::new();
    let mut reached = false;
    proof {
        crate::store_rows::lemma_filter_none(views, pred);
        assert(thread_views(kept@) =~= Seq::<ThreadView>::empty());
    }
    for thread in iter: threads
        invariant
            iter.seq() == source,
            views == thread_views(source),
            pred == recent(since),
            thread_views(kept@) == views.take(iter.index() as int).filter(pred),
            reached == (exists|i: int|
                0 <= i < iter.index() && before((#[trigger] views[i]).updated_at as int, since)),
    {
        let ghost n = iter.index() as int;
        let ghost held = thread_views(kept@);
        proof {
            crate::store_rows::lemma_filter_step(views, pred, n);
        }
        assert(views[n] == thread@);
        if is_before(thread.updated_at, since) {
            reached = true;
            assert(before(views[n].updated_at as int, since));
        } else {
            kept.push(thread);
            assert(thread_views(kept@) =~= held.push(views[n]));
        }
    }
    assert(views.take(views.len() as int) =~= views);
    (kept, reached)
}

impl Scan {
    /// A search that has not begun.
    pub fn begin(since: i64) -> (result: Scan)
        ensures
            result@ == (ScanView {
                since,
                step: ScanStepView::Threads { cursor: None },
                failures: Seq::empty(),
            }),
            scan_ready(result@),
    {
        let result = Scan {
            since,
            step: ScanStep::Threads { cursor: None },
            failures: Vec::new(),
        };
        assert(result@.failures =~= Seq::<TurnFailureView>::empty());
        result
    }

    /// The request that the search waits for: its method and its parameters.
    pub fn request(&self) -> (result: Option<(String, Json)>)
        requires
            scan_ready(self@),
        ensures
            match result {
                Some((method, params)) => scan_request(self@) == Some((method@, params@)),
                None => scan_request(self@) is None,
            },
    {
        let mut parts: Vec<(String, Json)> = Vec::new();
        match &self.step {
            ScanStep::Threads { cursor } => {
                parts.push(json::member("cursor", json::optional_json(cursor)));
                parts.push(json::member("limit", Json::Number(JsonNumber::Unsigned(PAGE_SIZE))));
                parts.push(json::member("sortKey", json::text_json("updated_at")));
                parts.push(json::member("sortDirection", json::text_json("desc")));
                parts.push(json::member("useStateDbOnly", Json::Bool(true)));
                assert(json::members(parts@) =~= (scan_request(self@)->0).1->Object_0);
                Some(("thread/list".to_owned(), json::object(parts)))
            },
            ScanStep::Turns { threads, cursor, .. } => {
                assert(thread_views(threads@)[0] == threads@[0]@);
                parts.push(json::member("threadId", json::text_json(threads[0].id.as_str())));
                parts.push(json::member("cursor", json::optional_json(cursor)));
                parts.push(json::member("limit", Json::Number(JsonNumber::Unsigned(PAGE_SIZE))));
                parts.push(json::member("sortDirection", json::text_json("desc")));
                parts.push(json::member("itemsView", json::text_json("notLoaded")));
                assert(json::members(parts@) =~= (scan_request(self@)->0).1->Object_0);
                Some(("thread/turns/list".to_owned(), json::object(parts)))
            },
            ScanStep::Done => None,
        }
    }

    /// Takes in the page that was asked for.
    pub fn receive(self, payload: &Json) -> (result: Result<Scan, MonitorError>)
        requires
            scan_ready(self@),
        ensures
            match result {
                Ok(after) => scanned(self@, payload@) == Some(after@) && scan_ready(after@),
                Err(error) => scanned(self@, payload@) is None && match self@.step {
                    ScanStepView::Turns { .. } => error is InvalidTurns,
                    _ => error is InvalidThreads,
                },
            },
    {
        let ghost before_view = self@;
        let since: i64 = self.since;
        let mut failures = self.failures;
        match self.step {
            ScanStep::Threads { .. } => {
                let (threads, next) = match parse_thread_page(payload) {
                    Ok(page) => page,
                    Err(error) => {
                        return Err(error);
                    },
                };
                let (kept, reached) = recent_threads(threads, since);
                let step = if reached {
                    step_for(kept, None)
                } else {
                    step_for(kept, next)
                };
                Ok(Scan { since, step, failures })
            },
            ScanStep::Turns { threads, cursor: _, next } => {
                let mut threads = threads;
                let ghost waiting = thread_views(threads@);
                assert(waiting[0] == threads@[0]@);
                let (found, following, reached) = match parse_turn_page(
                    &threads[0],
                    payload,
                    since,
                ) {
                    Ok(page) => page,
                    Err(error) => {
                        return Err(error);
                    },
                };
                let mut found = found;
                let ghost held = failure_views(failures@);
                let ghost added = failure_views(found@);
                failures.append(&mut found);
                assert(failure_views(failures@) =~= held + added);
                if reached || following.is_none() {
                    let _ = threads.remove(0);
                    assert(thread_views(threads@) =~= waiting.skip(1));
                    Ok(Scan { since, step: step_for(threads, next), failures })
                } else {
                    Ok(
                        Scan {
                            since,
                            step: ScanStep::Turns { threads, cursor: following, next },
                            failures,
                        },
                    )
                }
            },
            ScanStep::Done => Ok(Scan { since, step: ScanStep::Done, failures }),
        }
    }
}

// ---------------------------------------------------------------------------
// What a search leaves behind
// ---------------------------------------------------------------------------

/// A point in time in a setting, if it is there and can be read.
pub open spec fn time_setting(s: StoreView, key: Seq<char>) -> Option<int> {
    match store::setting(s, key) {
        Some(shown) => clock::seconds_read(shown),
        None => None,
    }
}

/// What the preparation of a search makes of the state, and since when the
/// search looks; none where it only sets the start for those to come.
pub open spec fn scan_prepared(s: StoreView, now: i64) -> (StoreView, Option<int>) {
    match (time_setting(s, BASELINE_SETTING@), time_setting(s, CURSOR_SETTING@)) {
        (None, None) => (
            store::with_setting(
                store::with_setting(s, BASELINE_SETTING@, clock::seconds_shown(now as int)),
                CURSOR_SETTING@,
                clock::seconds_shown(now as int),
            ),
            None,
        ),
        (Some(baseline), Some(cursor)) => {
            let back = clock::moved(cursor, -SCAN_OVERLAP);
            (
                s,
                Some(
                    if baseline > back {
                        baseline
                    } else {
                        back
                    },
                ),
            )
        },
        (Some(baseline), None) => (
            store::with_setting(s, CURSOR_SETTING@, clock::seconds_shown(baseline)),
            Some(baseline),
        ),
        (None, Some(cursor)) => (
            store::with_setting(s, BASELINE_SETTING@, clock::seconds_shown(cursor)),
            Some(cursor),
        ),
    }
}

/// A point in time in a setting.
pub fn setting_number(store: &Store, key: &str) -> (result: Option<i64>)
    ensures
        codex_login::opt_int(result) == time_setting(store@, key@),
{
    match store.get_setting(key) {
        Some(shown) => clock::parse_seconds(shown.as_str()),
        None => None,
    }
}

/// Prepares a search: since when it looks. The first time only the start for
/// later searches is set.
pub fn prepare_scan(store: &mut Store, now: i64) -> (result: Option<i64>)
    ensures
        (final(store)@, codex_login::opt_int(result)) == scan_prepared(old(store)@, now),
        store::consistent(old(store)@) ==> store::consistent(final(store)@),
{
    let baseline = setting_number(store, BASELINE_SETTING);
    let cursor = setting_number(store, CURSOR_SETTING);
    match (baseline, cursor) {
        (None, None) => {
            let shown = clock::seconds_text(now);
            store.set_setting(BASELINE_SETTING, shown.as_str());
            store.set_setting(CURSOR_SETTING, shown.as_str());
            None
        },
        (Some(baseline), Some(cursor)) => {
            let back: i64 = clock::move_by(cursor, -SCAN_OVERLAP);
            if baseline > back {
                Some(baseline)
            } else {
                Some(back)
            }
        },
        (Some(baseline), None) => {
            let shown = clock::seconds_text(baseline);
            store.set_setting(CURSOR_SETTING, shown.as_str());
            Some(baseline)
        },
        (None, Some(cursor)) => {
            let shown = clock::seconds_text(cursor);
            store.set_setting(BASELINE_SETTING, shown.as_str());
            Some(cursor)
        },
    }
}

/// A point in time in seconds as one in microseconds, as far as it can be one.
pub open spec fn in_micros(seconds: int) -> int {
    if seconds * 1_000_000 > i64::MAX {
        i64::MAX as int
    } else if seconds * 1_000_000 < i64::MIN {
        i64::MIN as int
    } else {
        seconds * 1_000_000
    }
}

pub open spec fn notice_of(failure: TurnFailureView) -> FailureView {
    FailureView {
        thread_id: failure.thread_id,
        cwd: failure.cwd,
        turn_id: failure.turn_id,
        error_message: failure.error_message,
        error_type: failure.error_type,
        http_status: failure.http_status,
        occurred_at: in_micros(failure.occurred_at as int) as i64,
    }
}

/// The state after the first `n` failures, and how many queued a notification.
pub open spec fn failures_queued(s: StoreView, failures: Seq<TurnFailureView>, n: nat, now: i64) -> (
    StoreView,
    nat,
)
    decreases n,
{
    if n == 0 {
        (s, 0)
    } else {
        let (before, count) = failures_queued(s, failures, (n - 1) as nat, now);
        let (after, queued) = store::failed(before, notice_of(failures[n - 1]), now);
        (
            after,
            if queued {
                count + 1
            } else {
                count
            },
        )
    }
}

fn micros_of(seconds: i64) -> (result: i64)
    ensures
        result == in_micros(seconds as int),
{
    let wide: i128 = (seconds as i128) * 1_000_000;
    if wide > 9_223_372_036_854_775_807 {
        i64::MAX
    } else if wide < -9_223_372_036_854_775_808 {
        i64::MIN
    } else {
        wide as i64
    }
}

/// Ends a search that began at `cursor`: what it found is queued, and the next
/// search goes on from there. After an error the cursor stays where it was.
pub fn finish_scan(
    store: &mut Store,
    cursor: i64,
    failures: Result<Vec<TurnFailure>, MonitorError>,
    now: i64,
) -> (result: Result<usize, MonitorError>)
    ensures
        match failures {
            Err(error) => result == Err::<usize, MonitorError>(error) && final(store)@ == old(
                store,
            )@,
            Ok(failures) => {
                let all = failure_views(failures@);
                match result {
                    Ok(count) => {
                        let (after, queued) = failures_queued(old(store)@, all, all.len(), now);
                        count == queued && final(store)@ == store::with_setting(
                            after,
                            CURSOR_SETTING@,
                            clock::seconds_shown(cursor as int),
                        )
                    },
                    Err(error) => exists|n: nat|
                        n < all.len() && error is Store && final(store)@ == (
                        #[trigger] failures_queued(old(store)@, all, n, now)).0
                            && final(store)@.next_outbox_id == i64::MAX,
                }
            },
        },
        store::consistent(old(store)@) ==> store::consistent(final(store)@),
{
    let found = match failures {
        Ok(found) => found,
        Err(error) => {
            return Err(error);
        },
    };
    let ghost all = failure_views(found@);
    let mut inserted: usize = 0;
    for i in 0..found.len()
        invariant
            failures == Ok::<Vec<TurnFailure>, MonitorError>(found),
            all == failure_views(found@),
            inserted <= i,
            (store@, inserted as nat) == failures_queued(old(store)@, all, i as nat, now),
            store::consistent(old(store)@) ==> store::consistent(store@),
    {
        let failure = &found[i];
        assert(all[i as int] == failure@);
        let kind: Option<&str> = match &failure.error_type {
            Some(kind) => Some(kind.as_str()),
            None => None,
        };
        let notice = TurnFailureNotification {
            thread_id: failure.thread_id.as_str(),
            cwd: failure.cwd.as_str(),
            turn_id: failure.turn_id.as_str(),
            error_message: failure.error_message.as_str(),
            error_type: kind,
            http_status: failure.http_status,
            occurred_at: micros_of(failure.occurred_at),
        };
        assert(notice@ == notice_of(all[i as int]));
        match store.enqueue_turn_failure(notice, now) {
            Ok(queued) => {
                if queued {
                    inserted += 1;
                }
            },
            Err(error) => {
                proof {
                    let n = i as nat;
                    assert(failures_queued(old(store)@, all, n, now).0 == store@);
                    assert(failure_views(failures->Ok_0@) == all);
                }
                return Err(MonitorError::Store(error));
            },
        }
    }
    assert(all.len() == found@.len());
    let shown = clock::seconds_text(cursor);
    store.set_setting(CURSOR_SETTING, shown.as_str());
    Ok(inserted)
}

// ---------------------------------------------------------------------------
// The monitor
// ---------------------------------------------------------------------------

/// Where the monitor stands.
#[derive(Debug, Clone, Copy, PartialEq, Eq, Structural)]
pub enum MonitorPhase {
    /// The app server is called.
    Opening,
    /// It is waited until the app server is called again.
    Retrying,
    /// A search is under way.
    Scanning,
    /// It is waited until the next search.
    Polling,
    /// The monitor has ended.
    Ended,
}

/// The monitor: where it stands, and how long it waits before it calls the app
/// server again, in seconds.
#[derive(Debug, Clone, Copy, PartialEq, Eq, Structural)]
pub struct Monitor {
    pub phase: MonitorPhase,
    pub delay: u64,
}

/// What happened.
#[derive(Debug)]
pub enum MonitorEvent {
    /// The bridge stops.
    Stopped,
    /// The app server answered.
    Opened,
    /// It did not; the message of the error.
    OpenFailed(String),
    /// A search ended; how many notifications it queued.
    Scanned(usize),
    /// A search failed; the message of the error.
    ScanFailed(String),
    /// The wait is over.
    Waited,
}

/// What is to be done.
#[derive(Debug, Clone, Copy, PartialEq, Eq, Structural)]
pub enum MonitorAction {
    /// The app server is called.
    Open,
    /// A search is made.
    Scan,
    /// It is waited so many seconds, or until the bridge stops.
    Wait(u64),
    /// The app server is let go, then it is waited.
    CloseAndWait(u64),
    /// The app server is let go, and the monitor ends.
    CloseAndEnd,
    /// The monitor ends.
    End,
}

pub open spec fn later_delay(delay: u64) -> u64 {
    if delay >= MAX_RECONNECT_DELAY / 2 {
        MAX_RECONNECT_DELAY
    } else {
        (delay * 2) as u64
    }
}

/// What follows from an event. An event that cannot happen where the monitor
/// stands ends it.
pub open spec fn monitor_step(monitor: Monitor, event: MonitorEvent) -> (Monitor, MonitorAction) {
    let ended = Monitor { phase: MonitorPhase::Ended, ..monitor };
    match (monitor.phase, event) {
        (MonitorPhase::Opening, MonitorEvent::Opened) => (
            Monitor { phase: MonitorPhase::Scanning, ..monitor },
            MonitorAction::Scan,
        ),
        (MonitorPhase::Opening, MonitorEvent::OpenFailed(_)) => (
            Monitor { phase: MonitorPhase::Retrying, ..monitor },
            MonitorAction::Wait(monitor.delay),
        ),
        (MonitorPhase::Retrying, MonitorEvent::Waited) => (
            Monitor { phase: MonitorPhase::Opening, delay: later_delay(monitor.delay) },
            MonitorAction::Open,
        ),
        (MonitorPhase::Scanning, MonitorEvent::Scanned(_)) => (
            Monitor { phase: MonitorPhase::Polling, delay: 1 },
            MonitorAction::Wait(POLL_INTERVAL),
        ),
        (MonitorPhase::Scanning, MonitorEvent::ScanFailed(_)) => (
            Monitor { phase: MonitorPhase::Retrying, ..monitor },
            MonitorAction::CloseAndWait(monitor.delay),
        ),
        (MonitorPhase::Polling, MonitorEvent::Waited) => (
            Monitor { phase: MonitorPhase::Scanning, ..monitor },
            MonitorAction::Scan,
        ),
        (MonitorPhase::Polling, _) => (ended, MonitorAction::CloseAndEnd),
        (MonitorPhase::Scanning, _) => (ended, MonitorAction::CloseAndEnd),
        _ => (ended, MonitorAction::End),
    }
}

impl Monitor {
    /// The monitor at its start, when the app server is called.
    pub fn start() -> (result: Monitor)
        ensures
            result == (Monitor { phase: MonitorPhase::Opening, delay: 1 }),
    {
        Monitor { phase: MonitorPhase::Opening, delay: 1 }
    }

    /// What follows from an event.
    pub fn run(self, event: &MonitorEvent) -> (result: (Monitor, MonitorAction))
        ensures
            result == monitor_step(self, *event),
    {
        let delay: u64 = self.delay;
        let ended = Monitor { phase: MonitorPhase::Ended, delay };
        match (self.phase, event) {
            (MonitorPhase::Opening, MonitorEvent::Opened) => (
                Monitor { phase: MonitorPhase::Scanning, delay },
                MonitorAction::Scan,
            ),
            (MonitorPhase::Opening, MonitorEvent::OpenFailed(_)) => (
                Monitor { phase: MonitorPhase::Retrying, delay },
                MonitorAction::Wait(delay),
            ),
            (MonitorPhase::Retrying, MonitorEvent::Waited) => {
                let later: u64 = if delay >= MAX_RECONNECT_DELAY / 2 {
                    MAX_RECONNECT_DELAY
                } else {
                    delay * 2
                };
                (Monitor { phase: MonitorPhase::Opening, delay: later }, MonitorAction::Open)
            },
            (MonitorPhase::Scanning, MonitorEvent::Scanned(_)) => (
                Monitor { phase: MonitorPhase::Polling, delay: 1 },
                MonitorAction::Wait(POLL_INTERVAL),
            ),
            (MonitorPhase::Scanning, MonitorEvent::ScanFailed(_)) => (
                Monitor { phase: MonitorPhase::Retrying, delay },
                MonitorAction::CloseAndWait(delay),
            ),
            (MonitorPhase::Polling, MonitorEvent::Waited) => (
                Monitor { phase: MonitorPhase::Scanning, delay },
                MonitorAction::Scan,
            ),
            (MonitorPhase::Polling, _) => (ended, MonitorAction::CloseAndEnd),
            (MonitorPhase::Scanning, _) => (ended, MonitorAction::CloseAndEnd),
            _ => (ended, MonitorAction::End),
        }
    }
}

/// What the log says of an event, and whether that is a warning.
pub open spec fn event_logged(event: MonitorEvent) -> Option<(bool, Seq<char>)> {
    match event {
        MonitorEvent::OpenFailed(error) => Some(
            (
                true,
                "Failed to connect turn failure monitor: "@ + security::safe_words(error@, 300),
            ),
        ),
        MonitorEvent::ScanFailed(error) => Some(
            (true, "Turn failure monitor scan failed: "@ + security::safe_words(error@, 300)),
        ),
        MonitorEvent::Scanned(count) => if count > 0 {
            Some(
                (
                    false,
                    "Queued "@ + text::decimal(count as nat)
                        + " failed Codex turn notification(s)"@,
                ),
            )
        } else {
            None
        },
        _ => None,
    }
}

/// What the log says of an event, and whether that is a warning.
pub fn log_line(event: &MonitorEvent) -> (result: Option<(bool, String)>)
    ensures
        match result {
            Some((warning, line)) => event_logged(*event) == Some((warning, line@)),
            None => event_logged(*event) is None,
        },
{
    match event {
        MonitorEvent::OpenFailed(error) => {
            let mut line = "Failed to connect turn failure monitor: ".to_owned();
            let detail = security::safe_words_text(error.as_str(), 300);
            line.append(detail.as_str());
            Some((true, line))
        },
        MonitorEvent::ScanFailed(error) => {
            let mut line = "Turn failure monitor scan failed: ".to_owned();
            let detail = security::safe_words_text(error.as_str(), 300);
            line.append(detail.as_str());
            Some((true, line))
        },
        MonitorEvent::Scanned(count) => if *count > 0 {
            let mut line = "Queued ".to_owned();
            let shown = text::decimal_text(*count as u64);
            line.append(shown.as_str());
            line.append(" failed Codex turn notification(s)");
            Some((false, line))
        } else {
            None
        },
        _ => None,
    }
}

// ---------------------------------------------------------------------------
// Laws
// ---------------------------------------------------------------------------

/// Only a turn that ended as failed, and not before the search began, is told
/// of, and what is told of it stands on one line of at most five hundred
/// characters.
pub proof fn lemma_only_failed_turns(
    thread: ThreadView,
    turns: Seq<TurnView>,
    since: i64,
    n: nat,
    k: int,
)
    requires
        n <= turns.len(),
        0 <= k < failures_in(thread, turns, since, n).len(),
    ensures
        ({
            let failure = failures_in(thread, turns, since, n)[k];
            &&& failure.thread_id == thread.id
            &&& failure.error_message.len() <= 500
            &&& text::on_one_line(failure.error_message)
            &&& exists|i: int|
                0 <= i < n && (#[trigger] turns[i]).status == "failed"@ && turns[i].id
                    == failure.turn_id && !before(turn_time(thread, turns[i]), since)
        }),
    decreases n,
{
    let found = failures_in(thread, turns, since, (n - 1) as nat);
    if k < found.len() {
        lemma_only_failed_turns(thread, turns, since, (n - 1) as nat, k);
        assert(failures_in(thread, turns, since, n)[k] == found[k]);
    } else {
        let turn = turns[n - 1];
        let error = match turn.error {
            Some(JsonView::Object(members)) => Some(JsonView::Object(members)),
            _ => None,
        };
        let message = json::opt_text_of(json::opt_get(error, "message"@));
        security::lemma_shown_is_a_short_line(
            match message {
                Some(message) => if text::trimmed(message).len() > 0 {
                    message
                } else {
                    "Codex 请求失败"@
                },
                None => "Codex 请求失败"@,
            },
            500,
        );
        assert(turns[n - 1].status == "failed"@);
    }
}

/// The first search sets its start and looks at nothing; the next one looks
/// from that start on.
pub proof fn lemma_first_run_sets_baseline(s: StoreView, now: i64, later: i64)
    requires
        store::setting(s, BASELINE_SETTING@) is None,
        store::setting(s, CURSOR_SETTING@) is None,
        i64::MIN < now,
    ensures
        scan_prepared(s, now).1 is None,
        scan_prepared(scan_prepared(s, now).0, later) == (
            scan_prepared(s, now).0,
            Some(now as int),
        ),
{
    clock::lemma_seconds_read_back(now as int);
    reveal_strlit("turn_failure_monitor_baseline");
    reveal_strlit("turn_failure_monitor_cursor");
}

/// The failure of a turn queues a notification at most once: as long as the
/// row that it queued is there, the turn may be found again with another
/// message, directory or time, and no row is added or changed.
pub proof fn lemma_failure_queued_once(
    s: StoreView,
    first: FailureView,
    between: StoreView,
    again: FailureView,
    now: i64,
    later: i64,
)
    requires
        first.thread_id == again.thread_id,
        first.turn_id == again.turn_id,
        forall|i: int|
            0 <= i < store::failed(s, first, now).0.outbox.len() ==> store::has_event(
                between.outbox,
                (#[trigger] store::failed(s, first, now).0.outbox[i]).event_key,
            ),
    ensures
        !store::failed(between, again, later).1,
        store::failed(between, again, later).0.outbox == between.outbox,
{
    let after = store::failed(s, first, now).0;
    assert(store::failure_key(first) == store::failure_key(again));
    assert(store::has_event(after.outbox, store::failure_key(first))) by {
        if store::failed(s, first, now).1 {
            assert(after.outbox[after.outbox.len() - 1].event_key == store::failure_key(first));
        }
    }
    let i = choose|i: int|
        0 <= i < after.outbox.len() && (#[trigger] after.outbox[i]).event_key
            == store::failure_key(first);
    assert(store::has_event(between.outbox, after.outbox[i].event_key));
}

/// Failures have one key exactly if they are of one turn of one thread, where
/// neither name holds a colon.
pub proof fn lemma_failure_key_tells_apart(first: FailureView, second: FailureView)
    requires
        !first.thread_id.contains(':'),
        !first.turn_id.contains(':'),
        !second.thread_id.contains(':'),
        !second.turn_id.contains(':'),
    ensures
        store::failure_key(first) == store::failure_key(second) <==> first.thread_id
            == second.thread_id && first.turn_id == second.turn_id,
{
    reveal_strlit(":");
    assert(":"@ =~= seq![':']);
    let key = store::failure_key(first);
    let key2 = store::failure_key(second);
    if key == key2 {
        let n = "turn_failed:"@.len() as int;
        text::lemma_two_fields(first.thread_id, ':', first.turn_id);
        text::lemma_two_fields(second.thread_id, ':', second.turn_id);
        let pair = first.thread_id + seq![':'] + first.turn_id;
        let pair2 = second.thread_id + seq![':'] + second.turn_id;
        assert(key.skip(n) =~= pair);
        assert(key2.skip(n) =~= pair2);
        assert(text::fields(pair, ':')[0] == first.thread_id);
        assert(text::fields(pair2, ':')[0] == second.thread_id);
        assert(text::fields(pair, ':')[1] == first.turn_id);
        assert(text::fields(pair2, ':')[1] == second.turn_id);
    }
}

/// The failure of a turn whose key is in no row queues one notification, which
/// is a new row of its own kind behind the others.
pub proof fn lemma_new_failure_is_queued(s: StoreView, failure: FailureView, now: i64)
    requires
        !store::has_event(s.outbox, store::failure_key(failure)),
    ensures
        ({
            let (after, queued) = store::failed(s, failure, now);
            &&& queued
            &&& after.outbox.len() == s.outbox.len() + 1
            &&& after.outbox.drop_last() == s.outbox
            &&& after.outbox.last().kind == "turn_failed"@
            &&& after.outbox.last().event_key == store::failure_key(failure)
        }),
{
    assert(store::failed(s, failure, now).0.outbox.drop_last() =~= s.outbox);
}

/// The wait before the app server is called again is between one second and a
/// minute, whatever happens.
pub proof fn lemma_delay_is_bounded(monitor: Monitor, event: MonitorEvent)
    requires
        1 <= monitor.delay <= MAX_RECONNECT_DELAY,
    ensures
        1 <= monitor_step(monitor, event).0.delay <= MAX_RECONNECT_DELAY,
{
}

/// The monitor ends only when the bridge stops, as long as it hears of what it
/// waits for.
pub proof fn lemma_monitor_goes_on(monitor: Monitor, event: MonitorEvent)
    requires
        match monitor.phase {
            MonitorPhase::Opening => event is Opened || event is OpenFailed,
            MonitorPhase::Scanning => event is Scanned || event is ScanFailed,
            MonitorPhase::Retrying => event is Waited,
            MonitorPhase::Polling => event is Waited,
            MonitorPhase::Ended => false,
        },
    ensures
        monitor_step(monitor, event).0.phase != MonitorPhase::Ended,
{
}

// ---------------------------------------------------------------------------
// A search is complete
// ---------------------------------------------------------------------------

/// Whether `states` are the states of a search since a point in time, from its
/// beginning on, with each page leading from one to the next.
pub open spec fn scan_path(states: Seq<ScanView>, pages: Seq<JsonView>, since: i64) -> bool {
    &&& states.len() == pages.len() + 1
    &&& states[0] == (ScanView {
        since,
        step: ScanStepView::Threads { cursor: None },
        failures: Seq::empty(),
    })
    &&& forall|i: int|
        0 <= i < pages.len() ==> #[trigger] scanned(states[i], pages[i]) == Some(states[i + 1])
}

/// Whether a search waits for the turns of a thread, from where `cursor` says.
pub open spec fn asks_turns(scan: ScanView, thread: ThreadView, cursor: Option<Seq<char>>) -> bool {
    scan.step matches ScanStepView::Turns { threads, cursor: at, .. } && threads.len() > 0
        && threads[0] == thread && at == cursor
}

/// Whether a search waits for the threads, from where `cursor` says.
pub open spec fn asks_threads(scan: ScanView, cursor: Option<Seq<char>>) -> bool {
    scan.step == (ScanStepView::Threads { cursor })
}

/// Whether a failure tells of a turn of a thread.
pub open spec fn tells_of(failure: TurnFailureView, thread: ThreadView, turn: TurnView) -> bool {
    &&& failure.thread_id == thread.id
    &&& failure.cwd == thread.cwd
    &&& failure.turn_id == turn.id
    &&& failure.occurred_at == (match turn.completed_at {
        Some(at) => at,
        None => thread.updated_at,
    })
}

proof fn lemma_path_ready(states: Seq<ScanView>, pages: Seq<JsonView>, since: i64, n: int)
    requires
        scan_path(states, pages, since),
        0 <= n < states.len(),
    ensures
        states[n].since == since,
        scan_ready(states[n]),
    decreases n,
{
    if n > 0 {
        lemma_path_ready(states, pages, since, n - 1);
        assert(scanned(states[n - 1], pages[n - 1]) == Some(states[n - 1 + 1]));
    }
}

/// A thread that waits has its turn: it is asked for before the search ends.
proof fn lemma_waiting_is_asked(
    states: Seq<ScanView>,
    pages: Seq<JsonView>,
    since: i64,
    i: int,
    j: int,
) -> (m: int)
    requires
        scan_path(states, pages, since),
        states.last().step is Done,
        0 <= i < states.len(),
        states[i].step is Turns,
        0 <= j < states[i].step->Turns_threads.len(),
    ensures
        i <= m < pages.len(),
        j == 0 ==> m == i,
        states[m].step is Turns,
        states[m].step->Turns_threads.len() > 0,
        states[m].step->Turns_threads[0] == states[i].step->Turns_threads[j],
        j > 0 ==> states[m].step->Turns_cursor is None,
    decreases states.len() - i,
{
    let threads = states[i].step->Turns_threads;
    if j == 0 {
        i
    } else {
        lemma_path_ready(states, pages, since, i);
        assert(i < pages.len());
        assert(scanned(states[i], pages[i]) == Some(states[i + 1]));
        let (turns, following) = turn_page(pages[i])->0;
        if turns_reach(threads[0], turns, since) || following is None {
            assert(states[i + 1].step == threads_step(
                threads.skip(1),
                states[i].step->Turns_next,
            ));
            assert(threads.skip(1)[j - 1] == threads[j]);
            lemma_waiting_is_asked(states, pages, since, i + 1, j - 1)
        } else {
            lemma_waiting_is_asked(states, pages, since, i + 1, j)
        }
    }
}

/// The page of threads behind those that wait is asked for before the search
/// ends.
proof fn lemma_next_page_is_asked(
    states: Seq<ScanView>,
    pages: Seq<JsonView>,
    since: i64,
    i: int,
    cursor: Seq<char>,
) -> (m: int)
    requires
        scan_path(states, pages, since),
        states.last().step is Done,
        0 <= i < states.len(),
        states[i].step is Turns,
        states[i].step->Turns_next == Some(cursor),
    ensures
        i < m < pages.len(),
        asks_threads(states[m], Some(cursor)),
    decreases states.len() - i,
{
    lemma_path_ready(states, pages, since, i);
    assert(i < pages.len());
    assert(scanned(states[i], pages[i]) == Some(states[i + 1]));
    if states[i + 1].step is Turns {
        lemma_next_page_is_asked(states, pages, since, i + 1, cursor)
    } else {
        assert(asks_threads(states[i + 1], Some(cursor)));
        i + 1
    }
}

/// Failures that were found stay found.
proof fn lemma_found_stays(
    states: Seq<ScanView>,
    pages: Seq<JsonView>,
    since: i64,
    i: int,
    n: int,
    k: int,
)
    requires
        scan_path(states, pages, since),
        0 <= i <= n < states.len(),
        0 <= k < states[i].failures.len(),
    ensures
        k < states[n].failures.len(),
        states[n].failures[k] == states[i].failures[k],
    decreases n - i,
{
    if i < n {
        lemma_found_stays(states, pages, since, i, n - 1, k);
        assert(scanned(states[n - 1], pages[n - 1]) == Some(states[n - 1 + 1]));
    }
}

/// A turn that failed is among the failures of its page.
proof fn lemma_failed_turn_is_found(
    thread: ThreadView,
    turns: Seq<TurnView>,
    since: i64,
    n: nat,
    i: int,
) -> (k: int)
    requires
        0 <= i < n <= turns.len(),
        turns[i].status == "failed"@,
        turn_time(thread, turns[i]) * 1_000_000 >= since,
    ensures
        0 <= k < failures_in(thread, turns, since, n).len(),
        tells_of(failures_in(thread, turns, since, n)[k], thread, turns[i]),
    decreases n,
{
    if i == n - 1 {
        failures_in(thread, turns, since, n).len() - 1
    } else {
        lemma_failed_turn_is_found(thread, turns, since, (n - 1) as nat, i)
    }
}

/// A search that has ended asked for the turns of every thread, from the latest
/// turn on, that was on a page of threads and was at work since the search
/// looks back.
pub proof fn lemma_every_recent_thread_is_asked(
    states: Seq<ScanView>,
    pages: Seq<JsonView>,
    since: i64,
    k: int,
    threads: Seq<ThreadView>,
    next: Option<Seq<char>>,
    j: int,
) -> (m: int)
    requires
        scan_path(states, pages, since),
        states.last().step is Done,
        0 <= k < pages.len(),
        states[k].step is Threads,
        thread_page(pages[k]) == Some((threads, next)),
        0 <= j < threads.len(),
        threads[j].updated_at * 1_000_000 >= since,
    ensures
        k < m < pages.len(),
        asks_turns(states[m], threads[j], None),
{
    lemma_path_ready(states, pages, since, k);
    assert(scanned(states[k], pages[k]) == Some(states[k + 1]));
    let pred = recent(since);
    let kept = threads.filter(pred);
    let place = crate::store_rows::lemma_filter_place(threads, pred, j);
    assert(kept[place] == threads[j]);
    assert(states[k + 1].step is Turns);
    assert(states[k + 1].step->Turns_threads == kept);
    lemma_waiting_is_asked(states, pages, since, k + 1, place)
}

/// A search reads page after page. Of a thread it reads the next page of turns
/// at once, unless there is none or one on this page ended before the search
/// looks back. Threads it reads on in the same way, before it ends.
pub proof fn lemma_pages_are_read_on(
    states: Seq<ScanView>,
    pages: Seq<JsonView>,
    since: i64,
    k: int,
    cursor: Seq<char>,
)
    requires
        scan_path(states, pages, since),
        0 <= k < pages.len(),
    ensures
        states[k].step is Turns ==> (turn_page(pages[k]) matches Some((turns, next)) ==> {
            let thread = states[k].step->Turns_threads[0];
            next == Some(cursor) && (forall|i: int|
                0 <= i < turns.len() ==> turn_time(thread, #[trigger] turns[i]) * 1_000_000
                    >= since) ==> asks_turns(states[k + 1], thread, Some(cursor))
        }),
        states.last().step is Done && states[k].step is Threads ==> (thread_page(
            pages[k],
        ) matches Some((threads, next)) ==> (next == Some(cursor) && (forall|i: int|
            0 <= i < threads.len() ==> (#[trigger] threads[i]).updated_at * 1_000_000 >= since)
            ==> exists|m: int|
            k < m < pages.len() && #[trigger] asks_threads(states[m], Some(cursor)))),
{
    lemma_path_ready(states, pages, since, k);
    assert(scanned(states[k], pages[k]) == Some(states[k + 1]));
    if states.last().step is Done && states[k].step is Threads {
        if let Some((threads, next)) = thread_page(pages[k]) {
            if next == Some(cursor) && (forall|i: int|
                0 <= i < threads.len() ==> (#[trigger] threads[i]).updated_at * 1_000_000
                    >= since) {
                if states[k + 1].step is Turns {
                    let m = lemma_next_page_is_asked(states, pages, since, k + 1, cursor);
                    assert(asks_threads(states[m], Some(cursor)));
                } else {
                    assert(asks_threads(states[k + 1], Some(cursor)));
                }
            }
        }
    }
}

/// Every turn on a page that a search read is told of if it failed and did not
/// end before the search looks back; `n` is any later state of the search.
pub proof fn lemma_every_failed_turn_is_told(
    states: Seq<ScanView>,
    pages: Seq<JsonView>,
    since: i64,
    k: int,
    n: int,
    turns: Seq<TurnView>,
    next: Option<Seq<char>>,
    i: int,
)
    requires
        scan_path(states, pages, since),
        0 <= k < n < states.len(),
        states[k].step is Turns,
        turn_page(pages[k]) == Some((turns, next)),
        0 <= i < turns.len(),
        turns[i].status == "failed"@,
        (match turns[i].completed_at {
            Some(at) => at,
            None => states[k].step->Turns_threads[0].updated_at,
        }) * 1_000_000 >= since,
    ensures
        exists|f: int|
            0 <= f < states[n].failures.len() && #[trigger] tells_of(
                states[n].failures[f],
                states[k].step->Turns_threads[0],
                turns[i],
            ),
{
    lemma_path_ready(states, pages, since, k);
    assert(scanned(states[k], pages[k]) == Some(states[k + 1]));
    let thread = states[k].step->Turns_threads[0];
    let at = lemma_failed_turn_is_found(thread, turns, since, turns.len(), i);
    let found = failures_in(thread, turns, since, turns.len());
    let f = states[k].failures.len() + at;
    assert(states[k + 1].failures == states[k].failures + found);
    assert(states[k + 1].failures[f] == found[at]);
    lemma_found_stays(states, pages, since, k + 1, n, f);
    assert(tells_of(states[n].failures[f], thread, turns[i]));
}

/// Nothing else is told: each failure that a search tells of is of a turn on a
/// page that it read, which failed and did not end before the search looks
/// back.
pub proof fn lemma_nothing_else_is_told(
    states: Seq<ScanView>,
    pages: Seq<JsonView>,
    since: i64,
    n: int,
    f: int,
) -> (at: (int, int))
    requires
        scan_path(states, pages, since),
        0 <= n < states.len(),
        0 <= f < states[n].failures.len(),
    ensures
        0 <= at.0 < n,
        states[at.0].step is Turns,
        turn_page(pages[at.0]) is Some,
        0 <= at.1 < turn_page(pages[at.0]).unwrap().0.len(),
        ({
            let thread = states[at.0].step->Turns_threads[0];
            let turn = turn_page(pages[at.0]).unwrap().0[at.1];
            &&& tells_of(states[n].failures[f], thread, turn)
            &&& turn.status == "failed"@
            &&& (match turn.completed_at {
                Some(at) => at,
                None => thread.updated_at,
            }) * 1_000_000 >= since
        }),
    decreases n,
{
    assert(n > 0);
    lemma_path_ready(states, pages, since, n - 1);
    assert(scanned(states[n - 1], pages[n - 1]) == Some(states[n - 1 + 1]));
    if f < states[n - 1].failures.len() {
        assert(states[n].failures[f] == states[n - 1].failures[f]);
        lemma_nothing_else_is_told(states, pages, since, n - 1, f)
    } else {
        let thread = states[n - 1].step->Turns_threads[0];
        let turns = turn_page(pages[n - 1]).unwrap().0;
        let place = f - states[n - 1].failures.len();
        let i = lemma_failure_source(thread, turns, since, turns.len(), place);
        (n - 1, i)
    }
}

/// The turn that a failure on a page is of.
proof fn lemma_failure_source(
    thread: ThreadView,
    turns: Seq<TurnView>,
    since: i64,
    n: nat,
    k: int,
) -> (i: int)
    requires
        n <= turns.len(),
        0 <= k < failures_in(thread, turns, since, n).len(),
    ensures
        0 <= i < n,
        tells_of(failures_in(thread, turns, since, n)[k], thread, turns[i]),
        turns[i].status == "failed"@,
        turn_time(thread, turns[i]) * 1_000_000 >= since,
    decreases n,
{
    if k < failures_in(thread, turns, since, (n - 1) as nat).len() {
        lemma_failure_source(thread, turns, since, (n - 1) as nat, k)
    } else {
        n - 1
    }
}

/// A search asks for what it waits for: for threads from the latest change back,
/// or for the turns of the first thread that waits, from the latest back; and
/// it asks for nothing exactly when it has ended.
pub proof fn lemma_search_asks_for_what_it_waits_for(
    scan: ScanView,
    thread: ThreadView,
    cursor: Option<Seq<char>>,
)
    ensures
        ({
            let place = match cursor {
                Some(cursor) => JsonView::Text(cursor),
                None => JsonView::Null,
            };
            let request = scan_request(scan);
            &&& request is None <==> scan.step is Done
            &&& asks_threads(scan, cursor) ==> {
                &&& request is Some
                &&& request.unwrap().0 == "thread/list"@
                &&& request.unwrap().1.get("cursor"@) == Some(place)
                &&& request.unwrap().1.get("sortKey"@) == Some(JsonView::Text("updated_at"@))
                &&& request.unwrap().1.get("sortDirection"@) == Some(JsonView::Text("desc"@))
            }
            &&& asks_turns(scan, thread, cursor) ==> {
                &&& request is Some
                &&& request.unwrap().0 == "thread/turns/list"@
                &&& request.unwrap().1.get("threadId"@) == Some(JsonView::Text(thread.id))
                &&& request.unwrap().1.get("cursor"@) == Some(place)
                &&& request.unwrap().1.get("sortDirection"@) == Some(JsonView::Text("desc"@))
            }
        }),
{
    reveal_strlit("cursor");
    reveal_strlit("limit");
    reveal_strlit("sortKey");
    reveal_strlit("sortDirection");
    reveal_strlit("threadId");
    assert("cursor"@.len() == 6);
    assert("limit"@.len() == 5);
    assert("sortKey"@.len() == 7);
    assert("sortDirection"@.len() == 13);
    assert("threadId"@.len() == 8);
    reveal_with_fuel(json::member_of, 5);
    if let Some((_, params)) = scan_request(scan) {
        let members = params->Object_0;
        assert(members.drop_first()[0] == members[1]);
        assert(members.drop_first().drop_first()[0] == members[2]);
        assert(members.drop_first().drop_first().drop_first()[0] == members[3]);
    }
}

/// A thread and a turn are read by the names of their members.
pub proof fn lemma_members_are_read(value: JsonView)
    requires
        value is Object,
    ensures
        thread_read(value) matches Some(thread) ==> {
            &&& value.get("id"@) == Some(JsonView::Text(thread.id))
            &&& value.get("cwd"@) == Some(JsonView::Text(thread.cwd))
            &&& value.get("updatedAt"@) matches Some(at) && at.signed() matches Some(n)
                && thread.updated_at == n as i64
        },
        turn_read(value) matches Some(turn) ==> {
            &&& value.get("id"@) == Some(JsonView::Text(turn.id))
            &&& value.get("status"@) == Some(JsonView::Text(turn.status))
            &&& turn.completed_at matches Some(at) ==> value.get("completedAt"@) matches Some(ended)
                && ended.signed() matches Some(n) && at == n as i64
            &&& turn.completed_at is None ==> value.get("completedAt"@) is None || value.get(
                "completedAt"@,
            ) == Some(JsonView::Null)
            &&& turn.error matches Some(error) ==> value.get("error"@) == Some(error)
        },
        page_read(value) matches Some((items, next)) ==> {
            &&& value.get("data"@) == Some(JsonView::List(items))
            &&& next matches Some(cursor) ==> value.get("nextCursor"@) == Some(
                JsonView::Text(cursor),
            )
            &&& next is None ==> value.get("nextCursor"@) is None || value.get("nextCursor"@)
                == Some(JsonView::Null)
        },
        thread_page(value) matches Some((threads, next)) ==> page_read(value) matches Some(
            (items, cursor),
        ) && cursor == next && threads.len() == items.len() && forall|i: int|
            0 <= i < items.len() ==> thread_read(#[trigger] items[i]) == Some(threads[i]),
        turn_page(value) matches Some((turns, next)) ==> page_read(value) matches Some(
            (items, cursor),
        ) && cursor == next && turns.len() == items.len() && forall|i: int|
            0 <= i < items.len() ==> turn_read(#[trigger] items[i]) == Some(turns[i]),
{
}

/// Each failure that a search found is announced: afterwards there is a row for
/// its turn, and what was there before is still there, in front.
pub proof fn lemma_found_failures_are_queued(
    s: StoreView,
    failures: Seq<TurnFailureView>,
    n: nat,
    now: i64,
    i: int,
)
    requires
        n <= failures.len(),
    ensures
        ({
            let (after, count) = failures_queued(s, failures, n, now);
            &&& 0 <= i < n ==> store::has_event(
                after.outbox,
                "turn_failed:"@ + failures[i].thread_id + ":"@ + failures[i].turn_id,
            )
            &&& after.outbox.len() == s.outbox.len() + count
            &&& after.outbox.take(s.outbox.len() as int) == s.outbox
            &&& after.settings == s.settings
            &&& count <= n
        }),
    decreases n,
{
    if n == 0 {
        assert(s.outbox.take(s.outbox.len() as int) =~= s.outbox);
    } else {
        lemma_found_failures_are_queued(s, failures, (n - 1) as nat, now, i);
        let before = failures_queued(s, failures, (n - 1) as nat, now).0;
        let after = failures_queued(s, failures, n, now).0;
        assert(forall|k: int|
            0 <= k < before.outbox.len() ==> #[trigger] after.outbox[k] == before.outbox[k]);
        assert(after.outbox.take(s.outbox.len() as int) =~= before.outbox.take(
            s.outbox.len() as int,
        ));
        if 0 <= i < n {
            let key = "turn_failed:"@ + failures[i].thread_id + ":"@ + failures[i].turn_id;
            if i < n - 1 {
                let at = choose|at: int|
                    0 <= at < before.outbox.len() && (#[trigger] before.outbox[at]).event_key
                        == key;
                assert(after.outbox[at].event_key == key);
            } else if !store::has_event(before.outbox, key) {
                assert(after.outbox[after.outbox.len() - 1].event_key == key);
            } else {
                let at = choose|at: int|
                    0 <= at < before.outbox.len() && (#[trigger] before.outbox[at]).event_key
                        == key;
                assert(after.outbox[at].event_key == key);
            }
        }
    }
}

/// Searches leave no gap: one that follows a search which began at `cursor` and
/// was ended looks back to then at least, or to the start of all searches.
pub proof fn lemma_searches_leave_no_gap(
    s: StoreView,
    baseline: int,
    cursor: i64,
    later: i64,
)
    requires
        time_setting(s, BASELINE_SETTING@) == Some(baseline),
        i64::MIN <= baseline <= i64::MAX,
    ensures
        ({
            let ended = store::with_setting(s, CURSOR_SETTING@, clock::seconds_shown(cursor as int));
            let (after, since) = scan_prepared(ended, later);
            &&& after == ended
            &&& since is Some
            &&& since->0 <= cursor || since->0 == baseline
            &&& since->0 >= baseline
        }),
{
    clock::lemma_seconds_read_back(cursor as int);
    reveal_strlit("turn_failure_monitor_baseline");
    reveal_strlit("turn_failure_monitor_cursor");
    assert(BASELINE_SETTING@.len() != CURSOR_SETTING@.len());
    let ended = store::with_setting(s, CURSOR_SETTING@, clock::seconds_shown(cursor as int));
    assert(time_setting(ended, BASELINE_SETTING@) == Some(baseline));
    assert(time_setting(ended, CURSOR_SETTING@) == Some(cursor as int));
}

/// When the turns of the first thread that waits are used up, because no page is
/// left or this one reaches back far enough, exactly the others wait, in their
/// order, each from its latest turn on; behind the last of them the next page
/// of threads, if there is one to be read, and else nothing.
pub proof fn lemma_others_wait_on(
    scan: ScanView,
    payload: JsonView,
    turns: Seq<TurnView>,
    following: Option<Seq<char>>,
    i: int,
)
    requires
        scan.step is Turns,
        scan.step->Turns_threads.len() > 0,
        turn_page(payload) == Some((turns, following)),
        following is None || (0 <= i < turns.len() && (match turns[i].completed_at {
            Some(at) => at,
            None => scan.step->Turns_threads[0].updated_at,
        }) * 1_000_000 < scan.since),
    ensures
        ({
            let waiting = scan.step->Turns_threads;
            let next = scan.step->Turns_next;
            let after = scanned(scan, payload);
            &&& after is Some
            &&& after->0.since == scan.since
            &&& waiting.len() > 1 ==> after->0.step == (ScanStepView::Turns {
                threads: Seq::new((waiting.len() - 1) as nat, |j: int| waiting[j + 1]),
                cursor: None,
                next,
            })
            &&& waiting.len() == 1 ==> after->0.step == (match next {
                Some(cursor) => ScanStepView::Threads { cursor: Some(cursor) },
                None => ScanStepView::Done,
            })
        }),
{
    let waiting = scan.step->Turns_threads;
    if following is Some {
        assert(before(turn_time(waiting[0], turns[i]), scan.since));
        assert(turns_reach(waiting[0], turns, scan.since));
    }
    assert(waiting.skip(1) =~= Seq::new((waiting.len() - 1) as nat, |j: int| waiting[j + 1]));
}

/// What is queued of a failure is what was found of it; its time is told in
/// microseconds.
pub proof fn lemma_notice_tells_the_failure(failure: TurnFailureView)
    ensures
        ({
            let notice = notice_of(failure);
            &&& notice.thread_id == failure.thread_id
            &&& notice.turn_id == failure.turn_id
            &&& notice.cwd == failure.cwd
            &&& notice.error_message == failure.error_message
            &&& notice.error_type == failure.error_type
            &&& notice.http_status == failure.http_status
            &&& -9_000_000_000_000 <= failure.occurred_at <= 9_000_000_000_000
                ==> notice.occurred_at == failure.occurred_at * 1_000_000
        }),
{
}

/// What the app server says of an error is what is told of it, on one line and
/// without secrets.
pub proof fn lemma_failure_tells_its_error(
    thread: ThreadView,
    turn: TurnView,
    since: i64,
    error: JsonView,
    message: Seq<char>,
)
    requires
        turn.status == "failed"@,
        turn_time(thread, turn) * 1_000_000 >= since,
        turn.error == Some(error),
        error is Object,
        error.get("message"@) == Some(JsonView::Text(message)),
        text::trimmed(message).len() > 0,
    ensures
        failure_of(thread, turn, since) matches Some(failure) && tells_of(failure, thread, turn)
            && failure.error_message == security::safe_words(message, 500) && (error.get(
            "codexErrorInfo"@,
        ) is None ==> failure.error_type is None && failure.http_status is None) && (error.get(
            "codexErrorInfo"@,
        ) matches Some(JsonView::Text(kind)) ==> failure.http_status is None && (
        failure.error_type matches Some(shown) ==> shown == security::safe_words(kind, 120))),
{
}

} // verus!
