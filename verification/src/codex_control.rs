//! Tasks of the chat, run by the app server.
use vstd::prelude::*;
use crate::codex_login;
use crate::codex_login::{AppServerError, ServerErrorView};
use crate::json;
use crate::json::{Json, JsonNumber, JsonView, NumberView};
use crate::store;
use crate::store::{QQTaskInfo, Store, StoreView, TaskView};
use crate::text;
use crate::text::text_eq;

verus! {

/// The most tasks of the chat that run at a time.
pub const MAX_RUNNING_TASKS: usize = 3;

// ---------------------------------------------------------------------------
// Errors
// ---------------------------------------------------------------------------

/// Why a task could not be run.
#[derive(Debug)]
pub enum ControlError {
    AppServer(AppServerError),
    Store(String),
    InvalidResponse(&'static str),
    TooManyRunningTasks,
    AlreadyRunning,
}

/// What an error is.
pub enum ControlErrorView {
    AppServer(ServerErrorView),
    Store(Seq<char>),
    InvalidResponse(Seq<char>),
    TooManyRunningTasks,
    AlreadyRunning,
}

/// The message of an error.
pub open spec fn control_message(error: ControlErrorView) -> Seq<char> {
    match error {
        ControlErrorView::AppServer(error) => codex_login::server_message(error),
        ControlErrorView::Store(detail) => detail,
        ControlErrorView::InvalidResponse(method) => "Codex app-server returned an invalid "@
            + method + " response"@,
        ControlErrorView::TooManyRunningTasks => "最多同时运行 3 个 QQ 任务"@,
        ControlErrorView::AlreadyRunning => "该任务当前已有运行中的回合"@,
    }
}

impl ControlError {
    pub open spec fn view(&self) -> ControlErrorView {
        match self {
            ControlError::AppServer(error) => ControlErrorView::AppServer(error@),
            ControlError::Store(detail) => ControlErrorView::Store(detail@),
            ControlError::InvalidResponse(method) => ControlErrorView::InvalidResponse(method@),
            ControlError::TooManyRunningTasks => ControlErrorView::TooManyRunningTasks,
            ControlError::AlreadyRunning => ControlErrorView::AlreadyRunning,
        }
    }

    pub fn message(&self) -> (result: String)
        ensures
            result@ == control_message(self@),
    {
        match self {
            ControlError::AppServer(error) => error.message(),
            ControlError::Store(detail) => detail.clone(),
            ControlError::InvalidResponse(method) => {
                let mut result = "Codex app-server returned an invalid ".to_owned();
                result.append(method);
                result.append(" response");
                result
            },
            ControlError::TooManyRunningTasks => "最多同时运行 3 个 QQ 任务".to_owned(),
            ControlError::AlreadyRunning => "该任务当前已有运行中的回合".to_owned(),
        }
    }
}

// ---------------------------------------------------------------------------
// Models
// ---------------------------------------------------------------------------

/// A model that the app server offers.
#[derive(Debug, PartialEq, Eq)]
pub struct ModelInfo {
    pub model: String,
    pub display_name: String,
    pub is_default: bool,
    pub default_effort: String,
    pub efforts: Vec<String>,
}

/// What a model is.
pub struct ModelView {
    pub model: Seq<char>,
    pub display_name: Seq<char>,
    pub is_default: bool,
    pub default_effort: Seq<char>,
    pub efforts: Seq<Seq<char>>,
}

impl ModelInfo {
    pub open spec fn view(&self) -> ModelView {
        ModelView {
            model: self.model@,
            display_name: self.display_name@,
            is_default: self.is_default,
            default_effort: self.default_effort@,
            efforts: text::texts(self.efforts@),
        }
    }
}

pub open spec fn model_views(models: Seq<ModelInfo>) -> Seq<ModelView> {
    Seq::new(models.len(), |i: int| models[i]@)
}

/// The entries of a list, none where there is no list.
pub open spec fn entries(value: Option<JsonView>) -> Seq<JsonView> {
    match value {
        Some(JsonView::List(items)) => items,
        _ => Seq::empty(),
    }
}

/// A flag, which is not set where it is missing.
pub open spec fn flag(value: Option<JsonView>) -> bool {
    value == Some(JsonView::Bool(true))
}

/// A text, or a fallback.
pub open spec fn text_or(value: Option<Seq<char>>, fallback: Seq<char>) -> Seq<char> {
    match value {
        Some(value) => value,
        None => fallback,
    }
}

/// The efforts that the first `n` entries name.
pub open spec fn efforts_named(items: Seq<JsonView>, n: nat) -> Seq<Seq<char>>
    decreases n,
{
    if n == 0 {
        Seq::empty()
    } else {
        let named = efforts_named(items, (n - 1) as nat);
        match items[n - 1].text_at("reasoningEffort"@) {
            Some(effort) => named.push(effort),
            None => named,
        }
    }
}

/// The model that an entry describes, unless it is hidden or has no name.
pub open spec fn model_read(item: JsonView) -> Option<ModelView> {
    let efforts = entries(item.get("supportedReasoningEfforts"@));
    if flag(item.get("hidden"@)) {
        None
    } else {
        match item.text_at("model"@) {
            Some(model) => Some(
                ModelView {
                    model,
                    display_name: text_or(item.text_at("displayName"@), model),
                    is_default: flag(item.get("isDefault"@)),
                    default_effort: text_or(item.text_at("defaultReasoningEffort"@), "medium"@),
                    efforts: efforts_named(efforts, efforts.len()),
                },
            ),
            None => None,
        }
    }
}

/// The models that the first `n` entries describe.
pub open spec fn models_read(items: Seq<JsonView>, n: nat) -> Seq<ModelView>
    decreases n,
{
    if n == 0 {
        Seq::empty()
    } else {
        let read = models_read(items, (n - 1) as nat);
        match model_read(items[n - 1]) {
            Some(model) => read.push(model),
            None => read,
        }
    }
}

/// The models that an answer offers.
pub open spec fn models_offered(payload: JsonView) -> Seq<ModelView> {
    let items = entries(payload.get("data"@));
    models_read(items, items.len())
}

fn list_in<'a>(value: Option<&'a Json>) -> (result: Option<&'a Vec<Json>>)
    ensures
        match result {
            Some(items) => entries(json::opt_json(value)) == json::values(items@),
            None => entries(json::opt_json(value)) == Seq::<JsonView>::empty(),
        },
{
    match value {
        Some(value) => match value {
            Json::List(items) => {
                assert(value@->List_0 =~= json::values(items@));
                Some(items)
            },
            _ => None,
        },
        None => None,
    }
}

fn flag_in(value: Option<&Json>) -> (result: bool)
    ensures
        result == flag(json::opt_json(value)),
{
    match value {
        Some(value) => match value.as_bool() {
            Some(set) => set,
            None => false,
        },
        None => false,
    }
}

fn read_efforts(value: Option<&Json>) -> (result: Vec<String>)
    ensures
        ({
            let items = entries(json::opt_json(value));
            text::texts(result@) == efforts_named(items, items.len())
        }),
{
    let ghost named = entries(json::opt_json(value));
    let mut efforts: Vec<String> = Vec::new();
    assert(text::texts(efforts@) =~= efforts_named(named, 0));
    match list_in(value) {
        Some(items) => {
            for i in 0..items.len()
                invariant
                    named == json::values(items@),
                    text::texts(efforts@) == efforts_named(named, i as nat),
            {
                let ghost held = text::texts(efforts@);
                assert(named[i as int] == items@[i as int]@);
                match items[i].text_at("reasoningEffort") {
                    Some(effort) => {
                        efforts.push(effort.to_owned());
                        assert(text::texts(efforts@) =~= held.push(effort@));
                    },
                    None => {},
                }
            }
            assert(named.len() == items@.len());
        },
        None => {},
    }
    efforts
}

fn read_model(item: &Json) -> (result: Option<ModelInfo>)
    ensures
        match result {
            Some(model) => model_read(item@) == Some(model@),
            None => model_read(item@) is None,
        },
{
    if flag_in(item.get("hidden")) {
        return None;
    }
    let model = match item.text_at("model") {
        Some(model) => model,
        None => {
            return None;
        },
    };
    let display_name = match item.text_at("displayName") {
        Some(name) => name.to_owned(),
        None => model.to_owned(),
    };
    let default_effort = match item.text_at("defaultReasoningEffort") {
        Some(effort) => effort.to_owned(),
        None => "medium".to_owned(),
    };
    Some(
        ModelInfo {
            model: model.to_owned(),
            display_name,
            is_default: flag_in(item.get("isDefault")),
            default_effort,
            efforts: read_efforts(item.get("supportedReasoningEfforts")),
        },
    )
}

/// The models that an answer to `model/list` offers.
pub fn list_models(payload: &Json) -> (result: Vec<ModelInfo>)
    ensures
        model_views(result@) == models_offered(payload@),
{
    let ghost offered = entries(payload@.get("data"@));
    let mut models: Vec<ModelInfo> = Vec::new();
    assert(model_views(models@) =~= models_read(offered, 0));
    match list_in(payload.get("data")) {
        Some(items) => {
            for i in 0..items.len()
                invariant
                    offered == json::values(items@),
                    model_views(models@) == models_read(offered, i as nat),
            {
                let ghost held = model_views(models@);
                assert(offered[i as int] == items@[i as int]@);
                match read_model(&items[i]) {
                    Some(model) => {
                        let ghost view = model@;
                        models.push(model);
                        assert(model_views(models@) =~= held.push(view));
                    },
                    None => {},
                }
            }
            assert(offered.len() == items@.len());
        },
        None => {},
    }
    models
}

/// The index of a model by its name, counted from `from`.
pub open spec fn model_named(models: Seq<ModelView>, name: Seq<char>, from: int) -> Option<int>
    decreases models.len() - from,
{
    if 0 <= from < models.len() {
        if models[from].model == name {
            Some(from)
        } else {
            model_named(models, name, from + 1)
        }
    } else {
        None
    }
}

/// The index of the model that is the default, counted from `from`.
pub open spec fn default_model(models: Seq<ModelView>, from: int) -> Option<int>
    decreases models.len() - from,
{
    if 0 <= from < models.len() {
        if models[from].is_default {
            Some(from)
        } else {
            default_model(models, from + 1)
        }
    } else {
        None
    }
}

/// The model to go on with: the last one that was used, else the default, else
/// the first.
pub open spec fn model_chosen(models: Seq<ModelView>, last: Option<Seq<char>>) -> Option<int> {
    match store::or_else(
        match last {
            Some(name) => model_named(models, name, 0),
            None => None,
        },
        default_model(models, 0),
    ) {
        Some(i) => Some(i),
        None => if models.len() > 0 {
            Some(0int)
        } else {
            None
        },
    }
}

/// The effort to go on with: the last one that was used if the model has it,
/// else the default of the model.
pub open spec fn effort_chosen(model: ModelView, last: Option<Seq<char>>) -> Seq<char> {
    match last {
        Some(effort) => if model.efforts.len() == 0 || model.efforts.contains(effort) {
            effort
        } else {
            model.default_effort
        },
        None => model.default_effort,
    }
}

fn find_model(models: &Vec<ModelInfo>, name: &str) -> (result: Option<usize>)
    ensures
        match result {
            Some(i) => i < models@.len() && model_named(model_views(models@), name@, 0) == Some(
                i as int,
            ),
            None => model_named(model_views(models@), name@, 0) is None,
        },
{
    let ghost views = model_views(models@);
    let mut i: usize = 0;
    while i < models.len()
        invariant
            i <= models@.len(),
            views == model_views(models@),
            model_named(views, name@, 0) == model_named(views, name@, i as int),
        decreases models.len() - i,
    {
        assert(views[i as int] == models@[i as int]@);
        if text_eq(models[i].model.as_str(), name) {
            return Some(i);
        }
        i += 1;
    }
    None
}

fn find_default(models: &Vec<ModelInfo>) -> (result: Option<usize>)
    ensures
        match result {
            Some(i) => i < models@.len() && default_model(model_views(models@), 0) == Some(
                i as int,
            ),
            None => default_model(model_views(models@), 0) is None,
        },
{
    let ghost views = model_views(models@);
    let mut i: usize = 0;
    while i < models.len()
        invariant
            i <= models@.len(),
            views == model_views(models@),
            default_model(views, 0) == default_model(views, i as int),
        decreases models.len() - i,
    {
        assert(views[i as int] == models@[i as int]@);
        if models[i].is_default {
            return Some(i);
        }
        i += 1;
    }
    None
}

/// The index of the model to go on with.
pub fn choose_model(models: &Vec<ModelInfo>, last: &Option<String>) -> (result: Option<usize>)
    ensures
        match result {
            Some(i) => i < models@.len() && model_chosen(
                model_views(models@),
                text::opt_text(*last),
            ) == Some(i as int),
            None => model_chosen(model_views(models@), text::opt_text(*last)) is None,
        },
{
    let named: Option<usize> = match last {
        Some(name) => find_model(models, name.as_str()),
        None => None,
    };
    if named.is_some() {
        return named;
    }
    let default = find_default(models);
    if default.is_some() {
        return default;
    }
    assert(model_views(models@).len() == models@.len());
    if models.len() > 0 {
        Some(0)
    } else {
        None
    }
}

/// Whether a list holds a text.
pub fn list_has(list: &Vec<String>, wanted: &str) -> (result: bool)
    ensures
        result == text::texts(list@).contains(wanted@),
{
    let ghost all = text::texts(list@);
    for i in 0..list.len()
        invariant
            all == text::texts(list@),
            forall|j: int| 0 <= j < i ==> #[trigger] all[j] != wanted@,
    {
        if text_eq(list[i].as_str(), wanted) {
            assert(all[i as int] == wanted@);
            return true;
        }
    }
    false
}

/// The effort to go on with.
pub fn choose_effort(model: &ModelInfo, last: &Option<String>) -> (result: String)
    ensures
        result@ == effort_chosen(model@, text::opt_text(*last)),
{
    match last {
        Some(effort) => {
            assert(text::texts(model.efforts@).len() == model.efforts@.len());
            if model.efforts.len() == 0 || list_has(&model.efforts, effort.as_str()) {
                effort.clone()
            } else {
                model.default_effort.clone()
            }
        },
        None => model.default_effort.clone(),
    }
}

// ---------------------------------------------------------------------------
// Threads
// ---------------------------------------------------------------------------

/// A thread of the app server. Its time is in seconds.
#[derive(Debug, PartialEq, Eq)]
pub struct ThreadInfo {
    pub id: String,
    pub cwd: String,
    pub preview: String,
    pub status: String,
    pub updated_at: i64,
    pub turn_id: Option<String>,
    pub last_output: Option<String>,
    pub last_prompt: Option<String>,
    pub error: Option<String>,
}

/// What a thread is.
pub struct ThreadInfoView {
    pub id: Seq<char>,
    pub cwd: Seq<char>,
    pub preview: Seq<char>,
    pub status: Seq<char>,
    pub updated_at: int,
    pub turn_id: Option<Seq<char>>,
    pub last_output: Option<Seq<char>>,
    pub last_prompt: Option<Seq<char>>,
    pub error: Option<Seq<char>>,
}

impl ThreadInfo {
    pub open spec fn view(&self) -> ThreadInfoView {
        ThreadInfoView {
            id: self.id@,
            cwd: self.cwd@,
            preview: self.preview@,
            status: self.status@,
            updated_at: self.updated_at as int,
            turn_id: text::opt_text(self.turn_id),
            last_output: text::opt_text(self.last_output),
            last_prompt: text::opt_text(self.last_prompt),
            error: text::opt_text(self.error),
        }
    }
}

pub open spec fn thread_infos(threads: Seq<ThreadInfo>) -> Seq<ThreadInfoView> {
    Seq::new(threads.len(), |i: int| threads[i]@)
}

/// The first text among the contents of a message, from `from` on.
pub open spec fn content_text(contents: Seq<JsonView>, from: int) -> Option<Seq<char>>
    decreases contents.len() - from,
{
    if 0 <= from < contents.len() {
        let content = contents[from];
        if content.text_at("type"@) == Some("text"@) && content.text_at("text"@) is Some {
            content.text_at("text"@)
        } else {
            content_text(contents, from + 1)
        }
    } else {
        None
    }
}

/// The text of an item: of a message of the user, or of the agent.
pub open spec fn item_text(item: JsonView, of_user: bool) -> Option<Seq<char>> {
    if of_user {
        if item.text_at("type"@) == Some("userMessage"@) {
            content_text(entries(item.get("content"@)), 0)
        } else {
            None
        }
    } else {
        if item.text_at("type"@) == Some("agentMessage"@) {
            item.text_at("text"@)
        } else {
            None
        }
    }
}

/// The last text among the first `n` items.
pub open spec fn last_item_text(items: Seq<JsonView>, of_user: bool, n: nat) -> Option<Seq<char>>
    decreases n,
{
    if n == 0 {
        None
    } else {
        match item_text(items[n - 1], of_user) {
            Some(text) => Some(text),
            None => last_item_text(items, of_user, (n - 1) as nat),
        }
    }
}

/// The last text among the items of the first `n` turns.
pub open spec fn last_turn_text(turns: Seq<JsonView>, of_user: bool, n: nat) -> Option<Seq<char>>
    decreases n,
{
    if n == 0 {
        None
    } else {
        let items = entries(turns[n - 1].get("items"@));
        match last_item_text(items, of_user, items.len()) {
            Some(text) => Some(text),
            None => last_turn_text(turns, of_user, (n - 1) as nat),
        }
    }
}

/// The thread that a value describes: its state is that of its last turn.
pub open spec fn thread_of(value: JsonView) -> Option<ThreadInfoView> {
    let turns = entries(value.get("turns"@));
    let last = if turns.len() > 0 {
        Some(turns.last())
    } else {
        None
    };
    let own_status = text_or(
        json::opt_text_of(json::opt_get(value.get("status"@), "type"@)),
        "notLoaded"@,
    );
    match (value.text_at("id"@), value.text_at("cwd"@)) {
        (Some(id), Some(cwd)) => Some(
            ThreadInfoView {
                id,
                cwd,
                preview: text_or(
                    store::or_else(value.text_at("name"@), value.text_at("preview"@)),
                    "未命名任务"@,
                ),
                status: text_or(json::opt_text_of(json::opt_get(last, "status"@)), own_status),
                updated_at: match value.get("updatedAt"@) {
                    Some(at) => match at.signed() {
                        Some(n) => n,
                        None => 0,
                    },
                    None => 0,
                },
                turn_id: json::opt_text_of(json::opt_get(last, "id"@)),
                last_output: last_turn_text(turns, false, turns.len()),
                last_prompt: last_turn_text(turns, true, turns.len()),
                error: json::opt_text_of(json::opt_get(json::opt_get(last, "error"@), "message"@)),
            },
        ),
        _ => None,
    }
}

fn first_content(contents: &Vec<Json>) -> (result: Option<String>)
    ensures
        text::opt_text(result) == content_text(json::values(contents@), 0),
{
    let ghost values = json::values(contents@);
    let mut i: usize = 0;
    while i < contents.len()
        invariant
            i <= contents@.len(),
            values == json::values(contents@),
            content_text(values, 0) == content_text(values, i as int),
        decreases contents.len() - i,
    {
        assert(values[i as int] == contents@[i as int]@);
        let of_text = match contents[i].text_at("type") {
            Some(kind) => text_eq(kind, "text"),
            None => false,
        };
        if of_text {
            match contents[i].text_at("text") {
                Some(found) => {
                    return Some(found.to_owned());
                },
                None => {},
            }
        }
        i += 1;
    }
    None
}

fn text_of_item(item: &Json, of_user: bool) -> (result: Option<String>)
    ensures
        text::opt_text(result) == item_text(item@, of_user),
{
    let kind = match item.text_at("type") {
        Some(kind) => kind,
        None => {
            return None;
        },
    };
    if of_user {
        if !text_eq(kind, "userMessage") {
            return None;
        }
        match list_in(item.get("content")) {
            Some(contents) => first_content(contents),
            None => None,
        }
    } else if text_eq(kind, "agentMessage") {
        text::owned(item.text_at("text"))
    } else {
        None
    }
}

fn last_text_of_items(items: &Vec<Json>, of_user: bool) -> (result: Option<String>)
    ensures
        text::opt_text(result) == last_item_text(json::values(items@), of_user, items@.len()),
{
    let ghost values = json::values(items@);
    let mut n: usize = items.len();
    while n > 0
        invariant
            n <= items@.len(),
            values == json::values(items@),
            last_item_text(values, of_user, items@.len()) == last_item_text(
                values,
                of_user,
                n as nat,
            ),
        decreases n,
    {
        assert(values[n - 1] == items@[n - 1]@);
        let found = text_of_item(&items[n - 1], of_user);
        if found.is_some() {
            return found;
        }
        n -= 1;
    }
    None
}

fn last_text_of_turns(turns: &Vec<Json>, of_user: bool) -> (result: Option<String>)
    ensures
        text::opt_text(result) == last_turn_text(json::values(turns@), of_user, turns@.len()),
{
    let ghost values = json::values(turns@);
    let mut n: usize = turns.len();
    while n > 0
        invariant
            n <= turns@.len(),
            values == json::values(turns@),
            last_turn_text(values, of_user, turns@.len()) == last_turn_text(
                values,
                of_user,
                n as nat,
            ),
        decreases n,
    {
        assert(values[n - 1] == turns@[n - 1]@);
        match list_in(turns[n - 1].get("items")) {
            Some(items) => {
                assert(json::values(items@).len() == items@.len());
                let found = last_text_of_items(items, of_user);
                if found.is_some() {
                    return found;
                }
            },
            None => {},
        }
        n -= 1;
    }
    None
}

/// The thread that a value describes.
pub fn parse_thread(value: &Json) -> (result: Option<ThreadInfo>)
    ensures
        match result {
            Some(thread) => thread_of(value@) == Some(thread@),
            None => thread_of(value@) is None,
        },
{
    let ghost all = entries(value@.get("turns"@));
    let id = match value.text_at("id") {
        Some(id) => id.to_owned(),
        None => {
            return None;
        },
    };
    let cwd = match value.text_at("cwd") {
        Some(cwd) => cwd.to_owned(),
        None => {
            return None;
        },
    };
    let none: Vec<Json> = Vec::new();
    let turns = match list_in(value.get("turns")) {
        Some(turns) => turns,
        None => {
            assert(json::values(none@) =~= Seq::<JsonView>::empty());
            &none
        },
    };
    assert(json::values(turns@) == all);
    assert(all.len() == turns@.len());
    let last: Option<&Json> = if turns.len() > 0 {
        assert(all.last() == turns@[turns@.len() - 1]@);
        Some(&turns[turns.len() - 1])
    } else {
        None
    };
    let preview = match value.text_at("name") {
        Some(name) => name.to_owned(),
        None => match value.text_at("preview") {
            Some(preview) => preview.to_owned(),
            None => "未命名任务".to_owned(),
        },
    };
    let status = match json::text_in(json::field(last, "status")) {
        Some(status) => status.to_owned(),
        None => match json::text_in(json::field(value.get("status"), "type")) {
            Some(status) => status.to_owned(),
            None => "notLoaded".to_owned(),
        },
    };
    let updated_at: i64 = match value.get("updatedAt") {
        Some(at) => match at.as_signed() {
            Some(n) => n,
            None => 0,
        },
        None => 0,
    };
    Some(
        ThreadInfo {
            id,
            cwd,
            preview,
            status,
            updated_at,
            turn_id: text::owned(json::text_in(json::field(last, "id"))),
            last_output: last_text_of_turns(turns, false),
            last_prompt: last_text_of_turns(turns, true),
            error: text::owned(json::text_in(json::field(json::field(last, "error"), "message"))),
        },
    )
}

/// The threads that the first `n` entries describe.
pub open spec fn threads_read(items: Seq<JsonView>, n: nat) -> Seq<ThreadInfoView>
    decreases n,
{
    if n == 0 {
        Seq::empty()
    } else {
        let read = threads_read(items, (n - 1) as nat);
        match thread_of(items[n - 1]) {
            Some(thread) => read.push(thread),
            None => read,
        }
    }
}

/// Whether a thread is at work.
pub open spec fn at_work(status: Seq<char>) -> bool {
    status == "active"@ || status == "inProgress"@
}

/// The state of a task whose thread is no longer at work.
pub open spec fn ended_state(status: Seq<char>) -> Seq<char> {
    if status == "failed"@ || status == "systemError"@ {
        "failed"@
    } else if status == "interrupted"@ {
        "interrupted"@
    } else {
        "completed"@
    }
}

/// With the task of a thread ended, if the thread is no longer at work.
pub open spec fn reconciled(s: StoreView, thread: ThreadInfoView, now: i64) -> StoreView {
    match store::task_at(s.tasks, thread.id, 0) {
        Some(i) => if s.tasks[i].state == "active"@ && !at_work(thread.status) {
            store::task_moved(s, thread.id, s.tasks[i].turn_id, ended_state(thread.status), now)
        } else {
            s
        },
        None => s,
    }
}

/// With the tasks of the first `n` threads ended as far as they are.
pub open spec fn all_reconciled(s: StoreView, threads: Seq<ThreadInfoView>, n: nat, now: i64) -> StoreView
    decreases n,
{
    if n == 0 {
        s
    } else {
        reconciled(all_reconciled(s, threads, (n - 1) as nat, now), threads[n - 1], now)
    }
}

fn is_at_work(status: &str) -> (result: bool)
    ensures
        result == at_work(status@),
{
    text_eq(status, "active") || text_eq(status, "inProgress")
}

fn reconcile(store: &mut Store, thread: &ThreadInfo, now: i64)
    ensures
        final(store)@ == reconciled(old(store)@, thread@, now),
        store::consistent(old(store)@) ==> store::consistent(final(store)@),
{
    let task = match store.get_qq_task(thread.id.as_str()) {
        Some(task) => task,
        None => {
            return;
        },
    };
    let status = thread.status.as_str();
    if text_eq(task.state.as_str(), "active") && !is_at_work(status) {
        let state = if text_eq(status, "failed") || text_eq(status, "systemError") {
            "failed"
        } else if text_eq(status, "interrupted") {
            "interrupted"
        } else {
            "completed"
        };
        store.update_qq_task_state(thread.id.as_str(), task.turn_id.as_str(), state, now);
    }
}

/// The threads that an answer to `thread/list` describes. The tasks of those
/// that are no longer at work are ended.
pub fn list_threads(store: &mut Store, payload: &Json, now: i64) -> (result: Vec<ThreadInfo>)
    ensures
        ({
            let items = entries(payload@.get("data"@));
            let threads = threads_read(items, items.len());
            thread_infos(result@) == threads && final(store)@ == all_reconciled(
                old(store)@,
                threads,
                threads.len(),
                now,
            )
        }),
        store::consistent(old(store)@) ==> store::consistent(final(store)@),
{
    let ghost described = entries(payload@.get("data"@));
    let mut threads: Vec<ThreadInfo> = Vec::new();
    assert(thread_infos(threads@) =~= threads_read(described, 0));
    match list_in(payload.get("data")) {
        Some(items) => {
            for i in 0..items.len()
                invariant
                    described == json::values(items@),
                    thread_infos(threads@) == threads_read(described, i as nat),
            {
                let ghost held = thread_infos(threads@);
                assert(described[i as int] == items@[i as int]@);
                match parse_thread(&items[i]) {
                    Some(thread) => {
                        let ghost view = thread@;
                        threads.push(thread);
                        assert(thread_infos(threads@) =~= held.push(view));
                    },
                    None => {},
                }
            }
            assert(described.len() == items@.len());
        },
        None => {},
    }
    let ghost views = thread_infos(threads@);
    for i in 0..threads.len()
        invariant
            views == thread_infos(threads@),
            store@ == all_reconciled(old(store)@, views, i as nat, now),
            store::consistent(old(store)@) ==> store::consistent(store@),
    {
        assert(views[i as int] == threads@[i as int]@);
        reconcile(store, &threads[i], now);
    }
    assert(views.len() == threads@.len());
    threads
}

/// The parameters of `thread/list`.
pub open spec fn thread_list_json(limit: nat) -> JsonView {
    JsonView::Object(
        seq![
            (
                "limit"@,
                JsonView::Number(
                    NumberView::Unsigned(
                        if limit < 100 {
                            limit
                        } else {
                            100
                        },
                    ),
                ),
            ),
            ("sortKey"@, JsonView::Text("updated_at"@)),
            ("sortDirection"@, JsonView::Text("desc"@)),
        ],
    )
}

/// The parameters of `thread/list`.
pub fn thread_list_params(limit: usize) -> (result: Json)
    ensures
        result@ == thread_list_json(limit as nat),
{
    let count: u64 = if limit < 100 {
        limit as u64
    } else {
        100
    };
    let mut parts: Vec<(String, Json)> = Vec::new();
    parts.push(json::member("limit", Json::Number(JsonNumber::Unsigned(count))));
    parts.push(json::member("sortKey", json::text_json("updated_at")));
    parts.push(json::member("sortDirection", json::text_json("desc")));
    assert(json::members(parts@) =~= thread_list_json(limit as nat)->Object_0);
    json::object(parts)
}

/// The thread in an answer to `thread/read`.
pub fn read_thread(payload: &Json) -> (result: Result<ThreadInfo, ControlError>)
    ensures
        ({
            let described = match payload@.get("thread"@) {
                Some(thread) => thread_of(thread),
                None => None,
            };
            match result {
                Ok(thread) => described == Some(thread@),
                Err(error) => described is None && error@ == ControlErrorView::InvalidResponse(
                    "thread/read"@,
                ),
            }
        }),
{
    let thread = match payload.get("thread") {
        Some(thread) => parse_thread(thread),
        None => None,
    };
    match thread {
        Some(thread) => Ok(thread),
        None => Err(ControlError::InvalidResponse("thread/read")),
    }
}

// ---------------------------------------------------------------------------
// Requests
// ---------------------------------------------------------------------------

/// What the user says, as the app server expects it.
pub open spec fn input_json(prompt: Seq<char>) -> JsonView {
    JsonView::List(
        seq![
            JsonView::Object(
                seq![("type"@, JsonView::Text("text"@)), ("text"@, JsonView::Text(prompt))],
            ),
        ],
    )
}

/// The parameters of `turn/start`: nothing is asked back, and the whole machine
/// may be used.
pub open spec fn turn_start_json(
    thread_id: Seq<char>,
    cwd: Seq<char>,
    model: Seq<char>,
    effort: Seq<char>,
    prompt: Seq<char>,
) -> JsonView {
    JsonView::Object(
        seq![
            ("threadId"@, JsonView::Text(thread_id)),
            ("input"@, input_json(prompt)),
            ("cwd"@, JsonView::Text(cwd)),
            ("model"@, JsonView::Text(model)),
            ("effort"@, JsonView::Text(effort)),
            ("approvalPolicy"@, JsonView::Text("never"@)),
            (
                "sandboxPolicy"@,
                JsonView::Object(seq![("type"@, JsonView::Text("dangerFullAccess"@))]),
            ),
        ],
    )
}

fn input(prompt: &str) -> (result: Json)
    ensures
        result@ == input_json(prompt@),
{
    let ghost goal = input_json(prompt@)->List_0;
    let mut parts: Vec<(String, Json)> = Vec::new();
    parts.push(json::member("type", json::text_json("text")));
    parts.push(json::member("text", json::text_json(prompt)));
    assert(json::members(parts@) =~= goal[0]->Object_0);
    let mut items: Vec<Json> = Vec::new();
    items.push(json::object(parts));
    assert(json::values(items@) =~= goal);
    json::list(items)
}

/// The parameters of `turn/start`.
pub fn turn_start_params(
    thread_id: &str,
    cwd: &str,
    model: &str,
    effort: &str,
    prompt: &str,
) -> (result: Json)
    ensures
        result@ == turn_start_json(thread_id@, cwd@, model@, effort@, prompt@),
{
    let ghost goal = turn_start_json(thread_id@, cwd@, model@, effort@, prompt@)->Object_0;
    let mut policy: Vec<(String, Json)> = Vec::new();
    policy.push(json::member("type", json::text_json("dangerFullAccess")));
    assert(json::members(policy@) =~= goal[6].1->Object_0);
    let mut parts: Vec<(String, Json)> = Vec::new();
    parts.push(json::member("threadId", json::text_json(thread_id)));
    parts.push(json::member("input", input(prompt)));
    parts.push(json::member("cwd", json::text_json(cwd)));
    parts.push(json::member("model", json::text_json(model)));
    parts.push(json::member("effort", json::text_json(effort)));
    parts.push(json::member("approvalPolicy", json::text_json("never")));
    parts.push(json::member("sandboxPolicy", json::object(policy)));
    assert(json::members(parts@) =~= goal);
    json::object(parts)
}

/// The parameters of `turn/steer`.
pub open spec fn steer_json(thread_id: Seq<char>, turn_id: Seq<char>, prompt: Seq<char>) -> JsonView {
    JsonView::Object(
        seq![
            ("threadId"@, JsonView::Text(thread_id)),
            ("expectedTurnId"@, JsonView::Text(turn_id)),
            ("input"@, input_json(prompt)),
        ],
    )
}

/// The parameters of `turn/steer`.
pub fn steer(thread_id: &str, turn_id: &str, prompt: &str) -> (result: Json)
    ensures
        result@ == steer_json(thread_id@, turn_id@, prompt@),
{
    let mut parts: Vec<(String, Json)> = Vec::new();
    parts.push(json::member("threadId", json::text_json(thread_id)));
    parts.push(json::member("expectedTurnId", json::text_json(turn_id)));
    parts.push(json::member("input", input(prompt)));
    assert(json::members(parts@) =~= steer_json(thread_id@, turn_id@, prompt@)->Object_0);
    json::object(parts)
}

/// The parameters of `turn/interrupt`.
pub open spec fn interrupt_json(thread_id: Seq<char>, turn_id: Seq<char>) -> JsonView {
    JsonView::Object(
        seq![
            ("threadId"@, JsonView::Text(thread_id)),
            ("turnId"@, JsonView::Text(turn_id)),
        ],
    )
}

/// The parameters of `turn/interrupt`.
pub fn interrupt(thread_id: &str, turn_id: &str) -> (result: Json)
    ensures
        result@ == interrupt_json(thread_id@, turn_id@),
{
    let mut parts: Vec<(String, Json)> = Vec::new();
    parts.push(json::member("threadId", json::text_json(thread_id)));
    parts.push(json::member("turnId", json::text_json(turn_id)));
    assert(json::members(parts@) =~= interrupt_json(thread_id@, turn_id@)->Object_0);
    json::object(parts)
}

/// Records that a turn was interrupted.
pub fn interrupted(store: &mut Store, thread_id: &str, turn_id: &str, now: i64)
    ensures
        final(store)@ == store::task_moved(
            old(store)@,
            thread_id@,
            turn_id@,
            "interrupted"@,
            now,
        ),
        store::consistent(old(store)@) ==> store::consistent(final(store)@),
{
    store.update_qq_task_state(thread_id, turn_id, "interrupted", now);
}

/// What a notification of the app server makes of the state: the end of a turn
/// ends its task.
pub open spec fn notification_recorded(s: StoreView, notification: JsonView, now: i64) -> StoreView {
    let method = text_or(notification.text_at("method"@), ""@);
    let params = notification.get("params"@);
    let turn = json::opt_get(params, "turn"@);
    let thread_id = text_or(json::opt_text_of(json::opt_get(params, "threadId"@)), ""@);
    let turn_id = text_or(json::opt_text_of(json::opt_get(turn, "id"@)), ""@);
    let state = text_or(json::opt_text_of(json::opt_get(turn, "status"@)), "completed"@);
    if text::same_ascii(method, "turn/completed"@) && thread_id.len() > 0 && turn_id.len() > 0 {
        store::task_moved(s, thread_id, turn_id, state, now)
    } else {
        s
    }
}

fn str_or<'a>(value: Option<&'a str>, fallback: &'a str) -> (result: &'a str)
    ensures
        result@ == text_or(text::opt_str(value), fallback@),
{
    match value {
        Some(value) => value,
        None => fallback,
    }
}

/// Records a notification of the app server.
pub fn record_notification(store: &mut Store, notification: &Json, now: i64)
    ensures
        final(store)@ == notification_recorded(old(store)@, notification@, now),
        store::consistent(old(store)@) ==> store::consistent(final(store)@),
{
    proof {
        reveal_strlit("");
    }
    let method = str_or(notification.text_at("method"), "");
    if !text::eq_ignore_ascii_case(method, "turn/completed") {
        return;
    }
    let params = notification.get("params");
    let thread_id = str_or(json::text_in(json::field(params, "threadId")), "");
    let turn = json::field(params, "turn");
    let turn_id = str_or(json::text_in(json::field(turn, "id")), "");
    let state = str_or(json::text_in(json::field(turn, "status")), "completed");
    if !thread_id.is_empty() && !turn_id.is_empty() {
        store.update_qq_task_state(thread_id, turn_id, state, now);
    }
}

// ---------------------------------------------------------------------------
// Running a task
// ---------------------------------------------------------------------------

/// A task that was started.
#[derive(Debug, PartialEq, Eq)]
pub struct StartedTask {
    pub thread_id: String,
    pub turn_id: String,
}

/// A task on its way, by the answer that it waits for.
#[derive(Debug, PartialEq, Eq)]
pub enum TaskState {
    /// To `thread/start`.
    Starting { cwd: String, model: String, effort: String, prompt: String },
    /// To `thread/read`.
    Reading { thread_id: String, prompt: String, saved: Option<QQTaskInfo> },
    /// To `model/list`.
    Choosing { thread_id: String, cwd: String, prompt: String },
    /// To `thread/resume`.
    Resuming { thread_id: String, cwd: String, model: String, effort: String, prompt: String },
    /// To `turn/start`.
    Turning { thread_id: String, cwd: String, model: String, effort: String, prompt: String },
}

/// What a task on its way is.
pub enum TaskStateView {
    Starting { cwd: Seq<char>, model: Seq<char>, effort: Seq<char>, prompt: Seq<char> },
    Reading { thread_id: Seq<char>, prompt: Seq<char>, saved: Option<TaskView> },
    Choosing { thread_id: Seq<char>, cwd: Seq<char>, prompt: Seq<char> },
    Resuming {
        thread_id: Seq<char>,
        cwd: Seq<char>,
        model: Seq<char>,
        effort: Seq<char>,
        prompt: Seq<char>,
    },
    Turning {
        thread_id: Seq<char>,
        cwd: Seq<char>,
        model: Seq<char>,
        effort: Seq<char>,
        prompt: Seq<char>,
    },
}

pub open spec fn opt_task(task: Option<QQTaskInfo>) -> Option<TaskView> {
    match task {
        Some(task) => Some(task@),
        None => None,
    }
}

impl TaskState {
    pub open spec fn view(&self) -> TaskStateView {
        match self {
            TaskState::Starting { cwd, model, effort, prompt } => TaskStateView::Starting {
                cwd: cwd@,
                model: model@,
                effort: effort@,
                prompt: prompt@,
            },
            TaskState::Reading { thread_id, prompt, saved } => TaskStateView::Reading {
                thread_id: thread_id@,
                prompt: prompt@,
                saved: opt_task(*saved),
            },
            TaskState::Choosing { thread_id, cwd, prompt } => TaskStateView::Choosing {
                thread_id: thread_id@,
                cwd: cwd@,
                prompt: prompt@,
            },
            TaskState::Resuming { thread_id, cwd, model, effort, prompt } => {
                TaskStateView::Resuming {
                    thread_id: thread_id@,
                    cwd: cwd@,
                    model: model@,
                    effort: effort@,
                    prompt: prompt@,
                }
            },
            TaskState::Turning { thread_id, cwd, model, effort, prompt } => {
                TaskStateView::Turning {
                    thread_id: thread_id@,
                    cwd: cwd@,
                    model: model@,
                    effort: effort@,
                    prompt: prompt@,
                }
            },
        }
    }
}

/// The parameters of `thread/start`.
pub open spec fn thread_start_json(cwd: Seq<char>, model: Seq<char>) -> JsonView {
    JsonView::Object(
        seq![
            ("cwd"@, JsonView::Text(cwd)),
            ("model"@, JsonView::Text(model)),
            ("approvalPolicy"@, JsonView::Text("never"@)),
            ("sandbox"@, JsonView::Text("danger-full-access"@)),
        ],
    )
}

/// The parameters of `thread/resume`.
pub open spec fn thread_resume_json(thread_id: Seq<char>, cwd: Seq<char>, model: Seq<char>) -> JsonView {
    JsonView::Object(
        seq![
            ("threadId"@, JsonView::Text(thread_id)),
            ("cwd"@, JsonView::Text(cwd)),
            ("model"@, JsonView::Text(model)),
            ("approvalPolicy"@, JsonView::Text("never"@)),
            ("sandbox"@, JsonView::Text("danger-full-access"@)),
        ],
    )
}

/// The parameters of `thread/read`.
pub open spec fn thread_read_json(thread_id: Seq<char>) -> JsonView {
    JsonView::Object(
        seq![
            ("threadId"@, JsonView::Text(thread_id)),
            ("includeTurns"@, JsonView::Bool(true)),
        ],
    )
}

/// The request whose answer a task waits for: its method and its parameters.
pub open spec fn task_request(state: TaskStateView) -> (Seq<char>, JsonView) {
    match state {
        TaskStateView::Starting { cwd, model, .. } => (
            "thread/start"@,
            thread_start_json(cwd, model),
        ),
        TaskStateView::Reading { thread_id, .. } => ("thread/read"@, thread_read_json(thread_id)),
        TaskStateView::Choosing { .. } => ("model/list"@, JsonView::Object(Seq::empty())),
        TaskStateView::Resuming { thread_id, cwd, model, .. } => (
            "thread/resume"@,
            thread_resume_json(thread_id, cwd, model),
        ),
        TaskStateView::Turning { thread_id, cwd, model, effort, prompt } => (
            "turn/start"@,
            turn_start_json(thread_id, cwd, model, effort, prompt),
        ),
    }
}

/// The parameters of `thread/read`.
pub fn thread_read_params(thread_id: &str) -> (result: Json)
    ensures
        result@ == thread_read_json(thread_id@),
{
    let mut parts: Vec<(String, Json)> = Vec::new();
    parts.push(json::member("threadId", json::text_json(thread_id)));
    parts.push(json::member("includeTurns", Json::Bool(true)));
    assert(json::members(parts@) =~= thread_read_json(thread_id@)->Object_0);
    json::object(parts)
}

/// No parameters.
pub fn no_params() -> (result: Json)
    ensures
        result@ == JsonView::Object(Seq::empty()),
{
    let parts: Vec<(String, Json)> = Vec::new();
    assert(json::members(parts@) =~= Seq::<(Seq<char>, JsonView)>::empty());
    json::object(parts)
}

impl TaskState {
    /// The request whose answer the task waits for: its method and its
    /// parameters.
    pub fn request(&self) -> (result: (&'static str, Json))
        ensures
            task_request(self@) == (result.0@, result.1@),
    {
        match self {
            TaskState::Starting { cwd, model, .. } => {
                let mut parts: Vec<(String, Json)> = Vec::new();
                parts.push(json::member("cwd", json::text_json(cwd.as_str())));
                parts.push(json::member("model", json::text_json(model.as_str())));
                parts.push(json::member("approvalPolicy", json::text_json("never")));
                parts.push(json::member("sandbox", json::text_json("danger-full-access")));
                assert(json::members(parts@) =~= thread_start_json(cwd@, model@)->Object_0);
                ("thread/start", json::object(parts))
            },
            TaskState::Reading { thread_id, .. } => (
                "thread/read",
                thread_read_params(thread_id.as_str()),
            ),
            TaskState::Choosing { .. } => ("model/list", no_params()),
            TaskState::Resuming { thread_id, cwd, model, .. } => {
                let mut parts: Vec<(String, Json)> = Vec::new();
                parts.push(json::member("threadId", json::text_json(thread_id.as_str())));
                parts.push(json::member("cwd", json::text_json(cwd.as_str())));
                parts.push(json::member("model", json::text_json(model.as_str())));
                parts.push(json::member("approvalPolicy", json::text_json("never")));
                parts.push(json::member("sandbox", json::text_json("danger-full-access")));
                assert(json::members(parts@) =~= thread_resume_json(
                    thread_id@,
                    cwd@,
                    model@,
                )->Object_0);
                ("thread/resume", json::object(parts))
            },
            TaskState::Turning { thread_id, cwd, model, effort, prompt } => (
                "turn/start",
                turn_start_params(
                    thread_id.as_str(),
                    cwd.as_str(),
                    model.as_str(),
                    effort.as_str(),
                    prompt.as_str(),
                ),
            ),
        }
    }
}

/// Begins a new task, unless too many are running.
pub fn start_task(store: &Store, cwd: &str, model: &str, effort: &str, prompt: &str) -> (result:
    Result<TaskState, ControlError>)
    ensures
        match result {
            Ok(state) => store::running_tasks(store@) < MAX_RUNNING_TASKS && state@
                == (TaskStateView::Starting {
                cwd: cwd@,
                model: model@,
                effort: effort@,
                prompt: prompt@,
            }),
            Err(error) => store::running_tasks(store@) >= MAX_RUNNING_TASKS && error@
                == ControlErrorView::TooManyRunningTasks,
        },
{
    if store.count_running_qq_tasks() >= MAX_RUNNING_TASKS {
        return Err(ControlError::TooManyRunningTasks);
    }
    Ok(
        TaskState::Starting {
            cwd: cwd.to_owned(),
            model: model.to_owned(),
            effort: effort.to_owned(),
            prompt: prompt.to_owned(),
        },
    )
}

/// The task of a thread, if there is one.
pub open spec fn task_of(s: StoreView, thread_id: Seq<char>) -> Option<TaskView> {
    match store::task_at(s.tasks, thread_id, 0) {
        Some(i) => Some(s.tasks[i]),
        None => None,
    }
}

/// Goes on with a thread, unless too many tasks are running.
pub fn continue_task(store: &Store, thread_id: &str, prompt: &str) -> (result: Result<
    TaskState,
    ControlError,
>)
    ensures
        match result {
            Ok(state) => store::running_tasks(store@) < MAX_RUNNING_TASKS && state@
                == (TaskStateView::Reading {
                thread_id: thread_id@,
                prompt: prompt@,
                saved: task_of(store@, thread_id@),
            }),
            Err(error) => store::running_tasks(store@) >= MAX_RUNNING_TASKS && error@
                == ControlErrorView::TooManyRunningTasks,
        },
{
    if store.count_running_qq_tasks() >= MAX_RUNNING_TASKS {
        return Err(ControlError::TooManyRunningTasks);
    }
    let saved = store.get_qq_task(thread_id);
    Ok(
        TaskState::Reading { thread_id: thread_id.to_owned(), prompt: prompt.to_owned(), saved },
    )
}

/// How far an answer brought a task.
#[derive(Debug, PartialEq, Eq)]
pub enum TaskProgress {
    Next(TaskState),
    Started(StartedTask),
}

pub enum TaskProgressView {
    Next(TaskStateView),
    Started { thread_id: Seq<char>, turn_id: Seq<char> },
}

impl TaskProgress {
    pub open spec fn view(&self) -> TaskProgressView {
        match self {
            TaskProgress::Next(state) => TaskProgressView::Next(state@),
            TaskProgress::Started(task) => TaskProgressView::Started {
                thread_id: task.thread_id@,
                turn_id: task.turn_id@,
            },
        }
    }
}

pub open spec fn progress_result(result: Result<TaskProgress, ControlError>) -> Result<
    TaskProgressView,
    ControlErrorView,
> {
    match result {
        Ok(progress) => Ok(progress@),
        Err(error) => Err(error@),
    }
}

/// The id in an answer, below a name.
pub open spec fn id_below(payload: JsonView, name: Seq<char>) -> Option<Seq<char>> {
    json::opt_text_of(json::opt_get(payload.get(name), "id"@))
}

/// What an answer makes of a task and of the state: a thread is started or
/// resumed before its turn is, and once the turn has started the task runs.
pub open spec fn task_advanced(
    s: StoreView,
    state: TaskStateView,
    payload: JsonView,
    now: i64,
) -> (StoreView, Result<TaskProgressView, ControlErrorView>) {
    match state {
        TaskStateView::Starting { cwd, model, effort, prompt } => (
            s,
            match id_below(payload, "thread"@) {
                Some(thread_id) => Ok(
                    TaskProgressView::Next(
                        TaskStateView::Turning { thread_id, cwd, model, effort, prompt },
                    ),
                ),
                None => Err(ControlErrorView::InvalidResponse("thread/start"@)),
            },
        ),
        TaskStateView::Reading { thread_id, prompt, saved } => (
            s,
            match payload.get("thread"@) {
                None => Err(ControlErrorView::InvalidResponse("thread/read"@)),
                Some(described) => match thread_of(described) {
                    None => Err(ControlErrorView::InvalidResponse("thread/read"@)),
                    Some(thread) => if at_work(thread.status) {
                        Err(ControlErrorView::AlreadyRunning)
                    } else {
                        Ok(
                            TaskProgressView::Next(
                                match saved {
                                    Some(task) => TaskStateView::Resuming {
                                        thread_id,
                                        cwd: task.cwd,
                                        model: task.model,
                                        effort: task.effort,
                                        prompt,
                                    },
                                    None => TaskStateView::Choosing {
                                        thread_id,
                                        cwd: thread.cwd,
                                        prompt,
                                    },
                                },
                            ),
                        )
                    },
                },
            },
        ),
        TaskStateView::Choosing { thread_id, cwd, prompt } => {
            let models = models_offered(payload);
            (
                s,
                match model_chosen(models, store::setting(s, "qq_last_model"@)) {
                    Some(i) => Ok(
                        TaskProgressView::Next(
                            TaskStateView::Resuming {
                                thread_id,
                                cwd,
                                model: models[i].model,
                                effort: effort_chosen(
                                    models[i],
                                    store::setting(s, "qq_last_effort"@),
                                ),
                                prompt,
                            },
                        ),
                    ),
                    None => Err(ControlErrorView::InvalidResponse("model/list"@)),
                },
            )
        },
        TaskStateView::Resuming { thread_id, cwd, model, effort, prompt } => (
            s,
            Ok(
                TaskProgressView::Next(
                    TaskStateView::Turning { thread_id, cwd, model, effort, prompt },
                ),
            ),
        ),
        TaskStateView::Turning { thread_id, cwd, model, effort, .. } => match id_below(
            payload,
            "turn"@,
        ) {
            Some(turn_id) => (
                store::with_task(
                    s,
                    TaskView {
                        thread_id,
                        turn_id,
                        cwd,
                        model,
                        effort,
                        state: "active"@,
                        updated_at: now,
                    },
                ),
                Ok(TaskProgressView::Started { thread_id, turn_id }),
            ),
            None => (s, Err(ControlErrorView::InvalidResponse("turn/start"@))),
        },
    }
}

impl TaskState {
    /// Takes in the answer that the task waits for.
    pub fn advance(self, store: &mut Store, payload: &Json, now: i64) -> (result: Result<
        TaskProgress,
        ControlError,
    >)
        ensures
            (final(store)@, progress_result(result)) == task_advanced(
                old(store)@,
                self@,
                payload@,
                now,
            ),
            store::consistent(old(store)@) ==> store::consistent(final(store)@),
    {
        match self {
            TaskState::Starting { cwd, model, effort, prompt } => {
                match json::text_in(json::field(payload.get("thread"), "id")) {
                    Some(id) => Ok(
                        TaskProgress::Next(
                            TaskState::Turning {
                                thread_id: id.to_owned(),
                                cwd,
                                model,
                                effort,
                                prompt,
                            },
                        ),
                    ),
                    None => Err(ControlError::InvalidResponse("thread/start")),
                }
            },
            TaskState::Reading { thread_id, prompt, saved } => {
                let thread = match read_thread(payload) {
                    Ok(thread) => thread,
                    Err(error) => {
                        return Err(error);
                    },
                };
                if is_at_work(thread.status.as_str()) {
                    return Err(ControlError::AlreadyRunning);
                }
                match saved {
                    Some(task) => Ok(
                        TaskProgress::Next(
                            TaskState::Resuming {
                                thread_id,
                                cwd: task.cwd,
                                model: task.model,
                                effort: task.effort,
                                prompt,
                            },
                        ),
                    ),
                    None => Ok(
                        TaskProgress::Next(
                            TaskState::Choosing { thread_id, cwd: thread.cwd, prompt },
                        ),
                    ),
                }
            },
            TaskState::Choosing { thread_id, cwd, prompt } => {
                let models = list_models(payload);
                let last_model = store.get_setting("qq_last_model");
                let last_effort = store.get_setting("qq_last_effort");
                match choose_model(&models, &last_model) {
                    Some(i) => {
                        assert(model_views(models@)[i as int] == models@[i as int]@);
                        let effort = choose_effort(&models[i], &last_effort);
                        Ok(
                            TaskProgress::Next(
                                TaskState::Resuming {
                                    thread_id,
                                    cwd,
                                    model: models[i].model.clone(),
                                    effort,
                                    prompt,
                                },
                            ),
                        )
                    },
                    None => Err(ControlError::InvalidResponse("model/list")),
                }
            },
            TaskState::Resuming { thread_id, cwd, model, effort, prompt } => Ok(
                TaskProgress::Next(TaskState::Turning { thread_id, cwd, model, effort, prompt }),
            ),
            TaskState::Turning { thread_id, cwd, model, effort, .. } => {
                match json::text_in(json::field(payload.get("turn"), "id")) {
                    Some(id) => {
                        let task = QQTaskInfo {
                            thread_id,
                            turn_id: id.to_owned(),
                            cwd,
                            model,
                            effort,
                            state: "active".to_owned(),
                            updated_at: now,
                        };
                        store.upsert_qq_task(&task);
                        Ok(
                            TaskProgress::Started(
                                StartedTask { thread_id: task.thread_id, turn_id: task.turn_id },
                            ),
                        )
                    },
                    None => Err(ControlError::InvalidResponse("turn/start")),
                }
            },
        }
    }
}

// ---------------------------------------------------------------------------
// Laws
// ---------------------------------------------------------------------------

proof fn lemma_filter_push<T>(items: Seq<T>, item: T, pred: spec_fn(T) -> bool)
    ensures
        items.push(item).filter(pred).len() <= items.filter(pred).len() + 1,
{
    reveal(Seq::filter);
    assert(items.push(item).drop_last() =~= items);
}

proof fn lemma_filter_update<T>(items: Seq<T>, at: int, item: T, pred: spec_fn(T) -> bool)
    requires
        0 <= at < items.len(),
    ensures
        items.update(at, item).filter(pred).len() <= items.filter(pred).len() + 1,
    decreases items.len(),
{
    reveal(Seq::filter);
    let rest = items.drop_last();
    if at == items.len() - 1 {
        assert(items.update(at, item).drop_last() =~= rest);
    } else {
        assert(items.update(at, item).drop_last() =~= rest.update(at, item));
        lemma_filter_update(rest, at, item, pred);
    }
}

proof fn lemma_task_found(rows: Seq<TaskView>, thread: Seq<char>, from: int)
    requires
        0 <= from,
    ensures
        store::task_at(rows, thread, from) matches Some(i) ==> from <= i < rows.len(),
    decreases rows.len() - from,
{
    if from < rows.len() {
        lemma_task_found(rows, thread, from + 1);
    }
}

/// No answer lets more tasks run than are allowed, if fewer ran before: what is
/// begun only below the limit stays within it.
pub proof fn lemma_tasks_stay_within_limit(
    s: StoreView,
    state: TaskStateView,
    payload: JsonView,
    now: i64,
)
    requires
        store::running_tasks(s) < MAX_RUNNING_TASKS,
    ensures
        store::running_tasks(task_advanced(s, state, payload, now).0) <= MAX_RUNNING_TASKS,
{
    let pred = store::active_task();
    if let TaskStateView::Turning { thread_id, cwd, model, effort, .. } = state {
        if let Some(turn_id) = id_below(payload, "turn"@) {
            let task = TaskView {
                thread_id,
                turn_id,
                cwd,
                model,
                effort,
                state: "active"@,
                updated_at: now,
            };
            lemma_task_found(s.tasks, thread_id, 0);
            match store::task_at(s.tasks, thread_id, 0) {
                Some(i) => lemma_filter_update(s.tasks, i, task, pred),
                None => lemma_filter_push(s.tasks, task, pred),
            }
        }
    }
}

/// A thread that is at work gets no second turn: its answer ends the attempt.
pub proof fn lemma_one_turn_at_a_time(
    s: StoreView,
    thread_id: Seq<char>,
    prompt: Seq<char>,
    saved: Option<TaskView>,
    payload: JsonView,
    thread: ThreadInfoView,
    now: i64,
)
    requires
        payload.get("thread"@) is Some,
        thread_of(payload.get("thread"@)->0) == Some(thread),
        at_work(thread.status),
    ensures
        task_advanced(s, TaskStateView::Reading { thread_id, prompt, saved }, payload, now) == (
            s,
            Err::<TaskProgressView, ControlErrorView>(ControlErrorView::AlreadyRunning),
        ),
{
}

/// A task that was started is there, with its turn, and runs.
pub proof fn lemma_started_task_runs(
    s: StoreView,
    state: TaskStateView,
    payload: JsonView,
    now: i64,
)
    ensures
        task_advanced(s, state, payload, now).1 matches Ok(
            TaskProgressView::Started { thread_id, turn_id },
        ) ==> {
            let task = task_of(task_advanced(s, state, payload, now).0, thread_id);
            task matches Some(task) && task.turn_id == turn_id && task.state == "active"@
        },
{
    let (after, result) = task_advanced(s, state, payload, now);
    if let Ok(TaskProgressView::Started { thread_id, turn_id }) = result {
        lemma_task_found(s.tasks, thread_id, 0);
        lemma_task_placed(s.tasks, after.tasks, thread_id, 0);
    }
}

proof fn lemma_task_placed(old_rows: Seq<TaskView>, rows: Seq<TaskView>, thread: Seq<char>, from: int)
    requires
        0 <= from <= old_rows.len(),
        match store::task_at(old_rows, thread, from) {
            Some(i) => from <= i < old_rows.len() && rows == old_rows.update(i, rows[i])
                && rows[i].thread_id == thread,
            None => rows == old_rows.push(rows[old_rows.len() as int])
                && rows[old_rows.len() as int].thread_id == thread,
        },
    ensures
        store::task_at(rows, thread, from) == Some(
            match store::task_at(old_rows, thread, from) {
                Some(i) => i,
                None => old_rows.len() as int,
            },
        ),
    decreases old_rows.len() - from,
{
    if from < old_rows.len() {
        if old_rows[from].thread_id != thread {
            lemma_task_found(old_rows, thread, from + 1);
            lemma_task_placed(old_rows, rows, thread, from + 1);
        }
    }
}

/// Whether `states` are the states of a task one after another: each answer,
/// whatever the store holds when it comes, leads from one to the next.
pub open spec fn task_path(
    states: Seq<TaskStateView>,
    stores: Seq<StoreView>,
    answers: Seq<JsonView>,
    times: Seq<i64>,
) -> bool {
    &&& states.len() > 0
    &&& stores.len() + 1 == states.len()
    &&& answers.len() + 1 == states.len()
    &&& times.len() + 1 == states.len()
    &&& forall|i: int|
        0 <= i < answers.len() ==> (#[trigger] task_advanced(
            stores[i],
            states[i],
            answers[i],
            times[i],
        )).1 == Ok::<TaskProgressView, ControlErrorView>(TaskProgressView::Next(states[i + 1]))
}

/// The text that a request brings to Codex as its only input.
pub open spec fn brings(params: JsonView, prompt: Seq<char>) -> bool {
    params.get("input"@) matches Some(JsonView::List(items)) && items.len() == 1
        && items[0].get("type"@) == Some(JsonView::Text("text"@)) && items[0].get("text"@) == Some(
        JsonView::Text(prompt),
    )
}

proof fn lemma_turn_members(
    thread_id: Seq<char>,
    cwd: Seq<char>,
    model: Seq<char>,
    effort: Seq<char>,
    prompt: Seq<char>,
)
    ensures
        ({
            let params = turn_start_json(thread_id, cwd, model, effort, prompt);
            &&& params.get("threadId"@) == Some(JsonView::Text(thread_id))
            &&& brings(params, prompt)
            &&& params.get("cwd"@) == Some(JsonView::Text(cwd))
            &&& params.get("model"@) == Some(JsonView::Text(model))
            &&& params.get("effort"@) == Some(JsonView::Text(effort))
            &&& params.get("approvalPolicy"@) == Some(JsonView::Text("never"@))
        }),
{
    reveal_strlit("threadId");
    reveal_strlit("input");
    reveal_strlit("cwd");
    reveal_strlit("model");
    reveal_strlit("effort");
    reveal_strlit("approvalPolicy");
    reveal_strlit("sandboxPolicy");
    reveal_strlit("type");
    reveal_strlit("text");
    assert("threadId"@.len() == 8);
    assert("cwd"@.len() == 3);
    assert("effort"@.len() == 6);
    assert("approvalPolicy"@.len() == 14);
    assert("input"@.len() == 5 && "model"@.len() == 5);
    assert("input"@[0] != "model"@[0]);
    assert("type"@[1] != "text"@[1]);
    let params = turn_start_json(thread_id, cwd, model, effort, prompt);
    let members = params->Object_0;
    assert(members.drop_first()[0] == members[1]);
    assert(members.drop_first().drop_first()[0] == members[2]);
    assert(members.drop_first().drop_first().drop_first()[0] == members[3]);
    assert(members.drop_first().drop_first().drop_first().drop_first()[0] == members[4]);
    reveal_with_fuel(json::member_of, 7);
    let item = input_json(prompt)->List_0[0];
    assert(item.get("type"@) == Some(JsonView::Text("text"@)));
    assert(item->Object_0.drop_first()[0] == item->Object_0[1]);
    assert(item.get("text"@) == Some(JsonView::Text(prompt)));
}

proof fn lemma_methods_differ()
    ensures
        "turn/start"@ != "thread/start"@,
        "turn/start"@ != "thread/read"@,
        "turn/start"@ != "model/list"@,
        "turn/start"@ != "thread/resume"@,
{
    reveal_strlit("turn/start");
    reveal_strlit("thread/start");
    reveal_strlit("thread/read");
    reveal_strlit("model/list");
    reveal_strlit("thread/resume");
    assert("turn/start"@.len() == 10);
    assert("thread/start"@.len() == 12);
    assert("thread/read"@.len() == 11);
    assert("turn/start"@[0] != "model/list"@[0]);
    assert("thread/resume"@.len() == 13);
}

/// The states of a new task that have been: the thread is started first, and
/// then its turn.
proof fn lemma_start_path(
    states: Seq<TaskStateView>,
    stores: Seq<StoreView>,
    answers: Seq<JsonView>,
    times: Seq<i64>,
    n: int,
)
    requires
        task_path(states, stores, answers, times),
        states[0] is Starting,
        0 <= n < states.len(),
    ensures
        n <= 1,
        n == 1 ==> states[1] is Turning && Some(states[1]->Turning_thread_id) == id_below(
            answers[0],
            "thread"@,
        ) && states[1]->Turning_cwd == states[0]->Starting_cwd && states[1]->Turning_model
            == states[0]->Starting_model && states[1]->Turning_effort == states[0]->Starting_effort
            && states[1]->Turning_prompt == states[0]->Starting_prompt,
{
    if n > 0 {
        assert(task_advanced(stores[0], states[0], answers[0], times[0]).1 == Ok::<
            TaskProgressView,
            ControlErrorView,
        >(TaskProgressView::Next(states[1])));
    }
    if n > 1 {
        assert(task_advanced(stores[1], states[1], answers[1], times[1]).1 == Ok::<
            TaskProgressView,
            ControlErrorView,
        >(TaskProgressView::Next(states[2])));
    }
}

/// What the user wrote is what the turn of a new task is started with, in the
/// directory, with the model and with the effort that they chose, in the thread
/// that was started for it. The request for the turn is the second one.
pub proof fn lemma_new_task_does_what_was_asked(
    states: Seq<TaskStateView>,
    stores: Seq<StoreView>,
    answers: Seq<JsonView>,
    times: Seq<i64>,
    n: int,
    cwd: Seq<char>,
    model: Seq<char>,
    effort: Seq<char>,
    prompt: Seq<char>,
)
    requires
        task_path(states, stores, answers, times),
        states[0] == (TaskStateView::Starting { cwd, model, effort, prompt }),
        0 <= n < states.len(),
    ensures
        ({
            let (method, params) = task_request(states[n]);
            if n == 0 {
                &&& method == "thread/start"@
                &&& params.get("cwd"@) == Some(JsonView::Text(cwd))
                &&& params.get("model"@) == Some(JsonView::Text(model))
            } else {
                &&& n == 1
                &&& method == "turn/start"@
                &&& brings(params, prompt)
                &&& params.get("threadId"@) == (match json::opt_get(
                    answers[0].get("thread"@),
                    "id"@,
                ) {
                    Some(JsonView::Text(id)) => Some(JsonView::Text(id)),
                    _ => None,
                })
                &&& params.get("cwd"@) == Some(JsonView::Text(cwd))
                &&& params.get("model"@) == Some(JsonView::Text(model))
                &&& params.get("effort"@) == Some(JsonView::Text(effort))
            }
        }),
{
    lemma_start_path(states, stores, answers, times, n);
    reveal_strlit("cwd");
    reveal_strlit("model");
    if n == 1 {
        lemma_turn_members(states[1]->Turning_thread_id, cwd, model, effort, prompt);
    } else {
        reveal_with_fuel(json::member_of, 3);
        assert("cwd"@.len() != "model"@.len());
    }
}

/// The states of a task that goes on keep its thread and what was asked.
proof fn lemma_continue_path(
    states: Seq<TaskStateView>,
    stores: Seq<StoreView>,
    answers: Seq<JsonView>,
    times: Seq<i64>,
    n: int,
    thread: Seq<char>,
    asked: Seq<char>,
    task: Option<TaskView>,
)
    requires
        task_path(states, stores, answers, times),
        states[0] == (TaskStateView::Reading { thread_id: thread, prompt: asked, saved: task }),
        0 <= n < states.len(),
    ensures
        match states[n] {
            TaskStateView::Starting { .. } => false,
            TaskStateView::Reading { thread_id, prompt, saved } => n == 0 && thread_id == thread
                && prompt == asked,
            TaskStateView::Choosing { thread_id, cwd, prompt } => n == 1 && task is None
                && thread_id == thread && prompt == asked,
            TaskStateView::Resuming { thread_id, cwd, model, effort, prompt } => {
                &&& n == (if task is Some {
                    1int
                } else {
                    2int
                })
                &&& thread_id == thread
                &&& prompt == asked
                &&& task matches Some(t) ==> cwd == t.cwd && model == t.model && effort == t.effort
            },
            TaskStateView::Turning { thread_id, cwd, model, effort, prompt } => {
                &&& n == (if task is Some {
                    2int
                } else {
                    3int
                })
                &&& thread_id == thread
                &&& prompt == asked
                &&& task matches Some(t) ==> cwd == t.cwd && model == t.model && effort == t.effort
            },
        },
    decreases n,
{
    if n > 0 {
        lemma_continue_path(states, stores, answers, times, n - 1, thread, asked, task);
        assert(task_advanced(stores[n - 1], states[n - 1], answers[n - 1], times[n - 1]).1 == Ok::<
            TaskProgressView,
            ControlErrorView,
        >(TaskProgressView::Next(states[n])));
    }
}

/// What the user wrote is what the turn of a task that goes on is started with,
/// in that task's own thread, whatever answers came before. The thread is read
/// and resumed first. A task that was started here keeps its directory, its
/// model and its effort, and the request for its turn is the third one; of
/// another one the models are asked for before.
pub proof fn lemma_task_goes_on_as_asked(
    states: Seq<TaskStateView>,
    stores: Seq<StoreView>,
    answers: Seq<JsonView>,
    times: Seq<i64>,
    n: int,
    thread_id: Seq<char>,
    prompt: Seq<char>,
    saved: Option<TaskView>,
)
    requires
        task_path(states, stores, answers, times),
        states[0] == (TaskStateView::Reading { thread_id, prompt, saved }),
        0 <= n < states.len(),
    ensures
        ({
            let (method, params) = task_request(states[n]);
            let turn = if saved is Some {
                2int
            } else {
                3int
            };
            &&& n <= turn
            &&& n == 0 ==> method == "thread/read"@
            &&& n == 1 && saved is None ==> method == "model/list"@
            &&& n == turn - 1 ==> method == "thread/resume"@
            &&& n != 1 || saved is Some ==> params.get("threadId"@) == Some(
                JsonView::Text(thread_id),
            )
            &&& n == turn <==> method == "turn/start"@
            &&& n == turn ==> brings(params, prompt)
            &&& n >= 1 ==> (saved matches Some(task) ==> params.get("cwd"@) == Some(
                JsonView::Text(task.cwd),
            ) && params.get("model"@) == Some(JsonView::Text(task.model)))
            &&& n == turn ==> (saved matches Some(task) ==> params.get("effort"@) == Some(
                JsonView::Text(task.effort),
            ))
        }),
{
    lemma_continue_path(states, stores, answers, times, n, thread_id, prompt, saved);
    lemma_methods_differ();
    reveal_strlit("threadId");
    reveal_strlit("cwd");
    reveal_strlit("model");
    assert("threadId"@.len() == 8);
    assert("cwd"@.len() == 3);
    assert("model"@.len() == 5);
    reveal_with_fuel(json::member_of, 4);
    if let TaskStateView::Turning { thread_id, cwd, model, effort, prompt } = states[n] {
        lemma_turn_members(thread_id, cwd, model, effort, prompt);
    }
}

/// A turn that was started is the one that the answer names, in the thread that
/// was asked for it, and that is told and kept: the task has that turn, and the
/// directory, the model and the effort that it was started with.
pub proof fn lemma_started_turn_is_kept(
    s: StoreView,
    thread_id: Seq<char>,
    cwd: Seq<char>,
    model: Seq<char>,
    effort: Seq<char>,
    prompt: Seq<char>,
    answer: JsonView,
    turn_id: Seq<char>,
    now: i64,
)
    requires
        json::opt_get(answer.get("turn"@), "id"@) == Some(JsonView::Text(turn_id)),
    ensures
        ({
            let (after, result) = task_advanced(
                s,
                TaskStateView::Turning { thread_id, cwd, model, effort, prompt },
                answer,
                now,
            );
            &&& result == Ok::<TaskProgressView, ControlErrorView>(
                TaskProgressView::Started { thread_id, turn_id },
            )
            &&& task_of(after, thread_id) == Some(
                TaskView {
                    thread_id,
                    turn_id,
                    cwd,
                    model,
                    effort,
                    state: "active"@,
                    updated_at: now,
                },
            )
        }),
{
    let state = TaskStateView::Turning { thread_id, cwd, model, effort, prompt };
    let after = task_advanced(s, state, answer, now).0;
    lemma_task_found(s.tasks, thread_id, 0);
    lemma_task_placed(s.tasks, after.tasks, thread_id, 0);
}

/// A turn is steered with what the user wrote, and stopped, by the names of its
/// thread and of itself.
pub proof fn lemma_turn_is_addressed(thread_id: Seq<char>, turn_id: Seq<char>, prompt: Seq<char>)
    ensures
        brings(steer_json(thread_id, turn_id, prompt), prompt),
        steer_json(thread_id, turn_id, prompt).get("threadId"@) == Some(JsonView::Text(thread_id)),
        steer_json(thread_id, turn_id, prompt).get("expectedTurnId"@) == Some(
            JsonView::Text(turn_id),
        ),
        interrupt_json(thread_id, turn_id).get("threadId"@) == Some(JsonView::Text(thread_id)),
        interrupt_json(thread_id, turn_id).get("turnId"@) == Some(JsonView::Text(turn_id)),
{
    reveal_strlit("threadId");
    reveal_strlit("expectedTurnId");
    reveal_strlit("turnId");
    reveal_strlit("input");
    reveal_strlit("type");
    reveal_strlit("text");
    assert("type"@[1] != "text"@[1]);
    assert("threadId"@.len() == 8);
    assert("expectedTurnId"@.len() == 14);
    assert("turnId"@.len() == 6);
    assert("input"@.len() == 5);
    reveal_with_fuel(json::member_of, 4);
}

/// The end of a turn ends its task, in the way that the app server tells, and
/// no other task: not another thread's, and not a later turn of the same one.
pub proof fn lemma_task_ends_with_its_turn(
    s: StoreView,
    notification: JsonView,
    thread_id: Seq<char>,
    turn_id: Seq<char>,
    state: Seq<char>,
    now: i64,
    k: int,
)
    requires
        notification.get("method"@) == Some(JsonView::Text("turn/completed"@)),
        notification.get("params"@) is Some,
        notification.get("params"@)->0.get("threadId"@) == Some(JsonView::Text(thread_id)),
        notification.get("params"@)->0.get("turn"@) is Some,
        notification.get("params"@)->0.get("turn"@)->0.get("id"@) == Some(JsonView::Text(turn_id)),
        notification.get("params"@)->0.get("turn"@)->0.get("status"@) == Some(
            JsonView::Text(state),
        ),
        thread_id.len() > 0,
        turn_id.len() > 0,
        0 <= k < s.tasks.len(),
    ensures
        ({
            let after = notification_recorded(s, notification, now);
            let task = s.tasks[k];
            &&& after == (StoreView { tasks: after.tasks, ..s })
            &&& after.tasks.len() == s.tasks.len()
            &&& task.thread_id == thread_id && task.turn_id == turn_id ==> after.tasks[k] == (
            TaskView { state, updated_at: now, ..task })
            &&& task.thread_id != thread_id || task.turn_id != turn_id ==> after.tasks[k] == task
        }),
{
}

/// A notification of anything else than the end of a turn changes nothing.
pub proof fn lemma_other_notifications_change_nothing(
    s: StoreView,
    notification: JsonView,
    method: Seq<char>,
    now: i64,
)
    requires
        notification.get("method"@) == Some(JsonView::Text(method)),
        text::ascii_lower(method) != text::ascii_lower("turn/completed"@),
    ensures
        notification_recorded(s, notification, now) == s,
{
}

/// A task runs as long as its thread is at work and no longer: a list that
/// tells of its thread ends it exactly if the thread is not at work, as failed,
/// interrupted or completed; tasks of other threads are as they were.
pub proof fn lemma_task_runs_with_its_thread(s: StoreView, thread: ThreadInfoView, now: i64, k: int)
    requires
        store::consistent(s),
        0 <= k < s.tasks.len(),
    ensures
        ({
            let after = reconciled(s, thread, now);
            let task = s.tasks[k];
            let then = after.tasks[k];
            &&& after == (StoreView { tasks: after.tasks, ..s })
            &&& after.tasks.len() == s.tasks.len()
            &&& task.thread_id != thread.id || task.state != "active"@ ==> then == task
            &&& thread.status == "active"@ || thread.status == "inProgress"@ ==> then == task
            &&& task.thread_id == thread.id && task.state == "active"@ && thread.status
                != "active"@ && thread.status != "inProgress"@ ==> {
                &&& then.state == "failed"@ <==> thread.status == "failed"@ || thread.status
                    == "systemError"@
                &&& then.state == "interrupted"@ <==> thread.status == "interrupted"@
                &&& then.state == "failed"@ || then.state == "interrupted"@ || then.state
                    == "completed"@
                &&& then.updated_at == now
                &&& then.turn_id == task.turn_id
            }
        }),
{
    reveal_strlit("failed");
    reveal_strlit("interrupted");
    reveal_strlit("completed");
    reveal_strlit("systemError");
    assert("failed"@.len() == 6);
    assert("interrupted"@.len() == 11 && "systemError"@.len() == 11);
    assert("interrupted"@[0] != "systemError"@[0]);
    assert("completed"@.len() == 9);
    lemma_task_found(s.tasks, thread.id, 0);
    lemma_task_at(s.tasks, thread.id, 0);
}

proof fn lemma_task_at(rows: Seq<TaskView>, thread: Seq<char>, from: int)
    requires
        0 <= from <= rows.len(),
    ensures
        match store::task_at(rows, thread, from) {
            Some(i) => from <= i < rows.len() && rows[i].thread_id == thread,
            None => forall|i: int|
                from <= i < rows.len() ==> (#[trigger] rows[i]).thread_id != thread,
        },
    decreases rows.len() - from,
{
    if from < rows.len() && rows[from].thread_id != thread {
        lemma_task_at(rows, thread, from + 1);
    }
}

proof fn lemma_model_places(models: Seq<ModelView>, name: Seq<char>, from: int)
    requires
        0 <= from <= models.len(),
    ensures
        match model_named(models, name, from) {
            Some(i) => from <= i < models.len() && models[i].model == name,
            None => forall|i: int| from <= i < models.len() ==> (#[trigger] models[i]).model != name,
        },
        match default_model(models, from) {
            Some(i) => from <= i < models.len() && models[i].is_default,
            None => forall|i: int|
                from <= i < models.len() ==> !(#[trigger] models[i]).is_default,
        },
    decreases models.len() - from,
{
    if from < models.len() {
        lemma_model_places(models, name, from + 1);
    }
}

/// The model that a task goes on with is one that is offered: the one that was
/// used last, if it is, or else the default, if there is one. The effort is one
/// that the model has, or the model's own: the one that was used last, if the
/// model has it.
pub proof fn lemma_offered_model_is_chosen(
    models: Seq<ModelView>,
    last: Option<Seq<char>>,
    last_effort: Option<Seq<char>>,
    k: int,
)
    requires
        0 <= k < models.len(),
    ensures
        model_chosen(models, last) matches Some(i) && 0 <= i < models.len() && {
            &&& models[k].model == last->0 && last is Some ==> models[i].model == last->0
            &&& models[k].is_default ==> models[i].is_default || (last is Some && models[i].model
                == last->0)
            &&& models[k].efforts.len() > 0 ==> effort_chosen(models[k], last_effort)
                == models[k].default_effort || models[k].efforts.contains(
                effort_chosen(models[k], last_effort),
            )
            &&& last_effort matches Some(effort) ==> (models[k].efforts.contains(effort)
                ==> effort_chosen(models[k], last_effort) == effort)
            &&& last_effort is None ==> effort_chosen(models[k], last_effort)
                == models[k].default_effort
        },
{
    if let Some(name) = last {
        lemma_model_places(models, name, 0);
    } else {
        lemma_model_places(models, Seq::empty(), 0);
    }
}

} // verus!
