//! The dialogue that creates and controls tasks from the chat.
use vstd::prelude::*;
use vstd::utf8;
use crate::clock;
use crate::codex_control;
use crate::codex_control::{
    ControlError, ControlErrorView, ModelInfo, ModelView, StartedTask, ThreadInfo, ThreadInfoView,
};
use crate::commands;
use crate::digest;
use crate::directories;
use crate::qq_menu;
use crate::qq_menu::{MenuButton, MenuReply, ReplyContent};
use crate::security;
use crate::store;
use crate::store::{Store, StoreView};
use crate::text;
use crate::text::text_eq;

verus! {

/// How long a dialogue waits for the user, in microseconds.
pub const WIZARD_TTL: i64 = 900_000_000;

/// How much of an error or an output a task's details show, in characters.
pub const OUTCOME_LIMIT: usize = 500;

/// How many threads are asked for.
pub const THREAD_LIMIT: usize = 20;

// ---------------------------------------------------------------------------
// The dialogue
// ---------------------------------------------------------------------------

/// What the dialogue waits for.
#[derive(Debug, PartialEq, Eq)]
pub enum Stage {
    Idle,
    AwaitPath,
    AwaitPrompt,
    Confirm,
    AwaitContinue(String),
    AwaitSteer { thread_id: String, turn_id: String },
}

/// What the dialogue waits for.
pub enum StageView {
    Idle,
    AwaitPath,
    AwaitPrompt,
    Confirm,
    AwaitContinue(Seq<char>),
    AwaitSteer { thread_id: Seq<char>, turn_id: Seq<char> },
}

impl Stage {
    pub open spec fn view(&self) -> StageView {
        match self {
            Stage::Idle => StageView::Idle,
            Stage::AwaitPath => StageView::AwaitPath,
            Stage::AwaitPrompt => StageView::AwaitPrompt,
            Stage::Confirm => StageView::Confirm,
            Stage::AwaitContinue(thread_id) => StageView::AwaitContinue(thread_id@),
            Stage::AwaitSteer { thread_id, turn_id } => StageView::AwaitSteer {
                thread_id: thread_id@,
                turn_id: turn_id@,
            },
        }
    }
}

/// The dialogue and what was chosen in it.
#[derive(Debug)]
pub struct Wizard {
    pub stage: Stage,
    pub cwd: Option<String>,
    pub model: Option<String>,
    pub effort: Option<String>,
    pub prompt: Option<String>,
    pub expires_at: i64,
}

/// What a dialogue is.
pub struct WizardView {
    pub stage: StageView,
    pub cwd: Option<Seq<char>>,
    pub model: Option<Seq<char>>,
    pub effort: Option<Seq<char>>,
    pub prompt: Option<Seq<char>>,
    pub expires_at: i64,
}

/// A dialogue that waits for nothing.
pub open spec fn idle_wizard(now: i64) -> WizardView {
    WizardView {
        stage: StageView::Idle,
        cwd: None,
        model: None,
        effort: None,
        prompt: None,
        expires_at: now,
    }
}

/// With its whole time before it.
pub open spec fn touched(wizard: WizardView, now: i64) -> WizardView {
    WizardView { expires_at: clock::moved(now as int, WIZARD_TTL as int) as i64, ..wizard }
}

/// Whether the time of a dialogue is over.
pub open spec fn expired(wizard: WizardView, now: i64) -> bool {
    !(wizard.stage is Idle) && now >= wizard.expires_at
}

/// The dialogue as a message finds it: one whose time is over is forgotten.
pub open spec fn lasting(wizard: WizardView, now: i64) -> WizardView {
    if expired(wizard, now) {
        idle_wizard(now)
    } else {
        wizard
    }
}

impl Wizard {
    pub open spec fn view(&self) -> WizardView {
        WizardView {
            stage: self.stage@,
            cwd: text::opt_text(self.cwd),
            model: text::opt_text(self.model),
            effort: text::opt_text(self.effort),
            prompt: text::opt_text(self.prompt),
            expires_at: self.expires_at,
        }
    }

    pub fn new(now: i64) -> (result: Wizard)
        ensures
            result@ == idle_wizard(now),
    {
        Wizard {
            stage: Stage::Idle,
            cwd: None,
            model: None,
            effort: None,
            prompt: None,
            expires_at: now,
        }
    }

    /// Gives the dialogue its whole time again.
    pub fn touch(&mut self, now: i64)
        ensures
            final(self)@ == touched(old(self)@, now),
    {
        self.expires_at = clock::move_by(now, WIZARD_TTL);
    }

    /// Forgets the dialogue.
    pub fn reset(&mut self, now: i64)
        ensures
            final(self)@ == idle_wizard(now),
    {
        *self = Wizard::new(now);
    }

    /// Whether the dialogue waits for something. One whose time is over is
    /// forgotten.
    pub fn active(&mut self, now: i64) -> (result: bool)
        ensures
            final(self)@ == lasting(old(self)@, now),
            result == !(final(self)@.stage is Idle),
    {
        let idle = match &self.stage {
            Stage::Idle => true,
            _ => false,
        };
        if !idle && now >= self.expires_at {
            self.reset(now);
            return false;
        }
        !idle
    }
}

// ---------------------------------------------------------------------------
// Texts
// ---------------------------------------------------------------------------

/// A value on one redacted line, with an ellipsis where it is cut.
pub open spec fn shortened(value: Seq<char>, limit: nat) -> Seq<char> {
    let clean = text::compacted(security::without_breaks(security::redacted(value)));
    if clean.len() <= limit {
        clean
    } else {
        clean.take(limit as int) + "…"@
    }
}

/// A value on one redacted line, with an ellipsis where it is cut.
pub fn shorten(value: &str, limit: usize) -> (result: String)
    ensures
        result@ == shortened(value@, limit as nat),
{
    let redacted = security::redact_secrets(value);
    let first = text::replace_char(redacted.as_str(), '\r', ' ');
    let second = text::replace_char(first.as_str(), '\n', ' ');
    let clean = text::compact(second.as_str());
    let chars = text::chars_of(clean.as_str());
    if chars.len() <= limit {
        clean
    } else {
        let mut result = text::text_between(&chars, 0, limit);
        assert(chars@.subrange(0, limit as int) =~= clean@.take(limit as int));
        result.append("…");
        result
    }
}

/// The state of a thread in words.
pub open spec fn thread_status(status: Seq<char>) -> Seq<char> {
    if codex_control::at_work(status) {
        "运行中"@
    } else if status == "completed"@ || status == "idle"@ {
        "已完成"@
    } else if status == "failed"@ || status == "systemError"@ {
        "失败"@
    } else if status == "interrupted"@ {
        "已停止"@
    } else {
        "未知"@
    }
}

/// The state of a thread in words.
pub fn status_text(status: &str) -> (result: &'static str)
    ensures
        result@ == thread_status(status@),
{
    if text_eq(status, "active") || text_eq(status, "inProgress") {
        "运行中"
    } else if text_eq(status, "completed") || text_eq(status, "idle") {
        "已完成"
    } else if text_eq(status, "failed") || text_eq(status, "systemError") {
        "失败"
    } else if text_eq(status, "interrupted") {
        "已停止"
    } else {
        "未知"
    }
}

/// What a task came to: why it failed at the last, else what it said last.
pub open spec fn outcome_shown(thread: ThreadInfoView) -> Seq<char> {
    match (thread.error, thread.last_output) {
        (Some(error), _) => "\n错误："@ + shortened(error, OUTCOME_LIMIT as nat),
        (None, Some(output)) => "\n最新输出："@ + shortened(output, OUTCOME_LIMIT as nat),
        (None, None) => seq![],
    }
}

/// What is said of a task.
pub open spec fn task_shown(thread: ThreadInfoView) -> Seq<char> {
    "任务："@ + shortened(thread.preview, 100) + "\n状态："@ + thread_status(thread.status)
        + "\n目录："@ + thread.cwd + "\n任务 ID："@ + thread.id + outcome_shown(thread)
}

/// What is said of a task.
pub fn task_text(thread: &ThreadInfo) -> (result: String)
    ensures
        result@ == task_shown(thread@),
{
    let mut result = "任务：".to_owned();
    let preview = shorten(thread.preview.as_str(), 100);
    result.append(preview.as_str());
    result.append("\n状态：");
    result.append(status_text(thread.status.as_str()));
    result.append("\n目录：");
    result.append(thread.cwd.as_str());
    result.append("\n任务 ID：");
    result.append(thread.id.as_str());
    match (&thread.error, &thread.last_output) {
        (Some(error), _) => {
            let shown = shorten(error.as_str(), OUTCOME_LIMIT);
            result.append("\n错误：");
            result.append(shown.as_str());
            assert(result@ == task_shown(thread@));
        },
        (None, Some(output)) => {
            let shown = shorten(output.as_str(), OUTCOME_LIMIT);
            result.append("\n最新输出：");
            result.append(shown.as_str());
            assert(result@ == task_shown(thread@));
        },
        (None, None) => {
            assert(result@ == task_shown(thread@));
        },
    }
    result
}

/// A value as it stands in the command of a button.
pub open spec fn encoded(value: Seq<char>) -> Seq<char> {
    digest::url_base64(utf8::encode_utf8(value))
}

/// The value that the command of a button holds.
pub open spec fn decoded(value: Seq<char>) -> Option<Seq<char>> {
    match digest::url_base64_bytes(text::trimmed(value)) {
        Some(bytes) => digest::utf8_text(bytes),
        None => None,
    }
}

proof fn lemma_trimmed_whole(shown: Seq<char>)
    requires
        forall|i: int| 0 <= i < shown.len() ==> !text::is_space(#[trigger] shown[i]),
    ensures
        text::trimmed(shown) == shown,
{
    reveal_with_fuel(text::trimmed_start, 2);
    reveal_with_fuel(text::trimmed_end, 2);
}

/// A value as it stands in the command of a button. It can be read back.
pub fn encode(value: &str) -> (result: String)
    ensures
        result@ == encoded(value@),
        decoded(result@) == Some(value@),
{
    let result = digest::encode_base64(value.as_bytes());
    proof {
        utf8::encode_utf8_valid_utf8(value@);
        utf8::encode_utf8_decode_utf8(value@);
        assert forall|i: int| 0 <= i < result@.len() implies !text::is_space(
            #[trigger] result@[i],
        ) by {
            assert(digest::is_base64_char(result@[i]));
        }
        lemma_trimmed_whole(result@);
    }
    result
}

/// The value that the command of a button holds.
pub fn decode(value: &str) -> (result: Result<String, ControlError>)
    ensures
        match result {
            Ok(found) => decoded(value@) == Some(found@),
            Err(error) => decoded(value@) is None && error@ == ControlErrorView::InvalidResponse(
                "encoded menu value"@,
            ),
        },
{
    let trimmed = text::trim(value);
    let bytes = match digest::decode_base64(trimmed.as_str()) {
        Some(bytes) => bytes,
        None => {
            return Err(ControlError::InvalidResponse("encoded menu value"));
        },
    };
    match digest::text_from_utf8(bytes) {
        Some(found) => Ok(found),
        None => Err(ControlError::InvalidResponse("encoded menu value")),
    }
}

// ---------------------------------------------------------------------------
// Menus
// ---------------------------------------------------------------------------

/// A reply with buttons.
pub open spec fn menu_of(text: Seq<char>, rows: Seq<Seq<(Seq<char>, Seq<char>)>>) -> ReplyContent {
    ReplyContent { text, keyboard: Some(qq_menu::keyboard_json(rows)) }
}

/// A reply without buttons.
pub open spec fn plain(text: Seq<char>) -> ReplyContent {
    ReplyContent { text, keyboard: None }
}

pub open spec fn button(label: Seq<char>, command: Seq<char>) -> Seq<(Seq<char>, Seq<char>)> {
    seq![(label, command)]
}

pub(crate) fn one(label: &str, command: &str) -> (result: Vec<MenuButton>)
    ensures
        qq_menu::row_view(result@) == button(label@, command@),
{
    let mut row: Vec<MenuButton> = Vec::new();
    row.push(MenuButton::new(label, command));
    assert(qq_menu::row_view(row@) =~= button(label@, command@));
    row
}

pub(crate) fn two(first: &str, command: &str, second: &str, other: &str) -> (result: Vec<MenuButton>)
    ensures
        qq_menu::row_view(result@) == seq![(first@, command@), (second@, other@)],
{
    let mut row: Vec<MenuButton> = Vec::new();
    row.push(MenuButton::new(first, command));
    row.push(MenuButton::new(second, other));
    assert(qq_menu::row_view(row@) =~= seq![(first@, command@), (second@, other@)]);
    row
}

pub(crate) fn with_prefix(prefix: &str, value: &str) -> (result: String)
    ensures
        result@ == prefix@ + value@,
{
    let mut result = prefix.to_owned();
    result.append(value);
    result
}

pub(crate) fn push_row(rows: &mut Vec<Vec<MenuButton>>, row: Vec<MenuButton>)
    ensures
        qq_menu::rows_view(final(rows)@) == qq_menu::rows_view(old(rows)@).push(
            qq_menu::row_view(row@),
        ),
{
    let ghost held = qq_menu::rows_view(rows@);
    let ghost view = qq_menu::row_view(row@);
    rows.push(row);
    assert(qq_menu::rows_view(rows@) =~= held.push(view));
}

pub(crate) fn no_rows() -> (result: Vec<Vec<MenuButton>>)
    ensures
        qq_menu::rows_view(result@) == Seq::<Seq<(Seq<char>, Seq<char>)>>::empty(),
{
    let rows: Vec<Vec<MenuButton>> = Vec::new();
    assert(qq_menu::rows_view(rows@) =~= Seq::<Seq<(Seq<char>, Seq<char>)>>::empty());
    rows
}

/// What answers an operation that failed.
pub open spec fn failure_menu(message: Seq<char>) -> ReplyContent {
    menu_of(
        "操作失败："@ + shortened(message, 240),
        seq![button("重试菜单"@, "/menu"@), button("任务列表"@, "/tasks"@)],
    )
}

/// What answers an operation that failed.
pub fn error_reply(message: &str) -> (result: MenuReply)
    ensures
        result@ == failure_menu(message@),
{
    let detail = shorten(message, 240);
    let shown = with_prefix("操作失败：", detail.as_str());
    let mut rows = no_rows();
    push_row(&mut rows, one("重试菜单", "/menu"));
    push_row(&mut rows, one("任务列表", "/tasks"));
    assert(qq_menu::rows_view(rows@) =~= seq![
        button("重试菜单"@, "/menu"@),
        button("任务列表"@, "/tasks"@),
    ]);
    MenuReply::menu(shown.as_str(), &rows)
}

/// The main menu.
pub open spec fn main_menu_of(s: StoreView) -> ReplyContent {
    menu_of(qq_menu::main_menu_text(store::running_tasks(s)), qq_menu::main_menu_rows())
}

fn menu(store: &Store) -> (result: MenuReply)
    ensures
        result@ == main_menu_of(store@),
{
    qq_menu::main_menu(store.count_running_qq_tasks())
}

/// The distinct usable directories of the first `n` threads, at most four.
pub open spec fn directories(threads: Seq<ThreadInfoView>, usable: Seq<bool>, n: nat) -> Seq<Seq<char>>
    decreases n,
{
    if n == 0 {
        Seq::empty()
    } else {
        let found = directories(threads, usable, (n - 1) as nat);
        let cwd = threads[n - 1].cwd;
        if found.len() < 4 && !found.contains(cwd) && usable[n - 1] {
            found.push(cwd)
        } else {
            found
        }
    }
}

/// The buttons that choose one of some directories.
pub open spec fn choices(found: Seq<Seq<char>>) -> Seq<Seq<(Seq<char>, Seq<char>)>> {
    Seq::new(
        found.len(),
        |i: int| button(shortened(found[i], 24), "/ui cwd "@ + encoded(found[i])),
    )
}

pub(crate) fn choice_rows(found: &Vec<String>) -> (result: Vec<Vec<MenuButton>>)
    ensures
        qq_menu::rows_view(result@) == choices(text::texts(found@)),
{
    let ghost dirs = text::texts(found@);
    let ghost shown = choices(dirs);
    let mut rows = no_rows();
    assert(shown.take(0) =~= Seq::empty());
    for i in 0..found.len()
        invariant
            dirs == text::texts(found@),
            shown == choices(dirs),
            qq_menu::rows_view(rows@) == shown.take(i as int),
    {
        let label = shorten(found[i].as_str(), 24);
        let value = encode(found[i].as_str());
        let command = with_prefix("/ui cwd ", value.as_str());
        push_row(&mut rows, one(label.as_str(), command.as_str()));
        assert(shown.take(i + 1) =~= shown.take(i as int).push(shown[i as int]));
    }
    assert(shown.take(dirs.len() as int) =~= shown);
    rows
}

/// The menu of directories.
pub open spec fn directory_menu(found: Seq<Seq<char>>) -> ReplyContent {
    menu_of(
        "新建任务 · 选择工作目录\n可选最近目录，或输入电脑上的任意绝对路径。"@,
        choices(found).push(
            seq![("收藏目录"@, "/ui favorites"@), ("浏览磁盘"@, "/ui disks"@)],
        ).push(button("输入绝对路径"@, "/ui path"@)).push(button("取消"@, "/cancel"@)),
    )
}

/// The menu of models.
pub open spec fn model_choice(models: Seq<ModelView>) -> ReplyContent {
    let shown = store::first_of(models, 8);
    menu_of(
        "选择模型"@,
        Seq::new(
            shown.len(),
            |i: int|
                button(
                    shown[i].display_name + (if shown[i].is_default {
                        "（默认）"@
                    } else {
                        ""@
                    }),
                    "/ui model "@ + encoded(shown[i].model),
                ),
        ).push(button("取消"@, "/cancel"@)),
    )
}

/// The efforts that a model has.
pub open spec fn efforts_of(model: ModelView) -> Seq<Seq<char>> {
    if model.efforts.len() == 0 {
        seq![model.default_effort]
    } else {
        model.efforts
    }
}

/// The menu of efforts.
pub open spec fn effort_choice(model: ModelView) -> ReplyContent {
    let efforts = efforts_of(model);
    menu_of(
        "模型："@ + model.display_name + "\n选择推理强度"@,
        Seq::new(
            efforts.len(),
            |i: int| button(efforts[i], "/ui effort "@ + encoded(efforts[i])),
        ).push(button("取消"@, "/cancel"@)),
    )
}

/// The model and the effort that were used last, if they can be used again.
pub open spec fn saved_model(
    models: Seq<ModelView>,
    model: Option<Seq<char>>,
    effort: Option<Seq<char>>,
) -> Option<ModelView> {
    match (model, effort) {
        (Some(name), Some(effort)) => match codex_control::model_named(models, name, 0) {
            Some(i) => if models[i].efforts.len() == 0 || models[i].efforts.contains(effort) {
                Some(models[i])
            } else {
                None
            },
            None => None,
        },
        _ => None,
    }
}

/// The model that was used last, if it can be used again with its effort.
pub fn valid_saved_model<'a>(
    models: &'a Vec<ModelInfo>,
    model: Option<&str>,
    effort: Option<&str>,
) -> (result: Option<&'a ModelInfo>)
    ensures
        match result {
            Some(found) => saved_model(
                codex_control::model_views(models@),
                text::opt_str(model),
                text::opt_str(effort),
            ) == Some(found@),
            None => saved_model(
                codex_control::model_views(models@),
                text::opt_str(model),
                text::opt_str(effort),
            ) is None,
        },
{
    let ghost views = codex_control::model_views(models@);
    let (name, wanted) = match (model, effort) {
        (Some(name), Some(wanted)) => (name, wanted),
        _ => {
            return None;
        },
    };
    let mut i: usize = 0;
    while i < models.len()
        invariant
            i <= models@.len(),
            views == codex_control::model_views(models@),
            text::opt_str(model) == Some(name@),
            codex_control::model_named(views, name@, 0) == codex_control::model_named(
                views,
                name@,
                i as int,
            ),
            text::opt_str(effort) == Some(wanted@),
        decreases models.len() - i,
    {
        assert(views[i as int] == models@[i as int]@);
        if text_eq(models[i].model.as_str(), name) {
            assert(text::texts(models@[i as int].efforts@).len()
                == models@[i as int].efforts@.len());
            if models[i].efforts.len() == 0 || codex_control::list_has(&models[i].efforts, wanted) {
                return Some(&models[i]);
            }
            return None;
        }
        i += 1;
    }
    None
}

// ---------------------------------------------------------------------------
// Steps
// ---------------------------------------------------------------------------

/// What is to be done for a message.
#[derive(Debug, PartialEq, Eq)]
pub enum ControlStep {
    /// The chat is answered.
    Reply(MenuReply),
    /// Threads are listed; `begin_new` goes on.
    ListForNew,
    /// Threads are listed; `tasks` goes on.
    ListTasks { running_only: bool },
    /// A thread is read; `task_detail` goes on.
    ReadTask { thread_id: String },
    /// A thread is read; `await_continue` goes on.
    ReadForContinue { thread_id: String },
    /// It is found out whether a path is an absolute directory; `select_path`
    /// goes on.
    CheckPath { cwd: String },
    /// The disks are listed; `directories::browse_disks` goes on.
    ListDisks,
    /// The subdirectories of a directory are listed;
    /// `directories::browse_directory` goes on.
    ListDirectories { path: String, page: u64 },
    /// A directory is kept; `directories::keep_directory` does it.
    Keep { cwd: String },
    /// Models are listed; `path_models` goes on.
    ModelsForPath { cwd: String },
    /// Models are listed; `model_menu_from` goes on.
    ModelsForMenu,
    /// Models are listed; `use_last_config` goes on.
    ModelsForLast { model: String, effort: String },
    /// Models are listed; `select_model` goes on.
    ModelsForChoice { name: String },
    /// A task is started; `started` goes on.
    Start { cwd: String, model: String, effort: String, prompt: String },
    /// A thread is continued; `continued` goes on.
    Continue { thread_id: String, prompt: String },
    /// A turn is steered; `steered` goes on.
    Steer { thread_id: String, turn_id: String, prompt: String },
    /// A turn is interrupted; `stopped` goes on.
    Stop { thread_id: String, turn_id: String },
}

/// What is to be done for a message.
pub enum ControlStepView {
    Reply(ReplyContent),
    ListForNew,
    ListTasks { running_only: bool },
    ReadTask { thread_id: Seq<char> },
    ReadForContinue { thread_id: Seq<char> },
    CheckPath { cwd: Seq<char> },
    ListDisks,
    ListDirectories { path: Seq<char>, page: u64 },
    Keep { cwd: Seq<char> },
    ModelsForPath { cwd: Seq<char> },
    ModelsForMenu,
    ModelsForLast { model: Seq<char>, effort: Seq<char> },
    ModelsForChoice { name: Seq<char> },
    Start { cwd: Seq<char>, model: Seq<char>, effort: Seq<char>, prompt: Seq<char> },
    Continue { thread_id: Seq<char>, prompt: Seq<char> },
    Steer { thread_id: Seq<char>, turn_id: Seq<char>, prompt: Seq<char> },
    Stop { thread_id: Seq<char>, turn_id: Seq<char> },
}

impl ControlStep {
    pub open spec fn view(&self) -> ControlStepView {
        match self {
            ControlStep::Reply(reply) => ControlStepView::Reply(reply@),
            ControlStep::ListForNew => ControlStepView::ListForNew,
            ControlStep::ListTasks { running_only } => ControlStepView::ListTasks {
                running_only: *running_only,
            },
            ControlStep::ReadTask { thread_id } => ControlStepView::ReadTask {
                thread_id: thread_id@,
            },
            ControlStep::ReadForContinue { thread_id } => ControlStepView::ReadForContinue {
                thread_id: thread_id@,
            },
            ControlStep::CheckPath { cwd } => ControlStepView::CheckPath { cwd: cwd@ },
            ControlStep::ListDisks => ControlStepView::ListDisks,
            ControlStep::ListDirectories { path, page } => ControlStepView::ListDirectories {
                path: path@,
                page: *page,
            },
            ControlStep::Keep { cwd } => ControlStepView::Keep { cwd: cwd@ },
            ControlStep::ModelsForPath { cwd } => ControlStepView::ModelsForPath { cwd: cwd@ },
            ControlStep::ModelsForMenu => ControlStepView::ModelsForMenu,
            ControlStep::ModelsForLast { model, effort } => ControlStepView::ModelsForLast {
                model: model@,
                effort: effort@,
            },
            ControlStep::ModelsForChoice { name } => ControlStepView::ModelsForChoice {
                name: name@,
            },
            ControlStep::Start { cwd, model, effort, prompt } => ControlStepView::Start {
                cwd: cwd@,
                model: model@,
                effort: effort@,
                prompt: prompt@,
            },
            ControlStep::Continue { thread_id, prompt } => ControlStepView::Continue {
                thread_id: thread_id@,
                prompt: prompt@,
            },
            ControlStep::Steer { thread_id, turn_id, prompt } => ControlStepView::Steer {
                thread_id: thread_id@,
                turn_id: turn_id@,
                prompt: prompt@,
            },
            ControlStep::Stop { thread_id, turn_id } => ControlStepView::Stop {
                thread_id: thread_id@,
                turn_id: turn_id@,
            },
        }
    }
}

/// The failure that the answer `what` cannot be used.
pub open spec fn refusal(what: Seq<char>) -> ControlStepView {
    ControlStepView::Reply(
        failure_menu(
            codex_control::control_message(ControlErrorView::InvalidResponse(what)),
        ),
    )
}

fn refuse(what: &'static str) -> (result: ControlStep)
    ensures
        result@ == refusal(what@),
{
    let error = ControlError::InvalidResponse(what);
    let message = error.message();
    ControlStep::Reply(error_reply(message.as_str()))
}

/// What a click on a button that leads through the directories does.
pub open spec fn browse_step(s: StoreView, arguments: Seq<char>) -> ControlStepView {
    if arguments == "favorites"@ {
        ControlStepView::Reply(directories::favorites_menu(s))
    } else if arguments == "disks"@ {
        ControlStepView::ListDisks
    } else if text::begins(arguments, "dir "@) {
        match decoded(arguments.skip(4)) {
            Some(path) => ControlStepView::ListDirectories { path, page: 0 },
            None => refusal("encoded menu value"@),
        }
    } else if text::begins(arguments, "keep "@) {
        match decoded(arguments.skip(5)) {
            Some(cwd) => ControlStepView::Keep { cwd },
            None => refusal("encoded menu value"@),
        }
    } else if text::begins(arguments, "page "@) {
        match two_words(arguments.skip(5)) {
            Some((number, value)) => match (
                text::parsed_unsigned(number, u64::MAX as nat),
                decoded(value),
            ) {
                (Some(page), Some(path)) => ControlStepView::ListDirectories {
                    path,
                    page: page as u64,
                },
                _ => refusal("encoded menu value"@),
            },
            None => refusal("encoded menu value"@),
        }
    } else {
        refusal("menu action"@)
    }
}

/// What a click on a button of the dialogue does.
pub open spec fn ui_step(w: WizardView, s: StoreView, arguments: Seq<char>, now: i64) -> (
    WizardView,
    ControlStepView,
) {
    if arguments == "path"@ {
        (
            touched(WizardView { stage: StageView::AwaitPath, ..w }, now),
            ControlStepView::Reply(
                plain(
                    "请发送电脑上的绝对目录路径，例如 E:\\CodexWorkspace\\Project。发送 /cancel 取消。"@,
                ),
            ),
        )
    } else if arguments == "models"@ {
        (w, ControlStepView::ModelsForMenu)
    } else if arguments == "last"@ {
        (
            w,
            match (store::setting(s, "qq_last_model"@), store::setting(s, "qq_last_effort"@)) {
                (None, _) => refusal("saved model"@),
                (Some(_), None) => refusal("saved effort"@),
                (Some(model), Some(effort)) => ControlStepView::ModelsForLast { model, effort },
            },
        )
    } else if arguments == "start"@ {
        if w.stage is Confirm {
            (
                idle_wizard(now),
                ControlStepView::Start {
                    cwd: codex_control::text_or(w.cwd, ""@),
                    model: codex_control::text_or(w.model, ""@),
                    effort: codex_control::text_or(w.effort, ""@),
                    prompt: codex_control::text_or(w.prompt, ""@),
                },
            )
        } else {
            (
                w,
                ControlStepView::Reply(plain("启动确认已失效，请发送 /new 重新创建任务。"@)),
            )
        }
    } else if text::begins(arguments, "cwd "@) {
        (
            w,
            match decoded(arguments.skip(4)) {
                Some(cwd) => ControlStepView::CheckPath { cwd },
                None => refusal("encoded menu value"@),
            },
        )
    } else if text::begins(arguments, "model "@) {
        (
            w,
            match decoded(arguments.skip(6)) {
                Some(name) => ControlStepView::ModelsForChoice { name },
                None => refusal("encoded menu value"@),
            },
        )
    } else if text::begins(arguments, "effort "@) {
        match decoded(arguments.skip(7)) {
            Some(effort) => (
                touched(
                    WizardView { effort: Some(effort), stage: StageView::AwaitPrompt, ..w },
                    now,
                ),
                ControlStepView::Reply(
                    plain("请发送任务内容。完整内容只保存在内存中，提交后即清除。"@),
                ),
            ),
            None => (w, refusal("encoded menu value"@)),
        }
    } else {
        (w, browse_step(s, arguments))
    }
}

/// What is said before a task is started.
pub open spec fn confirmation(w: WizardView, prompt: Seq<char>) -> ReplyContent {
    menu_of(
        "确认启动\n目录："@ + codex_control::text_or(w.cwd, "未选择"@) + "\n模型："@
            + codex_control::text_or(w.model, "未选择"@) + " / "@ + codex_control::text_or(
            w.effort,
            "未选择"@,
        ) + "\n任务："@ + shortened(prompt, 120),
        seq![button("启动任务"@, "/ui start"@), button("取消"@, "/cancel"@)],
    )
}

/// What a text does that is no command.
pub open spec fn input_step(w: WizardView, s: StoreView, content: Seq<char>, now: i64) -> (
    WizardView,
    ControlStepView,
) {
    match w.stage {
        StageView::AwaitPath => (w, ControlStepView::CheckPath { cwd: content }),
        StageView::AwaitPrompt => if content.len() == 0 {
            (w, ControlStepView::Reply(plain("任务内容不能为空，请重新发送。"@)))
        } else {
            (
                touched(
                    WizardView { prompt: Some(content), stage: StageView::Confirm, ..w },
                    now,
                ),
                ControlStepView::Reply(confirmation(w, content)),
            )
        },
        StageView::AwaitContinue(thread_id) => (
            idle_wizard(now),
            ControlStepView::Continue { thread_id, prompt: content },
        ),
        StageView::AwaitSteer { thread_id, turn_id } => (
            idle_wizard(now),
            ControlStepView::Steer { thread_id, turn_id, prompt: content },
        ),
        StageView::Confirm => (
            w,
            ControlStepView::Reply(plain("请点击“启动任务”，或发送 /cancel。"@)),
        ),
        StageView::Idle => (w, ControlStepView::Reply(main_menu_of(s))),
    }
}

/// The thread and the turn that a command names.
pub open spec fn two_words(arguments: Seq<char>) -> Option<(Seq<char>, Seq<char>)> {
    let words = text::words(arguments);
    if words.len() >= 2 {
        Some((words[0], words[1]))
    } else {
        None
    }
}

/// What a message of the bound user does.
pub open spec fn control_step(w: WizardView, s: StoreView, content: Seq<char>, now: i64) -> (
    WizardView,
    ControlStepView,
) {
    let command = commands::normal_command(content);
    if command == "/menu"@ {
        (w, ControlStepView::Reply(main_menu_of(s)))
    } else if command == "/new"@ {
        (w, ControlStepView::ListForNew)
    } else if command == "/tasks"@ || text::begins(command, "/tasks "@) {
        (w, ControlStepView::ListTasks { running_only: text::ends(command, " running"@) })
    } else if text::begins(command, "/task "@) {
        (w, ControlStepView::ReadTask { thread_id: text::trimmed(command.skip(6)) })
    } else if text::begins(command, "/continue "@) {
        (w, ControlStepView::ReadForContinue { thread_id: text::trimmed(command.skip(10)) })
    } else if text::begins(command, "/steer "@) {
        match two_words(command.skip(7)) {
            Some((thread_id, turn_id)) => (
                touched(
                    WizardView {
                        stage: StageView::AwaitSteer { thread_id, turn_id },
                        ..idle_wizard(now)
                    },
                    now,
                ),
                ControlStepView::Reply(plain("请发送要追加给当前运行回合的引导。"@)),
            ),
            None => (w, refusal("steer command"@)),
        }
    } else if text::begins(command, "/stop "@) {
        (
            w,
            match two_words(command.skip(6)) {
                Some((thread_id, turn_id)) => ControlStepView::Stop { thread_id, turn_id },
                None => refusal("stop command"@),
            },
        )
    } else if command == "/cancel"@ {
        (idle_wizard(now), ControlStepView::Reply(main_menu_of(s)))
    } else if text::begins(command, "/ui "@) {
        ui_step(w, s, command.skip(4), now)
    } else {
        input_step(w, s, text::trimmed(content), now)
    }
}

/// What a message does.
pub open spec fn session_step(
    w: WizardView,
    s: StoreView,
    openid: Seq<char>,
    content: Seq<char>,
    now: i64,
) -> (WizardView, ControlStepView) {
    if store::setting(s, "bound_openid"@) != Some(openid) {
        (w, ControlStepView::Reply(plain("无权操作此 CodexBot。"@)))
    } else {
        control_step(lasting(w, now), s, content, now)
    }
}

/// Whether a command belongs to the dialogue.
pub open spec fn is_control_command(command: Seq<char>) -> bool {
    text::begins(command, "/menu"@) || text::begins(command, "/new"@) || text::begins(
        command,
        "/tasks"@,
    ) || text::begins(command, "/task "@) || text::begins(command, "/continue "@) || text::begins(
        command,
        "/steer "@,
    ) || text::begins(command, "/stop "@) || text::begins(command, "/ui "@) || command
        == "/cancel"@
}

/// The dialogue of the chat.
#[derive(Debug)]
pub struct ControlSession {
    pub wizard: Wizard,
}

fn or_empty(value: &Option<String>) -> (result: String)
    ensures
        result@ == codex_control::text_or(text::opt_text(*value), ""@),
{
    match value {
        Some(value) => value.clone(),
        None => "".to_owned(),
    }
}

fn or_unchosen(value: &Option<String>) -> (result: String)
    ensures
        result@ == codex_control::text_or(text::opt_text(*value), "未选择"@),
{
    match value {
        Some(value) => value.clone(),
        None => "未选择".to_owned(),
    }
}

fn words_pair(arguments: &str) -> (result: Option<(String, String)>)
    ensures
        match result {
            Some((first, second)) => two_words(arguments@) == Some((first@, second@)),
            None => two_words(arguments@) is None,
        },
{
    let words = text::split_words(arguments);
    assert(text::texts(words@).len() == words@.len());
    if words.len() >= 2 {
        Some((words[0].clone(), words[1].clone()))
    } else {
        None
    }
}

fn browse(store: &Store, arguments: &str) -> (result: ControlStep)
    ensures
        result@ == browse_step(store@, arguments@),
{
    proof {
        reveal_strlit("dir ");
        reveal_strlit("keep ");
        reveal_strlit("page ");
    }
    if text_eq(arguments, "favorites") {
        return ControlStep::Reply(directories::favorites(store));
    }
    if text_eq(arguments, "disks") {
        return ControlStep::ListDisks;
    }
    if let Some(rest) = text::strip_prefix(arguments, "dir ") {
        return match decode(rest.as_str()) {
            Ok(path) => ControlStep::ListDirectories { path, page: 0 },
            Err(_) => refuse("encoded menu value"),
        };
    }
    if let Some(rest) = text::strip_prefix(arguments, "keep ") {
        return match decode(rest.as_str()) {
            Ok(cwd) => ControlStep::Keep { cwd },
            Err(_) => refuse("encoded menu value"),
        };
    }
    if let Some(rest) = text::strip_prefix(arguments, "page ") {
        return match words_pair(rest.as_str()) {
            Some((number, value)) => match (
                text::parse_unsigned(number.as_str(), u64::MAX),
                decode(value.as_str()),
            ) {
                (Some(page), Ok(path)) => ControlStep::ListDirectories { path, page },
                _ => refuse("encoded menu value"),
            },
            None => refuse("encoded menu value"),
        };
    }
    refuse("menu action")
}

fn say(text: &str) -> (result: ControlStep)
    ensures
        result@ == ControlStepView::Reply(plain(text@)),
{
    ControlStep::Reply(MenuReply::text(text))
}

impl ControlSession {
    pub fn new(now: i64) -> (result: Self)
        ensures
            result.wizard@ == idle_wizard(now),
    {
        ControlSession { wizard: Wizard::new(now) }
    }

    /// Whether a message belongs to the dialogue: by its command, or because
    /// the dialogue waits for it.
    pub fn should_handle(&mut self, content: &str, now: i64) -> (result: bool)
        ensures
            ({
                let named = is_control_command(commands::normal_command(content@));
                &&& final(self).wizard@ == (if named {
                    old(self).wizard@
                } else {
                    lasting(old(self).wizard@, now)
                })
                &&& result == (named || !(final(self).wizard@.stage is Idle))
            }),
    {
        let owned = commands::normalize(content);
        let command = owned.as_str();
        if text::starts_with(command, "/menu") || text::starts_with(command, "/new")
            || text::starts_with(command, "/tasks") || text::starts_with(command, "/task ")
            || text::starts_with(command, "/continue ") || text::starts_with(command, "/steer ")
            || text::starts_with(command, "/stop ") || text::starts_with(command, "/ui ")
            || text_eq(command, "/cancel") {
            return true;
        }
        self.wizard.active(now)
    }

    /// Serves a message.
    pub fn handle(&mut self, store: &Store, openid: &str, content: &str, now: i64) -> (result:
        ControlStep)
        ensures
            (final(self).wizard@, result@) == session_step(
                old(self).wizard@,
                store@,
                openid@,
                content@,
                now,
            ),
    {
        let authorized = match store.get_bound_openid() {
            Some(owner) => commands::hmac_equal(owner.as_str(), openid),
            None => false,
        };
        if !authorized {
            return say("无权操作此 CodexBot。");
        }
        self.wizard.active(now);
        proof {
            reveal_strlit("/task ");
            reveal_strlit("/continue ");
            reveal_strlit("/steer ");
            reveal_strlit("/stop ");
            reveal_strlit("/ui ");
        }
        let owned = commands::normalize(content);
        let command = owned.as_str();
        if text_eq(command, "/menu") {
            return ControlStep::Reply(menu(store));
        }
        if text_eq(command, "/new") {
            return ControlStep::ListForNew;
        }
        if text_eq(command, "/tasks") || text::starts_with(command, "/tasks ") {
            return ControlStep::ListTasks { running_only: text::ends_with(command, " running") };
        }
        if let Some(rest) = text::strip_prefix(command, "/task ") {
            return ControlStep::ReadTask { thread_id: text::trim(rest.as_str()) };
        }
        if let Some(rest) = text::strip_prefix(command, "/continue ") {
            return ControlStep::ReadForContinue { thread_id: text::trim(rest.as_str()) };
        }
        if let Some(rest) = text::strip_prefix(command, "/steer ") {
            return self.await_steer(rest.as_str(), now);
        }
        if let Some(rest) = text::strip_prefix(command, "/stop ") {
            return match words_pair(rest.as_str()) {
                Some((thread_id, turn_id)) => ControlStep::Stop { thread_id, turn_id },
                None => refuse("stop command"),
            };
        }
        if text_eq(command, "/cancel") {
            self.wizard.reset(now);
            return ControlStep::Reply(menu(store));
        }
        if let Some(rest) = text::strip_prefix(command, "/ui ") {
            return self.handle_ui(store, rest.as_str(), now);
        }
        let trimmed = text::trim(content);
        self.handle_input(store, trimmed.as_str(), now)
    }

    fn await_steer(&mut self, arguments: &str, now: i64) -> (result: ControlStep)
        ensures
            (final(self).wizard@, result@) == (match two_words(arguments@) {
                Some((thread_id, turn_id)) => (
                    touched(
                        WizardView {
                            stage: StageView::AwaitSteer { thread_id, turn_id },
                            ..idle_wizard(now)
                        },
                        now,
                    ),
                    ControlStepView::Reply(plain("请发送要追加给当前运行回合的引导。"@)),
                ),
                None => (old(self).wizard@, refusal("steer command"@)),
            }),
    {
        match words_pair(arguments) {
            Some((thread_id, turn_id)) => {
                self.wizard.reset(now);
                self.wizard.stage = Stage::AwaitSteer { thread_id, turn_id };
                self.wizard.touch(now);
                say("请发送要追加给当前运行回合的引导。")
            },
            None => refuse("steer command"),
        }
    }

    fn handle_ui(&mut self, store: &Store, arguments: &str, now: i64) -> (result: ControlStep)
        ensures
            (final(self).wizard@, result@) == ui_step(
                old(self).wizard@,
                store@,
                arguments@,
                now,
            ),
    {
        proof {
            reveal_strlit("cwd ");
            reveal_strlit("model ");
            reveal_strlit("effort ");
        }
        if text_eq(arguments, "path") {
            self.wizard.stage = Stage::AwaitPath;
            self.wizard.touch(now);
            return say(
                "请发送电脑上的绝对目录路径，例如 E:\\CodexWorkspace\\Project。发送 /cancel 取消。",
            );
        }
        if text_eq(arguments, "models") {
            return ControlStep::ModelsForMenu;
        }
        if text_eq(arguments, "last") {
            return match (store.get_setting("qq_last_model"), store.get_setting("qq_last_effort")) {
                (None, _) => refuse("saved model"),
                (Some(_), None) => refuse("saved effort"),
                (Some(model), Some(effort)) => ControlStep::ModelsForLast { model, effort },
            };
        }
        if text_eq(arguments, "start") {
            return self.start_confirmed(now);
        }
        if let Some(rest) = text::strip_prefix(arguments, "cwd ") {
            return match decode(rest.as_str()) {
                Ok(cwd) => ControlStep::CheckPath { cwd },
                Err(_) => refuse("encoded menu value"),
            };
        }
        if let Some(rest) = text::strip_prefix(arguments, "model ") {
            return match decode(rest.as_str()) {
                Ok(name) => ControlStep::ModelsForChoice { name },
                Err(_) => refuse("encoded menu value"),
            };
        }
        if let Some(rest) = text::strip_prefix(arguments, "effort ") {
            return match decode(rest.as_str()) {
                Ok(effort) => {
                    self.wizard.effort = Some(effort);
                    self.wizard.stage = Stage::AwaitPrompt;
                    self.wizard.touch(now);
                    say("请发送任务内容。完整内容只保存在内存中，提交后即清除。")
                },
                Err(_) => refuse("encoded menu value"),
            };
        }
        browse(store, arguments)
    }

    fn start_confirmed(&mut self, now: i64) -> (result: ControlStep)
        ensures
            ({
                let w = old(self).wizard@;
                (final(self).wizard@, result@) == (if w.stage is Confirm {
                    (
                        idle_wizard(now),
                        ControlStepView::Start {
                            cwd: codex_control::text_or(w.cwd, ""@),
                            model: codex_control::text_or(w.model, ""@),
                            effort: codex_control::text_or(w.effort, ""@),
                            prompt: codex_control::text_or(w.prompt, ""@),
                        },
                    )
                } else {
                    (
                        w,
                        ControlStepView::Reply(
                            plain("启动确认已失效，请发送 /new 重新创建任务。"@),
                        ),
                    )
                })
            }),
    {
        let confirmed = match &self.wizard.stage {
            Stage::Confirm => true,
            _ => false,
        };
        if !confirmed {
            return say("启动确认已失效，请发送 /new 重新创建任务。");
        }
        let step = ControlStep::Start {
            cwd: or_empty(&self.wizard.cwd),
            model: or_empty(&self.wizard.model),
            effort: or_empty(&self.wizard.effort),
            prompt: or_empty(&self.wizard.prompt),
        };
        self.wizard.reset(now);
        step
    }

    fn handle_input(&mut self, store: &Store, content: &str, now: i64) -> (result: ControlStep)
        ensures
            (final(self).wizard@, result@) == input_step(
                old(self).wizard@,
                store@,
                content@,
                now,
            ),
    {
        match &self.wizard.stage {
            Stage::AwaitPath => ControlStep::CheckPath { cwd: content.to_owned() },
            Stage::AwaitPrompt => self.confirm_prompt(content, now),
            Stage::AwaitContinue(thread_id) => {
                let step = ControlStep::Continue {
                    thread_id: thread_id.clone(),
                    prompt: content.to_owned(),
                };
                self.wizard.reset(now);
                step
            },
            Stage::AwaitSteer { thread_id, turn_id } => {
                let step = ControlStep::Steer {
                    thread_id: thread_id.clone(),
                    turn_id: turn_id.clone(),
                    prompt: content.to_owned(),
                };
                self.wizard.reset(now);
                step
            },
            Stage::Confirm => say("请点击“启动任务”，或发送 /cancel。"),
            Stage::Idle => ControlStep::Reply(menu(store)),
        }
    }

    fn confirm_prompt(&mut self, prompt: &str, now: i64) -> (result: ControlStep)
        ensures
            ({
                let w = old(self).wizard@;
                (final(self).wizard@, result@) == (if prompt@.len() == 0 {
                    (w, ControlStepView::Reply(plain("任务内容不能为空，请重新发送。"@)))
                } else {
                    (
                        touched(
                            WizardView { prompt: Some(prompt@), stage: StageView::Confirm, ..w },
                            now,
                        ),
                        ControlStepView::Reply(confirmation(w, prompt@)),
                    )
                })
            }),
    {
        if prompt.is_empty() {
            return say("任务内容不能为空，请重新发送。");
        }
        let cwd = or_unchosen(&self.wizard.cwd);
        let model = or_unchosen(&self.wizard.model);
        let effort = or_unchosen(&self.wizard.effort);
        let task = shorten(prompt, 120);
        let mut shown = "确认启动\n目录：".to_owned();
        shown.append(cwd.as_str());
        shown.append("\n模型：");
        shown.append(model.as_str());
        shown.append(" / ");
        shown.append(effort.as_str());
        shown.append("\n任务：");
        shown.append(task.as_str());
        self.wizard.prompt = Some(prompt.to_owned());
        self.wizard.stage = Stage::Confirm;
        self.wizard.touch(now);
        let mut rows = no_rows();
        push_row(&mut rows, one("启动任务", "/ui start"));
        push_row(&mut rows, one("取消", "/cancel"));
        assert(qq_menu::rows_view(rows@) =~= seq![
            button("启动任务"@, "/ui start"@),
            button("取消"@, "/cancel"@),
        ]);
        ControlStep::Reply(MenuReply::menu(shown.as_str(), &rows))
    }

    /// Offers the directories of recent threads for a new task. `usable` tells
    /// of each thread whether its directory is there.
    pub fn begin_new(&mut self, threads: &Vec<ThreadInfo>, usable: &Vec<bool>, now: i64) -> (result:
        MenuReply)
        requires
            usable@.len() == threads@.len(),
        ensures
            final(self).wizard@ == touched(idle_wizard(now), now),
            result@ == directory_menu(
                directories(
                    codex_control::thread_infos(threads@),
                    usable@,
                    threads@.len(),
                ),
            ),
    {
        let ghost views = codex_control::thread_infos(threads@);
        let mut found: Vec<String> = Vec::new();
        assert(text::texts(found@) =~= directories(views, usable@, 0));
        for i in 0..threads.len()
            invariant
                usable@.len() == threads@.len(),
                views == codex_control::thread_infos(threads@),
                text::texts(found@) == directories(views, usable@, i as nat),
        {
            let ghost held = text::texts(found@);
            assert(held.len() == found@.len());
            let thread = &threads[i];
            assert(views[i as int] == thread@);
            if found.len() < 4 && !codex_control::list_has(&found, thread.cwd.as_str())
                && usable[i] {
                found.push(thread.cwd.clone());
                assert(text::texts(found@) =~= held.push(thread@.cwd));
            }
        }
        let mut rows = choice_rows(&found);
        push_row(&mut rows, two("收藏目录", "/ui favorites", "浏览磁盘", "/ui disks"));
        push_row(&mut rows, one("输入绝对路径", "/ui path"));
        push_row(&mut rows, one("取消", "/cancel"));
        self.wizard.reset(now);
        self.wizard.touch(now);
        MenuReply::menu(
            "新建任务 · 选择工作目录\n可选最近目录，或输入电脑上的任意绝对路径。",
            &rows,
        )
    }

    /// Takes a directory, if it is an absolute one that is there.
    pub fn select_path(&mut self, cwd: &str, valid: bool, now: i64) -> (result: ControlStep)
        ensures
            (final(self).wizard@, result@) == (if valid {
                (
                    touched(WizardView { cwd: Some(cwd@), ..old(self).wizard@ }, now),
                    ControlStepView::ModelsForPath { cwd: cwd@ },
                )
            } else {
                (
                    old(self).wizard@,
                    ControlStepView::Reply(
                        plain("目录无效或不存在，请重新发送一个存在的绝对目录路径。"@),
                    ),
                )
            }),
    {
        if !valid {
            return say("目录无效或不存在，请重新发送一个存在的绝对目录路径。");
        }
        self.wizard.cwd = Some(cwd.to_owned());
        self.wizard.touch(now);
        ControlStep::ModelsForPath { cwd: cwd.to_owned() }
    }

    /// Takes the model and the effort that were used last, if they can be used
    /// again.
    pub fn use_last_config(
        &mut self,
        models: &Vec<ModelInfo>,
        model: &str,
        effort: &str,
        now: i64,
    ) -> (result: MenuReply)
        ensures
            (final(self).wizard@, result@) == (if saved_model(
                codex_control::model_views(models@),
                Some(model@),
                Some(effort@),
            ) is Some {
                (
                    touched(
                        WizardView {
                            model: Some(model@),
                            effort: Some(effort@),
                            stage: StageView::AwaitPrompt,
                            ..old(self).wizard@
                        },
                        now,
                    ),
                    plain("请发送任务内容。完整内容只保存在内存中，提交后即清除。"@),
                )
            } else {
                (
                    old(self).wizard@,
                    models_menu(codex_control::model_views(models@)),
                )
            }),
    {
        if valid_saved_model(models, Some(model), Some(effort)).is_none() {
            return model_menu_from(models);
        }
        self.wizard.model = Some(model.to_owned());
        self.wizard.effort = Some(effort.to_owned());
        self.wizard.stage = Stage::AwaitPrompt;
        self.wizard.touch(now);
        MenuReply::text("请发送任务内容。完整内容只保存在内存中，提交后即清除。")
    }

    /// Takes a model by its name and offers its efforts.
    pub fn select_model(&mut self, models: &Vec<ModelInfo>, name: &str, now: i64) -> (result:
        MenuReply)
        ensures
            ({
                let views = codex_control::model_views(models@);
                (final(self).wizard@, result@) == (match codex_control::model_named(
                    views,
                    name@,
                    0,
                ) {
                    Some(i) => (
                        touched(
                            WizardView { model: Some(views[i].model), ..old(self).wizard@ },
                            now,
                        ),
                        effort_choice(views[i]),
                    ),
                    None => (
                        old(self).wizard@,
                        failure_menu(
                            codex_control::control_message(
                                ControlErrorView::InvalidResponse("selected model"@),
                            ),
                        ),
                    ),
                })
            }),
    {
        let ghost views = codex_control::model_views(models@);
        let ghost before = self.wizard@;
        let mut i: usize = 0;
        while i < models.len()
            invariant
                i <= models@.len(),
                self.wizard@ == before,
                before == old(self).wizard@,
                views == codex_control::model_views(models@),
                codex_control::model_named(views, name@, 0) == codex_control::model_named(
                    views,
                    name@,
                    i as int,
                ),
            decreases models.len() - i,
        {
            assert(views[i as int] == models@[i as int]@);
            if text_eq(models[i].model.as_str(), name) {
                self.wizard.model = Some(models[i].model.clone());
                self.wizard.touch(now);
                return effort_menu(&models[i]);
            }
            i += 1;
        }
        let error = ControlError::InvalidResponse("selected model");
        let message = error.message();
        error_reply(message.as_str())
    }

    /// Waits for what a thread that was read is continued with.
    pub fn await_continue(&mut self, thread_id: &str, now: i64) -> (result: MenuReply)
        ensures
            final(self).wizard@ == touched(
                WizardView {
                    stage: StageView::AwaitContinue(thread_id@),
                    ..idle_wizard(now)
                },
                now,
            ),
            result@ == plain("请发送要继续补充给 Codex 的内容。"@),
    {
        self.wizard.reset(now);
        self.wizard.stage = Stage::AwaitContinue(thread_id.to_owned());
        self.wizard.touch(now);
        MenuReply::text("请发送要继续补充给 Codex 的内容。")
    }
}

/// The menu of models; without any, a failure.
pub open spec fn models_menu(models: Seq<ModelView>) -> ReplyContent {
    if models.len() == 0 {
        failure_menu(
            codex_control::control_message(ControlErrorView::InvalidResponse("model/list"@)),
        )
    } else {
        model_choice(models)
    }
}

/// The menu of models; without any, a failure.
pub fn model_menu_from(models: &Vec<ModelInfo>) -> (result: MenuReply)
    ensures
        result@ == models_menu(codex_control::model_views(models@)),
{
    let ghost views = codex_control::model_views(models@);
    let ghost first = store::first_of(views, 8);
    if models.len() == 0 {
        let error = ControlError::InvalidResponse("model/list");
        let message = error.message();
        return error_reply(message.as_str());
    }
    let count: usize = if models.len() <= 8 {
        models.len()
    } else {
        8
    };
    let ghost shown = Seq::new(
        first.len(),
        |i: int|
            button(
                first[i].display_name + (if first[i].is_default {
                    "（默认）"@
                } else {
                    ""@
                }),
                "/ui model "@ + encoded(first[i].model),
            ),
    );
    let mut rows = no_rows();
    assert(shown.take(0) =~= Seq::empty());
    assert(first.len() == count);
    for i in 0..count
        invariant
            views == codex_control::model_views(models@),
            first == store::first_of(views, 8),
            first.len() == count,
            count <= models@.len(),
            shown == Seq::new(
                first.len(),
                |i: int|
                    button(
                        first[i].display_name + (if first[i].is_default {
                            "（默认）"@
                        } else {
                            ""@
                        }),
                        "/ui model "@ + encoded(first[i].model),
                    ),
            ),
            qq_menu::rows_view(rows@) == shown.take(i as int),
    {
        let model = &models[i];
        assert(first[i as int] == model@);
        let marker = if model.is_default {
            "（默认）"
        } else {
            ""
        };
        let label = with_prefix(model.display_name.as_str(), marker);
        let value = encode(model.model.as_str());
        let command = with_prefix("/ui model ", value.as_str());
        push_row(&mut rows, one(label.as_str(), command.as_str()));
        assert(shown.take(i + 1) =~= shown.take(i as int).push(shown[i as int]));
    }
    assert(shown.take(count as int) =~= shown);
    push_row(&mut rows, one("取消", "/cancel"));
    MenuReply::menu("选择模型", &rows)
}

fn effort_menu(model: &ModelInfo) -> (result: MenuReply)
    ensures
        result@ == effort_choice(model@),
{
    let ghost efforts = efforts_of(model@);
    assert(text::texts(model.efforts@).len() == model.efforts@.len());
    let offered = if model.efforts.len() == 0 {
        let mut offered: Vec<String> = Vec::new();
        offered.push(model.default_effort.clone());
        assert(text::texts(offered@) =~= efforts);
        offered
    } else {
        text::copied_list(&model.efforts)
    };
    assert(text::texts(offered@) == efforts);
    let ghost shown = Seq::new(
        efforts.len(),
        |i: int| button(efforts[i], "/ui effort "@ + encoded(efforts[i])),
    );
    let mut rows = no_rows();
    assert(shown.take(0) =~= Seq::empty());
    for i in 0..offered.len()
        invariant
            efforts == text::texts(offered@),
            shown == Seq::new(
                efforts.len(),
                |i: int| button(efforts[i], "/ui effort "@ + encoded(efforts[i])),
            ),
            qq_menu::rows_view(rows@) == shown.take(i as int),
    {
        let value = encode(offered[i].as_str());
        let command = with_prefix("/ui effort ", value.as_str());
        push_row(&mut rows, one(offered[i].as_str(), command.as_str()));
        assert(shown.take(i + 1) =~= shown.take(i as int).push(shown[i as int]));
    }
    assert(shown.take(efforts.len() as int) =~= shown);
    push_row(&mut rows, one("取消", "/cancel"));
    let mut title = "模型：".to_owned();
    title.append(model.display_name.as_str());
    title.append("\n选择推理强度");
    MenuReply::menu(title.as_str(), &rows)
}

/// What follows the choice of a directory: the last configuration is offered if
/// it can be used again, else the models are.
pub open spec fn path_models_shown(
    models: Seq<ModelView>,
    cwd: Seq<char>,
    last_model: Option<Seq<char>>,
    last_effort: Option<Seq<char>>,
) -> ReplyContent {
    match saved_model(models, last_model, last_effort) {
        Some(model) => menu_of(
            "工作目录："@ + shortened(cwd, 80) + "\n上次配置："@ + model.model + " / "@
                + codex_control::text_or(last_effort, model.default_effort),
            seq![
                seq![("直接使用"@, "/ui last"@), ("修改配置"@, "/ui models"@)],
                button("取消"@, "/cancel"@),
            ],
        ),
        None => models_menu(models),
    }
}

/// What follows the choice of a directory.
pub fn path_models(store: &Store, models: &Vec<ModelInfo>, cwd: &str) -> (result: MenuReply)
    ensures
        result@ == path_models_shown(
            codex_control::model_views(models@),
            cwd@,
            store::setting(store@, "qq_last_model"@),
            store::setting(store@, "qq_last_effort"@),
        ),
{
    let last_model = store.get_setting("qq_last_model");
    let last_effort = store.get_setting("qq_last_effort");
    let named: Option<&str> = match &last_model {
        Some(model) => Some(model.as_str()),
        None => None,
    };
    let weighed: Option<&str> = match &last_effort {
        Some(effort) => Some(effort.as_str()),
        None => None,
    };
    match valid_saved_model(models, named, weighed) {
        Some(model) => {
            let effort = match weighed {
                Some(effort) => effort,
                None => model.default_effort.as_str(),
            };
            let place = shorten(cwd, 80);
            let mut shown = "工作目录：".to_owned();
            shown.append(place.as_str());
            shown.append("\n上次配置：");
            shown.append(model.model.as_str());
            shown.append(" / ");
            shown.append(effort);
            let mut rows = no_rows();
            push_row(&mut rows, two("直接使用", "/ui last", "修改配置", "/ui models"));
            push_row(&mut rows, one("取消", "/cancel"));
            assert(qq_menu::rows_view(rows@) =~= seq![
                seq![("直接使用"@, "/ui last"@), ("修改配置"@, "/ui models"@)],
                button("取消"@, "/cancel"@),
            ]);
            MenuReply::menu(shown.as_str(), &rows)
        },
        None => model_menu_from(models),
    }
}

/// What answers the start of a task.
pub open spec fn started_menu(thread_id: Seq<char>, cwd: Seq<char>) -> ReplyContent {
    menu_of(
        "任务已启动\n任务 ID："@ + thread_id + "\n工作目录："@ + cwd,
        seq![button("查看任务"@, "/task "@ + thread_id), button("返回主菜单"@, "/menu"@)],
    )
}

/// Answers the start of a task. Its model and its effort are kept for the next.
pub fn started(store: &mut Store, task: &StartedTask, cwd: &str, model: &str, effort: &str) -> (result:
    MenuReply)
    ensures
        final(store)@ == store::with_setting(
            store::with_setting(old(store)@, "qq_last_model"@, model@),
            "qq_last_effort"@,
            effort@,
        ),
        store::consistent(old(store)@) ==> store::consistent(final(store)@),
        result@ == started_menu(task.thread_id@, cwd@),
{
    store.set_setting("qq_last_model", model);
    store.set_setting("qq_last_effort", effort);
    let mut shown = "任务已启动\n任务 ID：".to_owned();
    shown.append(task.thread_id.as_str());
    shown.append("\n工作目录：");
    shown.append(cwd);
    let command = with_prefix("/task ", task.thread_id.as_str());
    let mut rows = no_rows();
    push_row(&mut rows, one("查看任务", command.as_str()));
    push_row(&mut rows, one("返回主菜单", "/menu"));
    assert(qq_menu::rows_view(rows@) =~= seq![
        button("查看任务"@, "/task "@ + task.thread_id@),
        button("返回主菜单"@, "/menu"@),
    ]);
    MenuReply::menu(shown.as_str(), &rows)
}

/// A menu that shows a task.
pub open spec fn task_link(text: Seq<char>, thread_id: Seq<char>) -> ReplyContent {
    menu_of(text, seq![button("查看任务"@, "/task "@ + thread_id)])
}

fn link(text: &str, thread_id: &str) -> (result: MenuReply)
    ensures
        result@ == task_link(text@, thread_id@),
{
    let command = with_prefix("/task ", thread_id);
    let mut rows = no_rows();
    push_row(&mut rows, one("查看任务", command.as_str()));
    assert(qq_menu::rows_view(rows@) =~= seq![button("查看任务"@, "/task "@ + thread_id@)]);
    MenuReply::menu(text, &rows)
}

/// Answers that a task goes on.
pub fn continued(task: &StartedTask) -> (result: MenuReply)
    ensures
        result@ == task_link("已继续任务，Codex 正在处理。"@, task.thread_id@),
{
    link("已继续任务，Codex 正在处理。", task.thread_id.as_str())
}

/// Answers that a turn was steered.
pub fn steered(thread_id: &str) -> (result: MenuReply)
    ensures
        result@ == task_link("已追加引导。"@, thread_id@),
{
    link("已追加引导。", thread_id)
}

/// Answers that a task was stopped.
pub fn stopped(thread_id: &str) -> (result: MenuReply)
    ensures
        result@ == task_link("任务已停止，历史仍保留，可随时继续。"@, thread_id@),
{
    link("任务已停止，历史仍保留，可随时继续。", thread_id)
}

// ---------------------------------------------------------------------------
// Tasks
// ---------------------------------------------------------------------------

pub open spec fn listed(running_only: bool) -> spec_fn(ThreadInfoView) -> bool {
    |thread: ThreadInfoView| !running_only || codex_control::at_work(thread.status)
}

/// The threads that a list shows: at most five.
pub open spec fn threads_shown(threads: Seq<ThreadInfoView>, running_only: bool) -> Seq<
    ThreadInfoView,
> {
    store::first_of(threads.filter(listed(running_only)), 5)
}

/// The entry of a list.
pub open spec fn thread_entry(thread: ThreadInfoView, i: nat) -> Seq<char> {
    text::decimal(i + 1) + ". ["@ + thread_status(thread.status) + "] "@ + shortened(
        thread.preview,
        45,
    ) + "\n   "@ + shortened(thread.cwd, 60)
}

/// The list of tasks.
pub open spec fn tasks_menu(shown: Seq<ThreadInfoView>) -> ReplyContent {
    if shown.len() == 0 {
        menu_of("没有符合条件的任务。"@, seq![button("返回主菜单"@, "/menu"@)])
    } else {
        menu_of(
            text::joined(
                Seq::new(shown.len(), |i: int| thread_entry(shown[i], i as nat)),
                "\n"@,
            ),
            Seq::new(
                shown.len(),
                |i: int| button(shortened(shown[i].preview, 22), "/task "@ + shown[i].id),
            ).push(button("返回主菜单"@, "/menu"@)),
        )
    }
}

fn entry(thread: &ThreadInfo, i: usize) -> (result: String)
    requires
        i < 5,
    ensures
        result@ == thread_entry(thread@, i as nat),
{
    let mut result = text::decimal_text((i + 1) as u64);
    result.append(". [");
    result.append(status_text(thread.status.as_str()));
    result.append("] ");
    let preview = shorten(thread.preview.as_str(), 45);
    result.append(preview.as_str());
    result.append("\n   ");
    let cwd = shorten(thread.cwd.as_str(), 60);
    result.append(cwd.as_str());
    result
}

/// The threads that a list of references leads to.
pub open spec fn thread_targets(threads: Seq<&ThreadInfo>) -> Seq<ThreadInfoView> {
    Seq::new(threads.len(), |i: int| threads[i]@)
}

/// The list of tasks.
pub fn tasks(threads: &Vec<ThreadInfo>, running_only: bool) -> (result: MenuReply)
    ensures
        result@ == tasks_menu(
            threads_shown(codex_control::thread_infos(threads@), running_only),
        ),
{
    let ghost views = codex_control::thread_infos(threads@);
    let ghost pred = listed(running_only);
    let mut kept: Vec<&ThreadInfo> = Vec::new();
    proof {
        crate::store_rows::lemma_filter_none(views, pred);
        assert(thread_targets(kept@) =~= Seq::<ThreadInfoView>::empty());
    }
    for i in 0..threads.len()
        invariant
            views == codex_control::thread_infos(threads@),
            pred == listed(running_only),
            thread_targets(kept@) == views.take(i as int).filter(pred),
    {
        let ghost held = thread_targets(kept@);
        proof {
            crate::store_rows::lemma_filter_step(views, pred, i as int);
        }
        assert(views[i as int] == threads@[i as int]@);
        let status = threads[i].status.as_str();
        if !running_only || text_eq(status, "active") || text_eq(status, "inProgress") {
            kept.push(&threads[i]);
            assert(thread_targets(kept@) =~= held.push(views[i as int]));
        }
    }
    assert(views.take(views.len() as int) =~= views);
    let ghost all = thread_targets(kept@);
    let ghost shown = store::first_of(all, 5);
    let count: usize = if kept.len() <= 5 {
        kept.len()
    } else {
        5
    };
    assert(shown.len() == count);
    if count == 0 {
        let mut rows = no_rows();
        push_row(&mut rows, one("返回主菜单", "/menu"));
        assert(qq_menu::rows_view(rows@) =~= seq![button("返回主菜单"@, "/menu"@)]);
        return MenuReply::menu("没有符合条件的任务。", &rows);
    }
    let ghost lines = Seq::new(shown.len(), |i: int| thread_entry(shown[i], i as nat));
    let ghost buttons = Seq::new(
        shown.len(),
        |i: int| button(shortened(shown[i].preview, 22), "/task "@ + shown[i].id),
    );
    let mut entries: Vec<String> = Vec::new();
    let mut rows = no_rows();
    assert(buttons.take(0) =~= Seq::empty());
    assert(text::texts(entries@) =~= lines.take(0));
    for i in 0..count
        invariant
            count <= 5,
            count <= kept@.len(),
            all == thread_targets(kept@),
            shown == store::first_of(all, 5),
            shown.len() == count,
            lines == Seq::new(shown.len(), |i: int| thread_entry(shown[i], i as nat)),
            buttons == Seq::new(
                shown.len(),
                |i: int| button(shortened(shown[i].preview, 22), "/task "@ + shown[i].id),
            ),
            text::texts(entries@) == lines.take(i as int),
            qq_menu::rows_view(rows@) == buttons.take(i as int),
    {
        let ghost held = text::texts(entries@);
        let thread = kept[i];
        assert(shown[i as int] == thread@);
        entries.push(entry(thread, i));
        assert(text::texts(entries@) =~= held.push(lines[i as int]));
        assert(lines.take(i + 1) =~= held.push(lines[i as int]));
        let label = shorten(thread.preview.as_str(), 22);
        let command = with_prefix("/task ", thread.id.as_str());
        push_row(&mut rows, one(label.as_str(), command.as_str()));
        assert(buttons.take(i + 1) =~= buttons.take(i as int).push(buttons[i as int]));
    }
    assert(lines.take(count as int) =~= lines);
    assert(buttons.take(count as int) =~= buttons);
    let shown_text = text::join(&entries, "\n");
    push_row(&mut rows, one("返回主菜单", "/menu"));
    MenuReply::menu(shown_text.as_str(), &rows)
}

/// The buttons of a task: one at work can be steered and stopped, another can
/// be continued.
pub open spec fn detail_rows(thread: ThreadInfoView) -> Seq<Seq<(Seq<char>, Seq<char>)>> {
    let first = if codex_control::at_work(thread.status) {
        match thread.turn_id {
            Some(turn_id) => seq![
                seq![
                    ("追加引导"@, "/steer "@ + thread.id + " "@ + turn_id),
                    ("停止任务"@, "/stop "@ + thread.id + " "@ + turn_id),
                ],
            ],
            None => Seq::empty(),
        }
    } else {
        seq![button("继续任务"@, "/continue "@ + thread.id)]
    };
    first.push(seq![("刷新"@, "/task "@ + thread.id), ("任务列表"@, "/tasks"@)])
}

/// What is shown of a task.
pub fn task_detail(thread: &ThreadInfo) -> (result: MenuReply)
    ensures
        result@ == menu_of(task_shown(thread@), detail_rows(thread@)),
{
    let mut rows = no_rows();
    let status = thread.status.as_str();
    let id = thread.id.as_str();
    if text_eq(status, "active") || text_eq(status, "inProgress") {
        match &thread.turn_id {
            Some(turn_id) => {
                let mut steer = with_prefix("/steer ", id);
                steer.append(" ");
                steer.append(turn_id.as_str());
                let mut stop = with_prefix("/stop ", id);
                stop.append(" ");
                stop.append(turn_id.as_str());
                push_row(&mut rows, two("追加引导", steer.as_str(), "停止任务", stop.as_str()));
            },
            None => {},
        }
    } else {
        let command = with_prefix("/continue ", id);
        push_row(&mut rows, one("继续任务", command.as_str()));
    }
    let refresh = with_prefix("/task ", id);
    push_row(&mut rows, two("刷新", refresh.as_str(), "任务列表", "/tasks"));
    assert(qq_menu::rows_view(rows@) =~= detail_rows(thread@));
    let shown = task_text(thread);
    MenuReply::menu(shown.as_str(), &rows)
}

// ---------------------------------------------------------------------------
// Laws
// ---------------------------------------------------------------------------

/// Nobody but the bound user moves the dialogue or has anything done.
pub proof fn lemma_only_owner_controls(
    w: WizardView,
    s: StoreView,
    openid: Seq<char>,
    content: Seq<char>,
    now: i64,
)
    requires
        store::setting(s, "bound_openid"@) != Some(openid),
    ensures
        session_step(w, s, openid, content, now) == (
            w,
            ControlStepView::Reply(plain("无权操作此 CodexBot。"@)),
        ),
{
}

/// A task is started only from the confirmation, while its time lasts and with
/// what was chosen and said before, and the same confirmation does not start a
/// second one.
pub proof fn lemma_start_needs_confirmation(
    w: WizardView,
    s: StoreView,
    openid: Seq<char>,
    content: Seq<char>,
    now: i64,
)
    ensures
        session_step(w, s, openid, content, now).1 is Start ==> {
            &&& w.stage is Confirm
            &&& now < w.expires_at
            &&& session_step(w, s, openid, content, now) == (
                idle_wizard(now),
                ControlStepView::Start {
                    cwd: codex_control::text_or(w.cwd, ""@),
                    model: codex_control::text_or(w.model, ""@),
                    effort: codex_control::text_or(w.effort, ""@),
                    prompt: codex_control::text_or(w.prompt, ""@),
                },
            )
        },
{
}

/// A dialogue that is not used for its whole time is forgotten, with the text
/// of the task: whatever the bound user sends then is served as if there had
/// been none, and no task is started, continued or steered by it.
pub proof fn lemma_dialogue_expires(
    w: WizardView,
    touched_at: i64,
    s: StoreView,
    openid: Seq<char>,
    content: Seq<char>,
    now: i64,
)
    requires
        !(w.stage is Idle),
        now >= touched_at + WIZARD_TTL,
        store::setting(s, "bound_openid"@) == Some(openid),
    ensures
        ({
            let served = session_step(touched(w, touched_at), s, openid, content, now);
            &&& served == session_step(idle_wizard(now), s, openid, content, now)
            &&& served.0.prompt is None
            &&& !(served.1 is Start) && !(served.1 is Continue) && !(served.1 is Steer)
        }),
{
}

/// A text that does not begin with a slash is no command.
proof fn lemma_no_command(command: Seq<char>)
    requires
        command.len() > 0 ==> command[0] != '/',
    ensures
        command != "/menu"@,
        command != "/new"@,
        command != "/tasks"@,
        command != "/cancel"@,
        !text::begins(command, "/tasks "@),
        !text::begins(command, "/task "@),
        !text::begins(command, "/continue "@),
        !text::begins(command, "/steer "@),
        !text::begins(command, "/stop "@),
        !text::begins(command, "/ui "@),
{
    reveal_strlit("/menu");
    reveal_strlit("/new");
    reveal_strlit("/tasks");
    reveal_strlit("/cancel");
    reveal_strlit("/tasks ");
    reveal_strlit("/task ");
    reveal_strlit("/continue ");
    reveal_strlit("/steer ");
    reveal_strlit("/stop ");
    reveal_strlit("/ui ");
    assert forall|prefix: Seq<char>|
        prefix.len() > 0 && prefix[0] == '/' implies !#[trigger] text::begins(command, prefix) by {
        if text::begins(command, prefix) {
            assert(command.subrange(0, prefix.len() as int)[0] == prefix[0]);
        }
    }
    assert("/menu"@[0] == '/' && "/new"@[0] == '/' && "/tasks"@[0] == '/' && "/cancel"@[0] == '/');
    assert("/tasks "@[0] == '/' && "/task "@[0] == '/' && "/continue "@[0] == '/');
    assert("/steer "@[0] == '/' && "/stop "@[0] == '/' && "/ui "@[0] == '/');
}

/// What the bound user writes, without the white space around it, is what the
/// dialogue takes that waits for it: as the task that is then to be confirmed,
/// with what was chosen before, or as what a task goes on with or is steered
/// with, in the thread and the turn that were asked about. It is used once.
pub proof fn lemma_dialogue_takes_what_is_written(
    w: WizardView,
    s: StoreView,
    openid: Seq<char>,
    content: Seq<char>,
    now: i64,
)
    requires
        store::setting(s, "bound_openid"@) == Some(openid),
        now < w.expires_at,
        commands::normal_command(content).len() > 0 ==> commands::normal_command(content)[0] != '/',
    ensures
        ({
            let (after, step) = session_step(w, s, openid, content, now);
            let written = text::trimmed(content);
            &&& w.stage is AwaitPrompt && written.len() > 0 ==> {
                &&& after.stage is Confirm
                &&& after.prompt == Some(written)
                &&& after.cwd == w.cwd
                &&& after.model == w.model
                &&& after.effort == w.effort
                &&& after.expires_at > now || now == i64::MAX
                &&& step is Reply
            }
            &&& w.stage is AwaitPrompt && written.len() == 0 ==> after == w && step is Reply
            &&& w.stage matches StageView::AwaitContinue(thread) ==> {
                &&& step == (ControlStepView::Continue { thread_id: thread, prompt: written })
                &&& after.stage is Idle
                &&& after.prompt is None
            }
            &&& w.stage matches StageView::AwaitSteer { thread_id: thread, turn_id: turn } ==> {
                &&& step == (ControlStepView::Steer {
                    thread_id: thread,
                    turn_id: turn,
                    prompt: written,
                })
                &&& after.stage is Idle
                &&& after.prompt is None
            }
            &&& w.stage is AwaitPath ==> step == (ControlStepView::CheckPath { cwd: written })
            &&& w.stage is Idle || w.stage is Confirm ==> after == w && step is Reply
        }),
{
    lemma_no_command(commands::normal_command(content));
}

/// Whether nothing of what was chosen is left.
pub open spec fn forgotten(w: WizardView) -> bool {
    w.cwd is None && w.model is None && w.effort is None && w.prompt is None
}

/// Whether a task is started with what was chosen and said.
pub open spec fn starts_as_chosen(step: ControlStepView, w: WizardView) -> bool {
    step matches ControlStepView::Start { cwd, model, effort, prompt } ==> {
        &&& w.cwd matches Some(chosen) ==> cwd == chosen
        &&& w.model matches Some(chosen) ==> model == chosen
        &&& w.effort matches Some(chosen) ==> effort == chosen
        &&& w.prompt matches Some(said) ==> prompt == said
    }
}

proof fn lemma_click_keeps_choices(w: WizardView, s: StoreView, arguments: Seq<char>, now: i64)
    ensures
        ({
            let (after, step) = ui_step(w, s, arguments, now);
            &&& forgotten(after) || after.cwd == w.cwd && after.model == w.model && after.prompt
                == w.prompt
            &&& starts_as_chosen(step, w)
            &&& step is Start ==> forgotten(after)
        }),
{
}

proof fn lemma_text_keeps_choices(w: WizardView, s: StoreView, content: Seq<char>, now: i64)
    ensures
        ({
            let (after, step) = input_step(w, s, content, now);
            &&& forgotten(after) || after.cwd == w.cwd && after.model == w.model && after.effort
                == w.effort
            &&& forgotten(after) || after.prompt == w.prompt || w.stage is AwaitPrompt
            &&& !(step is Start)
        }),
{
}

/// What was chosen in a dialogue stays chosen until it is forgotten as a whole:
/// no message changes the directory or the model, and one that is neither a
/// click nor the text of a task changes neither the effort nor that text. A
/// task is started with what was chosen and said.
pub proof fn lemma_choices_stay(
    w: WizardView,
    s: StoreView,
    openid: Seq<char>,
    content: Seq<char>,
    now: i64,
)
    requires
        now < w.expires_at,
    ensures
        ({
            let (after, step) = session_step(w, s, openid, content, now);
            let command = commands::normal_command(content);
            &&& forgotten(after) || after.cwd == w.cwd && after.model == w.model
            &&& forgotten(after) || after.prompt == w.prompt || w.stage is AwaitPrompt
            &&& forgotten(after) || after.effort == w.effort || text::begins(command, "/ui "@)
            &&& starts_as_chosen(step, w)
        }),
{
    let command = commands::normal_command(content);
    lemma_click_keeps_choices(w, s, command.skip(4), now);
    lemma_text_keeps_choices(w, s, text::trimmed(content), now);
    let (after, step) = session_step(w, s, openid, content, now);
    if store::setting(s, "bound_openid"@) == Some(openid) {
        assert((after, step) == control_step(w, s, content, now));
    }
}

} // verus!
