//! Command keyboards for the chat.
use vstd::prelude::*;
use crate::json;
use crate::json::{Json, JsonNumber, JsonView, NumberView};
use crate::text;

verus! {

/// A reply with an optional keyboard.
#[derive(Debug, PartialEq, Eq)]
pub struct MenuReply {
    pub text: String,
    pub keyboard: Option<Json>,
}

/// What a reply is.
pub struct ReplyContent {
    pub text: Seq<char>,
    pub keyboard: Option<JsonView>,
}

/// A button that sends a command.
#[derive(Debug, PartialEq, Eq)]
pub struct MenuButton {
    pub label: String,
    pub command: String,
}

impl MenuReply {
    pub open spec fn view(&self) -> ReplyContent {
        ReplyContent {
            text: self.text@,
            keyboard: match self.keyboard {
                Some(keyboard) => Some(keyboard@),
                None => None,
            },
        }
    }
}

impl MenuButton {
    /// The label and the command.
    pub open spec fn view(&self) -> (Seq<char>, Seq<char>) {
        (self.label@, self.command@)
    }

    pub fn new(label: &str, command: &str) -> (result: Self)
        ensures
            result@ == (label@, command@),
    {
        MenuButton { label: label.to_owned(), command: command.to_owned() }
    }
}

pub open spec fn row_view(row: Seq<MenuButton>) -> Seq<(Seq<char>, Seq<char>)> {
    Seq::new(row.len(), |i: int| row[i]@)
}

pub open spec fn rows_view(rows: Seq<Vec<MenuButton>>) -> Seq<Seq<(Seq<char>, Seq<char>)>> {
    Seq::new(rows.len(), |i: int| row_view(rows[i]@))
}

// ---------------------------------------------------------------------------
// Model
// ---------------------------------------------------------------------------

pub open spec fn whole(n: nat) -> JsonView {
    JsonView::Number(NumberView::Unsigned(n))
}

/// A button as the chat expects it.
pub open spec fn button_json(button: (Seq<char>, Seq<char>), row: int, at: int) -> JsonView {
    JsonView::Object(
        seq![
            (
                "id"@,
                JsonView::Text(
                    "codexbot-"@ + text::decimal(row as nat) + "-"@ + text::decimal(at as nat),
                ),
            ),
            (
                "render_data"@,
                JsonView::Object(
                    seq![
                        ("label"@, JsonView::Text(button.0)),
                        ("visited_label"@, JsonView::Text(button.0)),
                        ("style"@, whole(1)),
                    ],
                ),
            ),
            (
                "action"@,
                JsonView::Object(
                    seq![
                        ("type"@, whole(2)),
                        ("permission"@, JsonView::Object(seq![("type"@, whole(2))])),
                        ("data"@, JsonView::Text(button.1)),
                        ("reply"@, JsonView::Bool(true)),
                        ("enter"@, JsonView::Bool(true)),
                        ("unsupport_tips"@, JsonView::Text("请发送按钮显示的命令"@)),
                    ],
                ),
            ),
        ],
    )
}

pub open spec fn row_json(buttons: Seq<(Seq<char>, Seq<char>)>, row: int) -> JsonView {
    JsonView::Object(
        seq![
            (
                "buttons"@,
                JsonView::List(
                    Seq::new(buttons.len(), |i: int| button_json(buttons[i], row, i)),
                ),
            ),
        ],
    )
}

/// A keyboard as the chat expects it.
pub open spec fn keyboard_json(rows: Seq<Seq<(Seq<char>, Seq<char>)>>) -> JsonView {
    JsonView::Object(
        seq![
            (
                "content"@,
                JsonView::Object(
                    seq![
                        (
                            "rows"@,
                            JsonView::List(
                                Seq::new(rows.len(), |i: int| row_json(rows[i], i)),
                            ),
                        ),
                    ],
                ),
            ),
        ],
    )
}

/// The line that stands for a button in a text.
pub open spec fn button_line(button: JsonView) -> Option<Seq<char>> {
    match (
        json::opt_text_of(json::opt_get(button.get("render_data"@), "label"@)),
        json::opt_text_of(json::opt_get(button.get("action"@), "data"@)),
    ) {
        (Some(label), Some(command)) => Some(label + "："@ + command),
        _ => None,
    }
}

/// The lines of the first `n` buttons.
pub open spec fn button_lines(buttons: Seq<JsonView>, n: nat) -> Seq<Seq<char>>
    decreases n,
{
    if n == 0 {
        Seq::empty()
    } else {
        let before = button_lines(buttons, (n - 1) as nat);
        match button_line(buttons[n - 1]) {
            Some(line) => before.push(line),
            None => before,
        }
    }
}

/// The buttons of a row.
pub open spec fn buttons_of(row: JsonView) -> Seq<JsonView> {
    match row.get("buttons"@) {
        Some(JsonView::List(buttons)) => buttons,
        _ => Seq::empty(),
    }
}

/// The lines of the first `n` rows.
pub open spec fn row_lines(rows: Seq<JsonView>, n: nat) -> Seq<Seq<char>>
    decreases n,
{
    if n == 0 {
        Seq::empty()
    } else {
        let buttons = buttons_of(rows[n - 1]);
        row_lines(rows, (n - 1) as nat) + button_lines(buttons, buttons.len())
    }
}

/// The rows of a keyboard.
pub open spec fn rows_of(keyboard: Option<JsonView>) -> Option<Seq<JsonView>> {
    match json::opt_get(json::opt_get(keyboard, "content"@), "rows"@) {
        Some(JsonView::List(rows)) => Some(rows),
        _ => None,
    }
}

/// A reply as a text: what it says, and a line for each button.
pub open spec fn fallback(reply: ReplyContent) -> Seq<char> {
    match rows_of(reply.keyboard) {
        Some(rows) => {
            let lines = row_lines(rows, rows.len());
            if lines.len() == 0 {
                reply.text
            } else {
                reply.text + "\n\n"@ + text::joined(lines, "\n"@)
            }
        },
        None => reply.text,
    }
}

/// The lines of rows of labels and commands.
pub open spec fn action_lines(rows: Seq<Seq<(Seq<char>, Seq<char>)>>) -> Seq<Seq<char>>
    decreases rows.len(),
{
    if rows.len() == 0 {
        Seq::empty()
    } else {
        action_lines(rows.drop_last()) + Seq::new(
            rows.last().len(),
            |i: int| rows.last()[i].0 + "："@ + rows.last()[i].1,
        )
    }
}

// ---------------------------------------------------------------------------
// Laws
// ---------------------------------------------------------------------------

proof fn lemma_button_line(button: (Seq<char>, Seq<char>), row: int, at: int)
    ensures
        button_line(button_json(button, row, at)) == Some(button.0 + "："@ + button.1),
{
    reveal_strlit("id");
    reveal_strlit("render_data");
    reveal_strlit("action");
    reveal_strlit("label");
    reveal_strlit("type");
    reveal_strlit("permission");
    reveal_strlit("data");
    assert("id"@.len() == 2);
    assert("render_data"@.len() == 11);
    assert("action"@.len() == 6);
    assert("type"@[0] == 't' && "data"@[0] == 'd');
    assert("permission"@.len() == 10 && "data"@.len() == 4);
    reveal_with_fuel(json::member_of, 5);
    let value = button_json(button, row, at);
    let members = value->Object_0;
    assert(members.drop_first()[0] == members[1]);
    assert(members.drop_first().drop_first()[0] == members[2]);
    let action = members[2].1->Object_0;
    assert(action.drop_first()[0] == action[1]);
    assert(action.drop_first().drop_first()[0] == action[2]);
    assert(value.get("render_data"@) == Some(members[1].1));
    assert(value.get("action"@) == Some(members[2].1));
    assert(members[1].1.get("label"@) == Some(JsonView::Text(button.0)));
    assert(members[2].1.get("data"@) == Some(JsonView::Text(button.1)));
}

proof fn lemma_row_lines(buttons: Seq<(Seq<char>, Seq<char>)>, row: int, n: nat)
    requires
        n <= buttons.len(),
    ensures
        button_lines(buttons_of(row_json(buttons, row)), n) == Seq::new(
            n,
            |i: int| buttons[i].0 + "："@ + buttons[i].1,
        ),
    decreases n,
{
    let shown = buttons_of(row_json(buttons, row));
    assert(shown =~= Seq::new(buttons.len(), |i: int| button_json(buttons[i], row, i)));
    let lines = Seq::new(n, |i: int| buttons[i].0 + "："@ + buttons[i].1);
    if n == 0 {
        assert(lines =~= Seq::<Seq<char>>::empty());
    } else {
        lemma_row_lines(buttons, row, (n - 1) as nat);
        lemma_button_line(buttons[n - 1], row, n - 1);
        let before = Seq::new((n - 1) as nat, |i: int| buttons[i].0 + "："@ + buttons[i].1);
        assert(lines =~= before.push(buttons[n - 1].0 + "："@ + buttons[n - 1].1));
    }
}

proof fn lemma_all_lines(rows: Seq<Seq<(Seq<char>, Seq<char>)>>, n: nat)
    requires
        n <= rows.len(),
    ensures
        row_lines(Seq::new(rows.len(), |i: int| row_json(rows[i], i)), n) == action_lines(
            rows.take(n as int),
        ),
    decreases n,
{
    let shown = Seq::new(rows.len(), |i: int| row_json(rows[i], i));
    if n > 0 {
        lemma_all_lines(rows, (n - 1) as nat);
        let last = rows[n - 1];
        lemma_row_lines(last, n - 1, last.len());
        assert(rows.take(n as int).drop_last() =~= rows.take(n - 1));
        assert(rows.take(n as int).last() == last);
        assert(buttons_of(shown[n - 1]).len() == last.len());
    }
}

/// The text form of a menu names every button of it with its command, in order.
pub proof fn lemma_fallback_keeps_actions(
    message: Seq<char>,
    rows: Seq<Seq<(Seq<char>, Seq<char>)>>,
)
    ensures
        fallback(ReplyContent { text: message, keyboard: Some(keyboard_json(rows)) }) == (
        if action_lines(rows).len() == 0 {
            message
        } else {
            message + "\n\n"@ + text::joined(action_lines(rows), "\n"@)
        }),
{
    let shown = Seq::new(rows.len(), |i: int| row_json(rows[i], i));
    reveal_with_fuel(json::member_of, 2);
    assert(rows_of(Some(keyboard_json(rows))) == Some(shown));
    lemma_all_lines(rows, rows.len());
    assert(rows.take(rows.len() as int) =~= rows);
}

// ---------------------------------------------------------------------------
// Keyboards
// ---------------------------------------------------------------------------

fn number(n: u64) -> (result: Json)
    ensures
        result@ == whole(n as nat),
{
    Json::Number(JsonNumber::Unsigned(n))
}

fn button_value(button: &MenuButton, row: usize, at: usize) -> (result: Json)
    ensures
        result@ == button_json(button@, row as int, at as int),
{
    let mut id = "codexbot-".to_owned();
    let row_text = text::decimal_text(row as u64);
    id.append(row_text.as_str());
    id.append("-");
    let at_text = text::decimal_text(at as u64);
    id.append(at_text.as_str());
    let mut render: Vec<(String, Json)> = Vec::new();
    render.push(json::member("label", Json::Text(button.label.clone())));
    render.push(json::member("visited_label", Json::Text(button.label.clone())));
    render.push(json::member("style", number(1)));
    let mut permission: Vec<(String, Json)> = Vec::new();
    permission.push(json::member("type", number(2)));
    assert(json::members(permission@) =~= seq![("type"@, whole(2))]);
    let mut action: Vec<(String, Json)> = Vec::new();
    action.push(json::member("type", number(2)));
    action.push(json::member("permission", json::object(permission)));
    action.push(json::member("data", Json::Text(button.command.clone())));
    action.push(json::member("reply", Json::Bool(true)));
    action.push(json::member("enter", Json::Bool(true)));
    action.push(json::member("unsupport_tips", json::text_json("请发送按钮显示的命令")));
    let ghost goal = button_json(button@, row as int, at as int)->Object_0;
    assert(json::members(render@) =~= goal[1].1->Object_0);
    assert(json::members(action@) =~= goal[2].1->Object_0);
    let mut parts: Vec<(String, Json)> = Vec::new();
    parts.push(json::member("id", Json::Text(id)));
    parts.push(json::member("render_data", json::object(render)));
    parts.push(json::member("action", json::object(action)));
    assert(json::members(parts@) =~= goal);
    json::object(parts)
}

fn row_value(buttons: &Vec<MenuButton>, row: usize) -> (result: Json)
    ensures
        result@ == row_json(row_view(buttons@), row as int),
{
    let ghost views = row_view(buttons@);
    let ghost goal = Seq::new(views.len(), |i: int| button_json(views[i], row as int, i));
    let mut shown: Vec<Json> = Vec::new();
    for i in 0..buttons.len()
        invariant
            views == row_view(buttons@),
            goal == Seq::new(views.len(), |i: int| button_json(views[i], row as int, i)),
            json::values(shown@) == goal.take(i as int),
    {
        let ghost held = json::values(shown@);
        shown.push(button_value(&buttons[i], row, i));
        assert(json::values(shown@) =~= held.push(goal[i as int]));
        assert(goal.take(i + 1) =~= held.push(goal[i as int]));
    }
    assert(goal.take(goal.len() as int) =~= goal);
    let mut parts: Vec<(String, Json)> = Vec::new();
    parts.push(json::member("buttons", json::list(shown)));
    assert(json::members(parts@) =~= row_json(views, row as int)->Object_0);
    json::object(parts)
}

/// The keyboard with the given rows of buttons.
pub fn keyboard(rows: &Vec<Vec<MenuButton>>) -> (result: Json)
    ensures
        result@ == keyboard_json(rows_view(rows@)),
{
    let ghost views = rows_view(rows@);
    let ghost goal = Seq::new(views.len(), |i: int| row_json(views[i], i));
    let mut shown: Vec<Json> = Vec::new();
    for i in 0..rows.len()
        invariant
            views == rows_view(rows@),
            goal == Seq::new(views.len(), |i: int| row_json(views[i], i)),
            json::values(shown@) == goal.take(i as int),
    {
        let ghost held = json::values(shown@);
        shown.push(row_value(&rows[i], i));
        assert(json::values(shown@) =~= held.push(goal[i as int]));
        assert(goal.take(i + 1) =~= held.push(goal[i as int]));
    }
    assert(goal.take(goal.len() as int) =~= goal);
    let mut inner: Vec<(String, Json)> = Vec::new();
    inner.push(json::member("rows", json::list(shown)));
    let ghost whole_view = keyboard_json(views)->Object_0;
    assert(json::members(inner@) =~= whole_view[0].1->Object_0);
    let mut parts: Vec<(String, Json)> = Vec::new();
    parts.push(json::member("content", json::object(inner)));
    assert(json::members(parts@) =~= whole_view);
    json::object(parts)
}

fn line_of(button: &Json) -> (result: Option<String>)
    ensures
        text::opt_text(result) == button_line(button@),
{
    let label = json::text_in(json::field(button.get("render_data"), "label"));
    let command = json::text_in(json::field(button.get("action"), "data"));
    match (label, command) {
        (Some(label), Some(command)) => {
            let mut line = label.to_owned();
            line.append("：");
            line.append(command);
            Some(line)
        },
        _ => None,
    }
}

fn lines_in(rows: &Vec<Json>) -> (result: Vec<String>)
    ensures
        text::texts(result@) == row_lines(json::values(rows@), rows@.len()),
{
    let ghost all = json::values(rows@);
    let mut lines: Vec<String> = Vec::new();
    assert(text::texts(lines@) =~= row_lines(all, 0));
    for i in 0..rows.len()
        invariant
            all == json::values(rows@),
            text::texts(lines@) == row_lines(all, i as nat),
    {
        let ghost start = text::texts(lines@);
        let ghost buttons = buttons_of(all[i as int]);
        match rows[i].get("buttons") {
            Some(value) => match value.as_list() {
                Some(items) => {
                    assert(buttons == json::values(items@));
                    assert(start + button_lines(buttons, 0) =~= start);
                    for j in 0..items.len()
                        invariant
                            buttons == json::values(items@),
                            text::texts(lines@) == start + button_lines(buttons, j as nat),
                    {
                        let ghost held = text::texts(lines@);
                        match line_of(&items[j]) {
                            Some(line) => {
                                lines.push(line);
                                assert(text::texts(lines@) =~= held.push(line@));
                                assert(start + button_lines(buttons, j as nat).push(line@)
                                    =~= held.push(line@));
                            },
                            None => {},
                        }
                    }
                },
                None => {
                    assert(buttons =~= Seq::empty());
                    assert(start + button_lines(buttons, 0) =~= start);
                },
            },
            None => {
                assert(buttons =~= Seq::empty());
                assert(start + button_lines(buttons, 0) =~= start);
            },
        }
    }
    lines
}

impl MenuReply {
    /// A reply without a keyboard.
    pub fn text(text: &str) -> (result: Self)
        ensures
            result@ == (ReplyContent { text: text@, keyboard: None }),
    {
        MenuReply { text: text.to_owned(), keyboard: None }
    }

    /// A reply with a keyboard.
    pub fn menu(text: &str, rows: &Vec<Vec<MenuButton>>) -> (result: Self)
        ensures
            result@ == (ReplyContent {
                text: text@,
                keyboard: Some(keyboard_json(rows_view(rows@))),
            }),
    {
        MenuReply { text: text.to_owned(), keyboard: Some(keyboard(rows)) }
    }

    /// The reply as a text, for chats without keyboards.
    pub fn fallback_text(&self) -> (result: String)
        ensures
            result@ == fallback(self@),
    {
        let board = match &self.keyboard {
            Some(keyboard) => Some(keyboard),
            None => None,
        };
        assert(json::opt_json(board) == self@.keyboard);
        let rows = match json::field(json::field(board, "content"), "rows") {
            Some(value) => match value.as_list() {
                Some(rows) => rows,
                None => {
                    return self.text.clone();
                },
            },
            None => {
                return self.text.clone();
            },
        };
        let lines = lines_in(rows);
        assert(text::texts(lines@).len() == lines@.len());
        if lines.len() == 0 {
            return self.text.clone();
        }
        let mut result = self.text.clone();
        result.append("\n\n");
        let body = text::join(&lines, "\n");
        result.append(body.as_str());
        result
    }
}

// ---------------------------------------------------------------------------
// Menus
// ---------------------------------------------------------------------------

pub open spec fn main_menu_text(running: nat) -> Seq<char> {
    "CodexBot 远程控制台\n运行中："@ + text::decimal(running)
        + " 个任务\n\n按钮不可用时可发送：/new、/tasks、/last、/status"@
}

pub open spec fn main_menu_rows() -> Seq<Seq<(Seq<char>, Seq<char>)>> {
    seq![
        seq![("新建任务"@, "/new"@), ("运行中"@, "/tasks running"@)],
        seq![("任务列表"@, "/tasks"@), ("最近结果"@, "/last"@)],
        seq![("项目目录"@, "/new"@), ("状态"@, "/status"@)],
    ]
}

fn pair(first: MenuButton, second: MenuButton) -> (result: Vec<MenuButton>)
    ensures
        row_view(result@) == seq![first@, second@],
{
    let mut row: Vec<MenuButton> = Vec::new();
    row.push(first);
    row.push(second);
    assert(row_view(row@) =~= seq![first@, second@]);
    row
}

/// The main menu.
pub fn main_menu(running: usize) -> (result: MenuReply)
    ensures
        result@ == (ReplyContent {
            text: main_menu_text(running as nat),
            keyboard: Some(keyboard_json(main_menu_rows())),
        }),
{
    let mut message = "CodexBot 远程控制台\n运行中：".to_owned();
    let count = text::decimal_text(running as u64);
    message.append(count.as_str());
    message.append(" 个任务\n\n按钮不可用时可发送：/new、/tasks、/last、/status");
    let mut rows: Vec<Vec<MenuButton>> = Vec::new();
    rows.push(
        pair(MenuButton::new("新建任务", "/new"), MenuButton::new("运行中", "/tasks running")),
    );
    rows.push(
        pair(MenuButton::new("任务列表", "/tasks"), MenuButton::new("最近结果", "/last")),
    );
    rows.push(pair(MenuButton::new("项目目录", "/new"), MenuButton::new("状态", "/status")));
    assert(rows_view(rows@) =~= main_menu_rows());
    MenuReply::menu(message.as_str(), &rows)
}

pub open spec fn notification_rows(thread: Seq<char>, can_continue: bool) -> Seq<
    Seq<(Seq<char>, Seq<char>)>,
> {
    let view = ("查看任务"@, "/task "@ + thread);
    let first = if can_continue {
        seq![view, ("继续任务"@, "/continue "@ + thread)]
    } else {
        seq![view]
    };
    seq![first, seq![("新建任务"@, "/new"@)]]
}

/// The keyboard under a notification about a task.
pub fn task_notification_keyboard(thread_id: &str, can_continue: bool) -> (result: Json)
    ensures
        result@ == keyboard_json(notification_rows(thread_id@, can_continue)),
{
    let mut view = "/task ".to_owned();
    view.append(thread_id);
    let mut first: Vec<MenuButton> = Vec::new();
    first.push(MenuButton::new("查看任务", view.as_str()));
    if can_continue {
        let mut more = "/continue ".to_owned();
        more.append(thread_id);
        first.push(MenuButton::new("继续任务", more.as_str()));
    }
    let mut second: Vec<MenuButton> = Vec::new();
    second.push(MenuButton::new("新建任务", "/new"));
    let ghost goal = notification_rows(thread_id@, can_continue);
    assert(row_view(first@) =~= goal[0]);
    assert(row_view(second@) =~= goal[1]);
    let mut rows: Vec<Vec<MenuButton>> = Vec::new();
    rows.push(first);
    rows.push(second);
    assert(rows_view(rows@) =~= goal);
    keyboard(&rows)
}

} // verus!
