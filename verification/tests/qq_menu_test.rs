use codexbot::qq_menu::{
    keyboard, main_menu, task_notification_keyboard, MenuButton, MenuReply,
};

#[test]
fn keyboard_buttons_send_commands_immediately() {
    let value = keyboard(&vec![vec![MenuButton::new("新建任务", "/new")]]);
    let rows = value.get("content").unwrap().get("rows").unwrap();
    let buttons = rows.as_list().unwrap()[0].get("buttons").unwrap();
    let action = buttons.as_list().unwrap()[0].get("action").unwrap();
    assert_eq!(action.get("type").unwrap().as_unsigned(), Some(2));
    assert_eq!(action.get("enter").unwrap().as_bool(), Some(true));
    assert_eq!(action.get("data").unwrap().as_text(), Some("/new"));
}

#[test]
fn text_fallback_preserves_every_action() {
    let reply = MenuReply::menu("菜单", &vec![vec![MenuButton::new("新建任务", "/new")]]);
    assert!(reply.fallback_text().contains("新建任务：/new"));
}

#[test]
fn a_reply_without_buttons_falls_back_to_its_text() {
    let reply = MenuReply::text("完成");
    assert!(reply.keyboard.is_none());
    assert_eq!(reply.fallback_text(), "完成");
}

#[test]
fn the_main_menu_counts_running_tasks() {
    let menu = main_menu(2);
    assert!(menu.text.contains('2'));
    let fallback = menu.fallback_text();
    assert!(fallback.contains("：/new"));
    assert!(fallback.contains("：/tasks"));
}

#[test]
fn notifications_lead_to_their_task() {
    let count = |can_continue: bool| {
        let value = task_notification_keyboard("thread", can_continue);
        let rows = value.get("content").unwrap().get("rows").unwrap();
        rows.as_list()
            .unwrap()
            .iter()
            .map(|row| row.get("buttons").unwrap().as_list().unwrap().len())
            .sum::<usize>()
    };
    assert_eq!(count(true), count(false) + 1);
}

#[test]
fn buttons_are_numbered_by_row_and_column() {
    let value = keyboard(&vec![
        vec![MenuButton::new("a", "/a")],
        vec![MenuButton::new("b", "/b"), MenuButton::new("c", "/c")],
    ]);
    let rows = value.get("content").unwrap().get("rows").unwrap();
    let second = rows.as_list().unwrap()[1].get("buttons").unwrap();
    assert_eq!(second.as_list().unwrap()[1].text_at("id"), Some("codexbot-1-1"));
}
