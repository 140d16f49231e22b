use codexbot::clock::SECOND;
use codexbot::codex_control::{
    choose_effort, choose_model, continue_task, interrupt, interrupted, list_models, list_threads,
    parse_thread, read_thread, record_notification, start_task, steer, thread_list_params,
    turn_start_params, ControlError, ModelInfo, StartedTask, TaskProgress, TaskState, ThreadInfo,
    MAX_RUNNING_TASKS,
};
use codexbot::control_session::{
    continued, decode, encode, error_reply, model_menu_from, path_models, shorten, started,
    status_text, steered, stopped, task_detail, task_text, tasks, valid_saved_model, ControlSession,
    ControlStep, Stage, WIZARD_TTL,
};
use codexbot::directories::{
    browse_directory, browse_disks, favorites, keep_directory, kept_directories, KEPT_LIMIT,
};
use codexbot::json::{parse_json, Json};
use codexbot::qq_menu::MenuReply;
use codexbot::store::{QQTaskInfo, Store};

const NOW: i64 = 1_700_000_000 * SECOND;

fn json(text: &str) -> Json {
    parse_json(text.as_bytes()).unwrap()
}

fn model() -> ModelInfo {
    ModelInfo {
        model: "gpt-test".into(),
        display_name: "GPT Test".into(),
        is_default: true,
        default_effort: "medium".into(),
        efforts: vec!["medium".into(), "high".into()],
    }
}

fn thread(status: &str) -> ThreadInfo {
    ThreadInfo {
        id: "t1".into(),
        cwd: "/w".into(),
        preview: "hello".into(),
        status: status.into(),
        updated_at: 7,
        turn_id: Some("u1".into()),
        last_output: None,
        last_prompt: None,
        error: None,
    }
}

fn task(thread_id: &str, state: &str) -> QQTaskInfo {
    QQTaskInfo {
        thread_id: thread_id.into(),
        turn_id: "u".into(),
        cwd: "/w".into(),
        model: "gpt-test".into(),
        effort: "high".into(),
        state: state.into(),
        updated_at: NOW,
    }
}

fn owned_store() -> Store {
    let mut store = Store::new();
    store.set_setting("bound_openid", "owner");
    store
}

fn handle(session: &mut ControlSession, store: &Store, content: &str) -> ControlStep {
    session.handle(store, "owner", content, NOW)
}

fn shown(step: ControlStep) -> MenuReply {
    match step {
        ControlStep::Reply(reply) => reply,
        other => panic!("no reply: {other:?}"),
    }
}

fn at<'a>(value: &'a Json, path: &[&str]) -> &'a Json {
    let mut value = value;
    for key in path {
        value = value.get(key).unwrap();
    }
    value
}

#[test]
fn turn_start_uses_never_and_full_access() {
    let value = turn_start_params("thread", r"E:\work", "gpt-test", "high", "fix it");
    assert_eq!(value.text_at("approvalPolicy"), Some("never"));
    assert_eq!(
        at(&value, &["sandboxPolicy", "type"]).as_text(),
        Some("dangerFullAccess")
    );
    let input = value.get("input").unwrap().as_list().unwrap();
    assert_eq!(input[0].text_at("text"), Some("fix it"));
}

#[test]
fn parses_structured_thread_status() {
    let value = json(
        r#"{"id": "thread-1", "cwd": "E:\\work", "preview": "hello",
            "status": {"type": "active", "activeFlags": []}, "updatedAt": 7, "turns": []}"#,
    );
    assert_eq!(parse_thread(&value).unwrap().status, "active");
}

#[test]
fn parses_latest_prompt_output_and_error() {
    let value = json(
        r#"{"id": "thread-1", "cwd": "E:\\work", "preview": "hello",
            "status": {"type": "idle"}, "updatedAt": 7,
            "turns": [{"id": "turn-1", "status": "failed", "error": {"message": "capacity"},
                "items": [
                    {"id": "u", "type": "userMessage", "content": [{"type": "text", "text": "do it"}]},
                    {"id": "a", "type": "agentMessage", "text": "partial"}
                ]}]}"#,
    );
    let thread = parse_thread(&value).unwrap();
    assert_eq!(thread.last_prompt.as_deref(), Some("do it"));
    assert_eq!(thread.last_output.as_deref(), Some("partial"));
    assert_eq!(thread.error.as_deref(), Some("capacity"));
}

#[test]
fn saved_model_requires_supported_effort() {
    let models = vec![model()];
    assert!(valid_saved_model(&models, Some("gpt-test"), Some("high")).is_some());
    assert!(valid_saved_model(&models, Some("gpt-test"), Some("ultra")).is_none());
    assert!(valid_saved_model(&models, Some("gone"), Some("high")).is_none());
}

#[test]
fn menu_values_round_trip_windows_paths() {
    let path = r"E:\Codex Workspace\Demo";
    assert_eq!(decode(&encode(path)).unwrap(), path);
    assert_eq!(encode("a"), "YQ");
    assert!(matches!(
        decode("*"),
        Err(ControlError::InvalidResponse("encoded menu value"))
    ));
    assert!(decode("_w").is_err());
}

#[test]
fn a_task_is_started_in_two_requests() {
    let mut store = owned_store();
    let state = start_task(&store, "/w", "gpt-test", "high", "fix it").unwrap();
    let (method, params) = state.request();
    assert_eq!(method, "thread/start");
    assert_eq!(params.text_at("cwd"), Some("/w"));
    let answer = json("{\"thread\":{\"id\":\"t1\"}}");
    let state = match state.advance(&mut store, &answer, NOW).unwrap() {
        TaskProgress::Next(state) => state,
        TaskProgress::Started(_) => panic!("too early"),
    };
    let (method, params) = state.request();
    assert_eq!(method, "turn/start");
    assert_eq!(params.text_at("threadId"), Some("t1"));
    let answer = json("{\"turn\":{\"id\":\"u1\"}}");
    match state.advance(&mut store, &answer, NOW).unwrap() {
        TaskProgress::Started(task) => {
            assert_eq!(task.thread_id, "t1");
            assert_eq!(task.turn_id, "u1");
        }
        TaskProgress::Next(_) => panic!("too late"),
    }
    assert_eq!(store.count_running_qq_tasks(), 1);
    assert_eq!(store.get_qq_task("t1").unwrap().state, "active");
}

#[test]
fn a_fourth_task_is_refused() {
    let mut store = owned_store();
    for id in ["a", "b", "c"] {
        store.upsert_qq_task(&task(id, "active"));
    }
    assert_eq!(MAX_RUNNING_TASKS, 3);
    let error = start_task(&store, "/w", "m", "e", "p").unwrap_err();
    assert!(matches!(error, ControlError::TooManyRunningTasks));
    assert_eq!(error.message(), "最多同时运行 3 个 QQ 任务");
    assert!(continue_task(&store, "x", "p").is_err());
}

#[test]
fn a_running_thread_takes_no_second_turn() {
    let mut store = owned_store();
    let state = continue_task(&store, "t1", "more").unwrap();
    assert_eq!(state.request().0, "thread/read");
    let answer = json(
        "{\"thread\":{\"id\":\"t1\",\"cwd\":\"/w\",\"status\":{\"type\":\"active\"},\"updatedAt\":1,\"turns\":[]}}",
    );
    let error = state.advance(&mut store, &answer, NOW).unwrap_err();
    assert!(matches!(error, ControlError::AlreadyRunning));
    assert_eq!(error.message(), "该任务当前已有运行中的回合");
}

#[test]
fn a_finished_thread_is_resumed() {
    let mut store = owned_store();
    store.upsert_qq_task(&task("t1", "completed"));
    let mut state = continue_task(&store, "t1", "more").unwrap();
    let mut methods = Vec::new();
    let mut answers = vec![
        json("{\"thread\":{\"id\":\"t1\",\"cwd\":\"/w\",\"status\":{\"type\":\"idle\"},\"updatedAt\":1,\"turns\":[]}}"),
        json("{\"thread\":{\"id\":\"t1\"}}"),
        json("{\"turn\":{\"id\":\"u2\"}}"),
    ];
    loop {
        methods.push(state.request().0);
        let answer = answers.remove(0);
        match state.advance(&mut store, &answer, NOW).unwrap() {
            TaskProgress::Next(next) => state = next,
            TaskProgress::Started(task) => {
                assert_eq!(task.turn_id, "u2");
                break;
            }
        }
    }
    assert_eq!(methods, vec!["thread/read", "thread/resume", "turn/start"]);
}

#[test]
fn models_are_listed_and_chosen() {
    let models = list_models(&json(
        r#"{"data": [{"model": "a", "displayName": "A", "isDefault": false,
            "defaultReasoningEffort": "medium",
            "supportedReasoningEfforts": [{"reasoningEffort": "high"}]},
            {"model": "b", "displayName": "B", "isDefault": true,
            "defaultReasoningEffort": "low", "supportedReasoningEfforts": []}]}"#,
    ));
    assert_eq!(models.len(), 2);
    assert_eq!(models[0].efforts, vec!["high"]);
    assert_eq!(choose_model(&models, &None), Some(1));
    assert_eq!(choose_model(&models, &Some("a".to_owned())), Some(0));
    assert_eq!(choose_model(&vec![], &None), None);
    assert_eq!(choose_effort(&model(), &Some("high".to_owned())), "high");
    assert_eq!(choose_effort(&model(), &Some("ultra".to_owned())), "medium");
}

#[test]
fn threads_are_listed() {
    let mut store = owned_store();
    let threads = list_threads(
        &mut store,
        &json(r#"{"data": [{"id": "t", "cwd": "/w", "preview": "p", "status": "idle", "updatedAt": 1}]}"#),
        NOW,
    );
    assert_eq!(threads.len(), 1);
    assert_eq!(
        thread_list_params(20).get("limit").unwrap().as_unsigned(),
        Some(20)
    );
    assert!(read_thread(&json("{}")).is_err());
    assert_eq!(
        ControlError::InvalidResponse("thread/read").message(),
        "Codex app-server returned an invalid thread/read response"
    );
}

#[test]
fn a_turn_is_steered_and_interrupted() {
    let mut store = owned_store();
    let params = steer("t", "u", "hint");
    assert_eq!(params.text_at("threadId"), Some("t"));
    assert_eq!(interrupt("t", "u").text_at("turnId"), Some("u"));
    store.upsert_qq_task(&task("t", "active"));
    interrupted(&mut store, "t", "u", NOW);
    assert_eq!(store.count_running_qq_tasks(), 0);
}

#[test]
fn a_completed_turn_ends_its_task() {
    let mut store = owned_store();
    store.upsert_qq_task(&task("t", "active"));
    let notification = json(
        r#"{"method": "turn/completed", "params": {"threadId": "t", "turn": {"id": "u", "status": "completed"}}}"#,
    );
    record_notification(&mut store, &notification, NOW);
    assert_eq!(store.get_qq_task("t").unwrap().state, "completed");
}

#[test]
fn only_the_owner_controls() {
    let store = owned_store();
    let mut session = ControlSession::new(NOW);
    let reply = shown(session.handle(&store, "other", "/new", NOW));
    assert_eq!(reply.text, "无权操作此 CodexBot。");
    assert_eq!(session.wizard.stage, Stage::Idle);
}

#[test]
fn a_task_needs_its_confirmation() {
    let mut store = owned_store();
    let mut session = ControlSession::new(NOW);
    assert_eq!(handle(&mut session, &store, "/new"), ControlStep::ListForNew);
    session.begin_new(&vec![thread("idle")], &vec![true], NOW);
    let reply = shown(handle(&mut session, &store, "/ui start"));
    assert_eq!(reply.text, "启动确认已失效，请发送 /new 重新创建任务。");
    shown(handle(&mut session, &store, "/ui path"));
    assert_eq!(
        handle(&mut session, &store, "/w"),
        ControlStep::CheckPath { cwd: "/w".to_owned() }
    );
    assert_eq!(
        session.select_path("/w", true, NOW),
        ControlStep::ModelsForPath { cwd: "/w".to_owned() }
    );
    session.select_model(&vec![model()], "gpt-test", NOW);
    let effort = format!("/ui effort {}", encode("high"));
    shown(handle(&mut session, &store, &effort));
    let reply = shown(handle(&mut session, &store, "fix it"));
    assert_eq!(
        reply.text,
        "确认启动\n目录：/w\n模型：gpt-test / high\n任务：fix it"
    );
    assert_eq!(
        handle(&mut session, &store, "/ui start"),
        ControlStep::Start {
            cwd: "/w".to_owned(),
            model: "gpt-test".to_owned(),
            effort: "high".to_owned(),
            prompt: "fix it".to_owned(),
        }
    );
    assert_eq!(session.wizard.prompt, None);
    let task = StartedTask {
        thread_id: "t1".to_owned(),
        turn_id: "u1".to_owned(),
    };
    let reply = started(&mut store, &task, "/w", "gpt-test", "high");
    assert_eq!(reply.text, "任务已启动\n任务 ID：t1\n工作目录：/w");
    assert_eq!(store.get_setting("qq_last_model").as_deref(), Some("gpt-test"));
}

#[test]
fn a_dialogue_expires_after_a_quarter_hour() {
    let store = owned_store();
    let mut session = ControlSession::new(NOW);
    shown(handle(&mut session, &store, "/ui path"));
    assert!(session.should_handle("anything", NOW + WIZARD_TTL - 1));
    assert!(!session.should_handle("anything", NOW + 2 * WIZARD_TTL + 1));
    assert_eq!(session.wizard.stage, Stage::Idle);
}

#[test]
fn an_invalid_directory_is_asked_for_again() {
    let mut session = ControlSession::new(NOW);
    let reply = shown(session.select_path("relative", false, NOW));
    assert_eq!(
        reply.text,
        "目录无效或不存在，请重新发送一个存在的绝对目录路径。"
    );
}

#[test]
fn the_last_configuration_is_offered_while_it_is_valid() {
    let mut store = owned_store();
    let models = vec![model()];
    assert_eq!(path_models(&store, &models, "/w").text, "选择模型");
    store.set_setting("qq_last_model", "gpt-test");
    store.set_setting("qq_last_effort", "high");
    assert_eq!(
        path_models(&store, &models, "/w").text,
        "工作目录：/w\n上次配置：gpt-test / high"
    );
    let mut session = ControlSession::new(NOW);
    let reply = session.use_last_config(&models, "gpt-test", "high", NOW);
    assert_eq!(
        reply.text,
        "请发送任务内容。完整内容只保存在内存中，提交后即清除。"
    );
    assert_eq!(session.wizard.stage, Stage::AwaitPrompt);
}

#[test]
fn commands_lead_to_their_steps() {
    let store = owned_store();
    let mut session = ControlSession::new(NOW);
    assert_eq!(
        handle(&mut session, &store, "/tasks running"),
        ControlStep::ListTasks { running_only: true }
    );
    assert_eq!(
        handle(&mut session, &store, "/task t1"),
        ControlStep::ReadTask { thread_id: "t1".to_owned() }
    );
    assert_eq!(
        handle(&mut session, &store, "/continue t1"),
        ControlStep::ReadForContinue { thread_id: "t1".to_owned() }
    );
    session.await_continue("t1", NOW);
    assert_eq!(
        handle(&mut session, &store, "more"),
        ControlStep::Continue { thread_id: "t1".to_owned(), prompt: "more".to_owned() }
    );
    shown(handle(&mut session, &store, "/steer t1 u1"));
    assert_eq!(
        handle(&mut session, &store, "hint"),
        ControlStep::Steer {
            thread_id: "t1".to_owned(),
            turn_id: "u1".to_owned(),
            prompt: "hint".to_owned(),
        }
    );
    assert_eq!(
        handle(&mut session, &store, r"\stop t1 u1"),
        ControlStep::Stop { thread_id: "t1".to_owned(), turn_id: "u1".to_owned() }
    );
    assert!(shown(handle(&mut session, &store, "/stop t1")).text.contains("操作失败"));
    assert!(shown(handle(&mut session, &store, "/menu")).text.contains('0'));
}

#[test]
fn tasks_are_shown() {
    assert_eq!(status_text("inProgress"), "运行中");
    assert_eq!(status_text("systemError"), "失败");
    assert_eq!(status_text("else"), "未知");
    assert_eq!(
        task_text(&thread("idle")),
        "任务：hello\n状态：已完成\n目录：/w\n任务 ID：t1"
    );
    assert!(task_detail(&thread("active")).fallback_text().contains("/stop t1 u1"));
    assert!(task_detail(&thread("idle")).fallback_text().contains("/continue t1"));
    assert_eq!(tasks(&vec![thread("idle")], true).text, "没有符合条件的任务。");
    assert_eq!(
        tasks(&vec![thread("idle"), thread("active")], false).text,
        "1. [已完成] hello\n   /w\n2. [运行中] hello\n   /w"
    );
}

#[test]
fn replies_lead_back_to_the_task() {
    let task = StartedTask {
        thread_id: "t1".to_owned(),
        turn_id: "u1".to_owned(),
    };
    for reply in [continued(&task), steered("t1"), stopped("t1")] {
        assert!(reply.fallback_text().contains("/task t1"));
    }
    assert_eq!(shorten("a\nb   c", 3), "a b…");
    assert!(error_reply("down").text.contains("操作失败：down"));
    assert!(model_menu_from(&vec![model()]).fallback_text().contains("GPT Test（默认）"));
    assert!(model_menu_from(&vec![]).text.contains("操作失败"));
}

#[test]
fn states_of_a_task_differ() {
    let store = owned_store();
    let first = start_task(&store, "/w", "m", "e", "p").unwrap();
    let second = start_task(&store, "/v", "m", "e", "p").unwrap();
    assert_ne!(first, second);
    assert!(matches!(first, TaskState::Starting { .. }));
}

#[test]
fn details_show_the_final_error_or_the_latest_output() {
    let mut failed = ThreadInfo {
        id: "t".into(),
        cwd: "d".into(),
        preview: "p".into(),
        status: "failed".into(),
        updated_at: 0,
        turn_id: None,
        last_output: Some("partial".into()),
        last_prompt: None,
        error: Some("capacity".into()),
    };
    assert_eq!(
        task_text(&failed),
        "任务：p\n状态：失败\n目录：d\n任务 ID：t\n错误：capacity"
    );
    failed.error = None;
    assert_eq!(
        task_text(&failed),
        "任务：p\n状态：失败\n目录：d\n任务 ID：t\n最新输出：partial"
    );
    failed.last_output = Some("x".repeat(600));
    let shown = task_detail(&failed).text;
    assert!(shown.ends_with(&format!("{}…", "x".repeat(500))));
    assert!(!shown.contains(&"x".repeat(501)));
}

#[test]
fn a_confirmation_that_is_too_old_starts_nothing() {
    let store = owned_store();
    let mut session = ControlSession::new(NOW);
    session.wizard.stage = Stage::Confirm;
    session.wizard.prompt = Some("fix it".into());
    session.wizard.touch(NOW);
    let late = NOW + WIZARD_TTL;
    assert!(session.should_handle("/ui start", late));
    let reply = shown(session.handle(&store, "owner", "/ui start", late));
    assert_eq!(reply.text, "启动确认已失效，请发送 /new 重新创建任务。");
    assert_eq!(session.wizard.stage, Stage::Idle);
    assert_eq!(session.wizard.prompt, None);
}

#[test]
fn directories_can_be_browsed() {
    let store = owned_store();
    let mut session = ControlSession::new(NOW);
    let menu = session.begin_new(&vec![thread("idle")], &vec![true], NOW);
    assert_eq!(
        menu.fallback_text(),
        format!(
            "新建任务 · 选择工作目录\n可选最近目录，或输入电脑上的任意绝对路径。\n\n\
             /w：/ui cwd {}\n收藏目录：/ui favorites\n浏览磁盘：/ui disks\n\
             输入绝对路径：/ui path\n取消：/cancel",
            encode("/w")
        )
    );
    assert_eq!(handle(&mut session, &store, "/ui disks"), ControlStep::ListDisks);
    let disks = vec![
        ("D:\\".to_owned(), "D:\\".to_owned()),
        ("C:\\".to_owned(), "C:\\".to_owned()),
    ];
    assert_eq!(
        browse_disks(disks).fallback_text(),
        format!(
            "浏览磁盘\n选择盘符。\n\nC:\\：/ui dir {}\nD:\\：/ui dir {}\n取消：/cancel",
            encode("C:\\"),
            encode("D:\\")
        )
    );
    assert_eq!(
        handle(&mut session, &store, &format!("/ui dir {}", encode("C:\\"))),
        ControlStep::ListDirectories {
            path: "C:\\".to_owned(),
            page: 0
        }
    );
    let entries: Vec<(String, String)> = (0..10)
        .map(|i| (format!("d{i}"), format!("/w/d{i}")))
        .rev()
        .collect();
    let first = browse_directory("/w", entries.clone(), 0).fallback_text();
    assert!(first.starts_with("当前目录：/w\n选择子目录，或使用当前目录。\n\n使用此目录："));
    assert!(first.contains("d0：") && first.contains("d7：") && !first.contains("d8："));
    let next = format!("/ui page 1 {}", encode("/w"));
    assert!(first.contains(&format!("下一页：{next}")));
    assert_eq!(
        handle(&mut session, &store, &next),
        ControlStep::ListDirectories {
            path: "/w".to_owned(),
            page: 1
        }
    );
    let far = browse_directory("/w", entries.clone(), u64::MAX).fallback_text();
    assert!(far.contains("使用此目录：") && !far.contains("d9：") && !far.contains("下一页"));
    assert_eq!(
        handle(
            &mut session,
            &store,
            &format!("/ui page {} {}", u64::MAX, encode("/w"))
        ),
        ControlStep::ListDirectories {
            path: "/w".to_owned(),
            page: u64::MAX
        }
    );
    let second = browse_directory("/w", entries, 1).fallback_text();
    assert!(second.contains("d8：") && second.contains("d9：") && !second.contains("d7："));
    assert!(!second.contains("下一页"));
    for command in ["/ui dir !", "/ui page x y", "/ui page 1", "/ui other"] {
        assert!(shown(handle(&mut session, &store, command))
            .text
            .starts_with("操作失败："));
    }
}

#[test]
fn directories_are_kept_for_later() {
    let mut store = owned_store();
    let mut session = ControlSession::new(NOW);
    assert!(favorites(&store).text.contains("还没有收藏的目录"));
    assert_eq!(
        handle(&mut session, &store, &format!("/ui keep {}", encode("/a"))),
        ControlStep::Keep { cwd: "/a".to_owned() }
    );
    assert_eq!(keep_directory(&mut store, "/a").text, "已收藏目录：/a");
    keep_directory(&mut store, "/b");
    keep_directory(&mut store, "/a");
    assert_eq!(kept_directories(&store), vec!["/b".to_owned(), "/a".to_owned()]);
    let menu = shown(handle(&mut session, &store, "/ui favorites"));
    assert!(menu
        .fallback_text()
        .contains(&format!("/b：/ui cwd {}", encode("/b"))));
    assert_eq!(keep_directory(&mut store, "x\ny").text, "无法收藏目录：x\ny");
    for i in 0..10 {
        keep_directory(&mut store, &format!("/d{i}"));
    }
    let kept = kept_directories(&store);
    assert_eq!(kept.len(), KEPT_LIMIT);
    assert_eq!(kept[0], "/d9");
}
