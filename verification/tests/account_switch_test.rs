use codexbot::account_switch::{
    account_identity, accounts_dir, auth_file_path, backup_name, backup_payload, backups_dir,
    current_account_email, delete_account, list_accounts, load_snapshot, load_snapshot_path,
    prepare_switch, read_auth_json, save_current_account, slugify, snapshot_path_in, switch_account,
    AccountSnapshotStore, AccountSwitchError, SnapshotFile,
};
use codexbot::clock::SECOND;
use codexbot::file_path::FilePath;
use codexbot::json::{compact_text, parse_json, Json};

const NOW: i64 = 1_700_000_000 * SECOND;

fn json(text: &str) -> Json {
    parse_json(text.as_bytes()).unwrap()
}

fn login(id: &str) -> Vec<u8> {
    format!("{{\"tokens\":{{\"account_id\":\"{id}\"}}}}").into_bytes()
}

fn saved(name: &str, id: &str) -> SnapshotFile {
    let (_, payload) = save_current_account(name, Some(&login(id)), NOW).unwrap();
    SnapshotFile {
        file_name: format!("{name}.enc"),
        stem: name.to_owned(),
        content: Ok(payload),
    }
}

#[test]
fn non_ascii_names_have_distinct_paths() {
    let root = FilePath::new("accounts");
    assert_ne!(
        snapshot_path_in(&root, "工作账号"),
        snapshot_path_in(&root, "个人账号")
    );
}

#[test]
fn reads_nested_identity_from_jwt() {
    // The middle part is {"email":"nested@example.com"} in padded base64.
    let body = "eyJlbWFpbCI6Im5lc3RlZEBleGFtcGxlLmNvbSJ9";
    let data = json(&format!(
        "{{\"tokens\":{{\"id_token\":\"header.{body}.signature\",\
         \"account_id\":\"nested-account\"}}}}"
    ));
    let (email, id) = account_identity(&data);
    assert_eq!(email.as_deref(), Some("nested@example.com"));
    assert_eq!(id.as_deref(), Some("nested-account"));
}

#[test]
fn aborts_if_codex_restarts_before_the_auth_write() {
    let file = saved("saved", "saved");
    let mut auth_file = login("current");
    let payload = load_snapshot("saved", Some(&file), None, &vec![]);
    let checks = [Vec::<u32>::new(), vec![999]];
    let prepared = prepare_switch(checks[0].len(), payload, Some(&auth_file), NOW).unwrap();
    let switched = switch_account(prepared, checks[1].len());
    if let Ok((auth, _)) = &switched {
        auth_file = compact_text(auth).into_bytes();
    }
    let error = switched.unwrap_err();
    assert!(error.message().contains("重新启动"));
    let current = json(std::str::from_utf8(&auth_file).unwrap());
    assert_eq!(
        current
            .get("tokens")
            .unwrap()
            .get("account_id")
            .unwrap()
            .as_text(),
        Some("current")
    );
}

#[test]
fn a_saved_login_is_restored_and_the_active_one_backed_up() {
    let file = saved("saved", "one");
    let payload = load_snapshot(" saved ", Some(&file), None, &vec![]);
    let prepared = prepare_switch(0, payload, Some(&login("two")), NOW).unwrap();
    let backup = prepared.backup.as_ref().unwrap();
    assert_eq!(backup.text_at("account_id"), Some("two"));
    let (auth, identity) = switch_account(prepared, 0).unwrap();
    assert_eq!(compact_text(&auth).into_bytes(), login("one"));
    assert_eq!(identity, (None, Some("one".to_owned())));
}

#[test]
fn a_running_codex_stops_the_switch() {
    let file = saved("saved", "one");
    let payload = load_snapshot("saved", Some(&file), None, &vec![]);
    let error = prepare_switch(2, payload, None, NOW).unwrap_err();
    assert_eq!(
        error.message(),
        "检测到 2 个 Codex/ChatGPT 进程正在运行，请完全退出后再切换账号。"
    );
}

#[test]
fn a_broken_snapshot_is_refused() {
    let error = prepare_switch(0, Ok(json("{}")), None, NOW).unwrap_err();
    assert!(matches!(error, AccountSwitchError::InvalidSnapshot(_)));
    let error = load_snapshot_path("work", &b"no json".to_vec()).unwrap_err();
    assert_eq!(error.message(), "账号快照 \"work\" 无法解密或解析。");
    let error = load_snapshot_path("work", &b"{}".to_vec()).unwrap_err();
    assert_eq!(error.message(), "账号快照 \"work\" 格式无效。");
    assert!(load_snapshot_path("work", &b"{\"auth_json\":{}}".to_vec()).is_ok());
}

#[test]
fn an_unknown_account_is_not_found() {
    let error = load_snapshot("none", None, None, &vec![]).unwrap_err();
    assert_eq!(
        error.message(),
        "未找到已保存的账号 \"none\"，请先用 /account save 保存。"
    );
    let error = delete_account("none", None, None, &vec![]).unwrap_err();
    assert_eq!(error.message(), "未找到已保存的账号 \"none\"。");
}

#[test]
fn a_deleted_account_is_gone_afterwards() {
    let files = vec![saved("work", "1"), saved("home", "2")];
    let names = delete_account("WORK", None, None, &files).unwrap();
    assert_eq!(names, vec!["work.enc".to_owned()]);
    let rest: Vec<SnapshotFile> = files
        .into_iter()
        .filter(|file| !names.contains(&file.file_name))
        .collect();
    assert!(load_snapshot("work", None, None, &rest).is_err());
    assert!(load_snapshot("home", None, None, &rest).is_ok());
}

#[test]
fn a_login_needs_a_name_a_file_and_credentials() {
    assert!(matches!(
        save_current_account("  ", Some(&login("x")), NOW),
        Err(AccountSwitchError::AccountName)
    ));
    assert!(matches!(
        save_current_account("x", None, NOW),
        Err(AccountSwitchError::NotLoggedIn)
    ));
    assert!(read_auth_json(Some(&b"{}".to_vec())).is_err());
    assert!(read_auth_json(Some(&b"{".to_vec())).is_err());
    assert!(read_auth_json(Some(&b"[]".to_vec())).is_err());
    assert!(read_auth_json(Some(&login("x"))).is_ok());
}

#[test]
fn accounts_are_listed_once_each() {
    let files = vec![saved("work", "1"), saved("home", "2")];
    let accounts = list_accounts(&files);
    assert_eq!(accounts.len(), 2);
    let names: Vec<&str> = accounts.iter().map(|account| account.name.as_str()).collect();
    assert!(names.contains(&"work") && names.contains(&"home"));
    assert_eq!(accounts[0].saved_at, NOW);
}

#[test]
fn an_account_without_a_finite_time_is_not_listed() {
    let file = |at: &str| SnapshotFile {
        file_name: "work.enc".to_owned(),
        stem: "work".to_owned(),
        content: Ok(json(&format!(
            "{{\"name\":\"work\",\"saved_at\":{at},\"auth_json\":{{\"tokens\":{{\"account_id\":\"1\"}}}}}}"
        ))),
    };
    for at in ["\"inf\"", "\"NaN\"", "\"x\"", "null"] {
        assert!(list_accounts(&vec![file(at)]).is_empty());
    }
    for (at, micros) in [("\"12.5\"", 12_500_000), ("\"1e20\"", i64::MAX), ("3", 3 * SECOND)] {
        let accounts = list_accounts(&vec![file(at)]);
        assert_eq!(accounts.len(), 1);
        assert_eq!(accounts[0].saved_at, micros);
    }
}

#[test]
fn the_active_address_is_read() {
    let content = b"{\"email\":\"a@b.c\",\"tokens\":{\"access_token\":\"t\"}}".to_vec();
    assert_eq!(current_account_email(Some(&content)).as_deref(), Some("a@b.c"));
    assert_eq!(current_account_email(None), None);
    let store = AccountSnapshotStore::new(FilePath::new("auth.json"), FilePath::new("accounts"));
    assert_eq!(
        store.current_account_email(Some(&content)).as_deref(),
        Some("a@b.c")
    );
    assert_eq!(store.backups_dir().parts, vec!["backups"]);
    assert_ne!(store.snapshot_path("a"), store.legacy_snapshot_path("a"));
}

#[test]
fn the_paths_of_an_account() {
    let data = FilePath::new("data");
    assert_eq!(accounts_dir(&data).parts, vec!["accounts"]);
    assert_eq!(backups_dir(&data).parts, vec!["accounts", "backups"]);
    let auth = auth_file_path(Some("codex"), Some("home"));
    assert_eq!((auth.base.as_str(), auth.parts.len()), ("codex", 1));
    let auth = auth_file_path(None, Some("home"));
    assert_eq!(auth.base, "home");
    assert_eq!(auth.parts, vec![".codex", "auth.json"]);
    let path = snapshot_path_in(&data, "Work Mail");
    let other = snapshot_path_in(&data, " work mail ");
    assert_eq!(path.parts[0].len(), other.parts[0].len());
}

#[test]
fn a_backup_holds_the_whole_login() {
    let auth = json("{\"OPENAI_API_KEY\":\"k\",\"tokens\":{\"account_id\":\"7\"}}");
    let backup = backup_payload(&auth, NOW);
    assert_eq!(backup.get("auth_json").unwrap(), &auth);
    assert_eq!(backup.text_at("account_id"), Some("7"));
}

#[test]
fn switch_errors_have_their_texts() {
    assert_eq!(
        AccountSwitchError::UnsupportedPlatform.message(),
        "CodexBot 账号快照只支持 Windows DPAPI。"
    );
    assert_eq!(
        AccountSwitchError::Io("x".to_owned()).message(),
        "账号文件操作失败：x"
    );
    assert_eq!(
        AccountSwitchError::NotLoggedIn.message(),
        "~/.codex/auth.json 不存在，请先在 Codex 中登录。"
    );
    assert_eq!(AccountSwitchError::AccountName.message(), "账号名称不能为空。");
}

fn file_name(name: &str) -> String {
    let path = snapshot_path_in(&FilePath::new("accounts"), name);
    assert_eq!(path.base, "accounts");
    assert_eq!(path.parts.len(), 1);
    path.parts[0].clone()
}

#[test]
fn a_snapshot_is_named_by_a_slug_and_a_digest() {
    for (name, slug) in [
        ("Work", "Work"),
        (" Work ", "Work"),
        ("a b/c", "a_b_c"),
        ("..-", "account"),
        ("工作", "account"),
        ("_x.", "x"),
    ] {
        let file = file_name(name);
        let digits = file
            .strip_prefix(&format!("{slug}--"))
            .and_then(|rest| rest.strip_suffix(".enc"))
            .unwrap();
        assert_eq!(digits.len(), 16);
        assert!(digits
            .chars()
            .all(|c| c.is_ascii_digit() || ('a'..='f').contains(&c)));
    }
    assert_eq!(file_name(" Work "), file_name("Work"));
    assert_eq!(slugify("a b/c"), "a_b_c");
    assert_eq!(slugify(&slugify("a b/c")), "a_b_c");
    assert_eq!(slugify("工作"), "account");
    assert_eq!(backup_name("20260101-000000"), "before-switch-20260101-000000.enc");
    assert_ne!(file_name("工作"), file_name("个人"));
}
