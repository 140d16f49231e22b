//! Snapshots of the active Codex login: their names, their contents, and what
//! switching to one of them takes.
use vstd::prelude::*;
use vstd::utf8;
use crate::clock;
use crate::delivery;
use crate::digest;
use crate::file_path;
use crate::file_path::{FilePath, PathView};
use crate::identity;
use crate::json;
use crate::json::{Json, JsonFault, JsonNumber, JsonView};
use crate::security;
use crate::store;
use crate::text;
use crate::text::text_eq;

verus! {

/// Why an account could not be saved, switched or deleted.
#[derive(Debug)]
pub enum AccountSwitchError {
    NotLoggedIn,
    AccountName,
    SnapshotNotFound(String),
    InvalidSnapshot(String),
    UnsupportedPlatform,
    Other(String),
    Io(String),
}

/// What an error is.
pub enum SwitchErrorView {
    NotLoggedIn,
    AccountName,
    SnapshotNotFound(Seq<char>),
    InvalidSnapshot(Seq<char>),
    UnsupportedPlatform,
    Other(Seq<char>),
    Io(Seq<char>),
}

/// The message of an error.
pub open spec fn switch_message(error: SwitchErrorView) -> Seq<char> {
    match error {
        SwitchErrorView::NotLoggedIn => "~/.codex/auth.json 不存在，请先在 Codex 中登录。"@,
        SwitchErrorView::AccountName => "账号名称不能为空。"@,
        SwitchErrorView::SnapshotNotFound(detail) => detail,
        SwitchErrorView::InvalidSnapshot(detail) => detail,
        SwitchErrorView::UnsupportedPlatform => "CodexBot 账号快照只支持 Windows DPAPI。"@,
        SwitchErrorView::Other(detail) => detail,
        SwitchErrorView::Io(detail) => "账号文件操作失败："@ + detail,
    }
}

impl AccountSwitchError {
    pub open spec fn view(&self) -> SwitchErrorView {
        match self {
            AccountSwitchError::NotLoggedIn => SwitchErrorView::NotLoggedIn,
            AccountSwitchError::AccountName => SwitchErrorView::AccountName,
            AccountSwitchError::SnapshotNotFound(detail) => SwitchErrorView::SnapshotNotFound(
                detail@,
            ),
            AccountSwitchError::InvalidSnapshot(detail) => SwitchErrorView::InvalidSnapshot(
                detail@,
            ),
            AccountSwitchError::UnsupportedPlatform => SwitchErrorView::UnsupportedPlatform,
            AccountSwitchError::Other(detail) => SwitchErrorView::Other(detail@),
            AccountSwitchError::Io(detail) => SwitchErrorView::Io(detail@),
        }
    }

    pub fn message(&self) -> (result: String)
        ensures
            result@ == switch_message(self@),
    {
        match self {
            AccountSwitchError::NotLoggedIn => {
                "~/.codex/auth.json 不存在，请先在 Codex 中登录。".to_owned()
            },
            AccountSwitchError::AccountName => "账号名称不能为空。".to_owned(),
            AccountSwitchError::SnapshotNotFound(detail) => detail.clone(),
            AccountSwitchError::InvalidSnapshot(detail) => detail.clone(),
            AccountSwitchError::UnsupportedPlatform => {
                "CodexBot 账号快照只支持 Windows DPAPI。".to_owned()
            },
            AccountSwitchError::Other(detail) => detail.clone(),
            AccountSwitchError::Io(detail) => {
                let mut result = "账号文件操作失败：".to_owned();
                result.append(detail.as_str());
                result
            },
        }
    }

    fn copy(&self) -> (result: AccountSwitchError)
        ensures
            result@ == self@,
    {
        match self {
            AccountSwitchError::NotLoggedIn => AccountSwitchError::NotLoggedIn,
            AccountSwitchError::AccountName => AccountSwitchError::AccountName,
            AccountSwitchError::SnapshotNotFound(detail) => AccountSwitchError::SnapshotNotFound(
                detail.clone(),
            ),
            AccountSwitchError::InvalidSnapshot(detail) => AccountSwitchError::InvalidSnapshot(
                detail.clone(),
            ),
            AccountSwitchError::UnsupportedPlatform => AccountSwitchError::UnsupportedPlatform,
            AccountSwitchError::Other(detail) => AccountSwitchError::Other(detail.clone()),
            AccountSwitchError::Io(detail) => AccountSwitchError::Io(detail.clone()),
        }
    }
}

/// A saved account.
#[derive(Debug, PartialEq, Eq)]
pub struct AccountSnapshot {
    pub name: String,
    pub email: Option<String>,
    pub account_id: Option<String>,
    pub saved_at: i64,
}

/// What a saved account is.
pub struct SnapshotView {
    pub name: Seq<char>,
    pub email: Option<Seq<char>>,
    pub account_id: Option<Seq<char>>,
    pub saved_at: i64,
}

impl AccountSnapshot {
    pub open spec fn view(&self) -> SnapshotView {
        SnapshotView {
            name: self.name@,
            email: text::opt_text(self.email),
            account_id: text::opt_text(self.account_id),
            saved_at: self.saved_at,
        }
    }

    pub fn copy(&self) -> (result: AccountSnapshot)
        ensures
            result@ == self@,
    {
        AccountSnapshot {
            name: self.name.clone(),
            email: text::copied(&self.email),
            account_id: text::copied(&self.account_id),
            saved_at: self.saved_at,
        }
    }
}

// ---------------------------------------------------------------------------
// Places
// ---------------------------------------------------------------------------

/// Where the login stands, and where the snapshots do.
#[derive(Debug)]
pub struct AccountSnapshotStore {
    pub auth_path: FilePath,
    pub accounts_dir: FilePath,
}

/// The directory of the snapshots below the data directory.
pub fn accounts_dir(data_dir: &FilePath) -> (result: FilePath)
    ensures
        result@ == file_path::joined_path(data_dir@, "accounts"@),
{
    data_dir.join("accounts")
}

/// The directory of the backups below the data directory.
pub fn backups_dir(data_dir: &FilePath) -> (result: FilePath)
    ensures
        result@ == file_path::joined_path(
            file_path::joined_path(data_dir@, "accounts"@),
            "backups"@,
        ),
{
    let accounts = accounts_dir(data_dir);
    accounts.join("backups")
}

/// The path of the login: below the Codex home if one is set, else below the
/// home of the user.
pub open spec fn auth_path(codex_home: Option<Seq<char>>, home: Option<Seq<char>>) -> PathView {
    match codex_home {
        Some(base) => PathView { base, parts: seq!["auth.json"@] },
        None => PathView {
            base: match home {
                Some(base) => base,
                None => "."@,
            },
            parts: seq![".codex"@, "auth.json"@],
        },
    }
}

/// The path of the login.
pub fn auth_file_path(codex_home: Option<&str>, home: Option<&str>) -> (result: FilePath)
    ensures
        result@ == auth_path(text::opt_str(codex_home), text::opt_str(home)),
{
    let result = match codex_home {
        Some(base) => {
            let root = FilePath::new(base);
            root.join("auth.json")
        },
        None => {
            let root = match home {
                Some(base) => FilePath::new(base),
                None => FilePath::new("."),
            };
            let hidden = root.join(".codex");
            hidden.join("auth.json")
        },
    };
    assert(result@ =~= auth_path(text::opt_str(codex_home), text::opt_str(home)));
    result
}

/// The file name of the backup of a login that is replaced at the time that
/// `stamp` tells.
pub fn backup_name(stamp: &str) -> (result: String)
    ensures
        result@ == "before-switch-"@ + stamp@ + ".enc"@,
{
    let mut result = "before-switch-".to_owned();
    result.append(stamp);
    result.append(".enc");
    result
}

/// Whether a character stands in a file name as it is.
pub open spec fn slug_char(c: char) -> bool {
    security::is_ascii_alnum(c) || c == '_' || c == '.' || c == '-'
}

/// `name` with each run of other characters turned into one underscore.
pub open spec fn slugged(name: Seq<char>) -> Seq<char>
    decreases name.len(),
{
    if name.len() == 0 {
        Seq::empty()
    } else {
        let before = slugged(name.drop_last());
        if slug_char(name.last()) {
            before.push(name.last())
        } else if name.len() > 1 && !slug_char(name[name.len() - 2]) {
            before
        } else {
            before.push('_')
        }
    }
}

/// A name as part of a file name.
pub open spec fn slug(name: Seq<char>) -> Seq<char> {
    let bare = text::stripped_end(
        text::stripped_start(slugged(text::trimmed(name)), "._-"@),
        "._-"@,
    );
    if bare.len() == 0 {
        "account"@
    } else {
        bare
    }
}

/// The digest that keeps the file names of different accounts apart.
pub open spec fn name_digest(name: Seq<char>) -> Seq<char> {
    digest::text_digest(text::lowercase(text::trimmed(name)))
}

/// The file name of a snapshot.
pub open spec fn snapshot_name(name: Seq<char>) -> Seq<char> {
    slug(name) + "--"@ + text::clipped(name_digest(name), 16) + ".enc"@
}

/// Whether a text is a slug, `--`, sixteen lower-case hexadecimal digits and
/// `.enc`.
pub open spec fn is_snapshot_name(file: Seq<char>, slug: Seq<char>) -> bool {
    exists|digits: Seq<char>|
        digits.len() == 16 && digest::all_hex(digits) && file == slug + "--"@ + #[trigger] (digits
            + ".enc"@)
}

/// The file name of a snapshot in the form of old.
pub open spec fn legacy_name(name: Seq<char>) -> Seq<char> {
    slug(name) + ".enc"@
}

/// A name as part of a file name: never empty, made of letters and digits of
/// ASCII, `_`, `.` and `-`, with a letter or a digit at both ends. Neither white
/// space around a name nor a second time changes it, and a name without a
/// letter or a digit of ASCII gives `account`.
pub fn slugify(name: &str) -> (result: String)
    ensures
        result@ == slug(name@),
        result@.len() > 0,
        identity::all_slug(result@),
        security::is_ascii_alnum(result@[0]),
        security::is_ascii_alnum(result@.last()),
        slug(result@) == result@,
        slug(text::trimmed(name@)) == result@,
        identity::no_alnum(name@) ==> result@ == "account"@,
{
    proof {
        identity::lemma_slug_is_clean(name@);
        identity::lemma_slug_is_stable(name@);
        if identity::no_alnum(name@) {
            identity::lemma_slug_of_nothing(name@);
        }
    }
    let trimmed = text::trim(name);
    let chars = text::chars_of(trimmed.as_str());
    let mut shown = String::new();
    let mut replaced = false;
    for i in 0..chars.len()
        invariant
            shown@ == slugged(chars@.take(i as int)),
            replaced == (i > 0 && !slug_char(chars@[i - 1])),
    {
        let ghost next = chars@.take(i + 1);
        assert(next.drop_last() =~= chars@.take(i as int));
        assert(next.len() > 1 ==> next[next.len() - 2] == chars@[i - 1]);
        let c: char = chars[i];
        if is_slug_char(c) {
            shown.push(c);
            replaced = false;
        } else if !replaced {
            shown.push('_');
            replaced = true;
        }
    }
    assert(chars@.take(chars@.len() as int) =~= chars@);
    let head = text::strip_start(shown.as_str(), "._-");
    let bare = text::strip_end(head.as_str(), "._-");
    if bare.as_str().is_empty() {
        "account".to_owned()
    } else {
        bare
    }
}

fn is_slug_char(c: char) -> (result: bool)
    ensures
        result == slug_char(c),
{
    let n: u32 = c as u32;
    (48 <= n && n <= 57) || (65 <= n && n <= 90) || (97 <= n && n <= 122) || c == '_' || c == '.'
        || c == '-'
}

/// The path of a snapshot in a directory.
pub fn snapshot_path_in(accounts: &FilePath, name: &str) -> (result: FilePath)
    ensures
        result@ == file_path::joined_path(accounts@, snapshot_name(name@)),
        is_snapshot_name(snapshot_name(name@), slug(name@)),
        name_digest(name@).len() == 64,
{
    let trimmed = text::trim(name);
    let normalized = text::to_lower(trimmed.as_str());
    let hash = digest::digest_text(normalized.as_str());
    let short = text::clip(hash.as_str(), 16);
    let mut file = slugify(name);
    file.append("--");
    file.append(short.as_str());
    file.append(".enc");
    assert(file@ =~= slug(name@) + "--"@ + (short@ + ".enc"@));
    accounts.join(file.as_str())
}

impl AccountSnapshotStore {
    pub fn new(auth_path: FilePath, accounts_dir: FilePath) -> (result: Self)
        ensures
            result.auth_path == auth_path,
            result.accounts_dir == accounts_dir,
    {
        AccountSnapshotStore { auth_path, accounts_dir }
    }

    /// The directory of the backups.
    pub fn backups_dir(&self) -> (result: FilePath)
        ensures
            result@ == file_path::joined_path(self.accounts_dir@, "backups"@),
    {
        self.accounts_dir.join("backups")
    }

    /// The path of a snapshot.
    pub fn snapshot_path(&self, name: &str) -> (result: FilePath)
        ensures
            result@ == file_path::joined_path(self.accounts_dir@, snapshot_name(name@)),
            is_snapshot_name(snapshot_name(name@), slug(name@)),
            name_digest(name@).len() == 64,
    {
        snapshot_path_in(&self.accounts_dir, name)
    }

    /// The path of a snapshot in the form of old.
    pub fn legacy_snapshot_path(&self, name: &str) -> (result: FilePath)
        ensures
            result@ == file_path::joined_path(self.accounts_dir@, legacy_name(name@)),
    {
        let mut file = slugify(name);
        file.append(".enc");
        self.accounts_dir.join(file.as_str())
    }
}

// ---------------------------------------------------------------------------
// Identity of a login
// ---------------------------------------------------------------------------

/// How many characters bring a text of `n` bytes to a multiple of four.
pub open spec fn padding(n: int) -> int {
    (4 - n % 4) % 4
}

/// `text` with `n` equality signs behind it.
pub open spec fn padded_with(text: Seq<char>, n: nat) -> Seq<char>
    decreases n,
{
    if n == 0 {
        text
    } else {
        padded_with(text, (n - 1) as nat).push('=')
    }
}

/// The claims that a token of three parts carries.
pub open spec fn claims(token: Seq<char>) -> Option<JsonView> {
    let parts = text::fields(token, '.');
    if parts.len() < 3 {
        None
    } else {
        let body = padded_with(
            parts[1],
            padding(utf8::encode_utf8(parts[1]).len() as int) as nat,
        );
        match digest::padded_base64_bytes(body) {
            Some(bytes) => match json::parsed(bytes) {
                Some(value) => if value is Object {
                    Some(value)
                } else {
                    None
                },
                None => None,
            },
            None => None,
        }
    }
}

/// The address among claims.
pub open spec fn claimed_email(claims: Option<JsonView>) -> Option<Seq<char>> {
    match claims {
        Some(claims) => match claims.get("email"@) {
            Some(email) => email.text(),
            None => claims.text_at("https://api.openai.com/auth.email"@),
        },
        None => None,
    }
}

/// The tokens of a login, if they are an object.
pub open spec fn tokens_of(data: JsonView) -> Option<JsonView> {
    match data.get("tokens"@) {
        Some(tokens) => if tokens is Object {
            Some(tokens)
        } else {
            None
        },
        None => None,
    }
}

/// The address that a token of a login carries.
pub open spec fn token_email(data: JsonView, token: Seq<char>) -> Option<Seq<char>> {
    match json::opt_text_of(json::opt_get(tokens_of(data), token)) {
        Some(token) => claimed_email(claims(token)),
        None => None,
    }
}

/// The address of a login: its own, else that of its identity token, else that
/// of its access token.
pub open spec fn login_email(data: JsonView) -> Option<Seq<char>> {
    store::or_else(
        data.text_at("email"@),
        store::or_else(token_email(data, "id_token"@), token_email(data, "access_token"@)),
    )
}

/// The account id of a login.
pub open spec fn login_id(data: JsonView) -> Option<Seq<char>> {
    store::or_else(
        data.text_at("account_id"@),
        json::opt_text_of(json::opt_get(tokens_of(data), "account_id"@)),
    )
}

fn jwt_payload(token: &str) -> (result: Option<Json>)
    ensures
        match result {
            Some(value) => claims(token@) == Some(value@),
            None => claims(token@) is None,
        },
{
    let parts = text::split_char(token, '.');
    let ghost all = text::fields(token@, '.');
    assert(all.len() == parts@.len());
    if parts.len() < 3 {
        return None;
    }
    assert(all[1] == parts@[1]@);
    let mut body = parts[1].clone();
    let size: usize = body.as_str().as_bytes().len();
    let missing: usize = (4 - size % 4) % 4;
    let ghost start = body@;
    for i in 0..missing
        invariant
            body@ == padded_with(start, i as nat),
    {
        body.push('=');
    }
    let bytes = match digest::decode_padded_base64(body.as_str()) {
        Some(bytes) => bytes,
        None => {
            return None;
        },
    };
    match json::parse_json(bytes.as_slice()) {
        Some(value) => match value {
            Json::Object(_) => Some(value),
            _ => None,
        },
        None => None,
    }
}

fn email_in(claims: &Option<Json>) -> (result: Option<String>)
    ensures
        text::opt_text(result) == claimed_email(store::opt_payload(*claims)),
{
    match claims {
        Some(claims) => match claims.get("email") {
            Some(email) => text::owned(email.as_text()),
            None => text::owned(claims.text_at("https://api.openai.com/auth.email")),
        },
        None => None,
    }
}

fn token_values<'a>(data: &'a Json) -> (result: Option<&'a Json>)
    ensures
        json::opt_json(result) == tokens_of(data@),
{
    match data.get("tokens") {
        Some(tokens) => match tokens {
            Json::Object(_) => Some(tokens),
            _ => None,
        },
        None => None,
    }
}

fn email_of_token(data: &Json, token: &str) -> (result: Option<String>)
    ensures
        text::opt_text(result) == token_email(data@, token@),
{
    match json::text_in(json::field(token_values(data), token)) {
        Some(token) => {
            let claims = jwt_payload(token);
            email_in(&claims)
        },
        None => None,
    }
}

/// The address and the account id of a login.
pub fn account_identity(data: &Json) -> (result: (Option<String>, Option<String>))
    ensures
        text::opt_text(result.0) == login_email(data@),
        text::opt_text(result.1) == login_id(data@),
{
    let account_id = match data.text_at("account_id") {
        Some(id) => Some(id.to_owned()),
        None => text::owned(json::text_in(json::field(token_values(data), "account_id"))),
    };
    let email = match data.text_at("email") {
        Some(email) => Some(email.to_owned()),
        None => match email_of_token(data, "id_token") {
            Some(email) => Some(email),
            None => email_of_token(data, "access_token"),
        },
    };
    (email, account_id)
}

// ---------------------------------------------------------------------------
// The active login
// ---------------------------------------------------------------------------

/// The name of a fault, as it is shown for diagnosis.
pub open spec fn fault_name(fault: JsonFault) -> Seq<char> {
    match fault {
        JsonFault::Io => "Io"@,
        JsonFault::Syntax => "Syntax"@,
        JsonFault::Data => "Data"@,
        JsonFault::Eof => "Eof"@,
    }
}

/// Whether a login can be saved: it holds tokens or a key.
pub open spec fn holds_credentials(root: JsonView) -> bool {
    ||| (root.get("tokens"@) is Some && root.get("tokens"@)->0 is Object)
    ||| match store::or_else(root.get("OPENAI_API_KEY"@), root.get("openai_api_key"@)) {
        Some(key) => key is Text,
        None => false,
    }
}

/// The login in the bytes of its file, absent if there is no file.
pub open spec fn login_read(content: Option<Seq<u8>>) -> Result<JsonView, SwitchErrorView> {
    match content {
        None => Err(SwitchErrorView::NotLoggedIn),
        Some(bytes) => match json::read_json(bytes) {
            Err((fault, _)) => Err(
                SwitchErrorView::Other("auth.json 无法解析："@ + fault_name(fault)),
            ),
            Ok(root) => if !(root is Object) {
                Err(SwitchErrorView::Other("auth.json 的根节点必须是对象。"@))
            } else if !holds_credentials(root) {
                Err(
                    SwitchErrorView::Other(
                        "auth.json 既不包含 ChatGPT tokens，也不包含 API key，无法保存。"@,
                    ),
                )
            } else {
                Ok(root)
            },
        },
    }
}

/// The views of a result.
pub open spec fn json_result(result: Result<Json, AccountSwitchError>) -> Result<
    JsonView,
    SwitchErrorView,
> {
    match result {
        Ok(value) => Ok(value@),
        Err(error) => Err(error@),
    }
}

/// The bytes of an optional file.
pub open spec fn opt_content(content: Option<&Vec<u8>>) -> Option<Seq<u8>> {
    match content {
        Some(bytes) => Some(bytes@),
        None => None,
    }
}

fn other(detail: &str) -> (result: AccountSwitchError)
    ensures
        result@ == SwitchErrorView::Other(detail@),
{
    AccountSwitchError::Other(detail.to_owned())
}

fn has_credentials(root: &Json) -> (result: bool)
    ensures
        result == holds_credentials(root@),
{
    match root.get("tokens") {
        Some(tokens) => match tokens {
            Json::Object(_) => {
                return true;
            },
            _ => {},
        },
        None => {},
    }
    let key = match root.get("OPENAI_API_KEY") {
        Some(key) => Some(key),
        None => root.get("openai_api_key"),
    };
    match key {
        Some(key) => match key {
            Json::Text(_) => true,
            _ => false,
        },
        None => false,
    }
}

/// Reads the login from the bytes of its file.
pub fn read_auth_json(content: Option<&Vec<u8>>) -> (result: Result<Json, AccountSwitchError>)
    ensures
        json_result(result) == login_read(opt_content(content)),
{
    let bytes = match content {
        Some(bytes) => bytes,
        None => {
            return Err(AccountSwitchError::NotLoggedIn);
        },
    };
    let root = match json::parse_json_or_fault(bytes.as_slice()) {
        Ok(root) => root,
        Err((fault, _)) => {
            let mut detail = "auth.json 无法解析：".to_owned();
            match fault {
                JsonFault::Io => detail.append("Io"),
                JsonFault::Syntax => detail.append("Syntax"),
                JsonFault::Data => detail.append("Data"),
                JsonFault::Eof => detail.append("Eof"),
            }
            return Err(AccountSwitchError::Other(detail));
        },
    };
    match &root {
        Json::Object(_) => {},
        _ => {
            return Err(other("auth.json 的根节点必须是对象。"));
        },
    }
    if !has_credentials(&root) {
        return Err(
            other("auth.json 既不包含 ChatGPT tokens，也不包含 API key，无法保存。"),
        );
    }
    Ok(root)
}

/// The address of the active login.
pub open spec fn active_email(content: Option<Seq<u8>>) -> Option<Seq<char>> {
    match login_read(content) {
        Ok(root) => login_email(root),
        Err(_) => None,
    }
}

impl AccountSnapshotStore {
    /// The address of the active login.
    pub fn current_account_email(&self, content: Option<&Vec<u8>>) -> (result: Option<String>)
        ensures
            text::opt_text(result) == active_email(opt_content(content)),
    {
        current_account_email(content)
    }
}

/// The address of the active login, from the bytes of its file.
pub fn current_account_email(content: Option<&Vec<u8>>) -> (result: Option<String>)
    ensures
        text::opt_text(result) == active_email(opt_content(content)),
{
    match read_auth_json(content) {
        Ok(root) => account_identity(&root).0,
        Err(_) => None,
    }
}

// ---------------------------------------------------------------------------
// Saving
// ---------------------------------------------------------------------------

/// What a snapshot file holds of a login, apart from its name.
pub open spec fn login_members(auth: JsonView, now: i64) -> Seq<(Seq<char>, JsonView)> {
    seq![
        ("email"@, json::opt_text_json(login_email(auth))),
        ("account_id"@, json::opt_text_json(login_id(auth))),
        ("saved_at"@, store::time_json(now)),
        ("auth_json"@, auth),
    ]
}

/// What a snapshot file holds.
pub open spec fn snapshot_payload(name: Seq<char>, auth: JsonView, now: i64) -> JsonView {
    JsonView::Object(seq![("name"@, JsonView::Text(name))] + login_members(auth, now))
}

/// What a backup file holds.
pub open spec fn backup_json(auth: JsonView, now: i64) -> JsonView {
    JsonView::Object(login_members(auth, now))
}

fn login_parts(auth: &Json, now: i64) -> (result: Vec<(String, Json)>)
    ensures
        json::members(result@) == login_members(auth@, now),
{
    let (email, account_id) = account_identity(auth);
    let mut parts: Vec<(String, Json)> = Vec::new();
    parts.push(json::member("email", json::optional_json(&email)));
    parts.push(json::member("account_id", json::optional_json(&account_id)));
    parts.push(
        json::member("saved_at", Json::Number(JsonNumber::Float(clock::seconds_number_text(now)))),
    );
    parts.push(json::member("auth_json", auth.copy()));
    assert(json::members(parts@) =~= login_members(auth@, now));
    parts
}

/// What a backup of the active login holds.
pub fn backup_payload(auth: &Json, now: i64) -> (result: Json)
    ensures
        result@ == backup_json(auth@, now),
{
    json::object(login_parts(auth, now))
}

/// The snapshot of the active login under a name, and what its file holds.
pub fn save_current_account(name: &str, content: Option<&Vec<u8>>, now: i64) -> (result: Result<
    (AccountSnapshot, Json),
    AccountSwitchError,
>)
    ensures
        ({
            let shown = text::trimmed(name@);
            let login = login_read(opt_content(content));
            match result {
                Ok((snapshot, payload)) => shown.len() > 0 && login is Ok && snapshot@ == (
                SnapshotView {
                    name: shown,
                    email: login_email(login->Ok_0),
                    account_id: login_id(login->Ok_0),
                    saved_at: now,
                }) && payload@ == snapshot_payload(shown, login->Ok_0, now),
                Err(error) => if shown.len() == 0 {
                    error@ == SwitchErrorView::AccountName
                } else {
                    login == Err::<JsonView, SwitchErrorView>(error@)
                },
            }
        }),
{
    let display_name = text::trim(name);
    if display_name.as_str().is_empty() {
        return Err(AccountSwitchError::AccountName);
    }
    let auth = match read_auth_json(content) {
        Ok(auth) => auth,
        Err(error) => {
            return Err(error);
        },
    };
    let (email, account_id) = account_identity(&auth);
    let mut parts = login_parts(&auth, now);
    let ghost rest = json::members(parts@);
    parts.insert(0, json::member("name", json::text_json(display_name.as_str())));
    assert(json::members(parts@) =~= seq![("name"@, JsonView::Text(display_name@))] + rest);
    let payload = json::object(parts);
    Ok((AccountSnapshot { name: display_name, email, account_id, saved_at: now }, payload))
}

// ---------------------------------------------------------------------------
// Finding
// ---------------------------------------------------------------------------

/// How `{:?}` of std's formatting shows a text.
pub uninterp spec fn debug_shown(text: Seq<char>) -> Seq<char>;

/// Formats a text with std's `{:?}`: between quotation marks, with special
/// characters escaped. What it shows is a function of the text alone.
#[verifier::external_body]
fn debug_text(value: &str) -> (result: String)
    ensures
        result@ == debug_shown(value@),
{
    format!("{value:?}")
}

/// The message about a snapshot file that cannot be used.
pub open spec fn broken_message(stem: Seq<char>, reason: Seq<char>) -> SwitchErrorView {
    SwitchErrorView::InvalidSnapshot("账号快照 "@ + debug_shown(stem) + reason)
}

/// The snapshot in the decrypted bytes of a file. `stem` is the file's name
/// without its suffix.
pub open spec fn snapshot_read(stem: Seq<char>, plain: Seq<u8>) -> Result<
    JsonView,
    SwitchErrorView,
> {
    match json::parsed(plain) {
        None => Err(broken_message(stem, " 无法解密或解析。"@)),
        Some(root) => if root is Object && root.get("auth_json"@) is Some && root.get(
            "auth_json"@,
        )->0 is Object {
            Ok(root)
        } else {
            Err(broken_message(stem, " 格式无效。"@))
        },
    }
}

fn broken(stem: &str, reason: &str) -> (result: AccountSwitchError)
    ensures
        result@ == broken_message(stem@, reason@),
{
    let mut detail = "账号快照 ".to_owned();
    let shown = debug_text(stem);
    detail.append(shown.as_str());
    detail.append(reason);
    AccountSwitchError::InvalidSnapshot(detail)
}

/// Reads a snapshot from the decrypted bytes of its file.
pub fn load_snapshot_path(stem: &str, plain: &Vec<u8>) -> (result: Result<
    Json,
    AccountSwitchError,
>)
    ensures
        json_result(result) == snapshot_read(stem@, plain@),
{
    let root = match json::parse_json(plain.as_slice()) {
        Some(root) => root,
        None => {
            return Err(broken(stem, " 无法解密或解析。"));
        },
    };
    match &root {
        Json::Object(_) => {},
        _ => {
            return Err(broken(stem, " 格式无效。"));
        },
    }
    let valid = match root.get("auth_json") {
        Some(auth) => match auth {
            Json::Object(_) => true,
            _ => false,
        },
        None => false,
    };
    if valid {
        Ok(root)
    } else {
        Err(broken(stem, " 格式无效。"))
    }
}

/// A snapshot file: its name, the same without the suffix, and what came of
/// reading it.
#[derive(Debug)]
pub struct SnapshotFile {
    pub file_name: String,
    pub stem: String,
    pub content: Result<Json, AccountSwitchError>,
}

/// What a snapshot file is.
pub struct FileView {
    pub file_name: Seq<char>,
    pub stem: Seq<char>,
    pub content: Result<JsonView, SwitchErrorView>,
}

impl SnapshotFile {
    pub open spec fn view(&self) -> FileView {
        FileView {
            file_name: self.file_name@,
            stem: self.stem@,
            content: json_result(self.content),
        }
    }
}

pub open spec fn file_views(files: Seq<SnapshotFile>) -> Seq<FileView> {
    Seq::new(files.len(), |i: int| files[i]@)
}

pub open spec fn opt_file(file: Option<&SnapshotFile>) -> Option<FileView> {
    match file {
        Some(file) => Some(file@),
        None => None,
    }
}

/// The name under which a snapshot was saved; that of the file if it holds
/// none.
pub open spec fn saved_name(payload: JsonView, stem: Seq<char>) -> Seq<char> {
    match payload.text_at("name"@) {
        Some(name) => name,
        None => stem,
    }
}

/// Whether a readable file, found by its own name, is the snapshot of an
/// account.
pub open spec fn file_is(file: FileView, name: Seq<char>) -> bool {
    match file.content {
        Ok(payload) => text::same_ascii(saved_name(payload, file.stem), name),
        Err(_) => false,
    }
}

/// Whether a readable file says itself that it is the snapshot of an account.
pub open spec fn file_claims(file: FileView, name: Seq<char>) -> bool {
    match file.content {
        Ok(payload) => match payload.text_at("name"@) {
            Some(stored) => text::same_ascii(stored, name),
            None => false,
        },
        Err(_) => false,
    }
}

/// The first of `files`, from index `from` on, that says it is the snapshot of
/// an account.
pub open spec fn claiming_at(files: Seq<FileView>, name: Seq<char>, from: int) -> Option<int>
    decreases files.len() - from,
{
    if 0 <= from < files.len() {
        if file_claims(files[from], name) {
            Some(from)
        } else {
            claiming_at(files, name, from + 1)
        }
    } else {
        None
    }
}

/// The snapshot of an account: in the file of its name, in the file of its name
/// of old, or in the first other file that says so. A file of its name that
/// cannot be read ends the search.
pub open spec fn snapshot_found(
    name: Seq<char>,
    direct: Option<FileView>,
    legacy: Option<FileView>,
    others: Seq<FileView>,
) -> Result<JsonView, SwitchErrorView> {
    let shown = text::trimmed(name);
    let rest = match claiming_at(others, shown, 0) {
        Some(i) => others[i].content,
        None => Err(
            SwitchErrorView::SnapshotNotFound(
                "未找到已保存的账号 "@ + debug_shown(name)
                    + "，请先用 /account save 保存。"@,
            ),
        ),
    };
    let second = match legacy {
        Some(file) => if file.content is Err || file_is(file, shown) {
            file.content
        } else {
            rest
        },
        None => rest,
    };
    match direct {
        Some(file) => if file.content is Err || file_is(file, shown) {
            file.content
        } else {
            second
        },
        None => second,
    }
}

fn is_file_of(payload: &Json, stem: &str, name: &str) -> (result: bool)
    ensures
        result == text::same_ascii(saved_name(payload@, stem@), name@),
{
    match payload.text_at("name") {
        Some(stored) => text::eq_ignore_ascii_case(stored, name),
        None => text::eq_ignore_ascii_case(stem, name),
    }
}

fn does_claim(file: &SnapshotFile, name: &str) -> (result: bool)
    ensures
        result == file_claims(file@, name@),
{
    match &file.content {
        Ok(payload) => match payload.text_at("name") {
            Some(stored) => text::eq_ignore_ascii_case(stored, name),
            None => false,
        },
        Err(_) => false,
    }
}

/// What a file by its name gives: its snapshot, its error, or nothing.
fn direct_match(file: Option<&SnapshotFile>, name: &str) -> (result: Option<
    Result<Json, AccountSwitchError>,
>)
    ensures
        match file {
            Some(file) => match result {
                Some(found) => (file@.content is Err || file_is(file@, name@)) && json_result(found)
                    == file@.content,
                None => file@.content is Ok && !file_is(file@, name@),
            },
            None => result is None,
        },
{
    match file {
        Some(file) => match &file.content {
            Ok(payload) => if is_file_of(payload, file.stem.as_str(), name) {
                Some(Ok(payload.copy()))
            } else {
                None
            },
            Err(error) => Some(Err(error.copy())),
        },
        None => None,
    }
}

/// The snapshot of an account.
pub fn load_snapshot(
    name: &str,
    direct: Option<&SnapshotFile>,
    legacy: Option<&SnapshotFile>,
    others: &Vec<SnapshotFile>,
) -> (result: Result<Json, AccountSwitchError>)
    ensures
        json_result(result) == snapshot_found(
            name@,
            opt_file(direct),
            opt_file(legacy),
            file_views(others@),
        ),
{
    let display_name = text::trim(name);
    match direct_match(direct, display_name.as_str()) {
        Some(found) => {
            return found;
        },
        None => {},
    }
    match direct_match(legacy, display_name.as_str()) {
        Some(found) => {
            return found;
        },
        None => {},
    }
    let ghost views = file_views(others@);
    let ghost shown = display_name@;
    let mut i: usize = 0;
    while i < others.len()
        invariant
            i <= others@.len(),
            views == file_views(others@),
            shown == display_name@,
            shown == text::trimmed(name@),
            claiming_at(views, shown, 0) == claiming_at(views, shown, i as int),
            match direct {
                Some(file) => file@.content is Ok && !file_is(file@, shown),
                None => true,
            },
            match legacy {
                Some(file) => file@.content is Ok && !file_is(file@, shown),
                None => true,
            },
        decreases others.len() - i,
    {
        if does_claim(&others[i], display_name.as_str()) {
            match &others[i].content {
                Ok(payload) => {
                    return Ok(payload.copy());
                },
                Err(_) => {},
            }
        }
        i += 1;
    }
    let mut detail = "未找到已保存的账号 ".to_owned();
    let quoted = debug_text(name);
    detail.append(quoted.as_str());
    detail.append("，请先用 /account save 保存。");
    Err(AccountSwitchError::SnapshotNotFound(detail))
}

// ---------------------------------------------------------------------------
// Listing
// ---------------------------------------------------------------------------

/// When a snapshot was saved.
pub open spec fn saved_time(payload: JsonView) -> Option<int> {
    match payload.get("saved_at"@) {
        Some(JsonView::Number(number)) => delivery::number_micros(number),
        Some(JsonView::Text(shown)) => clock::finite_read(shown),
        _ => None,
    }
}

/// A text that is there and not empty.
pub open spec fn filled(value: Option<Seq<char>>) -> Option<Seq<char>> {
    match value {
        Some(text) => if text.len() > 0 {
            Some(text)
        } else {
            None
        },
        None => None,
    }
}

/// The account in a file, unless that cannot be read or does not say when it
/// was saved.
pub open spec fn listed_account(file: FileView) -> Option<SnapshotView> {
    match file.content {
        Ok(payload) => match saved_time(payload) {
            Some(at) => Some(
                SnapshotView {
                    name: saved_name(payload, file.stem),
                    email: filled(payload.text_at("email"@)),
                    account_id: filled(payload.text_at("account_id"@)),
                    saved_at: at as i64,
                },
            ),
            None => None,
        },
        Err(_) => None,
    }
}

/// `accounts`, which stand in the order of their names, with one more. Of two
/// accounts whose names differ in case at most, the one saved later stays.
pub open spec fn entered(accounts: Seq<SnapshotView>, account: SnapshotView) -> Seq<SnapshotView>
    decreases accounts.len(),
{
    if accounts.len() == 0 {
        seq![account]
    } else {
        let last = accounts.last();
        let key = text::lowercase(account.name);
        let other = text::lowercase(last.name);
        if other == key {
            if account.saved_at >= last.saved_at {
                accounts.drop_last().push(account)
            } else {
                accounts
            }
        } else if json::text_le(other, key) {
            accounts.push(account)
        } else {
            entered(accounts.drop_last(), account).push(last)
        }
    }
}

/// The accounts in the first `n` of `files`, in the order of their names.
pub open spec fn catalog(files: Seq<FileView>, n: nat) -> Seq<SnapshotView>
    decreases n,
{
    if n == 0 {
        Seq::empty()
    } else {
        let before = catalog(files, (n - 1) as nat);
        match listed_account(files[n - 1]) {
            Some(account) => entered(before, account),
            None => before,
        }
    }
}

pub open spec fn snapshot_views(accounts: Seq<AccountSnapshot>) -> Seq<SnapshotView> {
    Seq::new(accounts.len(), |i: int| accounts[i]@)
}

fn filled_text(value: Option<&str>) -> (result: Option<String>)
    ensures
        text::opt_text(result) == filled(text::opt_str(value)),
{
    match value {
        Some(shown) => if shown.is_empty() {
            None
        } else {
            Some(shown.to_owned())
        },
        None => None,
    }
}

fn time_saved(payload: &Json) -> (result: Option<i64>)
    ensures
        match result {
            Some(at) => saved_time(payload@) == Some(at as int),
            None => saved_time(payload@) is None,
        },
{
    match payload.get("saved_at") {
        Some(value) => match value {
            Json::Number(number) => delivery::number_time(number),
            Json::Text(shown) => clock::parse_finite_seconds(shown.as_str()),
            _ => None,
        },
        None => None,
    }
}

fn account_in(file: &SnapshotFile) -> (result: Option<AccountSnapshot>)
    ensures
        match result {
            Some(account) => listed_account(file@) == Some(account@),
            None => listed_account(file@) is None,
        },
{
    match &file.content {
        Ok(payload) => match time_saved(payload) {
            Some(saved_at) => {
                let name = match payload.text_at("name") {
                    Some(name) => name.to_owned(),
                    None => file.stem.clone(),
                };
                Some(
                    AccountSnapshot {
                        name,
                        email: filled_text(payload.text_at("email")),
                        account_id: filled_text(payload.text_at("account_id")),
                        saved_at,
                    },
                )
            },
            None => None,
        },
        Err(_) => None,
    }
}

proof fn lemma_entered_at(accounts: Seq<SnapshotView>, account: SnapshotView, at: int)
    requires
        0 <= at <= accounts.len(),
        forall|j: int|
            at <= j < accounts.len() ==> text::lowercase((#[trigger] accounts[j]).name)
                != text::lowercase(account.name) && !json::text_le(
                text::lowercase(accounts[j].name),
                text::lowercase(account.name),
            ),
        at == 0 || text::lowercase(accounts[at - 1].name) == text::lowercase(account.name)
            || json::text_le(
            text::lowercase(accounts[at - 1].name),
            text::lowercase(account.name),
        ),
    ensures
        entered(accounts, account) == (if at > 0 && text::lowercase(accounts[at - 1].name)
            == text::lowercase(account.name) {
            if account.saved_at >= accounts[at - 1].saved_at {
                accounts.update(at - 1, account)
            } else {
                accounts
            }
        } else {
            accounts.insert(at, account)
        }),
    decreases accounts.len(),
{
    if accounts.len() == 0 {
        assert(seq![account] =~= accounts.insert(0, account));
    } else if at == accounts.len() {
        assert(accounts.drop_last().push(account) =~= accounts.update(at - 1, account));
        assert(accounts.push(account) =~= accounts.insert(at, account));
    } else {
        let rest = accounts.drop_last();
        assert forall|j: int| at <= j < rest.len() implies text::lowercase((#[trigger] rest[j]).name)
            != text::lowercase(account.name) && !json::text_le(
            text::lowercase(rest[j].name),
            text::lowercase(account.name),
        ) by {
            assert(rest[j] == accounts[j]);
        }
        assert(at > 0 ==> rest[at - 1] == accounts[at - 1]);
        lemma_entered_at(rest, account, at);
        let last = accounts.last();
        assert(accounts[accounts.len() - 1] == last);
        assert(rest.insert(at, account).push(last) =~= accounts.insert(at, account));
        assert(at > 0 ==> rest.update(at - 1, account).push(last) =~= accounts.update(
            at - 1,
            account,
        ));
        assert(rest.push(last) =~= accounts);
    }
}

fn enter(accounts: &mut Vec<AccountSnapshot>, account: AccountSnapshot)
    ensures
        snapshot_views(final(accounts)@) == entered(snapshot_views(old(accounts)@), account@),
{
    let ghost start = snapshot_views(accounts@);
    let ghost view = account@;
    let key = text::to_lower(account.name.as_str());
    let mut at: usize = accounts.len();
    let mut taken = false;
    while at > 0
        invariant_except_break
            !taken,
        invariant
            at <= accounts@.len(),
            start == snapshot_views(accounts@),
            key@ == text::lowercase(view.name),
            forall|j: int|
                at <= j < start.len() ==> text::lowercase((#[trigger] start[j]).name) != key@
                    && !json::text_le(text::lowercase(start[j].name), key@),
        ensures
            taken ==> at > 0 && text::lowercase(start[at - 1].name) == key@,
            !taken ==> at == 0 || (text::lowercase(start[at - 1].name) != key@ && json::text_le(
                text::lowercase(start[at - 1].name),
                key@,
            )),
        decreases at,
    {
        let other = text::to_lower(accounts[at - 1].name.as_str());
        if text_eq(other.as_str(), key.as_str()) {
            taken = true;
            break;
        }
        if json::text_ordered(other.as_str(), key.as_str()) {
            break;
        }
        at -= 1;
    }
    proof {
        lemma_entered_at(start, view, at as int);
    }
    if taken {
        if account.saved_at >= accounts[at - 1].saved_at {
            accounts.set(at - 1, account);
            assert(snapshot_views(accounts@) =~= start.update(at - 1, view));
        }
    } else {
        accounts.insert(at, account);
        assert(snapshot_views(accounts@) =~= start.insert(at as int, view));
    }
}

/// The saved accounts in the order of their names. `files` come in the order of
/// their paths.
pub fn list_accounts(files: &Vec<SnapshotFile>) -> (result: Vec<AccountSnapshot>)
    ensures
        snapshot_views(result@) == catalog(file_views(files@), files@.len()),
{
    let ghost views = file_views(files@);
    let mut result: Vec<AccountSnapshot> = Vec::new();
    assert(snapshot_views(result@) =~= catalog(views, 0));
    for i in 0..files.len()
        invariant
            views == file_views(files@),
            snapshot_views(result@) == catalog(views, i as nat),
    {
        match account_in(&files[i]) {
            Some(account) => {
                enter(&mut result, account);
            },
            None => {},
        }
    }
    result
}

// ---------------------------------------------------------------------------
// Switching
// ---------------------------------------------------------------------------

/// A switch that is ready to be made: what to back up, and the login to write.
#[derive(Debug)]
pub struct PreparedSwitch {
    pub backup: Option<Json>,
    pub auth: Json,
}

/// The message that names the number of running processes.
pub open spec fn running_message(count: nat, rest: Seq<char>) -> SwitchErrorView {
    SwitchErrorView::Other("检测到 "@ + text::decimal(count) + rest)
}

fn running_error(count: usize, rest: &str) -> (result: AccountSwitchError)
    ensures
        result@ == running_message(count as nat, rest@),
{
    let mut detail = "检测到 ".to_owned();
    let shown = text::decimal_text(count as u64);
    detail.append(shown.as_str());
    detail.append(rest);
    AccountSwitchError::Other(detail)
}

/// What a switch begins with: no Codex process may run, and the snapshot has to
/// be there. A readable active login is backed up.
pub open spec fn switch_prepared(
    running: nat,
    snapshot: Result<JsonView, SwitchErrorView>,
    content: Option<Seq<u8>>,
    now: i64,
) -> Result<(Option<JsonView>, JsonView), SwitchErrorView> {
    if running > 0 {
        Err(
            running_message(
                running,
                " 个 Codex/ChatGPT 进程正在运行，请完全退出后再切换账号。"@,
            ),
        )
    } else {
        match snapshot {
            Err(error) => Err(error),
            Ok(payload) => match payload.get("auth_json"@) {
                Some(auth) => if auth is Object {
                    Ok(
                        (
                            match login_read(content) {
                                Ok(current) => Some(backup_json(current, now)),
                                Err(_) => None,
                            },
                            auth,
                        ),
                    )
                } else {
                    Err(SwitchErrorView::InvalidSnapshot("账号快照格式无效。"@))
                },
                None => Err(SwitchErrorView::InvalidSnapshot("账号快照格式无效。"@)),
            },
        }
    }
}

/// Begins a switch: `running` counts the Codex processes, `content` holds the
/// bytes of the active login.
pub fn prepare_switch(
    running: usize,
    snapshot: Result<Json, AccountSwitchError>,
    content: Option<&Vec<u8>>,
    now: i64,
) -> (result: Result<PreparedSwitch, AccountSwitchError>)
    ensures
        switch_prepared(running as nat, json_result(snapshot), opt_content(content), now) == (
        match result {
            Ok(prepared) => Ok::<(Option<JsonView>, JsonView), SwitchErrorView>(
                (store::opt_payload(prepared.backup), prepared.auth@),
            ),
            Err(error) => Err(error@),
        }),
{
    if running > 0 {
        return Err(
            running_error(
                running,
                " 个 Codex/ChatGPT 进程正在运行，请完全退出后再切换账号。",
            ),
        );
    }
    let payload = match snapshot {
        Ok(payload) => payload,
        Err(error) => {
            return Err(error);
        },
    };
    let auth = match payload.get("auth_json") {
        Some(auth) => match auth {
            Json::Object(_) => auth.copy(),
            _ => {
                return Err(
                    AccountSwitchError::InvalidSnapshot("账号快照格式无效。".to_owned()),
                );
            },
        },
        None => {
            return Err(AccountSwitchError::InvalidSnapshot("账号快照格式无效。".to_owned()));
        },
    };
    let backup = match read_auth_json(content) {
        Ok(current) => Some(backup_payload(&current, now)),
        Err(_) => None,
    };
    Ok(PreparedSwitch { backup, auth })
}

/// Ends a switch once the backup is written: the login to write, with its
/// address and account id, unless a Codex process has started meanwhile.
pub fn switch_account(prepared: PreparedSwitch, running: usize) -> (result: Result<
    (Json, (Option<String>, Option<String>)),
    AccountSwitchError,
>)
    ensures
        match result {
            Ok((auth, identity)) => running == 0 && auth@ == prepared.auth@ && text::opt_text(
                identity.0,
            ) == login_email(prepared.auth@) && text::opt_text(identity.1) == login_id(
                prepared.auth@,
            ),
            Err(error) => running > 0 && error@ == running_message(
                running as nat,
                " 个 Codex/ChatGPT 进程重新启动，已中止账号切换。"@,
            ),
        },
{
    if running > 0 {
        return Err(
            running_error(running, " 个 Codex/ChatGPT 进程重新启动，已中止账号切换。"),
        );
    }
    let identity = account_identity(&prepared.auth);
    Ok((prepared.auth, identity))
}

// ---------------------------------------------------------------------------
// Deleting
// ---------------------------------------------------------------------------

/// The name of a file that is, by its own name, the snapshot of an account.
pub open spec fn direct_deletion(file: Option<FileView>, name: Seq<char>) -> Seq<Seq<char>> {
    match file {
        Some(file) => if file_is(file, name) {
            seq![file.file_name]
        } else {
            Seq::empty()
        },
        None => Seq::empty(),
    }
}

/// `found` and the names of those among the first `n` of `others` that say they
/// are the snapshot of an account.
pub open spec fn deletions(
    found: Seq<Seq<char>>,
    others: Seq<FileView>,
    name: Seq<char>,
    n: nat,
) -> Seq<Seq<char>>
    decreases n,
{
    if n == 0 {
        found
    } else {
        let before = deletions(found, others, name, (n - 1) as nat);
        let file = others[n - 1];
        if !before.contains(file.file_name) && file_claims(file, name) {
            before.push(file.file_name)
        } else {
            before
        }
    }
}

/// The files of an account.
pub open spec fn account_files(
    name: Seq<char>,
    direct: Option<FileView>,
    legacy: Option<FileView>,
    others: Seq<FileView>,
) -> Seq<Seq<char>> {
    let shown = text::trimmed(name);
    deletions(
        direct_deletion(direct, shown) + direct_deletion(legacy, shown),
        others,
        shown,
        others.len(),
    )
}

fn is_direct(file: Option<&SnapshotFile>, name: &str) -> (result: Option<String>)
    ensures
        (match result {
            Some(file_name) => seq![file_name@],
            None => Seq::empty(),
        }) == direct_deletion(opt_file(file), name@),
{
    match file {
        Some(file) => match &file.content {
            Ok(payload) => if is_file_of(payload, file.stem.as_str(), name) {
                Some(file.file_name.clone())
            } else {
                None
            },
            Err(_) => None,
        },
        None => None,
    }
}

fn has_name(names: &Vec<String>, name: &str) -> (result: bool)
    ensures
        result == text::texts(names@).contains(name@),
{
    for i in 0..names.len()
        invariant
            forall|j: int| 0 <= j < i ==> (#[trigger] names@[j])@ != name@,
    {
        if text_eq(names[i].as_str(), name) {
            assert(text::texts(names@)[i as int] == name@);
            return true;
        }
    }
    proof {
        let all = text::texts(names@);
        if all.contains(name@) {
            let k = choose|k: int| 0 <= k < all.len() && all[k] == name@;
            assert(names@[k]@ == name@);
        }
    }
    false
}

/// The names of the files to remove so that an account is deleted.
pub fn delete_account(
    name: &str,
    direct: Option<&SnapshotFile>,
    legacy: Option<&SnapshotFile>,
    others: &Vec<SnapshotFile>,
) -> (result: Result<Vec<String>, AccountSwitchError>)
    ensures
        ({
            let files = account_files(
                name@,
                opt_file(direct),
                opt_file(legacy),
                file_views(others@),
            );
            match result {
                Ok(names) => files.len() > 0 && text::texts(names@) == files,
                Err(error) => files.len() == 0 && error@ == SwitchErrorView::SnapshotNotFound(
                    "未找到已保存的账号 "@ + debug_shown(name@) + "。"@,
                ),
            }
        }),
{
    let display_name = text::trim(name);
    let ghost views = file_views(others@);
    let ghost shown = display_name@;
    let mut names: Vec<String> = Vec::new();
    let ghost first = direct_deletion(opt_file(direct), shown);
    let ghost second = direct_deletion(opt_file(legacy), shown);
    match is_direct(direct, display_name.as_str()) {
        Some(file_name) => {
            names.push(file_name);
        },
        None => {},
    }
    assert(text::texts(names@) =~= first);
    match is_direct(legacy, display_name.as_str()) {
        Some(file_name) => {
            names.push(file_name);
        },
        None => {},
    }
    assert(text::texts(names@) =~= first + second);
    for i in 0..others.len()
        invariant
            views == file_views(others@),
            shown == display_name@,
            text::texts(names@) == deletions(first + second, views, shown, i as nat),
    {
        let ghost held = text::texts(names@);
        if !has_name(&names, others[i].file_name.as_str()) && does_claim(
            &others[i],
            display_name.as_str(),
        ) {
            names.push(others[i].file_name.clone());
            assert(text::texts(names@) =~= held.push(views[i as int].file_name));
        }
    }
    assert(text::texts(names@).len() == names@.len());
    if names.len() == 0 {
        let mut detail = "未找到已保存的账号 ".to_owned();
        let quoted = debug_text(name);
        detail.append(quoted.as_str());
        detail.append("。");
        return Err(AccountSwitchError::SnapshotNotFound(detail));
    }
    Ok(names)
}

// ---------------------------------------------------------------------------
// Laws
// ---------------------------------------------------------------------------

/// A saved login comes back: the file that a name was saved to is found by that
/// name, and a switch to it, while no Codex process runs, makes exactly the
/// saved login the active one.
pub proof fn lemma_saved_login_comes_back(
    name: Seq<char>,
    auth: JsonView,
    saved_at: i64,
    file: FileView,
    legacy: Option<FileView>,
    others: Seq<FileView>,
    content: Option<Seq<u8>>,
    now: i64,
)
    requires
        auth is Object,
        file.content == Ok::<JsonView, SwitchErrorView>(
            snapshot_payload(text::trimmed(name), auth, saved_at),
        ),
    ensures
        snapshot_found(name, Some(file), legacy, others) == file.content,
        switch_prepared(0, file.content, content, now) is Ok,
        switch_prepared(0, file.content, content, now)->Ok_0.1 == auth,
{
    reveal_strlit("name");
    reveal_strlit("email");
    reveal_strlit("account_id");
    reveal_strlit("saved_at");
    reveal_strlit("auth_json");
    reveal_with_fuel(json::member_of, 6);
    let payload = snapshot_payload(text::trimmed(name), auth, saved_at);
    let members = payload->Object_0;
    assert(members.len() == 5);
    assert(members[0] == ("name"@, JsonView::Text(text::trimmed(name))));
    assert(members[4] == ("auth_json"@, auth));
    assert("name"@.len() == 4 && "email"@.len() == 5 && "account_id"@.len() == 10 && "saved_at"@.len()
        == 8 && "auth_json"@.len() == 9);
    assert(payload.get("name"@) == Some(JsonView::Text(text::trimmed(name))));
    assert(payload.get("auth_json"@) == Some(auth));
}

proof fn lemma_nothing_claims(files: Seq<FileView>, name: Seq<char>, from: int)
    requires
        0 <= from <= files.len(),
        forall|i: int| from <= i < files.len() ==> !file_claims(#[trigger] files[i], name),
    ensures
        claiming_at(files, name, from) is None,
    decreases files.len() - from,
{
    if from < files.len() {
        lemma_nothing_claims(files, name, from + 1);
    }
}

proof fn lemma_claiming_is_deleted(
    found: Seq<Seq<char>>,
    others: Seq<FileView>,
    name: Seq<char>,
    n: nat,
    i: int,
)
    requires
        0 <= i < n <= others.len(),
        file_claims(others[i], name),
    ensures
        deletions(found, others, name, n).contains(others[i].file_name),
    decreases n,
{
    let before = deletions(found, others, name, (n - 1) as nat);
    let file = others[n - 1];
    if i < n - 1 {
        lemma_claiming_is_deleted(found, others, name, (n - 1) as nat, i);
        let k = before.index_of(others[i].file_name);
        assert(before[k] == others[i].file_name);
        if !before.contains(file.file_name) && file_claims(file, name) {
            assert(before.push(file.file_name)[k] == others[i].file_name);
        }
    } else if !before.contains(file.file_name) {
        assert(before.push(file.file_name)[before.len() as int] == file.file_name);
    }
}

/// A deleted account is gone: once the files that a deletion names are no longer
/// there, the account is not found.
pub proof fn lemma_deleted_account_is_gone(
    name: Seq<char>,
    direct: Option<FileView>,
    legacy: Option<FileView>,
    others: Seq<FileView>,
    rest: Seq<FileView>,
)
    requires
        forall|i: int|
            0 <= i < rest.len() ==> others.contains(#[trigger] rest[i]) && !account_files(
                name,
                direct,
                legacy,
                others,
            ).contains(rest[i].file_name),
    ensures
        snapshot_found(name, None, None, rest) is Err,
        snapshot_found(name, None, None, rest)->Err_0 is SnapshotNotFound,
{
    let shown = text::trimmed(name);
    let found = direct_deletion(direct, shown) + direct_deletion(legacy, shown);
    assert forall|i: int| 0 <= i < rest.len() implies !file_claims(#[trigger] rest[i], shown) by {
        let k = others.index_of(rest[i]);
        assert(others[k] == rest[i]);
        if file_claims(rest[i], shown) {
            lemma_claiming_is_deleted(found, others, shown, others.len(), k);
        }
    }
    lemma_nothing_claims(rest, shown, 0);
}

} // verus!
