//! Recognition of the Codex process that hosts a hook, and of the companion
//! process.
use vstd::prelude::*;
use crate::text;
use crate::text::text_eq;

verus! {

/// A process as the system shows it. Times are in microseconds.
#[derive(Debug)]
pub struct ProcessInfo {
    pub pid: u32,
    pub create_time: i64,
    pub name: String,
    pub executable: String,
    pub command_line: Vec<String>,
}

/// A process in which Codex runs.
#[derive(Debug, PartialEq, Eq)]
pub struct HostProcess {
    pub pid: u32,
    pub create_time: i64,
    pub kind: String,
}

/// What a host process is.
pub struct HostView {
    pub pid: u32,
    pub create_time: i64,
    pub kind: Seq<char>,
}

impl HostProcess {
    pub open spec fn view(&self) -> HostView {
        HostView { pid: self.pid, create_time: self.create_time, kind: self.kind@ }
    }

    pub fn new(pid: u32, create_time: i64, kind: &str) -> (result: Self)
        ensures
            result@ == (HostView { pid, create_time, kind: kind@ }),
    {
        HostProcess { pid, create_time, kind: kind.to_owned() }
    }

    /// A copy of the host.
    pub fn copy(&self) -> (result: Self)
        ensures
            result@ == self@,
    {
        HostProcess { pid: self.pid, create_time: self.create_time, kind: self.kind.clone() }
    }
}

/// What an optional host is.
pub open spec fn opt_host(host: Option<HostProcess>) -> Option<HostView> {
    match host {
        Some(host) => Some(host@),
        None => None,
    }
}

/// What an optional host is.
pub open spec fn opt_host_ref(host: Option<&HostProcess>) -> Option<HostView> {
    match host {
        Some(host) => Some(host@),
        None => None,
    }
}

/// Why the companion could not be started.
#[derive(Debug)]
pub enum ProcessError {
    State(String),
    DataDirectory(String),
    Spawn(String),
}

pub open spec fn process_message(error: ProcessError) -> Seq<char> {
    match error {
        ProcessError::State(detail) => "无法读取 companion 状态："@ + detail@,
        ProcessError::DataDirectory(detail) => "无法准备 companion 数据目录："@ + detail@,
        ProcessError::Spawn(detail) => "无法启动 CodexBot companion："@ + detail@,
    }
}

impl ProcessError {
    pub fn message(&self) -> (result: String)
        ensures
            result@ == process_message(*self),
    {
        match self {
            ProcessError::State(detail) => {
                let mut result = "无法读取 companion 状态：".to_owned();
                result.append(detail.as_str());
                result
            },
            ProcessError::DataDirectory(detail) => {
                let mut result = "无法准备 companion 数据目录：".to_owned();
                result.append(detail.as_str());
                result
            },
            ProcessError::Spawn(detail) => {
                let mut result = "无法启动 CodexBot companion：".to_owned();
                result.append(detail.as_str());
                result
            },
        }
    }
}

// ---------------------------------------------------------------------------
// Model
// ---------------------------------------------------------------------------

/// The lower-case file name of a program without the suffix of an executable.
pub open spec fn stem_of(value: Seq<char>) -> Seq<char> {
    let name = text::lowercase(text::base_name(value));
    if text::ends(name, ".exe"@) {
        name.take(name.len() - ".exe"@.len())
    } else if text::ends(name, ".cmd"@) {
        name.take(name.len() - ".cmd"@.len())
    } else if text::ends(name, ".bat"@) {
        name.take(name.len() - ".bat"@.len())
    } else if text::ends(name, ".com"@) {
        name.take(name.len() - ".com"@.len())
    } else if text::ends(name, ".js"@) {
        name.take(name.len() - ".js"@.len())
    } else {
        name
    }
}

pub open spec fn codex_name(value: Seq<char>) -> bool {
    let stem = stem_of(value);
    stem == "codex"@ || text::begins(stem, "codex-"@) || text::begins(stem, "codex_"@)
}

/// Whether the name, the executable or one of the first three arguments is a
/// Codex program.
pub open spec fn codex_process(item: ProcessInfo) -> bool {
    ||| codex_name(item.name@)
    ||| codex_name(item.executable@)
    ||| exists|i: int|
        0 <= i < item.command_line@.len() && i < 3 && codex_name(#[trigger] item.command_line@[i]@)
}

/// An argument without its leading dashes and slashes, up to the first `=`.
pub open spec fn option_name(argument: Seq<char>) -> Seq<char> {
    text::fields(
        text::stripped_start(text::lowercase(text::base_name(argument)), "-/\\"@),
        '=',
    )[0]
}

pub open spec fn app_server_option(argument: Seq<char>) -> bool {
    option_name(argument) == "app-server"@ || option_name(argument) == "app_server"@
}

pub open spec fn app_server_process(item: ProcessInfo) -> bool {
    codex_process(item) && exists|i: int|
        0 <= i < item.command_line@.len() && app_server_option(#[trigger] item.command_line@[i]@)
}

pub open spec fn desktop_name(value: Seq<char>) -> bool {
    let stem = stem_of(value);
    ||| stem == "chatgpt"@
    ||| text::begins(stem, "chatgpt-"@)
    ||| text::begins(stem, "chatgpt_"@)
    ||| stem == "codexdesktop"@
    ||| stem == "codex-desktop"@
    ||| stem == "codex_desktop"@
    ||| text::occurs(stem, "codex"@) && text::occurs(stem, "desktop"@)
}

pub open spec fn desktop_argument(argument: Seq<char>) -> bool {
    let stem = stem_of(argument);
    stem == "chatgpt"@ || stem == "codexdesktop"@ || stem == "codex-desktop"@ || stem
        == "codex_desktop"@
}

pub open spec fn desktop_process(item: ProcessInfo) -> bool {
    ||| desktop_name(item.name@)
    ||| desktop_name(item.executable@)
    ||| exists|i: int|
        0 <= i < item.command_line@.len() && desktop_argument(#[trigger] item.command_line@[i]@)
}

pub open spec fn codex_helper_marked(value: Seq<char>) -> bool {
    ||| text::occurs(value, "command-runner"@)
    ||| text::occurs(value, "code-mode-host"@)
    ||| text::occurs(value, "codex-switcher"@)
    ||| text::occurs(value, "codex_switcher"@)
    ||| text::occurs(value, "sandbox"@)
    ||| text::occurs(value, "apply-patch"@)
}

pub open spec fn transient_codex_helper(item: ProcessInfo) -> bool {
    ||| codex_helper_marked(stem_of(item.name@))
    ||| codex_helper_marked(stem_of(item.executable@))
    ||| exists|i: int|
        0 <= i < item.command_line@.len() && codex_helper_marked(
            text::lowercase(#[trigger] item.command_line@[i]@),
        )
}

pub open spec fn desktop_helper_marked(value: Seq<char>) -> bool {
    ||| text::occurs(value, "--type="@)
    ||| text::occurs(value, "crashpad"@)
    ||| text::occurs(value, "notification-helper"@)
}

pub open spec fn transient_desktop_helper(item: ProcessInfo) -> bool {
    exists|i: int|
        0 <= i < item.command_line@.len() && desktop_helper_marked(
            text::lowercase(#[trigger] item.command_line@[i]@),
        )
}

/// A lasting desktop process.
pub open spec fn desktop_host(item: ProcessInfo) -> bool {
    desktop_process(item) && !transient_desktop_helper(item)
}

/// A lasting command-line process.
pub open spec fn cli_host(item: ProcessInfo) -> bool {
    codex_process(item) && !transient_codex_helper(item)
}

/// The first index from `from` on at which `chosen` holds.
pub open spec fn first_where(
    chain: Seq<ProcessInfo>,
    chosen: spec_fn(ProcessInfo) -> bool,
    from: int,
) -> Option<int>
    decreases chain.len() - from,
{
    if 0 <= from < chain.len() {
        if chosen(chain[from]) {
            Some(from)
        } else {
            first_where(chain, chosen, from + 1)
        }
    } else {
        None
    }
}

pub open spec fn host_at(chain: Seq<ProcessInfo>, at: int, kind: Seq<char>) -> HostView {
    HostView { pid: chain[at].pid, create_time: chain[at].create_time, kind }
}

/// The host in a chain of processes that runs from a process to its ancestors:
/// the desktop above an app server, else that app server, else a desktop, else
/// a command line.
pub open spec fn selected_host(chain: Seq<ProcessInfo>) -> Option<HostView> {
    match first_where(chain, |item: ProcessInfo| app_server_process(item), 0) {
        Some(server) => match first_where(
            chain,
            |item: ProcessInfo| desktop_host(item),
            server + 1,
        ) {
            Some(desktop) => Some(host_at(chain, desktop, "desktop"@)),
            None => Some(host_at(chain, server, "app-server"@)),
        },
        None => match first_where(chain, |item: ProcessInfo| desktop_host(item), 0) {
            Some(desktop) => Some(host_at(chain, desktop, "desktop"@)),
            None => match first_where(chain, |item: ProcessInfo| cli_host(item), 0) {
                Some(cli) => Some(host_at(chain, cli, "cli"@)),
                None => None,
            },
        },
    }
}

/// Whether a process is looked at when hosts are searched among all processes.
pub open spec fn candidate(item: ProcessInfo) -> bool {
    let stem = stem_of(item.name@);
    codex_name(item.name@) || desktop_name(item.name@) || stem == "node"@ || stem == "nodejs"@
}

/// The index of the oldest lasting desktop among the first `n` processes; the
/// first of several that are equally old.
pub open spec fn oldest_desktop(items: Seq<ProcessInfo>, n: nat) -> Option<int>
    decreases n,
{
    if n == 0 {
        None
    } else {
        let last = n - 1;
        let before = oldest_desktop(items, last as nat);
        if candidate(items[last]) && desktop_host(items[last]) {
            match before {
                Some(i) => if items[last].create_time < items[i].create_time {
                    Some(last)
                } else {
                    before
                },
                None => Some(last),
            }
        } else {
            before
        }
    }
}

/// The host among all running processes: the oldest desktop, else an app
/// server, else a command line.
pub open spec fn running_host(items: Seq<ProcessInfo>) -> Option<HostView> {
    match oldest_desktop(items, items.len()) {
        Some(desktop) => Some(host_at(items, desktop, "desktop"@)),
        None => match first_where(
            items,
            |item: ProcessInfo| candidate(item) && app_server_process(item),
            0,
        ) {
            Some(server) => Some(host_at(items, server, "app-server"@)),
            None => match first_where(
                items,
                |item: ProcessInfo| candidate(item) && cli_host(item),
                0,
            ) {
                Some(cli) => Some(host_at(items, cli, "cli"@)),
                None => None,
            },
        },
    }
}

// ---------------------------------------------------------------------------
// Recognition
// ---------------------------------------------------------------------------

fn process_stem(value: &str) -> (result: String)
    ensures
        result@ == stem_of(value@),
{
    let base = text::windows_basename(value);
    let name = text::to_lower(base.as_str());
    match text::strip_suffix(name.as_str(), ".exe") {
        Some(stem) => {
            return stem;
        },
        None => {},
    }
    match text::strip_suffix(name.as_str(), ".cmd") {
        Some(stem) => {
            return stem;
        },
        None => {},
    }
    match text::strip_suffix(name.as_str(), ".bat") {
        Some(stem) => {
            return stem;
        },
        None => {},
    }
    match text::strip_suffix(name.as_str(), ".com") {
        Some(stem) => {
            return stem;
        },
        None => {},
    }
    match text::strip_suffix(name.as_str(), ".js") {
        Some(stem) => stem,
        None => name,
    }
}

fn looks_like_codex_name(value: &str) -> (result: bool)
    ensures
        result == codex_name(value@),
{
    let stem = process_stem(value);
    text_eq(stem.as_str(), "codex") || text::starts_with(stem.as_str(), "codex-")
        || text::starts_with(stem.as_str(), "codex_")
}

fn looks_like_codex_process(item: &ProcessInfo) -> (result: bool)
    ensures
        result == codex_process(*item),
{
    if looks_like_codex_name(item.name.as_str()) || looks_like_codex_name(
        item.executable.as_str(),
    ) {
        return true;
    }
    let mut i: usize = 0;
    while i < item.command_line.len() && i < 3
        invariant
            i <= item.command_line@.len(),
            i <= 3,
            forall|j: int| 0 <= j < i ==> !codex_name(#[trigger] item.command_line@[j]@),
        decreases 3 - i,
    {
        if looks_like_codex_name(item.command_line[i].as_str()) {
            return true;
        }
        i += 1;
    }
    false
}

fn is_app_server_option(argument: &str) -> (result: bool)
    ensures
        result == app_server_option(argument@),
{
    let base = text::windows_basename(argument);
    let lower = text::to_lower(base.as_str());
    let bare = text::strip_start(lower.as_str(), "-/\\");
    let parts = text::split_char(bare.as_str(), '=');
    assert(text::texts(parts@)[0] == parts@[0]@);
    text_eq(parts[0].as_str(), "app-server") || text_eq(parts[0].as_str(), "app_server")
}

fn is_app_server(item: &ProcessInfo) -> (result: bool)
    ensures
        result == app_server_process(*item),
{
    if !looks_like_codex_process(item) {
        return false;
    }
    for i in 0..item.command_line.len()
        invariant
            codex_process(*item),
            forall|j: int| 0 <= j < i ==> !app_server_option(#[trigger] item.command_line@[j]@),
    {
        if is_app_server_option(item.command_line[i].as_str()) {
            return true;
        }
    }
    false
}

fn looks_like_desktop_name(value: &str) -> (result: bool)
    ensures
        result == desktop_name(value@),
{
    let stem = process_stem(value);
    let name = stem.as_str();
    text_eq(name, "chatgpt") || text::starts_with(name, "chatgpt-") || text::starts_with(
        name,
        "chatgpt_",
    ) || text_eq(name, "codexdesktop") || text_eq(name, "codex-desktop") || text_eq(
        name,
        "codex_desktop",
    ) || (text::contains(name, "codex") && text::contains(name, "desktop"))
}

fn is_desktop_argument(argument: &str) -> (result: bool)
    ensures
        result == desktop_argument(argument@),
{
    let stem = process_stem(argument);
    let name = stem.as_str();
    text_eq(name, "chatgpt") || text_eq(name, "codexdesktop") || text_eq(name, "codex-desktop")
        || text_eq(name, "codex_desktop")
}

fn is_desktop_process(item: &ProcessInfo) -> (result: bool)
    ensures
        result == desktop_process(*item),
{
    if looks_like_desktop_name(item.name.as_str()) || looks_like_desktop_name(
        item.executable.as_str(),
    ) {
        return true;
    }
    for i in 0..item.command_line.len()
        invariant
            forall|j: int| 0 <= j < i ==> !desktop_argument(#[trigger] item.command_line@[j]@),
    {
        if is_desktop_argument(item.command_line[i].as_str()) {
            return true;
        }
    }
    false
}

fn is_marked_codex_helper(value: &str) -> (result: bool)
    ensures
        result == codex_helper_marked(value@),
{
    text::contains(value, "command-runner") || text::contains(value, "code-mode-host")
        || text::contains(value, "codex-switcher") || text::contains(value, "codex_switcher")
        || text::contains(value, "sandbox") || text::contains(value, "apply-patch")
}

fn is_transient_codex_helper(item: &ProcessInfo) -> (result: bool)
    ensures
        result == transient_codex_helper(*item),
{
    let name = process_stem(item.name.as_str());
    let executable = process_stem(item.executable.as_str());
    if is_marked_codex_helper(name.as_str()) || is_marked_codex_helper(executable.as_str()) {
        return true;
    }
    for i in 0..item.command_line.len()
        invariant
            forall|j: int|
                0 <= j < i ==> !codex_helper_marked(
                    text::lowercase(#[trigger] item.command_line@[j]@),
                ),
    {
        let lower = text::to_lower(item.command_line[i].as_str());
        if is_marked_codex_helper(lower.as_str()) {
            return true;
        }
    }
    false
}

fn is_transient_desktop_helper(item: &ProcessInfo) -> (result: bool)
    ensures
        result == transient_desktop_helper(*item),
{
    for i in 0..item.command_line.len()
        invariant
            forall|j: int|
                0 <= j < i ==> !desktop_helper_marked(
                    text::lowercase(#[trigger] item.command_line@[j]@),
                ),
    {
        let lower = text::to_lower(item.command_line[i].as_str());
        if text::contains(lower.as_str(), "--type=") || text::contains(lower.as_str(), "crashpad")
            || text::contains(lower.as_str(), "notification-helper") {
            return true;
        }
    }
    false
}

fn is_desktop_host(item: &ProcessInfo) -> (result: bool)
    ensures
        result == desktop_host(*item),
{
    is_desktop_process(item) && !is_transient_desktop_helper(item)
}

fn is_cli_host(item: &ProcessInfo) -> (result: bool)
    ensures
        result == cli_host(*item),
{
    looks_like_codex_process(item) && !is_transient_codex_helper(item)
}

fn is_candidate(item: &ProcessInfo) -> (result: bool)
    ensures
        result == candidate(*item),
{
    let stem = process_stem(item.name.as_str());
    looks_like_codex_name(item.name.as_str()) || looks_like_desktop_name(item.name.as_str())
        || text_eq(stem.as_str(), "node") || text_eq(stem.as_str(), "nodejs")
}

// ---------------------------------------------------------------------------
// Selection
// ---------------------------------------------------------------------------

/// The processes that a list of references leads to.
pub open spec fn targets(chain: Seq<&ProcessInfo>) -> Seq<ProcessInfo> {
    Seq::new(chain.len(), |i: int| *chain[i])
}

fn find_desktop(chain: &Vec<&ProcessInfo>, from: usize) -> (result: Option<usize>)
    ensures
        match result {
            Some(at) => at < chain@.len() && first_where(
                targets(chain@),
                |item: ProcessInfo| desktop_host(item),
                from as int,
            ) == Some(at as int),
            None => first_where(
                targets(chain@),
                |item: ProcessInfo| desktop_host(item),
                from as int,
            ) is None,
        },
{
    let ghost seen = targets(chain@);
    let ghost chosen = |item: ProcessInfo| desktop_host(item);
    let mut i: usize = from;
    while i < chain.len()
        invariant
            seen == targets(chain@),
            chosen == (|item: ProcessInfo| desktop_host(item)),
            first_where(seen, chosen, from as int) == first_where(seen, chosen, i as int),
        decreases chain.len() - i,
    {
        if is_desktop_host(chain[i]) {
            return Some(i);
        }
        i += 1;
    }
    None
}

fn host_from(item: &ProcessInfo, kind: &str) -> (result: HostProcess)
    ensures
        result@ == (HostView { pid: item.pid, create_time: item.create_time, kind: kind@ }),
{
    HostProcess::new(item.pid, item.create_time, kind)
}

fn select_among(chain: &Vec<&ProcessInfo>) -> (result: Option<HostProcess>)
    ensures
        opt_host(result) == selected_host(targets(chain@)),
{
    let ghost seen = targets(chain@);
    let ghost served = |item: ProcessInfo| app_server_process(item);
    let mut i: usize = 0;
    while i < chain.len()
        invariant
            i <= chain@.len(),
            seen == targets(chain@),
            served == (|item: ProcessInfo| app_server_process(item)),
            first_where(seen, served, 0) == first_where(seen, served, i as int),
        decreases chain.len() - i,
    {
        if is_app_server(chain[i]) {
            return match find_desktop(chain, i + 1) {
                Some(desktop) => Some(host_from(chain[desktop], "desktop")),
                None => Some(host_from(chain[i], "app-server")),
            };
        }
        i += 1;
    }
    match find_desktop(chain, 0) {
        Some(desktop) => {
            return Some(host_from(chain[desktop], "desktop"));
        },
        None => {},
    }
    let ghost lasting = |item: ProcessInfo| cli_host(item);
    i = 0;
    while i < chain.len()
        invariant
            i <= chain@.len(),
            seen == targets(chain@),
            served == (|item: ProcessInfo| app_server_process(item)),
            lasting == (|item: ProcessInfo| cli_host(item)),
            first_where(seen, served, 0) is None,
            first_where(seen, |item: ProcessInfo| desktop_host(item), 0) is None,
            first_where(seen, lasting, 0) == first_where(seen, lasting, i as int),
        decreases chain.len() - i,
    {
        if is_cli_host(chain[i]) {
            return Some(host_from(chain[i], "cli"));
        }
        i += 1;
    }
    None
}

/// The host in a chain of processes that runs from a process to its ancestors.
pub fn select_codex_host(chain: &Vec<ProcessInfo>) -> (result: Option<HostProcess>)
    ensures
        opt_host(result) == selected_host(chain@),
{
    let mut links: Vec<&ProcessInfo> = Vec::new();
    for i in 0..chain.len()
        invariant
            targets(links@) == chain@.take(i as int),
    {
        let ghost before = targets(links@);
        links.push(&chain[i]);
        assert(targets(links@) =~= before.push(chain@[i as int]));
        assert(chain@.take(i + 1) =~= before.push(chain@[i as int]));
    }
    assert(chain@.take(chain@.len() as int) =~= chain@);
    select_among(&links)
}

fn find_oldest_desktop(items: &Vec<&ProcessInfo>) -> (result: Option<usize>)
    ensures
        match result {
            Some(at) => at < items@.len() && oldest_desktop(targets(items@), items@.len()) == Some(
                at as int,
            ),
            None => oldest_desktop(targets(items@), items@.len()) is None,
        },
{
    let mut oldest: Option<usize> = None;
    let ghost seen = targets(items@);
    for i in 0..items.len()
        invariant
            seen == targets(items@),
            match oldest {
                Some(at) => at < i && oldest_desktop(seen, i as nat) == Some(at as int),
                None => oldest_desktop(seen, i as nat) is None,
            },
    {
        if is_candidate(items[i]) && is_desktop_host(items[i]) {
            match oldest {
                Some(at) => if items[i].create_time < items[at].create_time {
                    oldest = Some(i);
                },
                None => {
                    oldest = Some(i);
                },
            }
        }
    }
    oldest
}

fn running_among(items: &Vec<&ProcessInfo>) -> (result: Option<HostProcess>)
    ensures
        opt_host(result) == running_host(targets(items@)),
{
    let ghost seen = targets(items@);
    match find_oldest_desktop(items) {
        Some(desktop) => {
            return Some(host_from(items[desktop], "desktop"));
        },
        None => {},
    }
    let ghost served = |item: ProcessInfo| candidate(item) && app_server_process(item);
    let mut i: usize = 0;
    while i < items.len()
        invariant
            i <= items@.len(),
            seen == targets(items@),
            oldest_desktop(seen, seen.len()) is None,
            served == (|item: ProcessInfo| candidate(item) && app_server_process(item)),
            first_where(seen, served, 0) == first_where(seen, served, i as int),
        decreases items.len() - i,
    {
        if is_candidate(items[i]) && is_app_server(items[i]) {
            return Some(host_from(items[i], "app-server"));
        }
        i += 1;
    }
    let ghost lasting = |item: ProcessInfo| candidate(item) && cli_host(item);
    i = 0;
    while i < items.len()
        invariant
            i <= items@.len(),
            seen == targets(items@),
            oldest_desktop(seen, seen.len()) is None,
            served == (|item: ProcessInfo| candidate(item) && app_server_process(item)),
            lasting == (|item: ProcessInfo| candidate(item) && cli_host(item)),
            first_where(seen, served, 0) is None,
            first_where(seen, lasting, 0) == first_where(seen, lasting, i as int),
        decreases items.len() - i,
    {
        if is_candidate(items[i]) && is_cli_host(items[i]) {
            return Some(host_from(items[i], "cli"));
        }
        i += 1;
    }
    None
}

/// The host among all running processes.
pub fn discover_running_codex_host(items: &Vec<ProcessInfo>) -> (result: Option<HostProcess>)
    ensures
        opt_host(result) == running_host(items@),
{
    let mut links: Vec<&ProcessInfo> = Vec::new();
    for i in 0..items.len()
        invariant
            targets(links@) == items@.take(i as int),
    {
        let ghost before = targets(links@);
        links.push(&items[i]);
        assert(targets(links@) =~= before.push(items@[i as int]));
        assert(items@.take(i + 1) =~= before.push(items@[i as int]));
    }
    assert(items@.take(items@.len() as int) =~= items@);
    running_among(&links)
}

// ---------------------------------------------------------------------------
// Discovery in a table of processes
// ---------------------------------------------------------------------------

/// A process with the one that started it.
#[derive(Debug)]
pub struct ProcessEntry {
    pub info: ProcessInfo,
    pub parent: Option<u32>,
}

/// The first entry of a process, counted from `from`.
pub open spec fn entry_of(table: Seq<ProcessEntry>, pid: u32, from: int) -> Option<int>
    decreases table.len() - from,
{
    if 0 <= from < table.len() {
        if table[from].info.pid == pid {
            Some(from)
        } else {
            entry_of(table, pid, from + 1)
        }
    } else {
        None
    }
}

/// The known processes among the first `n` of `pids`, each once.
pub open spec fn listed_chain(table: Seq<ProcessEntry>, pids: Seq<u32>, n: nat) -> Seq<ProcessInfo>
    decreases n,
{
    if n == 0 {
        Seq::empty()
    } else {
        let before = listed_chain(table, pids, (n - 1) as nat);
        let pid = pids[n - 1];
        match entry_of(table, pid, 0) {
            Some(at) => if pid > 0 && !pids.take(n - 1).contains(pid) {
                before.push(table[at].info)
            } else {
                before
            },
            None => before,
        }
    }
}

/// The processes from `current` up to its oldest known ancestor, at most
/// `limit` of them and none twice.
pub open spec fn parent_chain(
    table: Seq<ProcessEntry>,
    current: Option<u32>,
    seen: Seq<u32>,
    limit: nat,
) -> Seq<ProcessInfo>
    decreases limit,
{
    match current {
        Some(pid) => match entry_of(table, pid, 0) {
            Some(at) => if limit == 0 || seen.contains(pid) {
                Seq::empty()
            } else {
                seq![table[at].info] + parent_chain(
                    table,
                    table[at].parent,
                    seen.push(pid),
                    (limit - 1) as nat,
                )
            },
            None => Seq::empty(),
        },
        None => Seq::empty(),
    }
}

pub open spec fn infos(table: Seq<ProcessEntry>) -> Seq<ProcessInfo> {
    Seq::new(table.len(), |i: int| table[i].info)
}

/// The host of a process: the one among the given ancestors, else the one above
/// the process, else the one among all processes.
pub open spec fn discovered_host(
    table: Seq<ProcessEntry>,
    start: u32,
    ancestors: Seq<u32>,
) -> Option<HostView> {
    match selected_host(listed_chain(table, ancestors, ancestors.len())) {
        Some(host) => Some(host),
        None => match selected_host(
            parent_chain(table, Some(start), Seq::empty(), table.len()),
        ) {
            Some(host) => Some(host),
            None => running_host(infos(table)),
        },
    }
}

fn find_entry(table: &Vec<ProcessEntry>, pid: u32) -> (result: Option<usize>)
    ensures
        match result {
            Some(at) => at < table@.len() && entry_of(table@, pid, 0) == Some(at as int),
            None => entry_of(table@, pid, 0) is None,
        },
{
    let mut i: usize = 0;
    while i < table.len()
        invariant
            i <= table@.len(),
            entry_of(table@, pid, 0) == entry_of(table@, pid, i as int),
        decreases table.len() - i,
    {
        if table[i].info.pid == pid {
            return Some(i);
        }
        i += 1;
    }
    None
}

fn seen_before(pids: &Vec<u32>, pid: u32, limit: usize) -> (result: bool)
    requires
        limit <= pids@.len(),
    ensures
        result == pids@.take(limit as int).contains(pid),
{
    for i in 0..limit
        invariant
            limit <= pids@.len(),
            forall|j: int| 0 <= j < i ==> pids@[j] != pid,
    {
        if pids[i] == pid {
            assert(pids@.take(limit as int)[i as int] == pid);
            return true;
        }
    }
    false
}

/// The host of the process `start`.
pub fn discover_codex_host(
    table: &Vec<ProcessEntry>,
    start: u32,
    ancestor_pids: &Vec<u32>,
) -> (result: Option<HostProcess>)
    ensures
        opt_host(result) == discovered_host(table@, start, ancestor_pids@),
{
    let mut listed: Vec<&ProcessInfo> = Vec::new();
    for i in 0..ancestor_pids.len()
        invariant
            targets(listed@) == listed_chain(table@, ancestor_pids@, i as nat),
    {
        let pid: u32 = ancestor_pids[i];
        let ghost before = targets(listed@);
        if pid > 0 && !seen_before(ancestor_pids, pid, i) {
            match find_entry(table, pid) {
                Some(at) => {
                    listed.push(&table[at].info);
                    assert(targets(listed@) =~= before.push(table@[at as int].info));
                },
                None => {},
            }
        }
    }
    match select_among(&listed) {
        Some(host) => {
            return Some(host);
        },
        None => {},
    }
    let mut above: Vec<&ProcessInfo> = Vec::new();
    let mut seen: Vec<u32> = Vec::new();
    let mut current: Option<u32> = Some(start);
    let mut left: usize = table.len();
    let ghost whole = parent_chain(table@, Some(start), Seq::empty(), table@.len());
    assert(targets(above@) + whole =~= whole);
    assert(seen@ =~= Seq::<u32>::empty());
    loop
        invariant_except_break
            whole == targets(above@) + parent_chain(table@, current, seen@, left as nat),
        ensures
            whole == targets(above@),
        decreases left,
    {
        let ghost before = targets(above@);
        let ghost rest = parent_chain(table@, current, seen@, left as nat);
        let pid: u32 = match current {
            Some(pid) => pid,
            None => {
                assert(before + rest =~= before);
                break;
            },
        };
        let at: usize = match find_entry(table, pid) {
            Some(at) => at,
            None => {
                assert(before + rest =~= before);
                break;
            },
        };
        assert(seen@.take(seen@.len() as int) =~= seen@);
        if left == 0 || seen_before(&seen, pid, seen.len()) {
            assert(before + rest =~= before);
            break;
        }
        above.push(&table[at].info);
        seen.push(pid);
        current = table[at].parent;
        left -= 1;
        proof {
            let info = table@[at as int].info;
            assert(targets(above@) =~= before.push(info));
            let more = parent_chain(table@, current, seen@, left as nat);
            assert(before + (seq![info] + more) =~= before.push(info) + more);
        }
    }
    match select_among(&above) {
        Some(host) => {
            return Some(host);
        },
        None => {},
    }
    let mut all: Vec<&ProcessInfo> = Vec::new();
    for i in 0..table.len()
        invariant
            targets(all@) == infos(table@).take(i as int),
    {
        let ghost before = targets(all@);
        all.push(&table[i].info);
        assert(targets(all@) =~= before.push(table@[i as int].info));
        assert(infos(table@).take(i + 1) =~= before.push(table@[i as int].info));
    }
    assert(infos(table@).take(table@.len() as int) =~= infos(table@));
    running_among(&all)
}

// ---------------------------------------------------------------------------
// The companion process
// ---------------------------------------------------------------------------

/// How far two start times of one process may lie apart.
pub const START_TOLERANCE: i64 = 250_000;

/// Whether a process that was started at `started`, if it is there at all, is
/// the one that was created at `create_time`.
pub open spec fn same_process(started: Option<i64>, create_time: int, tolerance: int) -> bool {
    match started {
        Some(time) => -tolerance <= time - create_time <= tolerance,
        None => false,
    }
}

pub fn process_matches_with_tolerance(
    started: Option<i64>,
    create_time: i64,
    tolerance: i64,
) -> (result: bool)
    ensures
        result == same_process(started, create_time as int, tolerance as int),
{
    match started {
        Some(time) => {
            let distance: i128 = time as i128 - create_time as i128;
            -(tolerance as i128) <= distance && distance <= tolerance as i128
        },
        None => false,
    }
}

pub fn process_matches(started: Option<i64>, create_time: i64) -> (result: bool)
    ensures
        result == same_process(started, create_time as int, START_TOLERANCE as int),
{
    process_matches_with_tolerance(started, create_time, START_TOLERANCE)
}

/// Where the start of the companion stands.
#[derive(Debug, Clone, Copy, PartialEq, Eq, Structural)]
pub enum EnsureStep {
    /// Look whether the recorded companion runs.
    Inspect,
    /// Take the start lock.
    Lock,
    /// Look again, now under the lock.
    InspectLocked,
    /// Start the companion and record it.
    Launch,
    /// Done; whether a companion was started.
    Finished(bool),
}

/// What came of a step.
#[derive(Debug, Clone, Copy, PartialEq, Eq, Structural)]
pub enum EnsureEvent {
    /// Whether the recorded companion runs.
    Inspected(bool),
    /// Whether the lock was free.
    Locked(bool),
    /// The companion was started and recorded.
    Launched,
}

pub open spec fn ensured(step: EnsureStep, event: EnsureEvent) -> EnsureStep {
    match (step, event) {
        (EnsureStep::Inspect, EnsureEvent::Inspected(running)) => if running {
            EnsureStep::Finished(false)
        } else {
            EnsureStep::Lock
        },
        (EnsureStep::Lock, EnsureEvent::Locked(free)) => if free {
            EnsureStep::InspectLocked
        } else {
            EnsureStep::Finished(false)
        },
        (EnsureStep::InspectLocked, EnsureEvent::Inspected(running)) => if running {
            EnsureStep::Finished(false)
        } else {
            EnsureStep::Launch
        },
        (EnsureStep::Launch, EnsureEvent::Launched) => EnsureStep::Finished(true),
        _ => step,
    }
}

/// The next step of starting the companion unless it runs.
pub fn ensure_daemon(step: EnsureStep, event: EnsureEvent) -> (result: EnsureStep)
    ensures
        result == ensured(step, event),
{
    match (step, event) {
        (EnsureStep::Inspect, EnsureEvent::Inspected(running)) => if running {
            EnsureStep::Finished(false)
        } else {
            EnsureStep::Lock
        },
        (EnsureStep::Lock, EnsureEvent::Locked(free)) => if free {
            EnsureStep::InspectLocked
        } else {
            EnsureStep::Finished(false)
        },
        (EnsureStep::InspectLocked, EnsureEvent::Inspected(running)) => if running {
            EnsureStep::Finished(false)
        } else {
            EnsureStep::Launch
        },
        (EnsureStep::Launch, EnsureEvent::Launched) => EnsureStep::Finished(true),
        _ => step,
    }
}

/// A companion is started only after the recorded one was found dead, the lock
/// was free, and the recorded one was found dead once more.
pub proof fn lemma_launch_is_guarded(first: EnsureEvent, second: EnsureEvent, third: EnsureEvent)
    ensures
        ensured(ensured(ensured(EnsureStep::Inspect, first), second), third) == EnsureStep::Launch
            <==> first == EnsureEvent::Inspected(false) && second == EnsureEvent::Locked(true)
            && third == EnsureEvent::Inspected(false),
{
}

/// The first reading that succeeded, else `now`.
pub open spec fn first_reading(readings: Seq<Option<i64>>, now: i64) -> i64
    decreases readings.len(),
{
    if readings.len() == 0 {
        now
    } else {
        match readings[0] {
            Some(time) => time,
            None => first_reading(readings.drop_first(), now),
        }
    }
}

/// The creation time to record for a started companion.
pub fn started_at(readings: &Vec<Option<i64>>, now: i64) -> (result: i64)
    ensures
        result == first_reading(readings@, now),
{
    let mut i: usize = 0;
    assert(readings@.skip(0) =~= readings@);
    while i < readings.len()
        invariant
            i <= readings@.len(),
            first_reading(readings@, now) == first_reading(readings@.skip(i as int), now),
        decreases readings.len() - i,
    {
        assert(readings@.skip(i as int).drop_first() =~= readings@.skip(i + 1));
        match readings[i] {
            Some(time) => {
                return time;
            },
            None => {},
        }
        i += 1;
    }
    now
}

} // verus!
