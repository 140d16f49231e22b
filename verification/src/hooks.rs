//! The hooks that Codex calls.
use vstd::prelude::*;
use crate::hook_event;
use crate::json;
use crate::json::{Json, JsonView};
use crate::processes;
use crate::processes::HostProcess;
use crate::security;
use crate::store;
use crate::store::{Store, StoreError, StoreView};
use crate::store_ops;
use crate::text;
use crate::text::text_eq;

verus! {

/// The variable that lists the ancestors of a hook.
pub const ANCESTOR_PIDS_ENV: &'static str = "CODEXBOT_HOOK_ANCESTOR_PIDS";

/// The most bytes that a hook may tell.
pub const HOOK_PAYLOAD_MAX_BYTES: usize = 4_194_304;

/// The most ancestors that are listed.
pub const MAX_ANCESTORS: usize = 32;

// ---------------------------------------------------------------------------
// Ancestors
// ---------------------------------------------------------------------------

/// The process that an entry names.
pub open spec fn pid_named(entry: Seq<char>) -> Option<u32> {
    match text::parsed_unsigned(text::trimmed(entry), u32::MAX as nat) {
        Some(pid) => if pid > 0 {
            Some(pid as u32)
        } else {
            None
        },
        None => None,
    }
}

/// The processes that the first `n` entries name, each once.
pub open spec fn pids_named(entries: Seq<Seq<char>>, n: nat) -> Seq<u32>
    decreases n,
{
    if n == 0 {
        Seq::empty()
    } else {
        let named = pids_named(entries, (n - 1) as nat);
        match pid_named(entries[n - 1]) {
            Some(pid) => if named.contains(pid) {
                named
            } else {
                named.push(pid)
            },
            None => named,
        }
    }
}

/// The ancestors that a list names: those of its first entries.
pub open spec fn ancestors_listed(raw: Seq<char>) -> Seq<u32> {
    let entries = store::first_of(text::fields(raw, ','), MAX_ANCESTORS as nat);
    pids_named(entries, entries.len())
}

fn has_pid(pids: &Vec<u32>, pid: u32) -> (result: bool)
    ensures
        result == pids@.contains(pid),
{
    for i in 0..pids.len()
        invariant
            forall|j: int| 0 <= j < i ==> pids@[j] != pid,
    {
        if pids[i] == pid {
            return true;
        }
    }
    false
}

fn pid_in(entry: &str) -> (result: Option<u32>)
    ensures
        result == pid_named(entry@),
{
    let trimmed = text::trim(entry);
    match text::parse_unsigned(trimmed.as_str(), 4_294_967_295) {
        Some(pid) => if pid > 0 {
            Some(pid as u32)
        } else {
            None
        },
        None => None,
    }
}

/// The ancestors that a list names.
pub fn parse_ancestor_pids(raw: &str) -> (result: Vec<u32>)
    ensures
        result@ == ancestors_listed(raw@),
{
    let fields = text::split_char(raw, ',');
    let ghost all = text::texts(fields@);
    let ghost entries = store::first_of(all, MAX_ANCESTORS as nat);
    let count: usize = if fields.len() <= MAX_ANCESTORS {
        fields.len()
    } else {
        MAX_ANCESTORS
    };
    assert(entries.len() == count);
    let mut pids: Vec<u32> = Vec::new();
    for i in 0..count
        invariant
            all == text::texts(fields@),
            entries == store::first_of(all, MAX_ANCESTORS as nat),
            entries.len() == count,
            count <= fields@.len(),
            pids@ == pids_named(entries, i as nat),
    {
        assert(entries[i as int] == fields@[i as int]@);
        match pid_in(fields[i].as_str()) {
            Some(pid) => {
                if !has_pid(&pids, pid) {
                    pids.push(pid);
                }
            },
            None => {},
        }
    }
    pids
}

/// No ancestor is listed twice, none is zero, and there are at most thirty-two.
pub proof fn lemma_ancestors(raw: Seq<char>)
    ensures
        ancestors_listed(raw).no_duplicates(),
        ancestors_listed(raw).len() <= MAX_ANCESTORS,
        forall|i: int|
            0 <= i < ancestors_listed(raw).len() ==> #[trigger] ancestors_listed(raw)[i] > 0,
{
    let entries = store::first_of(text::fields(raw, ','), MAX_ANCESTORS as nat);
    lemma_pids_named(entries, entries.len());
}

proof fn lemma_pids_named(entries: Seq<Seq<char>>, n: nat)
    requires
        n <= entries.len(),
    ensures
        pids_named(entries, n).no_duplicates(),
        pids_named(entries, n).len() <= n,
        forall|i: int|
            0 <= i < pids_named(entries, n).len() ==> #[trigger] pids_named(entries, n)[i] > 0,
    decreases n,
{
    if n > 0 {
        lemma_pids_named(entries, (n - 1) as nat);
    }
}

// ---------------------------------------------------------------------------
// Events
// ---------------------------------------------------------------------------

/// Why an event was not taken in.
#[derive(Debug)]
pub enum HookError {
    TooLong,
    InvalidJson,
    NotObject,
    Store(StoreError),
}

impl HookError {
    pub open spec fn text(self) -> Seq<char> {
        match self {
            HookError::TooLong => "hook payload exceeded 4194304 bytes"@,
            HookError::InvalidJson => "invalid hook JSON"@,
            HookError::NotObject => "hook payload must be a JSON object"@,
            HookError::Store(_) => "failed to persist hook event"@,
        }
    }

    pub fn message(&self) -> (result: String)
        ensures
            result@ == self.text(),
    {
        match self {
            HookError::TooLong => "hook payload exceeded 4194304 bytes".to_owned(),
            HookError::InvalidJson => "invalid hook JSON".to_owned(),
            HookError::NotObject => "hook payload must be a JSON object".to_owned(),
            HookError::Store(_) => "failed to persist hook event".to_owned(),
        }
    }
}

/// Accepts what a hook told, unless it is too long.
pub fn read_hook_payload(raw: Vec<u8>) -> (result: Result<Vec<u8>, HookError>)
    ensures
        match result {
            Ok(bytes) => raw@.len() <= HOOK_PAYLOAD_MAX_BYTES && bytes@ == raw@,
            Err(error) => raw@.len() > HOOK_PAYLOAD_MAX_BYTES && error is TooLong,
        },
{
    if raw.len() > HOOK_PAYLOAD_MAX_BYTES {
        return Err(HookError::TooLong);
    }
    Ok(raw)
}

/// The event that a hook told of.
pub fn read_event(raw: Vec<u8>) -> (result: Result<Json, HookError>)
    ensures
        match result {
            Ok(event) => raw@.len() <= HOOK_PAYLOAD_MAX_BYTES && json::parsed(raw@) == Some(event@)
                && event@ is Object,
            Err(HookError::TooLong) => raw@.len() > HOOK_PAYLOAD_MAX_BYTES,
            Err(HookError::InvalidJson) => raw@.len() <= HOOK_PAYLOAD_MAX_BYTES && json::parsed(
                raw@,
            ) is None,
            Err(HookError::NotObject) => raw@.len() <= HOOK_PAYLOAD_MAX_BYTES && (json::parsed(
                raw@,
            ) matches Some(value) && !(value is Object)),
            Err(HookError::Store(_)) => false,
        },
{
    let bytes = match read_hook_payload(raw) {
        Ok(bytes) => bytes,
        Err(error) => {
            return Err(error);
        },
    };
    match json::parse_json(bytes.as_slice()) {
        Some(event) => match event {
            Json::Object(_) => Ok(event),
            _ => Err(HookError::NotObject),
        },
        None => Err(HookError::InvalidJson),
    }
}

/// Whether the companion has to run after an event: for a host that stays, or
/// for work that waits.
pub open spec fn companion_needed(
    after: StoreView,
    event: JsonView,
    has_host: bool,
    disabled: bool,
    now: i64,
) -> bool {
    let stays = has_host && event.text_at("hook_event_name"@) != Some("SessionEnd"@);
    let pending = store::pairing_state(after, now).0 || (store::setting(after, "bound_openid"@)
        is Some && store::has_pending(after));
    !disabled && (stays || pending)
}

/// Takes in an event of a hook; see `Store::ingest_hook_at`. Tells whether a
/// notification was queued, and whether the companion has to run. `disabled`
/// says that it is not to be started.
pub fn process_hook(
    event: &Json,
    store: &mut Store,
    host: Option<&HostProcess>,
    line: Option<&Vec<u8>>,
    notify: bool,
    disabled: bool,
    now: i64,
) -> (result: Result<(bool, bool), HookError>)
    ensures
        match result {
            Ok((queued, needed)) => {
                &&& event@ is Object
                &&& if store::event_ignored(event@, store_ops::opt_bytes(line)) {
                    !queued && final(store)@ == old(store)@
                } else {
                    store::event_supported(event@) && store_ops::has_ids(old(store)@) && (
                        final(store)@,
                        queued,
                    ) == store::ingested(
                        old(store)@,
                        event@,
                        processes::opt_host_ref(host),
                        notify,
                        now,
                    )
                }
                &&& needed == companion_needed(
                    final(store)@,
                    event@,
                    host is Some,
                    disabled,
                    now,
                )
            },
            Err(HookError::Store(error)) => final(store)@ == old(store)@ && match error {
                StoreError::PayloadNotObject => !(event@ is Object),
                StoreError::UnsupportedHookEvent(name) => event@ is Object
                    && !store::event_ignored(event@, store_ops::opt_bytes(line))
                    && !store::event_supported(event@) && name@ == hook_event::event_name(event@),
                StoreError::Exhausted => event@ is Object && !store::event_ignored(
                    event@,
                    store_ops::opt_bytes(line),
                ) && store::event_supported(event@) && !store_ops::has_ids(old(store)@),
                _ => false,
            },
            Err(_) => false,
        },
        store::consistent(old(store)@) ==> store::consistent(final(store)@),
{
    let queued = match store.ingest_hook_at(event, host, line, notify, now) {
        Ok(queued) => queued,
        Err(error) => {
            return Err(HookError::Store(error));
        },
    };
    let ends = match event.text_at("hook_event_name") {
        Some(name) => text_eq(name, "SessionEnd"),
        None => false,
    };
    let stays = host.is_some() && !ends;
    let needed = !disabled && (stays || store.companion_work_pending(now));
    Ok((queued, needed))
}

/// An error on a redacted line of at most three hundred characters.
pub open spec fn bounded(error: Seq<char>) -> Seq<char> {
    text::clipped(security::redacted(error), 300)
}

/// An error, redacted and cut.
pub fn bounded_error(error: &str) -> (result: String)
    ensures
        result@ == bounded(error@),
{
    let redacted = security::redact_secrets(error);
    text::clip(redacted.as_str(), 300)
}

/// What the log says of an event that was not taken in.
pub fn failure_line(root: &str, error: &str) -> (result: String)
    ensures
        result@ == "Hook processing failed: "@ + root@ + ": "@ + bounded(error@),
{
    let mut result = "Hook processing failed: ".to_owned();
    result.append(root);
    result.append(": ");
    let shown = bounded_error(error);
    result.append(shown.as_str());
    result
}

} // verus!
