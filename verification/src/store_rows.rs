//! Operations of the store on single tables.
use vstd::prelude::*;
use vstd::utf8;
use crate::hook_event;
use crate::json;
use crate::json::{Json, JsonView};
use crate::processes::{HostProcess, HostView};
use crate::ranking;
use crate::store;
use crate::store::{
    HostRow, HostRowView, InboundRow, InboundView, LastReply, OutboxItem, OutboxRow, OutboxState,
    OutboxView, QQTaskInfo, ReplyView, SessionInfo, SessionView, Store, StoreView,
};
use crate::text;
use crate::text::text_eq;

verus! {

// ---------------------------------------------------------------------------
// Sequences
// ---------------------------------------------------------------------------

/// What a filter keeps of one item more.
pub proof fn lemma_filter_step<T>(items: Seq<T>, pred: spec_fn(T) -> bool, n: int)
    requires
        0 <= n < items.len(),
    ensures
        items.take(n + 1).filter(pred) == (if pred(items[n]) {
            items.take(n).filter(pred).push(items[n])
        } else {
            items.take(n).filter(pred)
        }),
{
    reveal(Seq::filter);
    assert(items.take(n + 1).drop_last() =~= items.take(n));
    assert(items.take(n + 1).last() == items[n]);
}

/// A filter of nothing keeps nothing.
pub proof fn lemma_filter_none<T>(items: Seq<T>, pred: spec_fn(T) -> bool)
    ensures
        items.take(0).filter(pred) == Seq::<T>::empty(),
{
    reveal(Seq::filter);
    assert(items.take(0) =~= Seq::<T>::empty());
}

/// Where a filter puts an item that it keeps.
pub proof fn lemma_filter_place<T>(items: Seq<T>, pred: spec_fn(T) -> bool, j: int) -> (place: int)
    requires
        0 <= j < items.len(),
        pred(items[j]),
    ensures
        0 <= place < items.filter(pred).len(),
        items.filter(pred)[place] == items[j],
    decreases items.len(),
{
    reveal(Seq::filter);
    if j == items.len() - 1 {
        items.filter(pred).len() - 1
    } else {
        lemma_filter_place(items.drop_last(), pred, j)
    }
}

/// Two items that a filter keeps stood in the same order before.
pub proof fn lemma_filter_order<T>(items: Seq<T>, pred: spec_fn(T) -> bool, i: int, j: int) -> (at: (
    int,
    int,
))
    requires
        0 <= i < j < items.filter(pred).len(),
    ensures
        0 <= at.0 < at.1 < items.len(),
        items[at.0] == items.filter(pred)[i],
        items[at.1] == items.filter(pred)[j],
    decreases items.len(),
{
    reveal(Seq::filter);
    let rest = items.drop_last();
    if pred(items.last()) && j == items.filter(pred).len() - 1 {
        let a = lemma_filter_source(rest, pred, i);
        (a, items.len() - 1)
    } else {
        lemma_filter_order(rest, pred, i, j)
    }
}

/// What a filter keeps was there before.
pub proof fn lemma_filter_source<T>(items: Seq<T>, pred: spec_fn(T) -> bool, i: int) -> (at: int)
    requires
        0 <= i < items.filter(pred).len(),
    ensures
        0 <= at < items.len(),
        items[at] == items.filter(pred)[i],
        pred(items.filter(pred)[i]),
    decreases items.len(),
{
    reveal(Seq::filter);
    let rest = items.drop_last();
    if pred(items.last()) && i == items.filter(pred).len() - 1 {
        items.len() - 1
    } else {
        lemma_filter_source(rest, pred, i)
    }
}

/// A filter keeps everything where it turns nothing down.
pub proof fn lemma_filter_all<T>(items: Seq<T>, pred: spec_fn(T) -> bool)
    requires
        forall|i: int| 0 <= i < items.len() ==> pred(#[trigger] items[i]),
    ensures
        items.filter(pred) == items,
    decreases items.len(),
{
    reveal(Seq::filter);
    if items.len() > 0 {
        let rest = items.drop_last();
        assert forall|i: int| 0 <= i < rest.len() implies pred(#[trigger] rest[i]) by {
            assert(rest[i] == items[i]);
        }
        lemma_filter_all(rest, pred);
        assert(pred(items[items.len() - 1]));
        assert(rest.push(items.last()) =~= items);
    }
}

// ---------------------------------------------------------------------------
// Copies
// ---------------------------------------------------------------------------

impl SessionInfo {
    pub fn copy(&self) -> (result: SessionInfo)
        ensures
            result@ == self@,
    {
        SessionInfo {
            session_id: self.session_id.clone(),
            cwd: self.cwd.clone(),
            project: self.project.clone(),
            model: self.model.clone(),
            turn_id: text::copied(&self.turn_id),
            status: self.status.clone(),
            prompt_preview: text::copied(&self.prompt_preview),
            updated_at: self.updated_at,
        }
    }
}

impl LastReply {
    pub fn copy(&self) -> (result: LastReply)
        ensures
            result@ == self@,
    {
        LastReply {
            reply_id: self.reply_id,
            session_id: self.session_id.clone(),
            turn_id: text::copied(&self.turn_id),
            project: self.project.clone(),
            model: self.model.clone(),
            content: self.content.clone(),
            created_at: self.created_at,
        }
    }
}

impl QQTaskInfo {
    pub fn copy(&self) -> (result: QQTaskInfo)
        ensures
            result@ == self@,
    {
        QQTaskInfo {
            thread_id: self.thread_id.clone(),
            turn_id: self.turn_id.clone(),
            cwd: self.cwd.clone(),
            model: self.model.clone(),
            effort: self.effort.clone(),
            state: self.state.clone(),
            updated_at: self.updated_at,
        }
    }
}

fn copied_segments(segments: &Option<Vec<String>>) -> (result: Option<Vec<String>>)
    ensures
        store::opt_texts(result) == store::opt_texts(*segments),
{
    match segments {
        Some(list) => Some(text::copied_list(list)),
        None => None,
    }
}

/// What a row is as a due item, when its payload and its segments could be
/// read.
pub open spec fn item_of(row: OutboxView) -> Option<store::ItemView> {
    match (row.payload, row.fault) {
        (Some(payload), None) => Some(
            store::ItemView {
                id: row.id,
                event_key: row.event_key,
                kind: row.kind,
                session_id: row.session_id,
                turn_id: row.turn_id,
                payload,
                segments: row.segments,
                segment_index: row.segment_index,
                attempts: row.attempts,
                created_at: row.created_at,
            },
        ),
        _ => None,
    }
}

/// Why a row could not be read, as far as it is known.
pub open spec fn fault_of(row: OutboxView) -> Seq<char> {
    match row.fault {
        Some(fault) => fault,
        None => ""@,
    }
}

/// What is told of a stored payload and the segments stored with it: the
/// payload and the segments, each where it can be read, and the fault that is
/// reported, that of the payload before that of the segments.
pub open spec fn texts_stored(payload: Seq<char>, segments: Option<Seq<char>>) -> (
    Option<JsonView>,
    Option<Seq<Seq<char>>>,
    Option<Seq<char>>,
) {
    let read = match json::read_json(utf8::encode_utf8(payload)) {
        Ok(value) => (Some(value), None),
        Err((_, message)) => (None, Some(message)),
    };
    match segments {
        None => (read.0, None, read.1),
        Some(raw) => match json::read_texts(utf8::encode_utf8(raw)) {
            Ok(parts) => (read.0, Some(parts), read.1),
            Err(message) => (
                read.0,
                None,
                match read.1 {
                    Some(fault) => Some(fault),
                    None => Some(message),
                },
            ),
        },
    }
}

/// Reads a stored payload and the segments stored with it. Segments in compact
/// notation are read as they were written.
pub fn stored_texts(payload: &str, segments: Option<&str>) -> (result: (
    Option<Json>,
    Option<Vec<String>>,
    Option<String>,
))
    ensures
        ({
            let told = texts_stored(
                payload@,
                match segments {
                    Some(raw) => Some(raw@),
                    None => None,
                },
            );
            &&& told.0 == match result.0 {
                Some(value) => Some(value@),
                None => None,
            }
            &&& told.1 == match result.1 {
                Some(parts) => Some(text::texts(parts@)),
                None => None,
            }
            &&& told.2 == text::opt_text(result.2)
        }),
        forall|parts: Seq<Seq<char>>|
            segments is Some && segments->0@ == #[trigger] json::compact_json(
                json::text_list(parts),
            ) ==> result.1 is Some && text::texts(result.1->0@) == parts,
{
    let (value, fault) = match json::parse_json_or_fault(payload.as_bytes()) {
        Ok(value) => (Some(value), None),
        Err((_, message)) => (None, Some(message)),
    };
    match segments {
        None => (value, None, fault),
        Some(raw) => match json::parse_texts(raw.as_bytes()) {
            Ok(parts) => (value, Some(parts), fault),
            Err(message) => match fault {
                Some(fault) => (value, None, Some(fault)),
                None => (value, None, Some(message)),
            },
        },
    }
}

pub fn due_item(row: &OutboxRow) -> (result: Result<OutboxItem, String>)
    ensures
        match result {
            Ok(item) => item_of(row@) == Some(item@),
            Err(fault) => item_of(row@) is None && fault@ == fault_of(row@),
        },
{
    match (&row.payload, &row.fault) {
        (Some(payload), None) => Ok(
            OutboxItem {
                id: row.id,
                event_key: row.event_key.clone(),
                kind: row.kind.clone(),
                session_id: row.session_id.clone(),
                turn_id: text::copied(&row.turn_id),
                payload: payload.copy(),
                segments: copied_segments(&row.segments),
                segment_index: row.segment_index,
                attempts: row.attempts,
                created_at: row.created_at,
            },
        ),
        (_, Some(fault)) => Err(fault.clone()),
        (None, None) => Err("".to_owned()),
    }
}

// ---------------------------------------------------------------------------
// Settings
// ---------------------------------------------------------------------------

impl Store {
    /// The value of a setting.
    pub fn get_setting(&self, key: &str) -> (result: Option<String>)
        ensures
            text::opt_text(result) == store::setting(self@, key@),
    {
        let ghost rows = self.settings@;
        let mut i: usize = self.settings.len();
        assert(rows.take(rows.len() as int) =~= rows);
        while i > 0
            invariant
                rows == self.settings@,
                i <= rows.len(),
                self@.settings == store::settings_map(rows),
                self@.settings.contains_key(key@) == store::settings_map(
                    rows.take(i as int),
                ).contains_key(key@),
                self@.settings.contains_key(key@) ==> self@.settings[key@] == store::settings_map(
                    rows.take(i as int),
                )[key@],
            decreases i,
        {
            let ghost shorter = rows.take(i as int).drop_last();
            assert(shorter =~= rows.take(i - 1));
            assert(rows.take(i as int).last() == rows[i - 1]);
            if text_eq(self.settings[i - 1].0.as_str(), key) {
                return Some(self.settings[i - 1].1.clone());
            }
            i -= 1;
        }
        assert(rows.take(0).len() == 0);
        None
    }

    fn drop_setting(&mut self, key: &str)
        ensures
            final(self)@ == store::without_setting(old(self)@, key@),
    {
        let mut rows: Vec<(String, String)> = Vec::new();
        std::mem::swap(&mut rows, &mut self.settings);
        let ghost all = rows@;
        let mut kept: Vec<(String, String)> = Vec::new();
        assert(store::settings_map(all.take(0)) =~= Map::<Seq<char>, Seq<char>>::empty());
        assert(store::settings_map(kept@) =~= store::settings_map(all.take(0)).remove(key@));
        for row in iter: rows
            invariant
                iter.seq() == all,
                store::settings_map(kept@) == store::settings_map(
                    all.take(iter.index() as int),
                ).remove(key@),
        {
            let ghost n = iter.index() as int;
            let ghost before = store::settings_map(all.take(n));
            let ghost held = kept@;
            assert(all.take(n + 1).drop_last() =~= all.take(n));
            assert(all.take(n + 1).last() == all[n]);
            if text_eq(row.0.as_str(), key) {
                assert(store::settings_map(all.take(n + 1)).remove(key@) =~= before.remove(key@));
            } else {
                let ghost entry = row;
                kept.push(row);
                assert(kept@.drop_last() =~= held);
                assert(store::settings_map(all.take(n + 1)).remove(key@) =~= before.remove(
                    key@,
                ).insert(entry.0@, entry.1@));
            }
        }
        assert(all.take(all.len() as int) =~= all);
        self.settings = kept;
        assert(self@ =~= store::without_setting(old(self)@, key@));
    }

    /// Sets a setting.
    pub fn set_setting(&mut self, key: &str, value: &str)
        ensures
            final(self)@ == store::with_setting(old(self)@, key@, value@),
    {
        self.drop_setting(key);
        let ghost rows = self.settings@;
        self.settings.push((key.to_owned(), value.to_owned()));
        proof {
            assert(self.settings@.drop_last() =~= rows);
            assert(self@.settings =~= old(self)@.settings.insert(key@, value@));
            assert(self@ =~= store::with_setting(old(self)@, key@, value@));
        }
    }

    /// Removes settings.
    pub fn delete_settings(&mut self, keys: &Vec<String>)
        ensures
            final(self)@ == store::without_settings(
                old(self)@,
                text::texts(keys@),
                keys@.len(),
            ),
    {
        let ghost start = self@;
        for i in 0..keys.len()
            invariant
                self@ == store::without_settings(start, text::texts(keys@), i as nat),
        {
            self.drop_setting(keys[i].as_str());
        }
    }
}

// ---------------------------------------------------------------------------
// Hosts
// ---------------------------------------------------------------------------

impl Store {
    fn find_host(&self, host: &HostProcess) -> (result: Option<usize>)
        ensures
            match result {
                Some(at) => at < self.hosts@.len() && store::host_index(self@.hosts, host@, 0)
                    == Some(at as int),
                None => store::host_index(self@.hosts, host@, 0) is None,
            },
    {
        let ghost rows = self@.hosts;
        let mut i: usize = 0;
        while i < self.hosts.len()
            invariant
                i <= self.hosts@.len(),
                rows == store::host_views(self.hosts@),
                store::host_index(rows, host@, 0) == store::host_index(rows, host@, i as int),
            decreases self.hosts.len() - i,
        {
            if self.hosts[i].host.pid == host.pid && self.hosts[i].host.create_time
                == host.create_time {
                return Some(i);
            }
            i += 1;
        }
        None
    }

    /// Records that a host was seen.
    pub fn record_host(&mut self, host: &HostProcess, now: i64)
        ensures
            final(self)@ == store::with_host(old(self)@, host@, now),
            store::consistent(old(self)@) ==> store::consistent(final(self)@),
    {
        let row = HostRow { host: host.copy(), last_seen: now };
        let ghost view = row@;
        match self.find_host(host) {
            Some(at) => {
                self.hosts.set(at, row);
                assert(store::host_views(self.hosts@) =~= old(self)@.hosts.update(at as int, view));
            },
            None => {
                self.hosts.push(row);
                assert(store::host_views(self.hosts@) =~= old(self)@.hosts.push(view));
            },
        }
        proof {
            assert(self@ =~= store::with_host(old(self)@, host@, now));
            lemma_with_host(old(self)@, host@, now);
        }
    }

    fn drop_host(&mut self, host: &HostProcess)
        ensures
            final(self)@ == (StoreView {
                hosts: old(self)@.hosts.filter(store::other_host(host@)),
                ..old(self)@
            }),
    {
        let mut rows: Vec<HostRow> = Vec::new();
        std::mem::swap(&mut rows, &mut self.hosts);
        let ghost all = store::host_views(rows@);
        let ghost source = rows@;
        let ghost pred = store::other_host(host@);
        let mut kept: Vec<HostRow> = Vec::new();
        proof {
            lemma_filter_none(all, pred);
            assert(store::host_views(kept@) =~= Seq::<HostRowView>::empty());
        }
        for row in iter: rows
            invariant
                iter.seq() == source,
                all == store::host_views(source),
                pred == store::other_host(host@),
                store::host_views(kept@) == all.take(iter.index() as int).filter(pred),
        {
            let ghost n = iter.index() as int;
            let ghost held = store::host_views(kept@);
            proof {
                lemma_filter_step(all, pred, n);
            }
            if !(row.host.pid == host.pid && row.host.create_time == host.create_time) {
                kept.push(row);
                assert(store::host_views(kept@) =~= held.push(all[n]));
            }
        }
        assert(all.take(all.len() as int) =~= all);
        self.hosts = kept;
    }

    /// Forgets hosts.
    pub fn remove_hosts(&mut self, hosts: &Vec<HostProcess>)
        ensures
            final(self)@ == store::without_hosts(
                old(self)@,
                Seq::new(hosts@.len(), |i: int| hosts@[i]@),
                hosts@.len(),
            ),
            store::consistent(old(self)@) ==> store::consistent(final(self)@),
    {
        let ghost start = self@;
        let ghost views = Seq::new(hosts@.len(), |i: int| hosts@[i]@);
        for i in 0..hosts.len()
            invariant
                views == Seq::new(hosts@.len(), |i: int| hosts@[i]@),
                self@ == store::without_hosts(start, views, i as nat),
        {
            self.drop_host(&hosts[i]);
        }
        proof {
            lemma_without_hosts(start, views, hosts@.len());
        }
    }

    /// The hosts, the last seen first.
    pub fn list_hosts(&self) -> (result: Vec<HostProcess>)
        ensures
            Seq::new(result@.len(), |i: int| result@[i]@) == store::hosts_by_sight(self@),
    {
        let ghost rows = self@.hosts;
        let mut keys: Vec<(i64, i64)> = Vec::new();
        for i in 0..self.hosts.len()
            invariant
                rows == store::host_views(self.hosts@),
                keys@ == store::host_keys(rows).take(i as int),
        {
            keys.push((self.hosts[i].last_seen, 0));
            assert(keys@ =~= store::host_keys(rows).take(i + 1));
        }
        assert(keys@ =~= store::host_keys(rows));
        let order = ranking::rank(&keys);
        let mut result: Vec<HostProcess> = Vec::new();
        for i in 0..order.len()
            invariant
                rows == store::host_views(self.hosts@),
                forall|j: int| 0 <= j < order@.len() ==> #[trigger] order@[j] < self.hosts@.len(),
                result@.len() == i,
                forall|j: int| 0 <= j < i ==> (#[trigger] result@[j])@ == rows[order@[j] as int].host,
        {
            result.push(self.hosts[order[i]].host.copy());
        }
        assert(Seq::new(result@.len(), |i: int| result@[i]@) =~= store::hosts_by_sight(self@));
        result
    }
}

/// Recording a host keeps the state consistent.
pub proof fn lemma_with_host(s: StoreView, host: HostView, now: i64)
    ensures
        store::consistent(s) ==> store::consistent(store::with_host(s, host, now)),
{
    lemma_host_index(s.hosts, host, 0);
}

proof fn lemma_host_index(rows: Seq<HostRowView>, host: HostView, from: int)
    requires
        0 <= from <= rows.len(),
    ensures
        match store::host_index(rows, host, from) {
            Some(i) => from <= i < rows.len() && store::same_host(rows[i].host, host),
            None => forall|i: int|
                from <= i < rows.len() ==> !store::same_host((#[trigger] rows[i]).host, host),
        },
    decreases rows.len() - from,
{
    if from < rows.len() && !store::same_host(rows[from].host, host) {
        lemma_host_index(rows, host, from + 1);
    }
}

proof fn lemma_without_hosts(s: StoreView, hosts: Seq<HostView>, n: nat)
    ensures
        store::consistent(s) ==> store::consistent(store::without_hosts(s, hosts, n)),
    decreases n,
{
    if n > 0 {
        lemma_without_hosts(s, hosts, (n - 1) as nat);
        let before = store::without_hosts(s, hosts, (n - 1) as nat);
        let pred = store::other_host(hosts[n - 1]);
        let after = before.hosts.filter(pred);
        assert forall|i: int, j: int| 0 <= i < j < after.len() && store::consistent(before)
            implies !store::same_host((#[trigger] after[i]).host, (#[trigger] after[j]).host) by {
            let at = lemma_filter_order(before.hosts, pred, i, j);
            assert(before.hosts[at.0] == after[i] && before.hosts[at.1] == after[j]);
        }
    }
}

// ---------------------------------------------------------------------------
// Expiry
// ---------------------------------------------------------------------------

fn not_before(at: i64, now: i64, ttl: i64) -> (result: bool)
    ensures
        result == (at >= now - ttl),
{
    at as i128 >= now as i128 - ttl as i128
}

impl Store {
    /// Drops the replies and notifications that have outlived their time.
    pub fn cleanup_expired_content(&mut self, now: i64)
        ensures
            final(self)@ == store::cleaned(old(self)@, now),
            store::consistent(old(self)@) ==> store::consistent(final(self)@),
    {
        let mut rows: Vec<LastReply> = Vec::new();
        std::mem::swap(&mut rows, &mut self.replies);
        let ghost source = rows@;
        let ghost all = store::reply_views(rows@);
        let ghost pred = store::reply_since(now - self.last_reply_ttl);
        let ttl: i64 = self.last_reply_ttl;
        let mut kept: Vec<LastReply> = Vec::new();
        proof {
            lemma_filter_none(all, pred);
            assert(store::reply_views(kept@) =~= Seq::<ReplyView>::empty());
        }
        for row in iter: rows
            invariant
                iter.seq() == source,
                all == store::reply_views(source),
                pred == store::reply_since(now - ttl),
                store::reply_views(kept@) == all.take(iter.index() as int).filter(pred),
        {
            let ghost n = iter.index() as int;
            let ghost held = store::reply_views(kept@);
            proof {
                lemma_filter_step(all, pred, n);
            }
            if not_before(row.created_at, now, ttl) {
                kept.push(row);
                assert(store::reply_views(kept@) =~= held.push(all[n]));
            }
        }
        assert(all.take(all.len() as int) =~= all);
        self.replies = kept;
        self.keep_rows_since(now);
        proof {
            lemma_cleaned(old(self)@, now);
        }
    }

    fn keep_rows_since(&mut self, now: i64)
        ensures
            final(self)@ == (StoreView {
                outbox: old(self)@.outbox.filter(store::row_since(now - old(self)@.outbox_ttl)),
                ..old(self)@
            }),
    {
        let mut rows: Vec<OutboxRow> = Vec::new();
        std::mem::swap(&mut rows, &mut self.outbox);
        let ghost source = rows@;
        let ghost all = store::outbox_views(rows@);
        let ghost pred = store::row_since(now - self.outbox_ttl);
        let ttl: i64 = self.outbox_ttl;
        let mut kept: Vec<OutboxRow> = Vec::new();
        proof {
            lemma_filter_none(all, pred);
            assert(store::outbox_views(kept@) =~= Seq::<OutboxView>::empty());
        }
        for row in iter: rows
            invariant
                iter.seq() == source,
                all == store::outbox_views(source),
                pred == store::row_since(now - ttl),
                store::outbox_views(kept@) == all.take(iter.index() as int).filter(pred),
        {
            let ghost n = iter.index() as int;
            let ghost held = store::outbox_views(kept@);
            proof {
                lemma_filter_step(all, pred, n);
            }
            if not_before(row.created_at, now, ttl) {
                kept.push(row);
                assert(store::outbox_views(kept@) =~= held.push(all[n]));
            }
        }
        assert(all.take(all.len() as int) =~= all);
        self.outbox = kept;
    }

    fn keep_inbound_since(&mut self, now: i64)
        ensures
            final(self)@ == (StoreView {
                inbound: old(self)@.inbound.filter(store::inbound_since(now - store::INBOUND_TTL)),
                ..old(self)@
            }),
    {
        let mut rows: Vec<InboundRow> = Vec::new();
        std::mem::swap(&mut rows, &mut self.inbound);
        let ghost source = rows@;
        let ghost all = store::inbound_views(rows@);
        let ghost pred = store::inbound_since(now - store::INBOUND_TTL);
        let mut kept: Vec<InboundRow> = Vec::new();
        proof {
            lemma_filter_none(all, pred);
            assert(store::inbound_views(kept@) =~= Seq::<InboundView>::empty());
        }
        for row in iter: rows
            invariant
                iter.seq() == source,
                all == store::inbound_views(source),
                pred == store::inbound_since(now - store::INBOUND_TTL),
                store::inbound_views(kept@) == all.take(iter.index() as int).filter(pred),
        {
            let ghost n = iter.index() as int;
            let ghost held = store::inbound_views(kept@);
            proof {
                lemma_filter_step(all, pred, n);
            }
            if not_before(row.created_at, now, store::INBOUND_TTL) {
                kept.push(row);
                assert(store::inbound_views(kept@) =~= held.push(all[n]));
            }
        }
        assert(all.take(all.len() as int) =~= all);
        self.inbound = kept;
    }

    fn suppress_pending_permissions(&mut self)
        ensures
            final(self)@ == store::pending_suppressed(
                old(self)@,
                store::asks_permission(),
                "permission notifications disabled"@,
            ),
    {
        let mut rows: Vec<OutboxRow> = Vec::new();
        std::mem::swap(&mut rows, &mut self.outbox);
        let ghost source = rows@;
        let ghost goal = store::pending_suppressed(
            old(self)@,
            store::asks_permission(),
            "permission notifications disabled"@,
        ).outbox;
        let mut kept: Vec<OutboxRow> = Vec::new();
        for row in iter: rows
            invariant
                iter.seq() == source,
                store::outbox_views(source) == old(self)@.outbox,
                goal == store::pending_suppressed(
                    old(self)@,
                    store::asks_permission(),
                    "permission notifications disabled"@,
                ).outbox,
                store::outbox_views(kept@) == goal.take(iter.index() as int),
        {
            let ghost n = iter.index() as int;
            let ghost held = store::outbox_views(kept@);
            let mut row = row;
            assert(row@ == old(self)@.outbox[n]);
            if row.state == OutboxState::Pending && text_eq(
                row.kind.as_str(),
                "permission_required",
            ) {
                row.state = OutboxState::Suppressed;
                row.last_error = Some("permission notifications disabled".to_owned());
            }
            assert(row@ == goal[n]);
            kept.push(row);
            assert(store::outbox_views(kept@) =~= held.push(goal[n]));
            assert(goal.take(n + 1) =~= held.push(goal[n]));
        }
        assert(goal.take(goal.len() as int) =~= goal);
        self.outbox = kept;
    }

    pub(crate) fn suppress_created_until(&mut self, now: i64)
        ensures
            final(self)@ == store::pending_suppressed(
                old(self)@,
                store::created_until(now),
                "created before QQ binding"@,
            ),
    {
        let mut rows: Vec<OutboxRow> = Vec::new();
        std::mem::swap(&mut rows, &mut self.outbox);
        let ghost source = rows@;
        let ghost goal = store::pending_suppressed(
            old(self)@,
            store::created_until(now),
            "created before QQ binding"@,
        ).outbox;
        let mut kept: Vec<OutboxRow> = Vec::new();
        for row in iter: rows
            invariant
                iter.seq() == source,
                store::outbox_views(source) == old(self)@.outbox,
                goal == store::pending_suppressed(
                    old(self)@,
                    store::created_until(now),
                    "created before QQ binding"@,
                ).outbox,
                store::outbox_views(kept@) == goal.take(iter.index() as int),
        {
            let ghost n = iter.index() as int;
            let ghost held = store::outbox_views(kept@);
            let mut row = row;
            assert(row@ == old(self)@.outbox[n]);
            if row.state == OutboxState::Pending && row.created_at <= now {
                row.state = OutboxState::Suppressed;
                row.last_error = Some("created before QQ binding".to_owned());
            }
            assert(row@ == goal[n]);
            kept.push(row);
            assert(store::outbox_views(kept@) =~= held.push(goal[n]));
            assert(goal.take(n + 1) =~= held.push(goal[n]));
        }
        assert(goal.take(goal.len() as int) =~= goal);
        self.outbox = kept;
    }

    /// Drops what has outlived its time.
    pub fn cleanup_at(&mut self, now: i64, notify: bool)
        ensures
            final(self)@ == store::tidied(old(self)@, now, notify),
            store::consistent(old(self)@) ==> store::consistent(final(self)@),
    {
        self.cleanup_expired_content(now);
        self.keep_inbound_since(now);
        if !notify {
            self.suppress_pending_permissions();
        }
        proof {
            lemma_tidied(old(self)@, now, notify);
        }
    }
}

/// Dropping expired content keeps the state consistent.
pub proof fn lemma_cleaned(s: StoreView, now: i64)
    ensures
        store::consistent(s) ==> store::consistent(store::cleaned(s, now)),
{
    if store::consistent(s) {
        let after = store::cleaned(s, now);
        let fresh = store::reply_since(now - s.last_reply_ttl);
        let kept = store::row_since(now - s.outbox_ttl);
        assert forall|i: int, j: int| 0 <= i < j < after.outbox.len() implies (
        #[trigger] after.outbox[i]).event_key != (#[trigger] after.outbox[j]).event_key
            && after.outbox[i].id < after.outbox[j].id by {
            let at = lemma_filter_order(s.outbox, kept, i, j);
            assert(s.outbox[at.0] == after.outbox[i] && s.outbox[at.1] == after.outbox[j]);
        }
        assert forall|i: int| 0 <= i < after.outbox.len() implies (#[trigger] after.outbox[i]).id
            < after.next_outbox_id by {
            let at = lemma_filter_source(s.outbox, kept, i);
        }
        assert forall|i: int, j: int| 0 <= i < j < after.replies.len() implies (
        #[trigger] after.replies[i]).reply_id < (#[trigger] after.replies[j]).reply_id by {
            let at = lemma_filter_order(s.replies, fresh, i, j);
            assert(s.replies[at.0] == after.replies[i] && s.replies[at.1] == after.replies[j]);
        }
        assert forall|i: int| 0 <= i < after.replies.len() implies (
        #[trigger] after.replies[i]).reply_id < after.next_reply_id by {
            let at = lemma_filter_source(s.replies, fresh, i);
        }
    }
}

/// Suppressing pending notifications keeps the state consistent.
pub proof fn lemma_pending_suppressed(
    s: StoreView,
    chosen: spec_fn(OutboxView) -> bool,
    reason: Seq<char>,
)
    ensures
        store::consistent(s) ==> store::consistent(store::pending_suppressed(s, chosen, reason)),
{
    let after = store::pending_suppressed(s, chosen, reason);
    if store::consistent(s) {
        assert forall|i: int, j: int| 0 <= i < j < after.outbox.len() implies (
        #[trigger] after.outbox[i]).event_key != (#[trigger] after.outbox[j]).event_key
            && after.outbox[i].id < after.outbox[j].id by {
            assert(s.outbox[i].event_key != s.outbox[j].event_key);
        }
        assert forall|i: int| 0 <= i < after.outbox.len() implies (#[trigger] after.outbox[i]).id
            < after.next_outbox_id by {
            assert(s.outbox[i].id < s.next_outbox_id);
        }
    }
}

/// Tidying keeps the state consistent.
pub proof fn lemma_tidied(s: StoreView, now: i64, notify: bool)
    ensures
        store::consistent(s) ==> store::consistent(store::tidied(s, now, notify)),
{
    if store::consistent(s) {
        lemma_cleaned(s, now);
        let fresh = store::cleaned(s, now);
        let pred = store::inbound_since(now - store::INBOUND_TTL);
        let rest = StoreView { inbound: fresh.inbound.filter(pred), ..fresh };
        assert forall|i: int, j: int| 0 <= i < j < rest.inbound.len() implies (
        #[trigger] rest.inbound[i]).message_id != (#[trigger] rest.inbound[j]).message_id by {
            let at = lemma_filter_order(fresh.inbound, pred, i, j);
            assert(fresh.inbound[at.0] == rest.inbound[i] && fresh.inbound[at.1]
                == rest.inbound[j]);
        }
        assert(store::consistent(rest));
        lemma_pending_suppressed(
            rest,
            store::asks_permission(),
            "permission notifications disabled"@,
        );
    }
}

// ---------------------------------------------------------------------------
// Sessions
// ---------------------------------------------------------------------------

/// Where a session stands, if anywhere.
pub proof fn lemma_session_at(rows: Seq<SessionView>, id: Seq<char>, from: int)
    requires
        0 <= from <= rows.len(),
    ensures
        match store::session_at(rows, id, from) {
            Some(i) => from <= i < rows.len() && rows[i].session_id == id,
            None => forall|i: int|
                from <= i < rows.len() ==> (#[trigger] rows[i]).session_id != id,
        },
    decreases rows.len() - from,
{
    if from < rows.len() && rows[from].session_id != id {
        lemma_session_at(rows, id, from + 1);
    }
}

/// Entering a session keeps the state consistent.
pub proof fn lemma_with_session(s: StoreView, new: SessionView)
    ensures
        store::consistent(s) ==> store::consistent(store::with_session(s, new)),
        store::consistent(s) ==> store::consistent(store::with_failed_session(s, new)),
{
    lemma_session_at(s.sessions, new.session_id, 0);
}

fn first_some(first: Option<String>, second: Option<String>) -> (result: Option<String>)
    ensures
        text::opt_text(result) == store::or_else(text::opt_text(first), text::opt_text(second)),
{
    match first {
        Some(value) => Some(value),
        None => second,
    }
}

impl Store {
    pub(crate) fn find_session(&self, id: &str) -> (result: Option<usize>)
        ensures
            match result {
                Some(at) => at < self.sessions@.len() && store::session_at(
                    self@.sessions,
                    id@,
                    0,
                ) == Some(at as int),
                None => store::session_at(self@.sessions, id@, 0) is None,
            },
    {
        let ghost rows = self@.sessions;
        let mut i: usize = 0;
        while i < self.sessions.len()
            invariant
                i <= self.sessions@.len(),
                rows == store::session_views(self.sessions@),
                store::session_at(rows, id@, 0) == store::session_at(rows, id@, i as int),
            decreases self.sessions.len() - i,
        {
            if text_eq(self.sessions[i].session_id.as_str(), id) {
                return Some(i);
            }
            i += 1;
        }
        None
    }

    /// Enters what an event says of its session.
    pub(crate) fn upsert_session(&mut self, new: SessionInfo)
        ensures
            final(self)@ == store::with_session(old(self)@, new@),
            store::consistent(old(self)@) ==> store::consistent(final(self)@),
    {
        let ghost view = new@;
        match self.find_session(new.session_id.as_str()) {
            Some(at) => {
                let turn_id = text::copied(&self.sessions[at].turn_id);
                let prompt_preview = text::copied(&self.sessions[at].prompt_preview);
                let row = SessionInfo {
                    turn_id: first_some(new.turn_id, turn_id),
                    prompt_preview: first_some(new.prompt_preview, prompt_preview),
                    session_id: new.session_id,
                    cwd: new.cwd,
                    project: new.project,
                    model: new.model,
                    status: new.status,
                    updated_at: new.updated_at,
                };
                let ghost merged = row@;
                self.sessions.set(at, row);
                assert(store::session_views(self.sessions@) =~= old(self)@.sessions.update(
                    at as int,
                    merged,
                ));
            },
            None => {
                self.sessions.push(new);
                assert(store::session_views(self.sessions@) =~= old(self)@.sessions.push(view));
            },
        }
        proof {
            assert(self@ =~= store::with_session(old(self)@, view));
            lemma_with_session(old(self)@, view);
        }
    }

    /// Enters a failed session.
    pub(crate) fn upsert_failed_session(&mut self, new: SessionInfo)
        ensures
            final(self)@ == store::with_failed_session(old(self)@, new@),
            store::consistent(old(self)@) ==> store::consistent(final(self)@),
    {
        let ghost view = new@;
        match self.find_session(new.session_id.as_str()) {
            Some(at) => {
                if new.updated_at >= self.sessions[at].updated_at {
                    let row = SessionInfo {
                        model: self.sessions[at].model.clone(),
                        prompt_preview: text::copied(&self.sessions[at].prompt_preview),
                        turn_id: new.turn_id,
                        session_id: new.session_id,
                        cwd: new.cwd,
                        project: new.project,
                        status: new.status,
                        updated_at: new.updated_at,
                    };
                    let ghost merged = row@;
                    self.sessions.set(at, row);
                    assert(store::session_views(self.sessions@) =~= old(self)@.sessions.update(
                        at as int,
                        merged,
                    ));
                }
            },
            None => {
                self.sessions.push(new);
                assert(store::session_views(self.sessions@) =~= old(self)@.sessions.push(view));
            },
        }
        proof {
            assert(self@ =~= store::with_failed_session(old(self)@, view));
            lemma_with_session(old(self)@, view);
        }
    }
}

fn is_active(session: &SessionInfo) -> (result: bool)
    ensures
        result == store::active_session()(session@),
{
    text_eq(session.status.as_str(), "running") || text_eq(
        session.status.as_str(),
        "awaiting_approval",
    ) || text_eq(session.status.as_str(), "idle")
}

/// The sessions that a list of references leads to.
pub open spec fn session_targets(rows: Seq<&SessionInfo>) -> Seq<SessionView> {
    Seq::new(rows.len(), |i: int| rows[i]@)
}

fn latest_sessions(rows: &Vec<&SessionInfo>, limit: usize) -> (result: Vec<SessionInfo>)
    ensures
        store::session_views(result@) == store::first_of(
            store::latest_first(session_targets(rows@)),
            limit as nat,
        ),
{
    let ghost views = session_targets(rows@);
    let mut keys: Vec<(i64, i64)> = Vec::new();
    for i in 0..rows.len()
        invariant
            views == session_targets(rows@),
            keys@ == store::session_keys(views).take(i as int),
    {
        keys.push((rows[i].updated_at, 0));
        assert(keys@ =~= store::session_keys(views).take(i + 1));
    }
    assert(keys@ =~= store::session_keys(views));
    let order = ranking::rank(&keys);
    let count: usize = if order.len() <= limit {
        order.len()
    } else {
        limit
    };
    let mut result: Vec<SessionInfo> = Vec::new();
    for i in 0..count
        invariant
            count <= order@.len(),
            views == session_targets(rows@),
            forall|j: int| 0 <= j < order@.len() ==> #[trigger] order@[j] < rows@.len(),
            result@.len() == i,
            forall|j: int| 0 <= j < i ==> (#[trigger] result@[j])@ == views[order@[j] as int],
    {
        result.push(rows[order[i]].copy());
    }
    assert(store::session_views(result@) =~= store::first_of(
        store::latest_first(views),
        limit as nat,
    ));
    result
}

impl Store {
    /// The sessions that a status report shows.
    pub fn get_sessions_for_status(&self) -> (result: Vec<SessionInfo>)
        ensures
            store::session_views(result@) == store::status_sessions(self@),
    {
        let ghost all = self@.sessions;
        let ghost pred = store::active_session();
        let mut active: Vec<&SessionInfo> = Vec::new();
        let mut every: Vec<&SessionInfo> = Vec::new();
        proof {
            lemma_filter_none(all, pred);
            assert(session_targets(active@) =~= Seq::<SessionView>::empty());
        }
        for i in 0..self.sessions.len()
            invariant
                all == store::session_views(self.sessions@),
                pred == store::active_session(),
                session_targets(active@) == all.take(i as int).filter(pred),
                session_targets(every@) == all.take(i as int),
        {
            let ghost held = session_targets(active@);
            let ghost seen = session_targets(every@);
            proof {
                lemma_filter_step(all, pred, i as int);
            }
            if is_active(&self.sessions[i]) {
                active.push(&self.sessions[i]);
                assert(session_targets(active@) =~= held.push(all[i as int]));
            }
            every.push(&self.sessions[i]);
            assert(session_targets(every@) =~= seen.push(all[i as int]));
            assert(all.take(i + 1) =~= seen.push(all[i as int]));
        }
        assert(all.take(all.len() as int) =~= all);
        let shown = latest_sessions(&active, 3);
        assert(store::session_views(shown@).len() == shown@.len());
        if shown.len() > 0 {
            shown
        } else {
            latest_sessions(&every, 1)
        }
    }
}

// ---------------------------------------------------------------------------
// Replies
// ---------------------------------------------------------------------------

/// Entering a reply keeps the state consistent.
pub proof fn lemma_with_reply(s: StoreView, reply: ReplyView)
    requires
        s.next_reply_id < i64::MAX,
    ensures
        store::consistent(s) ==> store::consistent(store::with_reply(s, reply)),
{
    if store::consistent(s) {
        let grown = StoreView {
            replies: s.replies.push(ReplyView { reply_id: s.next_reply_id, ..reply }),
            next_reply_id: (s.next_reply_id + 1) as i64,
            ..s
        };
        let pred = store::reply_kept(grown.replies, reply.session_id, grown.last_reply_limit);
        let after = store::with_reply(s, reply);
        assert forall|i: int, j: int| 0 <= i < j < grown.replies.len() implies (
        #[trigger] grown.replies[i]).reply_id < (#[trigger] grown.replies[j]).reply_id by {
            if j < s.replies.len() {
                assert(s.replies[i].reply_id < s.replies[j].reply_id);
            } else {
                assert(s.replies[i].reply_id < s.next_reply_id);
            }
        }
        assert forall|i: int, j: int| 0 <= i < j < after.replies.len() implies (
        #[trigger] after.replies[i]).reply_id < (#[trigger] after.replies[j]).reply_id by {
            let at = lemma_filter_order(grown.replies, pred, i, j);
            assert(grown.replies[at.0] == after.replies[i] && grown.replies[at.1]
                == after.replies[j]);
        }
        assert forall|i: int| 0 <= i < after.replies.len() implies (
        #[trigger] after.replies[i]).reply_id < after.next_reply_id by {
            let at = lemma_filter_source(grown.replies, pred, i);
            if at < s.replies.len() {
                assert(s.replies[at].reply_id < s.next_reply_id);
            }
        }
    }
}

fn is_newer(left: &LastReply, right: &LastReply) -> (result: bool)
    ensures
        result == store::newer(left@, right@),
{
    left.created_at > right.created_at || (left.created_at == right.created_at && left.reply_id
        > right.reply_id)
}

fn newer_count(rows: &Vec<LastReply>, at: usize) -> (result: usize)
    requires
        at < rows@.len(),
    ensures
        result == store::reply_views(rows@).filter(
            store::newer_of_session(rows@[at as int]@),
        ).len(),
{
    let ghost all = store::reply_views(rows@);
    let ghost pred = store::newer_of_session(rows@[at as int]@);
    let mut count: usize = 0;
    proof {
        lemma_filter_none(all, pred);
    }
    for i in 0..rows.len()
        invariant
            at < rows@.len(),
            count <= i,
            all == store::reply_views(rows@),
            pred == store::newer_of_session(rows@[at as int]@),
            count == all.take(i as int).filter(pred).len(),
    {
        proof {
            lemma_filter_step(all, pred, i as int);
        }
        if text_eq(rows[i].session_id.as_str(), rows[at].session_id.as_str()) && is_newer(
            &rows[i],
            &rows[at],
        ) {
            count += 1;
        }
    }
    assert(all.take(all.len() as int) =~= all);
    count
}

impl Store {
    fn trim_last_replies(&mut self, session_id: &str)
        ensures
            final(self)@ == store::replies_trimmed(old(self)@, session_id@),
    {
        let ghost all = self@.replies;
        let ghost pred = store::reply_kept(all, session_id@, self@.last_reply_limit);
        let mut keep: Vec<bool> = Vec::new();
        for i in 0..self.replies.len()
            invariant
                all == store::reply_views(self.replies@),
                pred == store::reply_kept(all, session_id@, self.last_reply_limit as nat),
                keep@.len() == i,
                forall|j: int| 0 <= j < i ==> #[trigger] keep@[j] == pred(all[j]),
        {
            let kept = !text_eq(self.replies[i].session_id.as_str(), session_id) || newer_count(
                &self.replies,
                i,
            ) < self.last_reply_limit;
            keep.push(kept);
        }
        let mut rows: Vec<LastReply> = Vec::new();
        std::mem::swap(&mut rows, &mut self.replies);
        let ghost source = rows@;
        let mut kept: Vec<LastReply> = Vec::new();
        proof {
            lemma_filter_none(all, pred);
            assert(store::reply_views(kept@) =~= Seq::<ReplyView>::empty());
        }
        let mut at: usize = 0;
        for row in iter: rows
            invariant
                iter.seq() == source,
                at == iter.index(),
                all == store::reply_views(source),
                keep@.len() == all.len(),
                forall|j: int| 0 <= j < all.len() ==> #[trigger] keep@[j] == pred(all[j]),
                store::reply_views(kept@) == all.take(iter.index() as int).filter(pred),
        {
            let ghost n = iter.index() as int;
            let ghost held = store::reply_views(kept@);
            proof {
                lemma_filter_step(all, pred, n);
            }
            assert(keep@[n] == pred(all[n]));
            assert(at < keep.len());
            if keep[at] {
                kept.push(row);
                assert(store::reply_views(kept@) =~= held.push(all[n]));
            }
            at += 1;
        }
        assert(all.take(all.len() as int) =~= all);
        self.replies = kept;
    }

    /// Enters a reply under the next id.
    pub(crate) fn insert_reply(&mut self, reply: LastReply)
        requires
            old(self).next_reply_id < i64::MAX,
        ensures
            final(self)@ == store::with_reply(old(self)@, reply@),
            store::consistent(old(self)@) ==> store::consistent(final(self)@),
    {
        let ghost view = reply@;
        let mut row = reply;
        row.reply_id = self.next_reply_id;
        let session = row.session_id.clone();
        let ghost added = row@;
        self.replies.push(row);
        self.next_reply_id = self.next_reply_id + 1;
        assert(store::reply_views(self.replies@) =~= old(self)@.replies.push(added));
        self.trim_last_replies(session.as_str());
        proof {
            lemma_with_reply(old(self)@, view);
        }
    }
}

/// The replies that a list of references leads to.
pub open spec fn reply_targets(rows: Seq<&LastReply>) -> Seq<ReplyView> {
    Seq::new(rows.len(), |i: int| rows[i]@)
}

fn is_wanted(reply: &LastReply, project: Option<&str>, session: Option<&str>) -> (result: bool)
    ensures
        result == store::reply_wanted(text::opt_str(project), text::opt_str(session))(reply@),
{
    let fits = match project {
        Some(project) => text::eq_ignore_ascii_case(reply.project.as_str(), project),
        None => true,
    };
    fits && (match session {
        Some(session) => text_eq(reply.session_id.as_str(), session),
        None => true,
    })
}

/// The replies that are asked for, newest first, at most `limit` of them.
pub open spec fn replies_asked(
    s: StoreView,
    project: Option<Seq<char>>,
    session: Option<Seq<char>>,
    limit: nat,
) -> Seq<ReplyView> {
    store::first_of(
        store::newest_first(s.replies.filter(store::reply_wanted(project, session))),
        limit,
    )
}

impl Store {
    fn pick_replies(&self, project: Option<&str>, session_id: Option<&str>, limit: usize) -> (result:
        Vec<LastReply>)
        ensures
            store::reply_views(result@) == replies_asked(
                self@,
                text::opt_str(project),
                text::opt_str(session_id),
                limit as nat,
            ),
    {
        let ghost all = self@.replies;
        let ghost pred = store::reply_wanted(text::opt_str(project), text::opt_str(session_id));
        let mut rows: Vec<&LastReply> = Vec::new();
        proof {
            lemma_filter_none(all, pred);
            assert(reply_targets(rows@) =~= Seq::<ReplyView>::empty());
        }
        for i in 0..self.replies.len()
            invariant
                all == store::reply_views(self.replies@),
                pred == store::reply_wanted(text::opt_str(project), text::opt_str(session_id)),
                reply_targets(rows@) == all.take(i as int).filter(pred),
        {
            let ghost held = reply_targets(rows@);
            proof {
                lemma_filter_step(all, pred, i as int);
            }
            if is_wanted(&self.replies[i], project, session_id) {
                rows.push(&self.replies[i]);
                assert(reply_targets(rows@) =~= held.push(all[i as int]));
            }
        }
        assert(all.take(all.len() as int) =~= all);
        let ghost views = reply_targets(rows@);
        let mut keys: Vec<(i64, i64)> = Vec::new();
        for i in 0..rows.len()
            invariant
                views == reply_targets(rows@),
                keys@ == store::reply_keys(views).take(i as int),
        {
            keys.push((rows[i].created_at, rows[i].reply_id));
            assert(keys@ =~= store::reply_keys(views).take(i + 1));
        }
        assert(keys@ =~= store::reply_keys(views));
        let order = ranking::rank(&keys);
        let count: usize = if order.len() <= limit {
            order.len()
        } else {
            limit
        };
        let mut result: Vec<LastReply> = Vec::new();
        for i in 0..count
            invariant
                count <= order@.len(),
                views == reply_targets(rows@),
                forall|j: int| 0 <= j < order@.len() ==> #[trigger] order@[j] < rows@.len(),
                result@.len() == i,
                forall|j: int| 0 <= j < i ==> (#[trigger] result@[j])@ == views[order@[j] as int],
        {
            result.push(rows[order[i]].copy());
        }
        assert(store::reply_views(result@) =~= store::first_of(
            store::newest_first(views),
            limit as nat,
        ));
        result
    }

    /// The newest reply that is asked for. What has expired is dropped first.
    pub fn get_last_reply_at(
        &mut self,
        project: Option<&str>,
        session_id: Option<&str>,
        now: i64,
    ) -> (result: Option<LastReply>)
        ensures
            final(self)@ == store::cleaned(old(self)@, now),
            store::consistent(old(self)@) ==> store::consistent(final(self)@),
            ({
                let asked = replies_asked(
                    final(self)@,
                    text::opt_str(project),
                    text::opt_str(session_id),
                    1,
                );
                match result {
                    Some(reply) => asked.len() == 1 && asked[0] == reply@,
                    None => asked.len() == 0,
                }
            }),
    {
        self.cleanup_expired_content(now);
        let mut found = self.pick_replies(project, session_id, 1);
        assert(store::reply_views(found@).len() == found@.len());
        match found.pop() {
            Some(reply) => {
                assert(replies_asked(
                    self@,
                    text::opt_str(project),
                    text::opt_str(session_id),
                    1,
                )[0] == reply@);
                Some(reply)
            },
            None => None,
        }
    }

    /// The newest replies that are asked for, at most `limit`. What has expired
    /// is dropped first.
    pub fn get_last_replies_at(
        &mut self,
        project: Option<&str>,
        session_id: Option<&str>,
        limit: Option<usize>,
        now: i64,
    ) -> (result: Vec<LastReply>)
        ensures
            final(self)@ == store::cleaned(old(self)@, now),
            store::consistent(old(self)@) ==> store::consistent(final(self)@),
            store::reply_views(result@) == replies_asked(
                final(self)@,
                text::opt_str(project),
                text::opt_str(session_id),
                store::clamped_limit(
                    match limit {
                        Some(limit) => limit as nat,
                        None => old(self)@.last_reply_limit,
                    },
                ),
            ),
    {
        let asked: usize = match limit {
            Some(limit) => limit,
            None => self.last_reply_limit,
        };
        let clamped: usize = if asked < 1 {
            1
        } else if asked > store::MAX_LAST_REPLY_HISTORY_LIMIT {
            store::MAX_LAST_REPLY_HISTORY_LIMIT
        } else {
            asked
        };
        self.cleanup_expired_content(now);
        self.pick_replies(project, session_id, clamped)
    }
}

// ---------------------------------------------------------------------------
// Projects
// ---------------------------------------------------------------------------

/// The projects of the first `n` replies, each once, in the order in which they
/// first occur.
pub open spec fn projects_of(rows: Seq<ReplyView>, n: nat) -> Seq<Seq<char>>
    decreases n,
{
    if n == 0 {
        Seq::empty()
    } else {
        let before = projects_of(rows, (n - 1) as nat);
        if before.contains(rows[n - 1].project) {
            before
        } else {
            before.push(rows[n - 1].project)
        }
    }
}

/// When the last of the first `n` replies of a project came.
pub open spec fn latest_of(rows: Seq<ReplyView>, project: Seq<char>, n: nat) -> Option<i64>
    decreases n,
{
    if n == 0 {
        None
    } else {
        let before = latest_of(rows, project, (n - 1) as nat);
        if rows[n - 1].project == project {
            match before {
                Some(at) => if rows[n - 1].created_at > at {
                    Some(rows[n - 1].created_at)
                } else {
                    before
                },
                None => Some(rows[n - 1].created_at),
            }
        } else {
            before
        }
    }
}

pub open spec fn doubled(names: Seq<Seq<char>>) -> Seq<(Seq<char>, Seq<char>)> {
    Seq::new(names.len(), |i: int| (names[i], names[i]))
}

pub open spec fn lowered(pairs: Seq<(Seq<char>, Seq<char>)>) -> Seq<(Seq<char>, Seq<char>)> {
    Seq::new(pairs.len(), |i: int| (text::ascii_lower(pairs[i].1), pairs[i].1))
}

/// Projects by name: whatever the case of the letters, and by code points
/// where that makes no difference.
pub open spec fn projects_by_name(rows: Seq<ReplyView>) -> Seq<Seq<char>> {
    let sorted = json::by_name(lowered(json::by_name(doubled(projects_of(rows, rows.len())))));
    Seq::new(sorted.len(), |i: int| sorted[i].1)
}

pub open spec fn project_keys(rows: Seq<ReplyView>, names: Seq<Seq<char>>) -> Seq<(i64, i64)> {
    Seq::new(
        names.len(),
        |i: int|
            (
                match latest_of(rows, names[i], rows.len()) {
                    Some(at) => at,
                    None => 0,
                },
                0i64,
            ),
    )
}

/// The projects that have replies, those with the latest reply first.
pub open spec fn projects_by_age(rows: Seq<ReplyView>) -> Seq<Seq<char>> {
    let names = projects_by_name(rows);
    ranking::picked(names, ranking::ranking(project_keys(rows, names)))
}

fn name_listed(names: &Vec<String>, name: &str) -> (result: bool)
    ensures
        result == text::texts(names@).contains(name@),
{
    for i in 0..names.len()
        invariant
            forall|j: int| 0 <= j < i ==> (#[trigger] names@[j])@ != name@,
    {
        if text_eq(names[i].as_str(), name) {
            assert(text::texts(names@)[i as int] == name@);
            return true;
        }
    }
    proof {
        let all = text::texts(names@);
        if all.contains(name@) {
            let k = choose|k: int| 0 <= k < all.len() && all[k] == name@;
            assert(names@[k]@ == name@);
        }
    }
    false
}

impl Store {
    fn project_names(&self) -> (result: Vec<String>)
        ensures
            text::texts(result@) == projects_by_name(self@.replies),
    {
        let ghost rows = self@.replies;
        let mut names: Vec<String> = Vec::new();
        assert(text::texts(names@) =~= projects_of(rows, 0));
        for i in 0..self.replies.len()
            invariant
                rows == store::reply_views(self.replies@),
                text::texts(names@) == projects_of(rows, i as nat),
        {
            let ghost held = text::texts(names@);
            if !name_listed(&names, self.replies[i].project.as_str()) {
                names.push(self.replies[i].project.clone());
                assert(text::texts(names@) =~= held.push(rows[i as int].project));
            }
        }
        let ghost found = text::texts(names@);
        let mut pairs: Vec<(String, String)> = Vec::new();
        for i in 0..names.len()
            invariant
                found == text::texts(names@),
                json::pairs(pairs@) == doubled(found).take(i as int),
        {
            let ghost held = json::pairs(pairs@);
            pairs.push((names[i].clone(), names[i].clone()));
            assert(json::pairs(pairs@) =~= held.push(doubled(found)[i as int]));
            assert(doubled(found).take(i + 1) =~= held.push(doubled(found)[i as int]));
        }
        assert(doubled(found).take(found.len() as int) =~= doubled(found));
        let sorted = json::sort_members(pairs);
        let ghost once = json::pairs(sorted@);
        let mut folded: Vec<(String, String)> = Vec::new();
        for i in 0..sorted.len()
            invariant
                once == json::pairs(sorted@),
                json::pairs(folded@) == lowered(once).take(i as int),
        {
            let ghost held = json::pairs(folded@);
            let lower = text::to_ascii_lower(sorted[i].1.as_str());
            folded.push((lower, sorted[i].1.clone()));
            assert(json::pairs(folded@) =~= held.push(lowered(once)[i as int]));
            assert(lowered(once).take(i + 1) =~= held.push(lowered(once)[i as int]));
        }
        assert(lowered(once).take(once.len() as int) =~= lowered(once));
        let ordered = json::sort_members(folded);
        let ghost twice = json::pairs(ordered@);
        let mut result: Vec<String> = Vec::new();
        for i in 0..ordered.len()
            invariant
                twice == json::pairs(ordered@),
                text::texts(result@) == Seq::new(twice.len(), |j: int| twice[j].1).take(i as int),
        {
            let ghost held = text::texts(result@);
            result.push(ordered[i].1.clone());
            assert(text::texts(result@) =~= held.push(twice[i as int].1));
            assert(Seq::new(twice.len(), |j: int| twice[j].1).take(i + 1) =~= held.push(
                twice[i as int].1,
            ));
        }
        assert(Seq::new(twice.len(), |j: int| twice[j].1).take(twice.len() as int) =~= Seq::new(
            twice.len(),
            |j: int| twice[j].1,
        ));
        result
    }

    fn latest_reply_of(&self, project: &str) -> (result: Option<i64>)
        ensures
            result == latest_of(self@.replies, project@, self@.replies.len()),
    {
        let ghost rows = self@.replies;
        let mut latest: Option<i64> = None;
        for i in 0..self.replies.len()
            invariant
                rows == store::reply_views(self.replies@),
                latest == latest_of(rows, project@, i as nat),
        {
            if text_eq(self.replies[i].project.as_str(), project) {
                let at: i64 = self.replies[i].created_at;
                match latest {
                    Some(before) => if at > before {
                        latest = Some(at);
                    },
                    None => {
                        latest = Some(at);
                    },
                }
            }
        }
        latest
    }

    /// The projects that have replies, those with the latest reply first. What
    /// has expired is dropped first.
    pub fn get_last_reply_projects_at(&mut self, now: i64) -> (result: Vec<String>)
        ensures
            final(self)@ == store::cleaned(old(self)@, now),
            store::consistent(old(self)@) ==> store::consistent(final(self)@),
            text::texts(result@) == projects_by_age(final(self)@.replies),
    {
        self.cleanup_expired_content(now);
        let names = self.project_names();
        let ghost rows = self@.replies;
        let ghost all = text::texts(names@);
        let mut keys: Vec<(i64, i64)> = Vec::new();
        for i in 0..names.len()
            invariant
                rows == self@.replies,
                all == text::texts(names@),
                keys@ == project_keys(rows, all).take(i as int),
        {
            let latest: i64 = match self.latest_reply_of(names[i].as_str()) {
                Some(at) => at,
                None => 0,
            };
            keys.push((latest, 0));
            assert(keys@ =~= project_keys(rows, all).take(i + 1));
        }
        assert(keys@ =~= project_keys(rows, all));
        let order = ranking::rank(&keys);
        let mut result: Vec<String> = Vec::new();
        for i in 0..order.len()
            invariant
                all == text::texts(names@),
                forall|j: int| 0 <= j < order@.len() ==> #[trigger] order@[j] < names@.len(),
                result@.len() == i,
                forall|j: int| 0 <= j < i ==> (#[trigger] result@[j])@ == all[order@[j] as int],
        {
            result.push(names[order[i]].clone());
        }
        assert(text::texts(result@) =~= projects_by_age(rows));
        result
    }
}

// ---------------------------------------------------------------------------
// The outbox
// ---------------------------------------------------------------------------

/// Queueing a notification under a new key keeps the state consistent.
pub proof fn lemma_with_row(s: StoreView, row: OutboxView)
    requires
        s.next_outbox_id < i64::MAX,
        row.id == s.next_outbox_id,
        !store::has_event(s.outbox, row.event_key),
    ensures
        store::consistent(s) ==> store::consistent(store::with_row(s, row)),
{
}

/// Changing a notification other than in its id and key keeps the state
/// consistent.
pub proof fn lemma_row_changed(
    s: StoreView,
    id: i64,
    change: spec_fn(OutboxView) -> OutboxView,
)
    requires
        forall|row: OutboxView|
            (#[trigger] change(row)).id == row.id && change(row).event_key == row.event_key,
    ensures
        store::consistent(s) ==> store::consistent(store::row_changed(s, id, change)),
{
    let after = store::row_changed(s, id, change);
    if store::consistent(s) {
        assert forall|i: int, j: int| 0 <= i < j < after.outbox.len() implies (
        #[trigger] after.outbox[i]).event_key != (#[trigger] after.outbox[j]).event_key
            && after.outbox[i].id < after.outbox[j].id by {
            assert(s.outbox[i].event_key != s.outbox[j].event_key);
        }
        assert forall|i: int| 0 <= i < after.outbox.len() implies (#[trigger] after.outbox[i]).id
            < after.next_outbox_id by {
            assert(s.outbox[i].id < s.next_outbox_id);
        }
    }
}

impl Store {
    /// Whether the outbox holds an event.
    pub(crate) fn holds_event(&self, key: &str) -> (result: bool)
        ensures
            result == store::has_event(self@.outbox, key@),
    {
        for i in 0..self.outbox.len()
            invariant
                forall|j: int| 0 <= j < i ==> (#[trigger] self.outbox@[j]).event_key@ != key@,
        {
            if text_eq(self.outbox[i].event_key.as_str(), key) {
                assert(self@.outbox[i as int].event_key == key@);
                return true;
            }
        }
        proof {
            if store::has_event(self@.outbox, key@) {
                let k = choose|k: int|
                    0 <= k < self@.outbox.len() && (#[trigger] self@.outbox[k]).event_key == key@;
                assert(self.outbox@[k].event_key@ == key@);
            }
        }
        false
    }

    /// Whether the outbox holds an event, under its key or under that of old.
    pub(crate) fn knows_event(&self, key: &str, legacy: &str, session_id: &str) -> (result: bool)
        ensures
            result == store::event_known(self@.outbox, key@, legacy@, session_id@),
    {
        for i in 0..self.outbox.len()
            invariant
                forall|j: int|
                    0 <= j < i ==> !((#[trigger] self.outbox@[j]).event_key@ == key@ || (
                    self.outbox@[j].event_key@ == legacy@ && self.outbox@[j].session_id@
                        == session_id@)),
        {
            if text_eq(self.outbox[i].event_key.as_str(), key) || (text_eq(
                self.outbox[i].event_key.as_str(),
                legacy,
            ) && text_eq(self.outbox[i].session_id.as_str(), session_id)) {
                assert(self@.outbox[i as int] == self.outbox@[i as int]@);
                return true;
            }
        }
        proof {
            let rows = self@.outbox;
            if store::event_known(rows, key@, legacy@, session_id@) {
                let k = choose|k: int|
                    0 <= k < rows.len() && ((#[trigger] rows[k]).event_key == key@ || (
                    rows[k].event_key == legacy@ && rows[k].session_id == session_id@));
                assert(rows[k] == self.outbox@[k]@);
            }
        }
        false
    }

    /// Queues a notification.
    pub(crate) fn insert_row(
        &mut self,
        event_key: String,
        kind: &str,
        session_id: &str,
        turn_id: Option<String>,
        payload: Json,
        created_at: i64,
        next_attempt_at: i64,
    )
        requires
            old(self).next_outbox_id < i64::MAX,
        ensures
            final(self)@ == store::with_row(
                old(self)@,
                store::new_row(
                    old(self)@,
                    event_key@,
                    kind@,
                    session_id@,
                    text::opt_text(turn_id),
                    payload@,
                    created_at,
                    next_attempt_at,
                ),
            ),
    {
        let quiet = self.is_muted();
        let row = OutboxRow {
            id: self.next_outbox_id,
            event_key,
            kind: kind.to_owned(),
            session_id: session_id.to_owned(),
            turn_id,
            payload: Some(payload),
            fault: None,
            segments: None,
            segment_index: 0,
            state: if quiet {
                OutboxState::Suppressed
            } else {
                OutboxState::Pending
            },
            attempts: 0,
            next_attempt_at,
            created_at,
            last_error: if quiet {
                Some("notifications muted".to_owned())
            } else {
                None
            },
        };
        let ghost view = row@;
        self.outbox.push(row);
        self.next_outbox_id = self.next_outbox_id + 1;
        assert(store::outbox_views(self.outbox@) =~= old(self)@.outbox.push(view));
    }

    /// Whether notifications are muted.
    pub fn is_muted(&self) -> (result: bool)
        ensures
            result == store::muted(self@),
    {
        match self.get_setting("muted") {
            Some(value) => text_eq(value.as_str(), "1"),
            None => false,
        }
    }

    /// Suppresses the permission request that the use of a tool answered.
    pub(crate) fn resolve_permission_outbox(
        &mut self,
        session_id: &str,
        turn_id: &Option<String>,
        tool: &str,
        use_id: &str,
    )
        ensures
            final(self)@ == store::permission_resolved(
                old(self)@,
                session_id@,
                text::opt_text(*turn_id),
                tool@,
                use_id@,
            ),
            store::consistent(old(self)@) ==> store::consistent(final(self)@),
    {
        let ghost rows = self@.outbox;
        let ghost turn = text::opt_text(*turn_id);
        let mut at: usize = 0;
        while at < self.outbox.len()
            invariant
                at <= self.outbox@.len(),
                *self == *old(self),
                turn == text::opt_text(*turn_id),
                rows == store::outbox_views(self.outbox@),
                store::answered_at(rows, session_id@, turn, tool@, use_id@, 0)
                    == store::answered_at(rows, session_id@, turn, tool@, use_id@, at as int),
            decreases self.outbox.len() - at,
        {
            if is_answered(&self.outbox[at], session_id, turn_id, tool, use_id) {
                let mut row = self.outbox.remove(at);
                row.state = OutboxState::Suppressed;
                row.last_error = Some("permission request resolved by tool execution".to_owned());
                let ghost view = row@;
                self.outbox.insert(at, row);
                proof {
                    let after = store::outbox_views(self.outbox@);
                    assert(after =~= rows.update(at as int, view));
                    assert(self@ == StoreView { outbox: after, ..old(self)@ });
                    if store::consistent(old(self)@) {
                        assert forall|i: int| 0 <= i < after.len() implies (
                        #[trigger] after[i]).event_key == rows[i].event_key && after[i].id
                            == rows[i].id by {
                            assert(rows[i] == old(self)@.outbox[i]);
                        }
                        assert forall|i: int, j: int| 0 <= i < j < after.len() implies (
                        #[trigger] after[i]).event_key != (#[trigger] after[j]).event_key
                            && after[i].id < after[j].id by {
                            assert(rows[i] == old(self)@.outbox[i]);
                            assert(rows[j] == old(self)@.outbox[j]);
                        }
                        assert forall|i: int| 0 <= i < after.len() implies (#[trigger] after[i]).id
                            < self@.next_outbox_id by {
                            assert(rows[i] == old(self)@.outbox[i]);
                        }
                    }
                }
                return ;
            }
            at += 1;
        }
    }
}

fn is_answered(
    row: &OutboxRow,
    session_id: &str,
    turn_id: &Option<String>,
    tool: &str,
    use_id: &str,
) -> (result: bool)
    ensures
        result == store::row_answered(
            row@,
            session_id@,
            text::opt_text(*turn_id),
            tool@,
            use_id@,
        ),
{
    if !text_eq(row.kind.as_str(), "permission_required") || !text_eq(
        row.session_id.as_str(),
        session_id,
    ) || !text::opt_text_eq(&row.turn_id, turn_id) || row.state != OutboxState::Pending {
        return false;
    }
    match &row.payload {
        Some(payload) => {
            let request_tool = hook_event::event_text(payload, "tool", "");
            let request_id = hook_event::event_text(payload, "tool_use_id", "");
            if !request_id.as_str().is_empty() && !use_id.is_empty() {
                text_eq(request_id.as_str(), use_id)
            } else {
                !request_tool.as_str().is_empty() && !tool.is_empty() && text_eq(
                    request_tool.as_str(),
                    tool,
                )
            }
        },
        None => false,
    }
}

} // verus!
