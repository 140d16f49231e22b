//! What holds of the state of the bridge across operations.
use vstd::prelude::*;
use vstd::utf8;
use crate::clock;
use crate::delivery;
use crate::formatting;
use crate::hook_event;
use crate::json;
use crate::json::JsonView;
use crate::processes::HostView;
use crate::ranking;
use crate::store;
use crate::store::{
    FailureView, ItemView, OutboxState, OutboxView, ReplyView, StoreView,
};
use crate::store_rows;
use crate::text;

verus! {

// ---------------------------------------------------------------------------
// Lists
// ---------------------------------------------------------------------------

proof fn lemma_filter_keeps<T>(items: Seq<T>, pred: spec_fn(T) -> bool, i: int) -> (at: int)
    requires
        0 <= i < items.len(),
        pred(items[i]),
    ensures
        0 <= at < items.filter(pred).len(),
        items.filter(pred)[at] == items[i],
    decreases items.len(),
{
    reveal(Seq::filter);
    let rest = items.drop_last();
    if i == items.len() - 1 {
        items.filter(pred).len() - 1
    } else {
        assert(rest[i] == items[i]);
        lemma_filter_keeps(rest, pred, i)
    }
}

proof fn lemma_filter_within<T>(items: Seq<T>, kept: spec_fn(T) -> bool, pred: spec_fn(T) -> bool)
    ensures
        items.filter(kept).filter(pred).len() <= items.filter(pred).len(),
    decreases items.len(),
{
    reveal(Seq::filter);
    if items.len() > 0 {
        let rest = items.drop_last();
        lemma_filter_within(rest, kept, pred);
        if kept(items.last()) {
            let inner = rest.filter(kept);
            assert(inner.push(items.last()).drop_last() =~= inner);
        }
    }
}

/// All but one of the items pass.
proof fn lemma_filter_but_one<T>(items: Seq<T>, pred: spec_fn(T) -> bool, out: int)
    requires
        forall|i: int| 0 <= i < items.len() && i != out ==> pred(#[trigger] items[i]),
    ensures
        items.filter(pred).len() >= items.len() - 1,
    decreases items.len(),
{
    reveal(Seq::filter);
    if items.len() > 0 {
        let rest = items.drop_last();
        assert forall|i: int| 0 <= i < rest.len() && i != out implies pred(#[trigger] rest[i]) by {
            assert(rest[i] == items[i]);
        }
        if out == items.len() - 1 {
            assert forall|i: int| 0 <= i < rest.len() implies pred(#[trigger] rest[i]) by {
                assert(rest[i] == items[i]);
            }
            store_rows::lemma_filter_all(rest, pred);
        } else {
            lemma_filter_but_one(rest, pred, out);
            assert(pred(items[items.len() - 1]));
        }
    }
}

// ---------------------------------------------------------------------------
// Settings
// ---------------------------------------------------------------------------

/// A setting that was made is read back, and the others are as before.
pub proof fn lemma_setting_reads_back(
    s: StoreView,
    key: Seq<char>,
    value: Seq<char>,
    other: Seq<char>,
)
    ensures
        store::setting(store::with_setting(s, key, value), key) == Some(value),
        other != key ==> store::setting(store::with_setting(s, key, value), other)
            == store::setting(s, other),
        store::setting(store::without_setting(s, key), key) is None,
        other != key ==> store::setting(store::without_setting(s, key), other) == store::setting(
            s,
            other,
        ),
{
}

/// The companion that was recorded is the one that is found, if the text of
/// the record is read as the value that was written; from then on it alone can
/// take the record away.
pub proof fn lemma_companion_is_found(s: StoreView, pid: u32, create_time: i64, other: u32)
    requires
        json::parsed(utf8::encode_utf8(json::compact_json(store::daemon_json(pid, create_time))))
            == Some(store::daemon_json(pid, create_time)),
    ensures
        ({
            let text = json::compact_json(store::daemon_json(pid, create_time));
            let after = store::with_setting(s, "daemon"@, text);
            &&& store::companion(after) == Some((pid, create_time))
            &&& store::companion(store::companion_cleared(after, pid)) is None
            &&& other != pid ==> store::companion_cleared(after, other) == after
        }),
{
    reveal_strlit("pid");
    reveal_strlit("create_time");
    let value = store::daemon_json(pid, create_time);
    let members = value->Object_0;
    assert(members[0].0 == "create_time"@);
    assert("pid"@.len() != "create_time"@.len());
    assert(members.drop_first()[0] == members[1]);
    assert(json::member_of(members.drop_first(), "pid"@) == Some(members[1].1));
    assert(value.get("pid"@) == Some(members[1].1));
    assert(value.get("create_time"@) == Some(store::time_json(create_time)));
    clock::lemma_seconds_read_back(create_time as int);
}

// ---------------------------------------------------------------------------
// Events
// ---------------------------------------------------------------------------

/// An event that queued a notification queues none when it comes again, as long
/// as the notification has not expired.
pub proof fn lemma_event_queued_once(
    s: StoreView,
    event: JsonView,
    host: Option<HostView>,
    notify: bool,
    now: i64,
    again: bool,
    later: i64,
)
    requires
        store::ingested(s, event, host, notify, now).1,
        now >= later - s.outbox_ttl,
    ensures
        !store::ingested(store::ingested(s, event, host, notify, now).0, event, host, again, later).1,
{
    let after = store::ingested(s, event, host, notify, now).0;
    let session = store::event_session(event, host);
    let key = hook_event::event_digest(event, Some(session));
    let legacy = hook_event::event_digest(event, None);
    let row = after.outbox.last();
    assert(row.event_key == key);
    assert(row.created_at == now);
    assert(after.outbox_ttl == s.outbox_ttl);
    let pred = store::row_since(later - after.outbox_ttl);
    let at = lemma_filter_keeps(after.outbox, pred, after.outbox.len() - 1);
    let fresh = store::cleaned(after, later);
    assert(fresh.outbox[at].event_key == key);
    let met = store::session_ingested(after, event, host, again, later);
    let seen = match host {
        Some(host) => store::with_host(fresh, host, later),
        None => fresh,
    };
    assert(seen.outbox == fresh.outbox);
    reveal_strlit("PostToolUse");
    reveal_strlit("Stop");
    reveal_strlit("PermissionRequest");
    if hook_event::event_name(event) == "PostToolUse"@ {
        assert("PostToolUse"@.len() == 11);
        assert("Stop"@.len() == 4);
        assert("PermissionRequest"@.len() == 17);
        assert(store::hook_plan(event, notify, now).kind is None) by {
            reveal_strlit("UserPromptSubmit");
            assert("UserPromptSubmit"@.len() == 16);
        }
    }
    assert(met.outbox[at].event_key == key);
}

/// The events that announce something: a turn that ended, and a request for
/// permission. A prompt announces nothing, nor does a tool, nor the start or
/// the end of a session.
pub proof fn lemma_what_is_announced(
    s: StoreView,
    event: JsonView,
    host: Option<HostView>,
    notify: bool,
    now: i64,
)
    ensures
        store::ingested(s, event, host, notify, now).1 ==> hook_event::event_name(event) == "Stop"@
            || (hook_event::event_name(event) == "PermissionRequest"@
            && hook_event::permission_announced(event, notify)),
{
}

proof fn lemma_ingest_keeps_settings(
    s: StoreView,
    event: JsonView,
    host: Option<HostView>,
    notify: bool,
    now: i64,
)
    ensures
        store::session_ingested(s, event, host, notify, now).settings == s.settings,
        store::ingested(s, event, host, notify, now).0.settings == s.settings,
{
}

/// What comes while notifications are muted is not announced, neither then nor
/// once they are let through again.
pub proof fn lemma_muted_is_never_sent(
    s: StoreView,
    event: JsonView,
    host: Option<HostView>,
    notify: bool,
    now: i64,
    later: i64,
)
    requires
        store::muted(s),
        store::ingested(s, event, host, notify, now).1,
    ensures
        ({
            let after = store::ingested(s, event, host, notify, now).0;
            let heard = store::with_setting(after, "muted"@, "0"@);
            &&& after.outbox.last().state == OutboxState::Suppressed
            &&& store::due_at(heard.outbox, later, 0) != Some(heard.outbox.len() - 1)
        }),
{
    lemma_ingest_keeps_settings(s, event, host, notify, now);
    let after = store::ingested(s, event, host, notify, now).0;
    lemma_due_is_pending(after.outbox, later, 0);
}

/// The same of the failure of a turn.
pub proof fn lemma_muted_failure_is_never_sent(
    s: StoreView,
    failure: FailureView,
    now: i64,
    later: i64,
)
    requires
        store::muted(s),
        store::failed(s, failure, now).1,
    ensures
        ({
            let after = store::failed(s, failure, now).0;
            let heard = store::with_setting(after, "muted"@, "0"@);
            &&& after.outbox.last().state == OutboxState::Suppressed
            &&& store::due_at(heard.outbox, later, 0) != Some(heard.outbox.len() - 1)
        }),
{
    let after = store::failed(s, failure, now).0;
    lemma_due_is_pending(after.outbox, later, 0);
}

/// What is due is pending, its time has come, and nothing before it is both.
pub proof fn lemma_due_is_pending(rows: Seq<OutboxView>, now: i64, from: int)
    requires
        0 <= from <= rows.len(),
    ensures
        match store::due_at(rows, now, from) {
            Some(i) => {
                &&& from <= i < rows.len()
                &&& rows[i].state == OutboxState::Pending
                &&& rows[i].next_attempt_at <= now
                &&& forall|j: int|
                    from <= j < i ==> (#[trigger] rows[j]).state != OutboxState::Pending
                        || rows[j].next_attempt_at > now
            },
            None => forall|j: int|
                from <= j < rows.len() ==> (#[trigger] rows[j]).state != OutboxState::Pending
                    || rows[j].next_attempt_at > now,
        },
    decreases rows.len() - from,
{
    if from < rows.len() {
        lemma_due_is_pending(rows, now, from + 1);
    }
}

// ---------------------------------------------------------------------------
// Binding
// ---------------------------------------------------------------------------

/// Whoever is bound is sent nothing that was queued before.
pub proof fn lemma_binding_starts_afresh(s: StoreView, openid: Seq<char>, now: i64, i: int)
    requires
        0 <= i < s.outbox.len(),
        s.outbox[i].created_at <= now,
    ensures
        store::bound(s, openid, now).outbox.len() == s.outbox.len(),
        store::bound(s, openid, now).outbox[i].state != OutboxState::Pending,
{
}

// ---------------------------------------------------------------------------
// Replies
// ---------------------------------------------------------------------------

/// What was dropped as expired is gone: everything that is left has its time
/// before it.
pub proof fn lemma_expired_content_is_gone(s: StoreView, now: i64)
    ensures
        forall|i: int|
            0 <= i < store::cleaned(s, now).replies.len() ==> (#[trigger] store::cleaned(
                s,
                now,
            ).replies[i]).created_at >= now - s.last_reply_ttl,
        forall|i: int|
            0 <= i < store::cleaned(s, now).outbox.len() ==> (#[trigger] store::cleaned(
                s,
                now,
            ).outbox[i]).created_at >= now - s.outbox_ttl,
{
    let after = store::cleaned(s, now);
    assert forall|i: int| 0 <= i < after.replies.len() implies (
    #[trigger] after.replies[i]).created_at >= now - s.last_reply_ttl by {
        let _ = store_rows::lemma_filter_source(
            s.replies,
            store::reply_since(now - s.last_reply_ttl),
            i,
        );
    }
    assert forall|i: int| 0 <= i < after.outbox.len() implies (
    #[trigger] after.outbox[i]).created_at >= now - s.outbox_ttl by {
        let _ = store_rows::lemma_filter_source(
            s.outbox,
            store::row_since(now - s.outbox_ttl),
            i,
        );
    }
}

pub open spec fn of_session(session: Seq<char>) -> spec_fn(ReplyView) -> bool {
    |reply: ReplyView| reply.session_id == session
}

/// The index of the oldest of some replies.
proof fn lemma_oldest(rows: Seq<ReplyView>) -> (at: int)
    requires
        rows.len() > 0,
    ensures
        0 <= at < rows.len(),
        forall|i: int| 0 <= i < rows.len() ==> !store::newer(rows[at], #[trigger] rows[i]),
    decreases rows.len(),
{
    if rows.len() == 1 {
        0
    } else {
        let rest = rows.drop_last();
        let best = lemma_oldest(rest);
        let last = rows.len() - 1;
        assert(rest[best] == rows[best]);
        if store::newer(rows[best], rows[last]) {
            assert forall|i: int| 0 <= i < rows.len() implies !store::newer(
                rows[last],
                #[trigger] rows[i],
            ) by {
                if i < last {
                    assert(rest[i] == rows[i]);
                }
            }
            last
        } else {
            assert forall|i: int| 0 <= i < rows.len() implies !store::newer(
                rows[best],
                #[trigger] rows[i],
            ) by {
                if i < last {
                    assert(rest[i] == rows[i]);
                }
            }
            best
        }
    }
}

/// After a reply came, its session has no more replies than are kept.
pub proof fn lemma_replies_within_limit(s: StoreView, reply: ReplyView)
    requires
        store::consistent(s),
        s.next_reply_id < i64::MAX,
    ensures
        store::with_reply(s, reply).replies.filter(of_session(reply.session_id)).len()
            <= s.last_reply_limit,
{
    let session = reply.session_id;
    let rows = s.replies.push(ReplyView { reply_id: s.next_reply_id, ..reply });
    let kept = store::reply_kept(rows, session, s.last_reply_limit);
    let own = of_session(session);
    let after = rows.filter(kept);
    let mine = after.filter(own);
    store_rows::lemma_with_reply(s, reply);
    let whole = store::with_reply(s, reply);
    assert(whole.replies == after);
    if mine.len() > 0 {
        let at = lemma_oldest(mine);
        let oldest = mine[at];
        let pred = store::newer_of_session(oldest);
        let from = store_rows::lemma_filter_source(after, own, at);
        let _ = store_rows::lemma_filter_source(rows, kept, from);
        assert(kept(oldest));
        assert forall|i: int| 0 <= i < mine.len() && i != at implies pred(#[trigger] mine[i]) by {
            let _ = store_rows::lemma_filter_source(after, own, i);
            if i < at {
                let (a, b) = store_rows::lemma_filter_order(after, own, i, at);
                assert(after[a].reply_id < after[b].reply_id);
            } else {
                let (a, b) = store_rows::lemma_filter_order(after, own, at, i);
                assert(after[a].reply_id < after[b].reply_id);
            }
        }
        lemma_filter_but_one(mine, pred, at);
        lemma_filter_within(after, own, pred);
        lemma_filter_within(rows, kept, pred);
    }
}

/// A reply that is the newest of all is the one that is read.
proof fn lemma_newest_is_first(rows: Seq<ReplyView>, at: int)
    requires
        0 <= at < rows.len(),
        forall|i: int| 0 <= i < rows.len() && i != at ==> store::newer(rows[at], #[trigger] rows[i]),
    ensures
        store::first_of(store::newest_first(rows), 1) == seq![rows[at]],
{
    let keys = store::reply_keys(rows);
    ranking::lemma_ranked(keys, keys.len());
    let order = ranking::ranking(keys);
    assert(order.contains(at));
    let k = choose|k: int| 0 <= k < order.len() && order[k] == at;
    if k > 0 {
        assert(ranking::before(keys, order[0], order[k]));
        assert(order[0] != at);
        assert(store::newer(rows[at], rows[order[0]]));
    }
    assert(order[0] == at);
    assert(store::first_of(store::newest_first(rows), 1) =~= seq![rows[at]]);
}

/// The last reply of a turn is what is read afterwards: as long as no later one
/// came and it has not expired.
pub proof fn lemma_last_reply_is_read(
    s: StoreView,
    event: JsonView,
    host: Option<HostView>,
    notify: bool,
    now: i64,
    later: i64,
)
    requires
        store::consistent(s),
        s.next_reply_id < i64::MAX,
        store::ingested(s, event, host, notify, now).1,
        store::event_answer(event).len() > 0,
        hook_event::event_name(event) == "Stop"@,
        forall|i: int| 0 <= i < s.replies.len() ==> (#[trigger] s.replies[i]).created_at <= now,
        now <= later,
        now >= later - s.last_reply_ttl,
    ensures
        ({
            let after = store::ingested(s, event, host, notify, now).0;
            let read = store_rows::replies_asked(store::cleaned(after, later), None, None, 1);
            read.len() == 1 && read[0].content == store::event_answer(event) && read[0].project
                == store::event_project(event)
        }),
{
    let session = store::event_session(event, host);
    let met = store::session_ingested(s, event, host, notify, now);
    let pred = store::reply_since(now - s.last_reply_ttl);
    let fresh = s.replies.filter(pred);
    assert(met.replies == fresh) by {
        reveal_strlit("PostToolUse");
        reveal_strlit("Stop");
        assert("PostToolUse"@.len() != "Stop"@.len());
    }
    assert(met.next_reply_id == s.next_reply_id);
    assert(met.last_reply_limit == s.last_reply_limit);
    let reply = ReplyView {
        reply_id: met.next_reply_id,
        session_id: session,
        turn_id: store::event_turn(event),
        project: store::event_project(event),
        model: store::event_model(event),
        content: store::event_answer(event),
        created_at: now,
    };
    let rows = fresh.push(reply);
    let kept = store::reply_kept(rows, session, s.last_reply_limit);
    assert forall|i: int| 0 <= i < fresh.len() implies store::newer(
        reply,
        #[trigger] fresh[i],
    ) by {
        let from = store_rows::lemma_filter_source(s.replies, pred, i);
        assert(s.replies[from].reply_id < s.next_reply_id);
    }
    assert(rows.filter(store::newer_of_session(reply)).len() == 0) by {
        let newer = store::newer_of_session(reply);
        if rows.filter(newer).len() > 0 {
            let from = store_rows::lemma_filter_source(rows, newer, 0);
            if from < fresh.len() {
                assert(rows[from] == fresh[from]);
                assert(store::newer(reply, fresh[from]));
            } else {
                assert(rows[from] == reply);
            }
            assert(false);
        }
    }
    let after = store::ingested(s, event, host, notify, now).0;
    lemma_stop_plan(event, notify, now);
    assert(after.replies == rows.filter(kept));
    let end = store::cleaned(after, later);
    let since = store::reply_since(later - s.last_reply_ttl);
    assert(kept(rows[rows.len() - 1]));
    let a = lemma_filter_keeps(rows, kept, rows.len() - 1);
    let b = lemma_filter_keeps(after.replies, since, a);
    assert(end.replies[b] == reply);
    let wanted = store::reply_wanted(None, None);
    assert forall|i: int| 0 <= i < end.replies.len() implies wanted(#[trigger] end.replies[i]) by {}
    store_rows::lemma_filter_all(end.replies, wanted);
    assert forall|i: int| 0 <= i < end.replies.len() && i != b implies store::newer(
        end.replies[b],
        #[trigger] end.replies[i],
    ) by {
        let from = store_rows::lemma_filter_source(after.replies, since, i);
        let root = store_rows::lemma_filter_source(rows, kept, from);
        if root == rows.len() - 1 {
            // the ids of the replies that are left ascend, so none stands twice
            lemma_reply_stands_once(rows, kept, since, reply, b, i, fresh, s, pred);
        } else {
            assert(rows[root] == fresh[root]);
        }
    }
    lemma_newest_is_first(end.replies, b);
}

proof fn lemma_stop_plan(event: JsonView, notify: bool, now: i64)
    requires
        hook_event::event_name(event) == "Stop"@,
        store::event_answer(event).len() > 0,
    ensures
        store::hook_plan(event, notify, now).kind == Some("final_reply"@),
{
    reveal_strlit("Stop");
    reveal_strlit("UserPromptSubmit");
    reveal_strlit("PermissionRequest");
    reveal_strlit("PostToolUse");
    assert("Stop"@.len() == 4);
    assert("UserPromptSubmit"@.len() == 16);
    assert("PermissionRequest"@.len() == 17);
    assert("PostToolUse"@.len() == 11);
}

proof fn lemma_reply_stands_once(
    rows: Seq<ReplyView>,
    kept: spec_fn(ReplyView) -> bool,
    since: spec_fn(ReplyView) -> bool,
    reply: ReplyView,
    b: int,
    i: int,
    fresh: Seq<ReplyView>,
    s: StoreView,
    pred: spec_fn(ReplyView) -> bool,
)
    requires
        rows == fresh.push(reply),
        fresh == s.replies.filter(pred),
        store::consistent(s),
        reply.reply_id == s.next_reply_id,
        0 <= b < rows.filter(kept).filter(since).len(),
        0 <= i < rows.filter(kept).filter(since).len(),
        rows.filter(kept).filter(since)[b] == reply,
        rows.filter(kept).filter(since)[i] == reply,
    ensures
        i == b,
{
    if i != b {
        let inner = rows.filter(kept);
        let (low, high) = if i < b {
            (i, b)
        } else {
            (b, i)
        };
        let (p, q) = store_rows::lemma_filter_order(inner, since, low, high);
        let (m, n) = store_rows::lemma_filter_order(rows, kept, p, q);
        assert(rows[m] == fresh[m]);
        let from = store_rows::lemma_filter_source(s.replies, pred, m);
        assert(s.replies[from].reply_id < s.next_reply_id);
    }
}

// ---------------------------------------------------------------------------
// Deliveries
// ---------------------------------------------------------------------------

proof fn lemma_concatenated_parts(left: Seq<Seq<char>>, right: Seq<Seq<char>>)
    ensures
        formatting::concatenated(left + right) == formatting::concatenated(left)
            + formatting::concatenated(right),
    decreases left.len(),
{
    if left.len() == 0 {
        assert(left + right =~= right);
        assert(formatting::concatenated(left) =~= Seq::<char>::empty());
        assert(Seq::<char>::empty() + formatting::concatenated(right)
            =~= formatting::concatenated(right));
    } else {
        lemma_concatenated_parts(left.drop_first(), right);
        assert((left + right).drop_first() =~= left.drop_first() + right);
        assert(left[0] + (formatting::concatenated(left.drop_first()) + formatting::concatenated(
            right,
        )) =~= left[0] + formatting::concatenated(left.drop_first()) + formatting::concatenated(
            right,
        ));
    }
}

/// A segment that is cut in two because it is too long loses nothing: the
/// segments together still make the same text.
pub proof fn lemma_split_keeps_text(segments: Seq<Seq<char>>, index: int)
    requires
        0 <= index < segments.len(),
    ensures
        formatting::concatenated(delivery::segment_split(segments, index))
            == formatting::concatenated(segments),
{
    let segment = segments[index];
    let middle = segment.len() as int / 2;
    let head = segments.take(index);
    let tail = segments.skip(index + 1);
    let halves = seq![segment.take(middle), segment.skip(middle)];
    let one = seq![segment];
    assert(segments =~= head + one + tail);
    lemma_concatenated_parts(head + halves, tail);
    lemma_concatenated_parts(head, halves);
    lemma_concatenated_parts(head + one, tail);
    lemma_concatenated_parts(head, one);
    reveal_with_fuel(formatting::concatenated, 3);
    assert(halves.drop_first() =~= seq![segment.skip(middle)]);
    assert(halves.drop_first().drop_first() =~= Seq::<Seq<char>>::empty());
    assert(one.drop_first() =~= Seq::<Seq<char>>::empty());
    assert(formatting::concatenated(halves) =~= segment);
    assert(formatting::concatenated(one) =~= segment);
}

/// A notification whose last segment was sent is not sent again.
pub proof fn lemma_delivered_is_not_due(
    s: StoreView,
    item: ItemView,
    segments: Seq<Seq<char>>,
    index: nat,
    jitter: int,
    now: i64,
    later: i64,
)
    requires
        index + 1 >= segments.len(),
    ensures
        ({
            let (after, outcome) = delivery::delivery_finished(
                s,
                item,
                segments,
                index,
                None,
                jitter,
                now,
            );
            let due = store::due_at(after.outbox, later, 0);
            &&& outcome == delivery::DeliveryOutcome::Delivered
            &&& due is Some ==> after.outbox[due->0].id != item.id
        }),
{
    let after = delivery::delivery_finished(s, item, segments, index, None, jitter, now).0;
    lemma_due_is_pending(after.outbox, later, 0);
}

/// The announcement of a turn that ended does not hold its reply: it is the
/// same whatever the reply is.
pub proof fn lemma_announcement_hides_reply(
    first: ItemView,
    second: ItemView,
    stamp: Seq<char>,
    other: Seq<char>,
    assistant: Seq<char>,
)
    requires
        first.kind == "final_reply"@,
        second.kind == "final_reply"@,
        delivery::payload_shown(first.payload, "project"@, "unknown"@)
            == delivery::payload_shown(second.payload, "project"@, "unknown"@),
    ensures
        delivery::shown_notification(first, false, stamp, assistant)
            == delivery::shown_notification(second, false, other, assistant),
{
    reveal_strlit("final_reply");
    reveal_strlit("task_started");
    reveal_strlit("permission_required");
    assert("final_reply"@.len() == 11);
    assert("task_started"@.len() == 12);
    assert("permission_required"@.len() == 19);
}

// ---------------------------------------------------------------------------
// Session keys
// ---------------------------------------------------------------------------

/// Sessions that were moved to keys of the present form are not moved again.
pub proof fn lemma_migration_is_done_once(s: StoreView)
    requires
        store::scope_migrated(s).1,
    ensures
        store::scope_migrated(store::scope_migrated(s).0) == (store::scope_migrated(s).0, true),
{
}

// ---------------------------------------------------------------------------
// What an event tells of its session
// ---------------------------------------------------------------------------

proof fn lemma_ingest_keeps_sessions(
    s: StoreView,
    event: JsonView,
    host: Option<HostView>,
    notify: bool,
    now: i64,
)
    ensures
        store::ingested(s, event, host, notify, now).0.sessions == store::session_ingested(
            s,
            event,
            host,
            notify,
            now,
        ).sessions,
{
}

proof fn lemma_event_names_differ()
    ensures
        "UserPromptSubmit"@.len() == 16,
        "PermissionRequest"@.len() == 17,
        "PostToolUse"@.len() == 11,
        "Stop"@.len() == 4,
        "SessionEnd"@.len() == 10,
        "SessionStart"@.len() == 12,
        "running"@.len() == 7,
        "awaiting_approval"@.len() == 17,
        "completed"@.len() == 9,
        "closed"@.len() == 6,
        "idle"@.len() == 4,
        "preserve"@.len() == 8,
{
    reveal_strlit("UserPromptSubmit");
    reveal_strlit("PermissionRequest");
    reveal_strlit("PostToolUse");
    reveal_strlit("Stop");
    reveal_strlit("SessionEnd");
    reveal_strlit("SessionStart");
    reveal_strlit("running");
    reveal_strlit("awaiting_approval");
    reveal_strlit("completed");
    reveal_strlit("closed");
    reveal_strlit("idle");
    reveal_strlit("preserve");
}

/// The member of an event under a name, where it is a text.
pub open spec fn said(event: JsonView, key: Seq<char>) -> Option<Seq<char>> {
    match event.get(key) {
        Some(JsonView::Text(text)) => Some(text),
        _ => None,
    }
}

/// An event sets the status of its session, and of no other one: a prompt and
/// the use of a tool mean that Codex is at work, a request for permission that
/// is announced that it waits for an approval, the end of a turn, and nothing
/// else, that it is done, the end of a session that it is closed. A session
/// that starts is idle; one that was made shorter is as it was before.
pub proof fn lemma_status_follows_events(
    s: StoreView,
    event: JsonView,
    name: Seq<char>,
    host: Option<HostView>,
    notify: bool,
    now: i64,
    k: int,
)
    requires
        store::consistent(s),
        said(event, "hook_event_name"@) == Some(name),
        0 <= k < store::ingested(s, event, host, notify, now).0.sessions.len(),
    ensures
        ({
            let after = store::ingested(s, event, host, notify, now).0;
            let session = store::event_session(event, host);
            let row = after.sessions[k];
            let mode = match event.get("permission_mode"@) {
                Some(JsonView::Text(mode)) => text::ascii_lower(mode),
                _ => ""@,
            };
            &&& exists|i: int|
                0 <= i < after.sessions.len() && (#[trigger] after.sessions[i]).session_id
                    == session
            &&& row.session_id != session ==> s.sessions.contains(row)
            &&& row.session_id == session ==> {
                &&& row.updated_at == now
                &&& name == "UserPromptSubmit"@ || name == "PostToolUse"@ ==> row.status
                    == "running"@
                &&& name == "Stop"@ ==> row.status == "completed"@
                &&& name == "SessionEnd"@ ==> row.status == "closed"@
                &&& name == "PermissionRequest"@ && !notify ==> row.status == "running"@
                &&& name == "PermissionRequest"@ && (said(event, "permission_mode"@) is Some
                    || event.get("permission_mode"@) is None) ==> row.status == (if notify && mode
                    != "dontask"@ && mode != "bypasspermissions"@ {
                    "awaiting_approval"@
                } else {
                    "running"@
                })
                &&& name == "SessionStart"@ ==> (said(event, "source"@) matches Some(source)
                    ==> if text::ascii_lower(source) == text::ascii_lower("compact"@) {
                    forall|i: int|
                        0 <= i < s.sessions.len() && (#[trigger] s.sessions[i]).session_id
                            == session ==> row.status == s.sessions[i].status
                } else {
                    row.status == "idle"@
                })
                &&& said(event, "cwd"@) matches Some(cwd) ==> row.cwd == cwd
                &&& said(event, "model"@) matches Some(model) ==> row.model == model
                &&& said(event, "turn_id"@) matches Some(turn) ==> row.turn_id == Some(turn)
                &&& name == "UserPromptSubmit"@ ==> (said(event, "prompt"@) matches Some(prompt)
                    ==> row.prompt_preview == Some(crate::security::preview(prompt, 120)))
                &&& name != "UserPromptSubmit"@ ==> forall|i: int|
                    0 <= i < s.sessions.len() && (#[trigger] s.sessions[i]).session_id == session
                        ==> row.prompt_preview == s.sessions[i].prompt_preview
            }
        }),
{
    lemma_event_names_differ();
    reveal_strlit("");
    assert(text::ascii_lower(""@) =~= ""@);
    lemma_ingest_keeps_sessions(s, event, host, notify, now);
    let session = store::event_session(event, host);
    let after = store::session_ingested(s, event, host, notify, now);
    store_rows::lemma_session_at(s.sessions, session, 0);
    let place = match store::session_at(s.sessions, session, 0) {
        Some(i) => i,
        None => s.sessions.len() as int,
    };
    assert(after.sessions[place].session_id == session);
    let row = after.sessions[k];
    if row.session_id == session {
        if k != place {
            assert(row == s.sessions[k]);
            if place < s.sessions.len() {
                assert(s.sessions[place].session_id == session);
            }
            assert(false);
        }
        assert forall|i: int|
            0 <= i < s.sessions.len() && (#[trigger] s.sessions[i]).session_id
                == session implies i == place by {
            assert(s.sessions[place].session_id == session);
        }
    } else {
        assert(row == s.sessions[k]);
    }
}

/// The end of a turn is announced once, at once, and, unless notifications are
/// muted, for sure: an event that is not known yet adds one row, with the
/// reply that the turn ended with, if it did.
pub proof fn lemma_ended_turn_is_announced(
    s: StoreView,
    event: JsonView,
    host: Option<HostView>,
    notify: bool,
    now: i64,
)
    requires
        said(event, "hook_event_name"@) == Some("Stop"@),
        said(event, "last_assistant_message"@) is Some,
    ensures
        ({
            let met = store::session_ingested(s, event, host, notify, now);
            let (after, queued) = store::ingested(s, event, host, notify, now);
            let session = store::event_session(event, host);
            let answer = said(event, "last_assistant_message"@)->0;
            let key = hook_event::event_digest(event, Some(session));
            let row = after.outbox.last();
            &&& !store::has_event(met.outbox, key) && !store::has_event(
                met.outbox,
                hook_event::event_digest(event, None),
            ) ==> queued
            &&& !queued ==> after == met
            &&& queued ==> {
                &&& after.outbox == met.outbox.push(row)
                &&& row.event_key == key
                &&& row.session_id == session
                &&& row.id == met.next_outbox_id
                &&& row.next_attempt_at == 0
                &&& row.created_at == now
                &&& row.segments is None
                &&& row.fault is None
                &&& row.state == (if store::setting(s, "muted"@) == Some("1"@) {
                    OutboxState::Suppressed
                } else {
                    OutboxState::Pending
                })
                &&& answer.len() == 0 ==> row.kind == "turn_ended_without_reply"@ && after.replies
                    == met.replies
                &&& answer.len() > 0 ==> {
                    &&& row.kind == "final_reply"@
                    &&& row.payload matches Some(payload) && payload.get("content"@) == Some(
                        JsonView::Text(answer),
                    )
                }
            }
        }),
{
    lemma_event_names_differ();
    lemma_ingest_keeps_settings(s, event, host, notify, now);
    reveal_strlit("project");
    reveal_strlit("model");
    reveal_strlit("content");
    assert("content"@.len() == 7 && "project"@.len() == 7);
    assert("content"@[0] != "project"@[0]);
    assert("model"@.len() == 5);
    reveal_strlit("final_reply");
    reveal_strlit("turn_ended_without_reply");
    reveal_strlit("permission_required");
    assert("final_reply"@.len() == 11);
    assert("turn_ended_without_reply"@.len() == 24);
    assert("permission_required"@.len() == 19);
    reveal_with_fuel(crate::json::member_of, 4);
    let met = store::session_ingested(s, event, host, notify, now);
    let after = store::ingested(s, event, host, notify, now).0;
    if store::ingested(s, event, host, notify, now).1 {
        assert(after.outbox =~= met.outbox.push(after.outbox.last()));
    }
}

proof fn lemma_answered_at(
    rows: Seq<OutboxView>,
    session: Seq<char>,
    turn: Option<Seq<char>>,
    tool: Seq<char>,
    use_id: Seq<char>,
    from: int,
)
    requires
        0 <= from <= rows.len(),
    ensures
        match store::answered_at(rows, session, turn, tool, use_id, from) {
            Some(i) => from <= i < rows.len() && store::row_answered(
                rows[i],
                session,
                turn,
                tool,
                use_id,
            ),
            None => forall|i: int|
                from <= i < rows.len() ==> !#[trigger] store::row_answered(
                    rows[i],
                    session,
                    turn,
                    tool,
                    use_id,
                ),
        },
    decreases rows.len() - from,
{
    if from < rows.len() && !store::row_answered(rows[from], session, turn, tool, use_id) {
        lemma_answered_at(rows, session, turn, tool, use_id, from + 1);
    }
}

/// The use of a tool takes back the request for permission that it answers, if
/// that is still waiting: one request of the same session and turn, by the same
/// use where both tell it, else by the same tool. Every other notification is
/// as it was.
pub proof fn lemma_answered_request_is_taken_back(
    s: StoreView,
    session: Seq<char>,
    turn: Option<Seq<char>>,
    tool: Seq<char>,
    use_id: Seq<char>,
    k: int,
)
    requires
        0 <= k < s.outbox.len(),
        s.outbox[k].kind == "permission_required"@,
        s.outbox[k].session_id == session,
        s.outbox[k].turn_id == turn,
        s.outbox[k].state == OutboxState::Pending,
        s.outbox[k].payload is Some,
        said(s.outbox[k].payload->0, "tool_use_id"@) == Some(use_id),
        use_id.len() > 0,
    ensures
        ({
            let after = store::permission_resolved(s, session, turn, tool, use_id);
            &&& after == (StoreView { outbox: after.outbox, ..s })
            &&& after.outbox.len() == s.outbox.len()
            &&& exists|i: int|
                #![trigger after.outbox[i]]
                {
                    &&& 0 <= i < s.outbox.len()
                    &&& s.outbox[i].kind == "permission_required"@
                    &&& s.outbox[i].session_id == session
                    &&& s.outbox[i].turn_id == turn
                    &&& s.outbox[i].state == OutboxState::Pending
                    &&& after.outbox[i].state == OutboxState::Suppressed
                    &&& after.outbox == s.outbox.update(i, after.outbox[i])
                    &&& s.outbox[i].payload matches Some(payload) && (said(
                        payload,
                        "tool_use_id"@,
                    ) matches Some(id) ==> id == use_id || id.len() == 0)
                }
        }),
{
    lemma_answered_at(s.outbox, session, turn, tool, use_id, 0);
    assert(store::row_answered(s.outbox[k], session, turn, tool, use_id));
    let after = store::permission_resolved(s, session, turn, tool, use_id);
    let i = store::answered_at(s.outbox, session, turn, tool, use_id, 0)->0;
    assert(after.outbox[i].state == OutboxState::Suppressed);
    assert(after.outbox =~= s.outbox.update(i, after.outbox[i]));
}

/// The use of a tool takes back nothing but a request for permission that
/// waits in its own session and turn.
pub proof fn lemma_nothing_else_is_taken_back(
    s: StoreView,
    session: Seq<char>,
    turn: Option<Seq<char>>,
    tool: Seq<char>,
    use_id: Seq<char>,
    k: int,
)
    requires
        0 <= k < s.outbox.len(),
        s.outbox[k].kind != "permission_required"@ || s.outbox[k].session_id != session
            || s.outbox[k].turn_id != turn || s.outbox[k].state != OutboxState::Pending,
    ensures
        store::permission_resolved(s, session, turn, tool, use_id).outbox[k] == s.outbox[k],
{
    lemma_answered_at(s.outbox, session, turn, tool, use_id, 0);
}

/// What the other assistant ends its turn with is announced once and at once,
/// word for word, and a failure as such; nothing else changes.
pub proof fn lemma_other_reply_is_announced(
    s: StoreView,
    session_id: Seq<char>,
    cwd: Seq<char>,
    content: Seq<char>,
    failure: bool,
    now: i64,
)
    ensures
        ({
            let (after, queued) = store::claude_replied(
                s,
                session_id,
                cwd,
                content,
                failure,
                now,
            );
            let row = after.outbox.last();
            &&& !queued ==> after == s
            &&& queued ==> {
                &&& after.outbox == s.outbox.push(row)
                &&& after == (StoreView {
                    outbox: after.outbox,
                    next_outbox_id: after.next_outbox_id,
                    ..s
                })
                &&& !store::has_event(s.outbox, row.event_key)
                &&& row.id == s.next_outbox_id
                &&& row.kind == (if failure {
                    "claude_failed"@
                } else {
                    "claude_reply"@
                })
                &&& row.next_attempt_at == 0
                &&& row.created_at == now
                &&& row.state == (if store::setting(s, "muted"@) == Some("1"@) {
                    OutboxState::Suppressed
                } else {
                    OutboxState::Pending
                })
                &&& row.payload matches Some(payload) && payload.get("content"@) == Some(
                    JsonView::Text(content),
                )
            }
            &&& !store::claude_replied(after, session_id, cwd, content, failure, now).1
        }),
{
    reveal_strlit("project");
    reveal_strlit("content");
    assert("content"@[0] != "project"@[0]);
    reveal_with_fuel(json::member_of, 3);
    let (after, queued) = store::claude_replied(s, session_id, cwd, content, failure, now);
    if queued {
        assert(after.outbox =~= s.outbox.push(after.outbox.last()));
        assert(after.outbox[after.outbox.len() - 1].event_key == after.outbox.last().event_key);
    }
}

/// A turn that failed marks its session as failed, unless the session moved on
/// later; what is announced of it tells its error, its thread and its turn.
pub proof fn lemma_failed_turn_is_marked_and_told(
    s: StoreView,
    failure: FailureView,
    now: i64,
    k: int,
)
    requires
        store::consistent(s),
        0 <= k < store::failed(s, failure, now).0.sessions.len(),
    ensures
        ({
            let (after, queued) = store::failed(s, failure, now);
            let session = hook_event::session_key(failure.thread_id, failure.cwd, None);
            let row = after.sessions[k];
            let told = after.outbox.last();
            &&& row.session_id != session ==> s.sessions.contains(row)
            &&& row.session_id == session ==> {
                ||| s.sessions.contains(row) && row.updated_at > failure.occurred_at
                ||| {
                    &&& row.status == "failed"@
                    &&& row.turn_id == Some(failure.turn_id)
                    &&& row.cwd == failure.cwd
                    &&& row.updated_at == failure.occurred_at
                }
            }
            &&& queued ==> {
                &&& told.kind == "turn_failed"@
                &&& told.event_key == "turn_failed:"@ + failure.thread_id + ":"@ + failure.turn_id
                &&& told.turn_id == Some(failure.turn_id)
                &&& told.session_id == session
                &&& told.next_attempt_at == 0
                &&& told.state == (if store::setting(s, "muted"@) == Some("1"@) {
                    OutboxState::Suppressed
                } else {
                    OutboxState::Pending
                })
                &&& told.payload matches Some(payload) && payload.get("error"@) == Some(
                    JsonView::Text(crate::security::safe_words(failure.error_message, 500)),
                )
            }
        }),
{
    reveal_strlit("project");
    reveal_strlit("error");
    assert("project"@.len() == 7 && "error"@.len() == 5);
    reveal_with_fuel(json::member_of, 3);
    let payload = store::failure_payload(failure);
    assert(payload->Object_0.drop_first()[0] == payload->Object_0[1]);
    let session = hook_event::session_key(failure.thread_id, failure.cwd, None);
    let after = store::failed(s, failure, now).0;
    store_rows::lemma_session_at(s.sessions, session, 0);
    let row = after.sessions[k];
    match store::session_at(s.sessions, session, 0) {
        Some(i) => {
            if k != i {
                assert(row == s.sessions[k]);
                if row.session_id == session {
                    assert(s.sessions[i].session_id == session);
                    assert(false);
                }
            } else if failure.occurred_at < s.sessions[i].updated_at {
                assert(row == s.sessions[i]);
            }
        },
        None => {
            if k < s.sessions.len() {
                assert(row == s.sessions[k]);
            }
        },
    }
}

/// The reply that is shown is the newest of those that are asked for: one of the
/// project, whatever the case of its letters, and of the session that were
/// named, and none of them came later.
pub proof fn lemma_newest_reply_is_asked(
    s: StoreView,
    project: Option<Seq<char>>,
    session: Option<Seq<char>>,
    k: int,
)
    requires
        0 <= k < s.replies.len(),
        project matches Some(name) ==> text::ascii_lower(s.replies[k].project)
            == text::ascii_lower(name),
        session matches Some(id) ==> s.replies[k].session_id == id,
    ensures
        ({
            let asked = store_rows::replies_asked(s, project, session, 1);
            &&& asked.len() == 1
            &&& s.replies.contains(asked[0])
            &&& asked[0].created_at >= s.replies[k].created_at
            &&& project matches Some(name) ==> text::ascii_lower(asked[0].project)
                == text::ascii_lower(name)
            &&& session matches Some(id) ==> asked[0].session_id == id
        }),
{
    let pred = store::reply_wanted(project, session);
    let wanted = s.replies.filter(pred);
    let keys = store::reply_keys(wanted);
    let place = store_rows::lemma_filter_place(s.replies, pred, k);
    ranking::lemma_ranked(keys, keys.len());
    let order = ranking::ranking(keys);
    assert(order.contains(place));
    let at = choose|at: int| 0 <= at < order.len() && order[at] == place;
    let first = order[0];
    if at > 0 {
        assert(ranking::before(keys, order[0], order[at]));
    }
    let from = store_rows::lemma_filter_source(s.replies, pred, first);
    assert(store_rows::replies_asked(s, project, session, 1)[0] == wanted[first]);
}

/// The status shows sessions at work, as long as there are any, the latest
/// first: one that is not shown changed no later than those that are.
pub proof fn lemma_status_shows_the_latest(s: StoreView, k: int, i: int)
    requires
        0 <= k < s.sessions.len(),
        s.sessions[k].status == "running"@ || s.sessions[k].status == "awaiting_approval"@
            || s.sessions[k].status == "idle"@,
        0 <= i < store::status_sessions(s).len(),
    ensures
        ({
            let shown = store::status_sessions(s);
            &&& 0 < shown.len() <= 3
            &&& s.sessions.contains(shown[i])
            &&& shown[i].status == "running"@ || shown[i].status == "awaiting_approval"@
                || shown[i].status == "idle"@
            &&& shown.contains(s.sessions[k]) || shown.len() == 3 && shown[i].updated_at
                >= s.sessions[k].updated_at
            &&& shown[0].updated_at >= shown[i].updated_at
        }),
{
    let pred = store::active_session();
    let active = s.sessions.filter(pred);
    let keys = store::session_keys(active);
    let place = store_rows::lemma_filter_place(s.sessions, pred, k);
    ranking::lemma_ranked(keys, keys.len());
    let order = ranking::ranking(keys);
    assert(order.contains(place));
    let at = choose|at: int| 0 <= at < order.len() && order[at] == place;
    let sorted = store::latest_first(active);
    assert(sorted[at] == s.sessions[k]);
    let shown = store::status_sessions(s);
    assert(shown == store::first_of(sorted, 3));
    assert(shown[i] == active[order[i]]);
    let from = store_rows::lemma_filter_source(s.sessions, pred, order[i]);
    if i > 0 {
        assert(ranking::before(keys, order[0], order[i]));
    }
    if at < shown.len() {
        assert(shown[at] == s.sessions[k]);
    } else {
        assert(ranking::before(keys, order[i], order[at]));
    }
}

/// What has not outlived its time stays when what has is dropped.
pub proof fn lemma_fresh_content_stays(s: StoreView, now: i64, k: int)
    ensures
        0 <= k < s.replies.len() && s.replies[k].created_at >= now - s.last_reply_ttl
            ==> store::cleaned(s, now).replies.contains(s.replies[k]),
        0 <= k < s.outbox.len() && s.outbox[k].created_at >= now - s.outbox_ttl ==> store::cleaned(
            s,
            now,
        ).outbox.contains(s.outbox[k]),
{
    if 0 <= k < s.replies.len() && s.replies[k].created_at >= now - s.last_reply_ttl {
        let at = store_rows::lemma_filter_place(
            s.replies,
            store::reply_since(now - s.last_reply_ttl),
            k,
        );
    }
    if 0 <= k < s.outbox.len() && s.outbox[k].created_at >= now - s.outbox_ttl {
        let at = store_rows::lemma_filter_place(
            s.outbox,
            store::row_since(now - s.outbox_ttl),
            k,
        );
    }
}

/// A request for permission that is announced tells of its tool, and waits for
/// five seconds, in which the use of the tool can take it back.
pub proof fn lemma_request_is_announced(
    s: StoreView,
    event: JsonView,
    host: Option<HostView>,
    tool: Seq<char>,
    use_id: Seq<char>,
    now: i64,
)
    requires
        said(event, "hook_event_name"@) == Some("PermissionRequest"@),
        event.get("permission_mode"@) is None,
        said(event, "tool_name"@) == Some(tool),
        said(event, "tool_use_id"@) == Some(use_id),
        store::setting(s, "muted"@) is None,
        now <= i64::MAX - 5_000_000,
    ensures
        ({
            let met = store::session_ingested(s, event, host, true, now);
            let (after, queued) = store::ingested(s, event, host, true, now);
            let session = store::event_session(event, host);
            let row = after.outbox.last();
            &&& !store::has_event(met.outbox, hook_event::event_digest(event, Some(session)))
                && !store::has_event(met.outbox, hook_event::event_digest(event, None)) ==> queued
            &&& queued ==> {
                &&& after.outbox == met.outbox.push(row)
                &&& row.kind == "permission_required"@
                &&& row.session_id == session
                &&& row.state == OutboxState::Pending
                &&& row.next_attempt_at == now + 5_000_000
                &&& row.payload matches Some(payload) && payload.get("tool"@) == Some(
                    JsonView::Text(tool),
                ) && payload.get("tool_use_id"@) == Some(JsonView::Text(use_id))
                &&& after.replies == met.replies
            }
            &&& !store::ingested(s, event, host, false, now).1
        }),
{
    lemma_event_names_differ();
    lemma_ingest_keeps_settings(s, event, host, true, now);
    reveal_strlit("");
    reveal_strlit("dontask");
    reveal_strlit("bypasspermissions");
    assert(text::ascii_lower(""@).len() == 0);
    reveal_strlit("project");
    reveal_strlit("model");
    reveal_strlit("tool");
    reveal_strlit("tool_use_id");
    assert("project"@.len() == 7);
    assert("model"@.len() == 5);
    assert("tool"@.len() == 4);
    assert("tool_use_id"@.len() == 11);
    reveal_strlit("final_reply");
    reveal_strlit("permission_required");
    assert("final_reply"@.len() == 11);
    assert("permission_required"@.len() == 19);
    reveal_with_fuel(json::member_of, 5);
    let payload = store::hook_plan(event, true, now).payload;
    let members = payload->Object_0;
    assert(members.drop_first()[0] == members[1]);
    assert(members.drop_first().drop_first()[0] == members[2]);
    assert(members.drop_first().drop_first().drop_first()[0] == members[3]);
    let met = store::session_ingested(s, event, host, true, now);
    let after = store::ingested(s, event, host, true, now).0;
    if store::ingested(s, event, host, true, now).1 {
        assert(after.outbox =~= met.outbox.push(after.outbox.last()));
    }
}

/// Binding a user binds that one, keeps every other setting but those of the
/// code that was used, and leaves alone what comes later.
pub proof fn lemma_binding_binds_the_user(
    s: StoreView,
    openid: Seq<char>,
    now: i64,
    key: Seq<char>,
    i: int,
)
    requires
        0 <= i < s.outbox.len(),
    ensures
        ({
            let after = store::bound(s, openid, now);
            &&& key == "bound_openid"@ ==> store::setting(after, key) == Some(openid)
            &&& key != "bound_openid"@ && key != "pairing_hash"@ && key != "pairing_expires_at"@
                ==> store::setting(after, key) == store::setting(s, key)
            &&& s.outbox[i].created_at > now || s.outbox[i].state != OutboxState::Pending
                ==> after.outbox[i] == s.outbox[i]
            &&& after.sessions == s.sessions
            &&& after.replies == s.replies
        }),
{
    reveal_strlit("bound_openid");
    reveal_strlit("pairing_hash");
    reveal_strlit("pairing_expires_at");
    assert("bound_openid"@[0] == 'b');
    assert("pairing_hash"@[0] == 'p');
    assert("pairing_expires_at"@[0] == 'p');
}

} // verus!
