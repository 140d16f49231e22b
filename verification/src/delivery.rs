//! Delivery of queued notifications: their texts, the pace, and what follows
//! from the answer of the chat.
use vstd::prelude::*;
use vstd::utf8;
use crate::chance;
use crate::claude_hook;
use crate::clock;
use crate::formatting;
use crate::formatting::FormattingError;
use crate::json;
use crate::json::{Json, JsonNumber, JsonView, NumberView};
use crate::qq_menu;
use crate::security;
use crate::store;
use crate::store::{ItemView, OutboxItem, OutboxState, Store, StoreError, StoreView};
use crate::text;
use crate::text::text_eq;

verus! {

/// What kind of refusal an error is.
#[derive(Debug, Clone, Copy, PartialEq, Eq, Structural)]
pub enum DeliveryErrorCategory {
    Length,
    Duplicate,
    Permanent,
    Rate,
    Transient,
}

pub open spec fn category_name(category: DeliveryErrorCategory) -> Seq<char> {
    match category {
        DeliveryErrorCategory::Length => "length"@,
        DeliveryErrorCategory::Duplicate => "duplicate"@,
        DeliveryErrorCategory::Permanent => "permanent"@,
        DeliveryErrorCategory::Rate => "rate"@,
        DeliveryErrorCategory::Transient => "transient"@,
    }
}

impl DeliveryErrorCategory {
    pub fn as_str(self) -> (result: &'static str)
        ensures
            result@ == category_name(self),
    {
        match self {
            DeliveryErrorCategory::Length => "length",
            DeliveryErrorCategory::Duplicate => "duplicate",
            DeliveryErrorCategory::Permanent => "permanent",
            DeliveryErrorCategory::Rate => "rate",
            DeliveryErrorCategory::Transient => "transient",
        }
    }
}

/// What became of a delivery.
#[derive(Debug, Clone, Copy, PartialEq, Eq, Structural)]
pub enum DeliveryOutcome {
    Suppressed,
    Delivered,
    Split,
    Advanced,
    Retry,
    FailedPermanent,
}

pub open spec fn outcome_name(outcome: DeliveryOutcome) -> Seq<char> {
    match outcome {
        DeliveryOutcome::Suppressed => "suppressed"@,
        DeliveryOutcome::Delivered => "delivered"@,
        DeliveryOutcome::Split => "split"@,
        DeliveryOutcome::Advanced => "advanced"@,
        DeliveryOutcome::Retry => "retry"@,
        DeliveryOutcome::FailedPermanent => "failed_permanent"@,
    }
}

impl DeliveryOutcome {
    pub fn as_str(self) -> (result: &'static str)
        ensures
            result@ == outcome_name(self),
    {
        match self {
            DeliveryOutcome::Suppressed => "suppressed",
            DeliveryOutcome::Delivered => "delivered",
            DeliveryOutcome::Split => "split",
            DeliveryOutcome::Advanced => "advanced",
            DeliveryOutcome::Retry => "retry",
            DeliveryOutcome::FailedPermanent => "failed_permanent",
        }
    }
}

/// Why a delivery could not be attempted.
#[derive(Debug)]
pub enum DeliveryError {
    Store(StoreError),
    Formatting(FormattingError),
    UnknownKind(String),
}

pub open spec fn delivery_message(error: DeliveryError) -> Seq<char> {
    match error {
        DeliveryError::Store(error) => error.text(),
        DeliveryError::Formatting(error) => formatting::formatting_message(error),
        DeliveryError::UnknownKind(kind) => "unknown outbox kind: "@ + kind@,
    }
}

impl DeliveryError {
    pub fn message(&self) -> (result: String)
        ensures
            result@ == delivery_message(*self),
    {
        match self {
            DeliveryError::Store(error) => error.message(),
            DeliveryError::Formatting(error) => error.message(),
            DeliveryError::UnknownKind(kind) => {
                let mut result = "unknown outbox kind: ".to_owned();
                result.append(kind.as_str());
                result
            },
        }
    }
}

// ---------------------------------------------------------------------------
// Refusals
// ---------------------------------------------------------------------------

/// What tells that a message is too long.
pub open spec fn length_markers() -> Seq<Seq<char>> {
    seq!["40054007"@, "40054018"@, "长度超限"@, "消息过长"@]
}

/// What tells that a message was sent before.
pub open spec fn dupe_markers() -> Seq<Seq<char>> {
    seq!["40054005"@, "消息被去重"@]
}

/// What tells that a message will never be accepted.
pub open spec fn permanent_markers() -> Seq<Seq<char>> {
    seq![
        "22006"@,
        "304061"@,
        "40034006"@,
        "40054013"@,
        "40034105"@,
        "40054004"@,
        "消息内容违规"@,
        "消息内容无效"@,
        "拒收"@,
        "无权限"@,
        "无好友关系"@,
    ]
}

/// What tells that messages come too fast.
pub open spec fn rate_markers() -> Seq<Seq<char>> {
    seq!["40034100"@, "频控"@, "发送频率"@, "too many requests"@, "rate limit"@]
}

/// Whether one of the markers, which have no upper-case letters, occurs in a
/// text in lower case.
pub open spec fn marked(lower: Seq<char>, markers: Seq<Seq<char>>) -> bool {
    exists|i: int| 0 <= i < markers.len() && text::occurs(lower, #[trigger] markers[i])
}

/// The category of an error message in lower case. Length comes before
/// repetition, that before what is permanent, and that before the pace.
pub open spec fn lowered_category(lower: Seq<char>) -> DeliveryErrorCategory {
    if marked(lower, length_markers()) {
        DeliveryErrorCategory::Length
    } else if marked(lower, dupe_markers()) {
        DeliveryErrorCategory::Duplicate
    } else if marked(lower, permanent_markers()) {
        DeliveryErrorCategory::Permanent
    } else if marked(lower, rate_markers()) {
        DeliveryErrorCategory::Rate
    } else {
        DeliveryErrorCategory::Transient
    }
}

/// The category of an error message, whatever the case of its letters.
pub open spec fn category_of(message: Seq<char>) -> DeliveryErrorCategory {
    lowered_category(text::lowercase(message))
}

/// The messages of an error and its causes in one text.
pub open spec fn chained(messages: Seq<Seq<char>>) -> Seq<char>
    decreases messages.len(),
{
    if messages.len() == 0 {
        Seq::empty()
    } else {
        let before = chained(messages.drop_last());
        if before.len() == 0 {
            messages.last()
        } else {
            before + " "@ + messages.last()
        }
    }
}

fn is_marked(lower: &str, markers: &Vec<&str>) -> (result: bool)
    ensures
        result == exists|i: int|
            0 <= i < markers@.len() && text::occurs(lower@, (#[trigger] markers@[i])@),
{
    for i in 0..markers.len()
        invariant
            forall|j: int| 0 <= j < i ==> !text::occurs(lower@, (#[trigger] markers@[j])@),
    {
        if text::contains(lower, markers[i]) {
            return true;
        }
    }
    false
}

proof fn lemma_marked(lower: Seq<char>, markers: Seq<&str>, views: Seq<Seq<char>>)
    requires
        markers.len() == views.len(),
        forall|i: int| 0 <= i < markers.len() ==> (#[trigger] markers[i])@ == views[i],
    ensures
        marked(lower, views) == exists|i: int|
            0 <= i < markers.len() && text::occurs(lower, (#[trigger] markers[i])@),
{
    if marked(lower, views) {
        let i = choose|i: int| 0 <= i < views.len() && text::occurs(lower, #[trigger] views[i]);
        assert(markers[i]@ == views[i]);
    }
}

/// An error whose own message is not empty is told apart by its message and
/// those of its causes, with blanks between.
pub proof fn lemma_causes_are_joined(messages: Seq<Seq<char>>)
    requires
        messages.len() > 0,
        messages[0].len() > 0,
    ensures
        chained(messages) == text::joined(messages, " "@),
        category_of(chained(messages)) == category_of(text::joined(messages, " "@)),
        chained(messages).len() > 0,
    decreases messages.len(),
{
    if messages.len() > 1 {
        lemma_causes_are_joined(messages.drop_last());
    } else {
        assert(chained(messages.drop_last()) =~= Seq::<char>::empty());
    }
}

/// Every message of an error and its causes stands in the one text.
proof fn lemma_cause_stands(messages: Seq<Seq<char>>, k: int) -> (at: int)
    requires
        0 <= k < messages.len(),
    ensures
        text::occurs_at(chained(messages), messages[k], at),
    decreases messages.len(),
{
    let whole = chained(messages);
    let before = chained(messages.drop_last());
    if k < messages.len() - 1 {
        let at = lemma_cause_stands(messages.drop_last(), k);
        if before.len() == 0 {
            assert(messages[k] =~= Seq::<char>::empty());
            assert(whole.subrange(0, 0) =~= messages[k]);
            0
        } else {
            assert(whole.subrange(at, at + messages[k].len()) =~= before.subrange(
                at,
                at + messages[k].len(),
            ));
            at
        }
    } else {
        let at = whole.len() - messages[k].len();
        assert(whole.subrange(at, whole.len() as int) =~= messages[k]);
        at
    }
}

/// What tells the category of an error is heard from a cause as from the error
/// itself, where lower case is that of ASCII.
pub proof fn lemma_cause_is_heard(messages: Seq<Seq<char>>, k: int, markers: Seq<Seq<char>>)
    requires
        0 <= k < messages.len(),
        text::lowercase(messages[k]) == text::ascii_lower(messages[k]),
        text::lowercase(chained(messages)) == text::ascii_lower(chained(messages)),
        marked(text::lowercase(messages[k]), markers),
    ensures
        marked(text::lowercase(chained(messages)), markers),
{
    let at = lemma_cause_stands(messages, k);
    let part = text::ascii_lower(messages[k]);
    let whole = text::ascii_lower(chained(messages));
    let i = choose|i: int| 0 <= i < markers.len() && text::occurs(part, #[trigger] markers[i]);
    let needle = markers[i];
    let here = choose|here: int| #[trigger] text::occurs_at(part, needle, here);
    assert(chained(messages).subrange(at, at + messages[k].len()) == messages[k]);
    assert forall|j: int| 0 <= j < part.len() implies #[trigger] part[j] == whole[at + j] by {
        assert(messages[k][j] == chained(messages).subrange(at, at + messages[k].len())[j]);
    }
    assert(whole.subrange(at + here, at + here + needle.len()) =~= part.subrange(
        here,
        here + needle.len(),
    ));
    assert(text::occurs_at(whole, needle, at + here));
}

/// So many blanks.
spec fn blanks(n: nat) -> Seq<char> {
    Seq::new(n, |i: int| ' ')
}

/// The joined messages of an error and its causes differ from the one text in
/// nothing but blanks in front.
proof fn lemma_blanks_in_front(messages: Seq<Seq<char>>) -> (n: nat)
    ensures
        text::joined(messages, " "@) == blanks(n) + chained(messages),
    decreases messages.len(),
{
    reveal_strlit(" ");
    if messages.len() == 0 {
        assert(blanks(0) + chained(messages) =~= text::joined(messages, " "@));
        0
    } else if messages.len() == 1 {
        assert(chained(messages.drop_last()) =~= Seq::<char>::empty());
        assert(blanks(0) + chained(messages) =~= text::joined(messages, " "@));
        0
    } else {
        let n = lemma_blanks_in_front(messages.drop_last());
        let before = chained(messages.drop_last());
        if before.len() == 0 {
            assert(blanks(n + 1) + chained(messages) =~= text::joined(messages, " "@));
            n + 1
        } else {
            assert(blanks(n) + chained(messages) =~= text::joined(messages, " "@));
            n
        }
    }
}

/// Blanks in front of a text hide none of the markers and add none.
proof fn lemma_marked_behind_blanks(lower: Seq<char>, markers: Seq<Seq<char>>, n: nat)
    requires
        forall|i: int|
            0 <= i < markers.len() ==> (#[trigger] markers[i]).len() > 0 && markers[i][0] != ' ',
    ensures
        marked(blanks(n) + lower, markers) == marked(lower, markers),
{
    let whole = blanks(n) + lower;
    if marked(lower, markers) {
        let i = choose|i: int| 0 <= i < markers.len() && text::occurs(lower, #[trigger] markers[i]);
        let needle = markers[i];
        let at = choose|at: int| #[trigger] text::occurs_at(lower, needle, at);
        assert(whole.subrange(n + at, n + at + needle.len()) =~= lower.subrange(
            at,
            at + needle.len(),
        ));
        assert(text::occurs_at(whole, needle, n + at));
    }
    if marked(whole, markers) {
        let i = choose|i: int| 0 <= i < markers.len() && text::occurs(whole, #[trigger] markers[i]);
        let needle = markers[i];
        let at = choose|at: int| #[trigger] text::occurs_at(whole, needle, at);
        assert(whole.subrange(at, at + needle.len())[0] == needle[0]);
        assert(whole[at] == needle[0]);
        assert(at >= n);
        assert(lower.subrange(at - n, at - n + needle.len()) =~= whole.subrange(
            at,
            at + needle.len(),
        ));
        assert(text::occurs_at(lower, needle, at - n));
    }
}

proof fn lemma_markers_begin()
    ensures
        forall|i: int|
            0 <= i < length_markers().len() ==> (#[trigger] length_markers()[i]).len() > 0
                && length_markers()[i][0] != ' ',
        forall|i: int|
            0 <= i < dupe_markers().len() ==> (#[trigger] dupe_markers()[i]).len() > 0
                && dupe_markers()[i][0] != ' ',
        forall|i: int|
            0 <= i < permanent_markers().len() ==> (#[trigger] permanent_markers()[i]).len() > 0
                && permanent_markers()[i][0] != ' ',
        forall|i: int|
            0 <= i < rate_markers().len() ==> (#[trigger] rate_markers()[i]).len() > 0
                && rate_markers()[i][0] != ' ',
{
    reveal_strlit("40054007");
    reveal_strlit("40054018");
    reveal_strlit("长度超限");
    reveal_strlit("消息过长");
    reveal_strlit("40054005");
    reveal_strlit("消息被去重");
    reveal_strlit("22006");
    reveal_strlit("304061");
    reveal_strlit("40034006");
    reveal_strlit("40054013");
    reveal_strlit("40034105");
    reveal_strlit("40054004");
    reveal_strlit("消息内容违规");
    reveal_strlit("消息内容无效");
    reveal_strlit("拒收");
    reveal_strlit("无权限");
    reveal_strlit("无好友关系");
    reveal_strlit("40034100");
    reveal_strlit("频控");
    reveal_strlit("发送频率");
    reveal_strlit("too many requests");
    reveal_strlit("rate limit");
}

/// The joined messages of an error and its causes tell the same category as
/// the one text, in ASCII lower case, also where the first of them are empty.
proof fn lemma_joined_category(messages: Seq<Seq<char>>)
    ensures
        lowered_category(text::ascii_lower(chained(messages))) == lowered_category(
            text::ascii_lower(text::joined(messages, " "@)),
        ),
{
    let n = lemma_blanks_in_front(messages);
    let lower = text::ascii_lower(chained(messages));
    assert(text::ascii_lower(text::joined(messages, " "@)) =~= blanks(n) + lower);
    lemma_markers_begin();
    lemma_marked_behind_blanks(lower, length_markers(), n);
    lemma_marked_behind_blanks(lower, dupe_markers(), n);
    lemma_marked_behind_blanks(lower, permanent_markers(), n);
    lemma_marked_behind_blanks(lower, rate_markers(), n);
}

/// An error is told apart by its message and those of its causes, with blanks
/// between, whichever of them are empty, where lower case is that of ASCII.
pub proof fn lemma_empty_causes_are_joined(messages: Seq<Seq<char>>)
    requires
        text::lowercase(chained(messages)) == text::ascii_lower(chained(messages)),
        text::lowercase(text::joined(messages, " "@)) == text::ascii_lower(
            text::joined(messages, " "@),
        ),
    ensures
        category_of(chained(messages)) == category_of(text::joined(messages, " "@)),
{
    lemma_joined_category(messages);
}

/// The category of an error message.
pub fn classify_delivery_error_text(message: &str) -> (result: DeliveryErrorCategory)
    ensures
        result == category_of(message@),
        utf8::is_ascii_chars(message@) ==> result == lowered_category(text::ascii_lower(message@)),
{
    let lower = text::to_lower(message);
    classify_lowered(lower.as_str())
}

/// The category of an error message that is in lower case already.
pub fn classify_lowered(lower: &str) -> (result: DeliveryErrorCategory)
    ensures
        result == lowered_category(lower@),
{
    let length = vec!["40054007", "40054018", "长度超限", "消息过长"];
    let dupe = vec!["40054005", "消息被去重"];
    let permanent = vec![
        "22006",
        "304061",
        "40034006",
        "40054013",
        "40034105",
        "40054004",
        "消息内容违规",
        "消息内容无效",
        "拒收",
        "无权限",
        "无好友关系",
    ];
    let rate = vec!["40034100", "频控", "发送频率", "too many requests", "rate limit"];
    proof {
        lemma_marked(lower@, length@, length_markers());
        lemma_marked(lower@, dupe@, dupe_markers());
        lemma_marked(lower@, permanent@, permanent_markers());
        lemma_marked(lower@, rate@, rate_markers());
    }
    if is_marked(lower, &length) {
        DeliveryErrorCategory::Length
    } else if is_marked(lower, &dupe) {
        DeliveryErrorCategory::Duplicate
    } else if is_marked(lower, &permanent) {
        DeliveryErrorCategory::Permanent
    } else if is_marked(lower, &rate) {
        DeliveryErrorCategory::Rate
    } else {
        DeliveryErrorCategory::Transient
    }
}

/// The category of an error, from its message and those of its causes.
pub fn classify_delivery_error(messages: &Vec<String>) -> (result: DeliveryErrorCategory)
    ensures
        result == category_of(chained(text::texts(messages@))),
        utf8::is_ascii_chars(text::joined(text::texts(messages@), " "@)) ==> result
            == lowered_category(text::ascii_lower(text::joined(text::texts(messages@), " "@))),
{
    let ghost all = text::texts(messages@);
    let mut joined = String::new();
    assert(joined@ =~= chained(all.take(0)));
    for i in 0..messages.len()
        invariant
            all == text::texts(messages@),
            joined@ == chained(all.take(i as int)),
    {
        let ghost before = joined@;
        assert(all.take(i + 1).drop_last() =~= all.take(i as int));
        assert(all.take(i + 1).last() == messages@[i as int]@);
        if !joined.as_str().is_empty() {
            joined.append(" ");
            joined.append(messages[i].as_str());
        } else {
            joined.append(messages[i].as_str());
            assert(joined@ =~= messages@[i as int]@);
        }
    }
    assert(all.take(messages@.len() as int) =~= all);
    proof {
        let whole = text::joined(all, " "@);
        let n = lemma_blanks_in_front(all);
        if utf8::is_ascii_chars(whole) {
            assert forall|i: int| 0 <= i < joined@.len() implies '\0' <= #[trigger] joined@[i]
                <= '\u{7f}' by {
                assert(whole[n + i] == joined@[i]);
            }
        }
        lemma_joined_category(all);
    }
    classify_delivery_error_text(joined.as_str())
}

// ---------------------------------------------------------------------------
// Texts
// ---------------------------------------------------------------------------

/// A member of a payload as a text. An empty text is shown in quotation marks.
pub open spec fn payload_shown(payload: JsonView, key: Seq<char>, fallback: Seq<char>) -> Seq<char> {
    match payload.get(key) {
        None => fallback,
        Some(JsonView::Null) => fallback,
        Some(JsonView::Text(value)) => if value.len() > 0 {
            value
        } else {
            json::quoted(value)
        },
        Some(other) => json::compact_json(other),
    }
}

fn payload_text(payload: &Json, key: &str, fallback: &str) -> (result: String)
    ensures
        result@ == payload_shown(payload@, key@, fallback@),
{
    match payload.get(key) {
        None => fallback.to_owned(),
        Some(value) => match value {
            Json::Null => fallback.to_owned(),
            Json::Text(shown) => if !shown.as_str().is_empty() {
                shown.clone()
            } else {
                json::quote(shown.as_str())
            },
            _ => json::compact_text(value),
        },
    }
}

/// A number of seconds as microseconds, held inside the range of an `i64`.
pub open spec fn number_micros(number: NumberView) -> Option<int> {
    match number {
        NumberView::Unsigned(n) => Some(clock::held(false, n * 1_000_000)),
        NumberView::Negative(n) => Some(
            if n < 0 {
                clock::held(true, (-n * 1_000_000) as nat)
            } else {
                clock::held(false, (n * 1_000_000) as nat)
            },
        ),
        NumberView::Float(shown) => clock::seconds_read(shown),
    }
}

/// A number of seconds as microseconds, held inside the range of an `i64`.
pub fn number_time(number: &JsonNumber) -> (result: Option<i64>)
    ensures
        match result {
            Some(at) => number_micros(number@) == Some(at as int),
            None => number_micros(number@) is None,
        },
{
    match number {
        JsonNumber::Unsigned(n) => if *n <= 9_223_372_036_854 {
            Some((*n * 1_000_000) as i64)
        } else {
            Some(i64::MAX)
        },
        JsonNumber::Negative(n) => if *n > 9_223_372_036_854 {
            Some(i64::MAX)
        } else if *n < -9_223_372_036_854 {
            Some(i64::MIN)
        } else {
            Some(*n * 1_000_000)
        },
        JsonNumber::Float(shown) => clock::parse_seconds(shown.as_str()),
    }
}

/// The point in time that a notification speaks of.
pub open spec fn notification_time(item: ItemView) -> int {
    let at = match item.payload.get("created_at"@) {
        Some(JsonView::Number(number)) => number_micros(number),
        Some(JsonView::Text(shown)) => clock::seconds_read(shown),
        _ => None,
    };
    match at {
        Some(at) => at,
        None => item.created_at as int,
    }
}

/// The point in time that a notification speaks of, to be shown as a local time
/// of day.
pub fn notification_stamp(item: &OutboxItem) -> (result: i64)
    ensures
        result == notification_time(item@),
{
    let at = match item.payload.get("created_at") {
        Some(value) => match value {
            Json::Number(number) => number_time(number),
            Json::Text(shown) => clock::parse_seconds(shown.as_str()),
            _ => None,
        },
        None => None,
    };
    match at {
        Some(at) => at,
        None => item.created_at,
    }
}

/// The status code of a failed request, as a text.
pub open spec fn status_shown(payload: JsonView) -> Option<Seq<char>> {
    match payload.get("http_status"@) {
        Some(JsonView::Number(NumberView::Unsigned(n))) => Some(text::decimal(n)),
        Some(JsonView::Text(shown)) => Some(shown),
        _ => None,
    }
}

pub open spec fn failure_text(payload: JsonView) -> Seq<char> {
    let base = "❌ Codex 本轮失败\n项目："@ + payload_shown(payload, "project"@, "unknown"@)
        + "\n错误："@ + payload_shown(payload, "error"@, "Codex 请求失败"@);
    let typed = match payload.text_at("error_type"@) {
        Some(kind) => if kind.len() > 0 {
            base + "\n类型："@ + kind
        } else {
            base
        },
        None => base,
    };
    match status_shown(payload) {
        Some(status) => typed + "\nHTTP："@ + status,
        None => typed,
    }
}

/// The text of a notification; none for a kind that is not known. `stamp` is
/// its local time of day, `assistant` the name of the second assistant.
pub open spec fn shown_notification(
    item: ItemView,
    full_reply: bool,
    stamp: Seq<char>,
    assistant: Seq<char>,
) -> Option<Seq<char>> {
    let project = payload_shown(item.payload, "project"@, "unknown"@);
    if item.kind == "task_started"@ {
        Some(
            "🚀 Codex 开始处理\n项目："@ + project + "\n模型："@ + payload_shown(
                item.payload,
                "model"@,
                "unknown"@,
            ) + "\n时间："@ + stamp + "\n任务："@ + payload_shown(
                item.payload,
                "preview"@,
                "（无文本预览）"@,
            ),
        )
    } else if item.kind == "permission_required"@ {
        Some(
            "⏳ Codex 出现权限请求\n项目："@ + project + "\n工具："@ + payload_shown(
                item.payload,
                "tool"@,
                "unknown"@,
            ) + "\n原因："@ + payload_shown(item.payload, "reason"@, "需要确认的操作"@)
                + "\n请在 Codex 中完成审批；如果已启用自动审批且任务继续，此消息可忽略。QQ 不能直接审批。"@,
        )
    } else if item.kind == "final_reply"@ {
        if full_reply {
            Some(
                "✅ Codex 回复\n项目："@ + project + "\n\n"@ + payload_shown(
                    item.payload,
                    "content"@,
                    "（没有可显示的回复）"@,
                ),
            )
        } else {
            Some(
                "✅ Codex 本轮已结束\n项目："@ + project + "\n回复 /last 查看结果"@,
            )
        }
    } else if item.kind == "claude_reply"@ {
        Some(
            payload_shown(
                item.payload,
                "content"@,
                "✅ "@ + claude_hook::product(assistant)
                    + " 本轮已结束\n（没有可显示的回答）"@,
            ),
        )
    } else if item.kind == "claude_failed"@ {
        Some(
            payload_shown(
                item.payload,
                "content"@,
                "❌ "@ + claude_hook::product(assistant) + " 任务失败\n错误：未知错误"@,
            ),
        )
    } else if item.kind == "turn_ended_without_reply"@ {
        Some(
            "⚠️ Codex 本轮结束但没有最终回复，可能中断或失败，请回电脑检查\n项目："@
                + project,
        )
    } else if item.kind == "turn_failed"@ {
        Some(failure_text(item.payload))
    } else {
        None
    }
}

fn failed_turn_text(payload: &Json) -> (result: String)
    ensures
        result@ == failure_text(payload@),
{
    let mut result = "❌ Codex 本轮失败\n项目：".to_owned();
    let project = payload_text(payload, "project", "unknown");
    result.append(project.as_str());
    result.append("\n错误：");
    let error = payload_text(payload, "error", "Codex 请求失败");
    result.append(error.as_str());
    match payload.text_at("error_type") {
        Some(kind) => if !kind.is_empty() {
            result.append("\n类型：");
            result.append(kind);
        },
        None => {},
    }
    let status = match payload.get("http_status") {
        Some(value) => match value {
            Json::Number(JsonNumber::Unsigned(n)) => Some(text::decimal_text(*n)),
            Json::Text(shown) => Some(shown.clone()),
            _ => None,
        },
        None => None,
    };
    match status {
        Some(status) => {
            result.append("\nHTTP：");
            result.append(status.as_str());
        },
        None => {},
    }
    result
}

/// The text of a notification. `stamp` is its local time of day, `assistant` the
/// name of the second assistant.
pub fn notification_text(
    item: &OutboxItem,
    full_reply: bool,
    stamp: &str,
    assistant: &str,
) -> (result: Result<String, DeliveryError>)
    ensures
        match result {
            Ok(shown) => shown_notification(item@, full_reply, stamp@, assistant@) == Some(shown@),
            Err(DeliveryError::UnknownKind(kind)) => kind@ == item.kind@ && shown_notification(
                item@,
                full_reply,
                stamp@,
                assistant@,
            ) is None,
            Err(_) => false,
        },
{
    let kind = item.kind.as_str();
    let payload = &item.payload;
    let project = payload_text(payload, "project", "unknown");
    if text_eq(kind, "task_started") {
        let mut result = "🚀 Codex 开始处理\n项目：".to_owned();
        result.append(project.as_str());
        result.append("\n模型：");
        let model = payload_text(payload, "model", "unknown");
        result.append(model.as_str());
        result.append("\n时间：");
        result.append(stamp);
        result.append("\n任务：");
        let preview = payload_text(payload, "preview", "（无文本预览）");
        result.append(preview.as_str());
        Ok(result)
    } else if text_eq(kind, "permission_required") {
        let mut result = "⏳ Codex 出现权限请求\n项目：".to_owned();
        result.append(project.as_str());
        result.append("\n工具：");
        let tool = payload_text(payload, "tool", "unknown");
        result.append(tool.as_str());
        result.append("\n原因：");
        let reason = payload_text(payload, "reason", "需要确认的操作");
        result.append(reason.as_str());
        result.append(
            "\n请在 Codex 中完成审批；如果已启用自动审批且任务继续，此消息可忽略。QQ 不能直接审批。",
        );
        Ok(result)
    } else if text_eq(kind, "final_reply") {
        if full_reply {
            let mut result = "✅ Codex 回复\n项目：".to_owned();
            result.append(project.as_str());
            result.append("\n\n");
            let content = payload_text(payload, "content", "（没有可显示的回复）");
            result.append(content.as_str());
            Ok(result)
        } else {
            let mut result = "✅ Codex 本轮已结束\n项目：".to_owned();
            result.append(project.as_str());
            result.append("\n回复 /last 查看结果");
            Ok(result)
        }
    } else if text_eq(kind, "claude_reply") {
        let mut unsaid = "✅ ".to_owned();
        let called = claude_hook::product_name(assistant);
        unsaid.append(called.as_str());
        unsaid.append(" 本轮已结束\n（没有可显示的回答）");
        Ok(payload_text(payload, "content", unsaid.as_str()))
    } else if text_eq(kind, "claude_failed") {
        let mut unsaid = "❌ ".to_owned();
        let called = claude_hook::product_name(assistant);
        unsaid.append(called.as_str());
        unsaid.append(" 任务失败\n错误：未知错误");
        Ok(payload_text(payload, "content", unsaid.as_str()))
    } else if text_eq(kind, "turn_ended_without_reply") {
        let mut result =
            "⚠️ Codex 本轮结束但没有最终回复，可能中断或失败，请回电脑检查\n项目：".to_owned();
        result.append(project.as_str());
        Ok(result)
    } else if text_eq(kind, "turn_failed") {
        Ok(failed_turn_text(payload))
    } else {
        Err(DeliveryError::UnknownKind(item.kind.clone()))
    }
}

// ---------------------------------------------------------------------------
// The pace
// ---------------------------------------------------------------------------

/// The nanoseconds of one minute.
pub const MINUTE_NANOS: u64 = 60_000_000_000;

/// Holds messages apart from each other. Times are in nanoseconds.
#[derive(Debug, Clone, Copy)]
pub struct RateLimiter {
    pub minimum_interval: u64,
    pub last_sent: Option<u64>,
}

/// The nearest number of nanoseconds between messages of which so many leave a
/// minute; an even one where two are as near.
pub open spec fn interval_of(per_minute: nat) -> nat {
    let cut = MINUTE_NANOS as nat / per_minute;
    let rest = MINUTE_NANOS as nat % per_minute;
    if 2 * rest > per_minute || (2 * rest == per_minute && cut % 2 == 1) {
        cut + 1
    } else {
        cut
    }
}

fn interval(per_minute: u32) -> (result: u64)
    requires
        per_minute > 0,
    ensures
        result == interval_of(per_minute as nat),
{
    let count: u64 = per_minute as u64;
    let cut: u64 = MINUTE_NANOS / count;
    let rest: u64 = MINUTE_NANOS % count;
    assert(cut <= MINUTE_NANOS) by (nonlinear_arith)
        requires
            cut == MINUTE_NANOS / count,
            count > 0,
    ;
    if 2 * rest > count || (2 * rest == count && cut % 2 == 1) {
        cut + 1
    } else {
        cut
    }
}

/// How long a message that is ready at `now` has to wait.
pub open spec fn pause(limiter: RateLimiter, now: u64) -> int {
    match limiter.last_sent {
        Some(previous) => if now - previous < limiter.minimum_interval {
            if now < previous {
                limiter.minimum_interval as int
            } else {
                limiter.minimum_interval - (now - previous)
            }
        } else {
            0
        },
        None => 0,
    }
}

impl RateLimiter {
    /// A pace of so many messages a minute.
    pub fn new(per_minute: u32) -> (result: Result<Self, &'static str>)
        ensures
            match result {
                Ok(limiter) => per_minute > 0 && limiter.minimum_interval == interval_of(
                    per_minute as nat,
                ) && limiter.last_sent is None,
                Err(message) => per_minute == 0 && message@ == "per_minute must be positive"@,
            },
    {
        if per_minute == 0 {
            return Err("per_minute must be positive");
        }
        Ok(RateLimiter { minimum_interval: interval(per_minute), last_sent: None })
    }

    /// A pace of so many messages a minute.
    pub fn per_minute(per_minute: u32) -> (result: Self)
        requires
            per_minute > 0,
        ensures
            result.minimum_interval == interval_of(per_minute as nat),
            result.last_sent is None,
    {
        RateLimiter { minimum_interval: interval(per_minute), last_sent: None }
    }

    /// How long a message that is ready at `now` has to wait; it counts as sent
    /// when that time is over.
    pub fn wait(&mut self, now: u64) -> (result: u64)
        requires
            now + old(self).minimum_interval <= u64::MAX,
        ensures
            result == pause(*old(self), now),
            final(self).last_sent == Some((now + result) as u64),
            final(self).minimum_interval == old(self).minimum_interval,
    {
        let rest: u64 = match self.last_sent {
            Some(previous) => if now < previous {
                self.minimum_interval
            } else if now - previous < self.minimum_interval {
                self.minimum_interval - (now - previous)
            } else {
                0
            },
            None => 0,
        };
        self.last_sent = Some(now + rest);
        rest
    }

    /// Takes down when a message left that had waited, where that was later
    /// than it had to be.
    pub fn sent(&mut self, at: u64)
        ensures
            final(self).last_sent == Some(
                match old(self).last_sent {
                    Some(previous) => if previous < at {
                        at
                    } else {
                        previous
                    },
                    None => at,
                },
            ),
            final(self).minimum_interval == old(self).minimum_interval,
    {
        match self.last_sent {
            Some(previous) => if previous < at {
                self.last_sent = Some(at);
            },
            None => self.last_sent = Some(at),
        }
    }
}

impl Default for RateLimiter {
    /// Eighteen messages a minute.
    fn default() -> (result: Self)
        ensures
            result.minimum_interval == interval_of(18),
            result.last_sent is None,
    {
        RateLimiter::per_minute(18)
    }
}

/// Two messages in a row leave at least the interval of the pace apart,
/// whenever each of them was ready and however late the first one left.
pub proof fn lemma_pace_is_kept(limiter: RateLimiter, first: u64, sent: u64, second: u64)
    requires
        first + limiter.minimum_interval <= u64::MAX,
        sent >= first + pause(limiter, first),
        second >= sent,
    ensures
        ({
            let after = RateLimiter { last_sent: Some(sent), ..limiter };
            second + pause(after, second) >= sent + limiter.minimum_interval
        }),
{
}

// ---------------------------------------------------------------------------
// One delivery
// ---------------------------------------------------------------------------

/// What a delivery does next.
#[derive(Debug, PartialEq, Eq)]
pub enum DeliveryStep {
    /// Nothing more; the outcome is known.
    Done(DeliveryOutcome),
    /// Send the text; `last` says whether it ends the notification. The end of
    /// one about a task has a keyboard under it.
    Send {
        message: String,
        last: bool,
        keyboard: Option<Json>,
        segments: Vec<String>,
        index: usize,
    },
}

/// The thread that a notification is about: one that ended a turn names it in
/// its payload, one that failed in the key of its event.
pub open spec fn thread_of(item: ItemView) -> Option<Seq<char>> {
    if item.kind == "final_reply"@ || item.kind == "turn_ended_without_reply"@ {
        match item.payload.text_at("thread_id"@) {
            Some(thread) => if thread.len() > 0 && thread != "unknown"@ {
                Some(thread)
            } else {
                None
            },
            None => None,
        }
    } else if item.kind == "turn_failed"@ {
        match item.turn_id {
            Some(turn) => {
                let head = "turn_failed:"@;
                let tail = ":"@ + turn;
                if text::begins(item.event_key, head) && text::ends(item.event_key, tail)
                    && head.len() + tail.len() < item.event_key.len() {
                    Some(
                        item.event_key.subrange(
                            head.len() as int,
                            item.event_key.len() - tail.len(),
                        ),
                    )
                } else {
                    None
                }
            },
            None => None,
        }
    } else {
        None
    }
}

/// The keyboard under a notification about a task: to look at it, to go on with
/// it and to begin another.
pub open spec fn shortcuts(item: ItemView) -> Option<JsonView> {
    match thread_of(item) {
        Some(thread) => Some(qq_menu::keyboard_json(qq_menu::notification_rows(thread, true))),
        None => None,
    }
}

fn task_of(item: &OutboxItem) -> (result: Option<String>)
    ensures
        text::opt_text(result) == thread_of(item@),
{
    let kind = item.kind.as_str();
    if text_eq(kind, "final_reply") || text_eq(kind, "turn_ended_without_reply") {
        match item.payload.text_at("thread_id") {
            Some(thread) => if thread.is_empty() || text_eq(thread, "unknown") {
                None
            } else {
                Some(thread.to_owned())
            },
            None => None,
        }
    } else if text_eq(kind, "turn_failed") {
        match &item.turn_id {
            Some(turn) => {
                let mut tail = ":".to_owned();
                tail.append(turn.as_str());
                failed_thread(item.event_key.as_str(), tail.as_str())
            },
            None => None,
        }
    } else {
        None
    }
}

fn failed_thread(key: &str, tail: &str) -> (result: Option<String>)
    ensures
        text::opt_text(result) == (if text::begins(key@, "turn_failed:"@) && text::ends(key@, tail@)
            && "turn_failed:"@.len() + tail@.len() < key@.len() {
            Some(key@.subrange("turn_failed:"@.len() as int, key@.len() - tail@.len()))
        } else {
            None
        }),
{
    let chars = text::chars_of(key);
    let head: usize = text::chars_of("turn_failed:").len();
    let end: usize = text::chars_of(tail).len();
    if text::starts_with(key, "turn_failed:") && text::ends_with(key, tail) && end < chars.len()
        && head < chars.len() - end {
        Some(text::text_between(&chars, head, chars.len() - end))
    } else {
        None
    }
}

/// The keyboard under a notification about a task.
pub fn notification_keyboard(item: &OutboxItem) -> (result: Option<Json>)
    ensures
        store::opt_payload(result) == shortcuts(item@),
{
    match task_of(item) {
        Some(thread) => Some(qq_menu::task_notification_keyboard(thread.as_str(), true)),
        None => None,
    }
}

/// The segments of a notification: those it has, else the pieces of its text.
pub open spec fn segments_of(
    item: ItemView,
    full_reply: bool,
    stamp: Seq<char>,
    assistant: Seq<char>,
) -> Option<Seq<Seq<char>>> {
    match item.segments {
        Some(segments) => Some(segments),
        None => match shown_notification(item, full_reply, stamp, assistant) {
            Some(shown) => Some(
                formatting::chunks(shown, formatting::DEFAULT_CHUNK_SIZE as nat),
            ),
            None => None,
        },
    }
}

/// The segment that is next.
pub open spec fn segment_index_of(item: ItemView) -> nat {
    if item.segments is Some {
        item.segment_index
    } else {
        0
    }
}

/// The state once a notification has its segments.
pub open spec fn segmented(s: StoreView, item: ItemView, segments: Seq<Seq<char>>) -> StoreView {
    if item.segments is Some {
        s
    } else {
        store::row_changed(s, item.id, store::segments_set(segments, 0))
    }
}

/// Begins a delivery: what is muted is suppressed, what is complete is closed,
/// and of anything else the next segment is to be sent. `stamp` is the local
/// time of day of the notification.
pub fn begin_delivery(
    store: &mut Store,
    item: &OutboxItem,
    full_reply: bool,
    stamp: &str,
    assistant: &str,
) -> (result: Result<DeliveryStep, DeliveryError>)
    ensures
        delivery_begun(old(store)@, item@, full_reply, stamp@, assistant@, result, final(store)@),
        store::consistent(old(store)@) ==> store::consistent(final(store)@),
{
    if store.is_muted() {
        let _ = store.mark_outbox(item.id, "suppressed", "notifications muted");
        proof {
            lemma_final_states();
        }
        return Ok(DeliveryStep::Done(DeliveryOutcome::Suppressed));
    }
    let segments = match &item.segments {
        Some(segments) => text::copied_list(segments),
        None => {
            let shown = match notification_text(item, full_reply, stamp, assistant) {
                Ok(shown) => shown,
                Err(error) => {
                    return Err(error);
                },
            };
            let parts = match formatting::split_text(
                shown.as_str(),
                formatting::DEFAULT_CHUNK_SIZE,
            ) {
                Ok(parts) => parts,
                Err(error) => {
                    return Err(DeliveryError::Formatting(error));
                },
            };
            store.prepare_segments(item.id, &parts);
            parts
        },
    };
    let index: usize = if item.segments.is_some() {
        item.segment_index
    } else {
        0
    };
    assert(text::texts(segments@).len() == segments@.len());
    if index >= segments.len() {
        let _ = store.mark_outbox(item.id, "delivered", "already complete");
        proof {
            lemma_final_states();
        }
        return Ok(DeliveryStep::Done(DeliveryOutcome::Delivered));
    }
    let message = match formatting::render_segment(&segments, index) {
        Ok(message) => message,
        Err(error) => {
            return Err(DeliveryError::Formatting(error));
        },
    };
    let last = index >= segments.len() - 1;
    let keyboard = if last {
        notification_keyboard(item)
    } else {
        None
    };
    Ok(DeliveryStep::Send { message, last, keyboard, segments, index })
}

proof fn lemma_final_states()
    ensures
        store::final_state("suppressed"@) == Some(OutboxState::Suppressed),
        store::final_state("delivered"@) == Some(OutboxState::Delivered),
        store::final_state("failed_permanent"@) == Some(OutboxState::FailedPermanent),
{
    reveal_strlit("suppressed");
    reveal_strlit("delivered");
    reveal_strlit("failed_permanent");
    assert("suppressed"@.len() == 10);
    assert("delivered"@.len() == 9);
    assert("failed_permanent"@.len() == 16);
}

/// Two to the power `n`.
pub open spec fn two_to(n: nat) -> nat
    decreases n,
{
    if n == 0 {
        1
    } else {
        2 * two_to((n - 1) as nat)
    }
}

/// How long a delivery waits after a passing error: five seconds, doubled with
/// each attempt up to five minutes, and a random part.
pub open spec fn retry_delay(attempts: nat, jitter: int) -> int {
    let doublings = if attempts < 6 {
        attempts
    } else {
        6
    };
    let seconds = 5 * two_to(doublings);
    clock::moved(
        if seconds < 300 {
            seconds as int * 1_000_000
        } else {
            300_000_000
        },
        jitter,
    )
}

/// How long a delivery waits once messages come too fast.
pub const RATE_DELAY: i64 = 65_000_000;

/// The delay after a passing error.
pub fn transient_delay(attempts: u32, jitter: i64) -> (result: i64)
    ensures
        result == retry_delay(attempts as nat, jitter as int),
{
    proof {
        reveal_with_fuel(two_to, 7);
    }
    let base: i64 = if attempts == 0 {
        5_000_000
    } else if attempts == 1 {
        10_000_000
    } else if attempts == 2 {
        20_000_000
    } else if attempts == 3 {
        40_000_000
    } else if attempts == 4 {
        80_000_000
    } else if attempts == 5 {
        160_000_000
    } else {
        300_000_000
    };
    clock::move_by(base, jitter)
}

/// `segments` with the one at `index` cut in two.
pub open spec fn segment_split(segments: Seq<Seq<char>>, index: int) -> Seq<Seq<char>> {
    let middle = segments[index].len() as int / 2;
    segments.take(index) + seq![segments[index].take(middle), segments[index].skip(middle)]
        + segments.skip(index + 1)
}

/// What the answer of the chat makes of the state. `refusal` holds the messages
/// of the error and its causes when the chat refused, `jitter` the random part
/// of a delay.
pub open spec fn delivery_finished(
    s: StoreView,
    item: ItemView,
    segments: Seq<Seq<char>>,
    index: nat,
    refusal: Option<Seq<Seq<char>>>,
    jitter: int,
    now: i64,
) -> (StoreView, DeliveryOutcome) {
    let advanced = (
        store::row_changed(s, item.id, store::segment_advanced(index, segments.len())),
        if index + 1 >= segments.len() {
            DeliveryOutcome::Delivered
        } else {
            DeliveryOutcome::Advanced
        },
    );
    match refusal {
        None => advanced,
        Some(messages) => {
            let error = security::redacted(if messages.len() > 0 {
                messages[0]
            } else {
                Seq::empty()
            });
            let failed = (
                store::row_changed(
                    s,
                    item.id,
                    store::marked(OutboxState::FailedPermanent, error),
                ),
                DeliveryOutcome::FailedPermanent,
            );
            match category_of(chained(messages)) {
                DeliveryErrorCategory::Length => if segments[index as int].len() > 1 {
                    (
                        store::row_changed(
                            s,
                            item.id,
                            store::segments_set(segment_split(segments, index as int), index),
                        ),
                        DeliveryOutcome::Split,
                    )
                } else {
                    failed
                },
                DeliveryErrorCategory::Duplicate => advanced,
                DeliveryErrorCategory::Permanent => failed,
                DeliveryErrorCategory::Rate => (
                    store::row_changed(
                        s,
                        item.id,
                        store::rescheduled(
                            clock::moved(now as int, RATE_DELAY as int) as i64,
                            error,
                        ),
                    ),
                    DeliveryOutcome::Retry,
                ),
                DeliveryErrorCategory::Transient => (
                    store::row_changed(
                        s,
                        item.id,
                        store::rescheduled(
                            clock::moved(now as int, retry_delay(item.attempts, jitter)) as i64,
                            error,
                        ),
                    ),
                    DeliveryOutcome::Retry,
                ),
            }
        },
    }
}

/// The messages of a refusal.
pub open spec fn opt_messages(refusal: Option<&Vec<String>>) -> Option<Seq<Seq<char>>> {
    match refusal {
        Some(messages) => Some(text::texts(messages@)),
        None => None,
    }
}

fn split_segments(segments: &Vec<String>, index: usize) -> (result: Vec<String>)
    requires
        index < segments@.len(),
        segments@[index as int]@.len() > 1,
    ensures
        text::texts(result@) == segment_split(text::texts(segments@), index as int),
{
    let ghost all = text::texts(segments@);
    let ghost goal = segment_split(all, index as int);
    let mut result: Vec<String> = Vec::new();
    for i in 0..segments.len()
        invariant
            index < segments@.len(),
            segments@[index as int]@.len() > 1,
            all == text::texts(segments@),
            goal == segment_split(all, index as int),
            text::texts(result@) == (if i <= index {
                all.take(i as int)
            } else {
                goal.take(i + 1)
            }),
    {
        let ghost held = text::texts(result@);
        if i == index {
            match formatting::bisect_segment(segments[i].as_str()) {
                Ok((left, right)) => {
                    let ghost l = left@;
                    let ghost r = right@;
                    result.push(left);
                    result.push(right);
                    assert(text::texts(result@) =~= held.push(l).push(r));
                    assert(goal.take(i + 2) =~= held.push(l).push(r));
                },
                Err(_) => {},
            }
        } else {
            result.push(segments[i].clone());
            assert(text::texts(result@) =~= held.push(all[i as int]));
            if i < index {
                assert(all.take(i + 1) =~= held.push(all[i as int]));
            } else {
                assert(goal[i + 1] == all[i as int]);
                assert(goal.take(i + 2) =~= held.push(all[i as int]));
            }
        }
    }
    assert(goal.take(goal.len() as int) =~= goal);
    result
}

/// Ends the delivery of a segment by the answer of the chat: `refusal` holds
/// the messages of the error and of its causes, the error's own first, when the
/// chat refused; `jitter` is the random part of a delay.
pub fn finish_delivery(
    store: &mut Store,
    item: &OutboxItem,
    segments: &Vec<String>,
    index: usize,
    refusal: Option<&Vec<String>>,
    jitter: i64,
    now: i64,
) -> (result: DeliveryOutcome)
    requires
        index < segments@.len(),
    ensures
        (final(store)@, result) == delivery_finished(
            old(store)@,
            item@,
            text::texts(segments@),
            index as nat,
            opt_messages(refusal),
            jitter as int,
            now,
        ),
        store::consistent(old(store)@) ==> store::consistent(final(store)@),
{
    proof {
        lemma_final_states();
    }
    let ended = index >= segments.len() - 1;
    let forward = if ended {
        DeliveryOutcome::Delivered
    } else {
        DeliveryOutcome::Advanced
    };
    let messages = match refusal {
        Some(messages) => messages,
        None => {
            store.advance_segment(item.id, index, segments.len());
            return forward;
        },
    };
    assert(text::texts(messages@).len() == messages@.len());
    let error = if messages.len() > 0 {
        security::redact_secrets(messages[0].as_str())
    } else {
        proof {
            reveal_strlit("");
            assert(""@ =~= Seq::<char>::empty());
        }
        security::redact_secrets("")
    };
    match classify_delivery_error(messages) {
        DeliveryErrorCategory::Length => {
            let chars = text::chars_of(segments[index].as_str());
            if chars.len() > 1 {
                let parts = split_segments(segments, index);
                store.replace_segments(item.id, &parts, index);
                DeliveryOutcome::Split
            } else {
                let _ = store.mark_outbox(item.id, "failed_permanent", error.as_str());
                DeliveryOutcome::FailedPermanent
            }
        },
        DeliveryErrorCategory::Duplicate => {
            store.advance_segment(item.id, index, segments.len());
            forward
        },
        DeliveryErrorCategory::Permanent => {
            let _ = store.mark_outbox(item.id, "failed_permanent", error.as_str());
            DeliveryOutcome::FailedPermanent
        },
        DeliveryErrorCategory::Rate => {
            store.reschedule_at(item.id, RATE_DELAY, error.as_str(), now);
            DeliveryOutcome::Retry
        },
        DeliveryErrorCategory::Transient => {
            let delay: i64 = transient_delay(item.attempts, jitter);
            store.reschedule_at(item.id, delay, error.as_str(), now);
            DeliveryOutcome::Retry
        },
    }
}

/// The time of day of a notification, as a clock shows it that has the given
/// offset then.
pub open spec fn day_time(item: ItemView, offset: i32) -> Seq<char> {
    match clock::zone_shown(notification_time(item), offset, "%H:%M:%S"@) {
        Some(shown) => shown,
        None => "00:00:00"@,
    }
}

/// The local time of day of a notification. The zone of the machine is left
/// open.
pub fn local_stamp(item: &OutboxItem) -> (result: String)
    ensures
        exists|offset: i32|
            clock::told(notification_time(item@), offset, "%H:%M:%S"@) && result@ == #[trigger]
                day_time(item@, offset),
{
    let at: i64 = notification_stamp(item);
    let shown = clock::local_time(at, "%H:%M:%S");
    let ghost offset = choose|offset: i32|
        clock::told(at as int, offset, "%H:%M:%S"@) && text::opt_text(shown) == #[trigger]
            clock::zone_shown(at as int, offset, "%H:%M:%S"@);
    let result = match shown {
        Some(shown) => shown,
        None => "00:00:00".to_owned(),
    };
    assert(result@ == day_time(item@, offset));
    result
}

/// The text of a notification at the local time of day.
pub fn local_notification(item: &OutboxItem, full_reply: bool, assistant: &str) -> (result: Result<
    String,
    DeliveryError,
>)
    ensures
        exists|offset: i32|
            clock::told(notification_time(item@), offset, "%H:%M:%S"@) && ({
                let stamp = #[trigger] day_time(item@, offset);
                match result {
                    Ok(shown) => shown_notification(item@, full_reply, stamp, assistant@) == Some(
                        shown@,
                    ),
                    Err(DeliveryError::UnknownKind(kind)) => shown_notification(
                        item@,
                        full_reply,
                        stamp,
                        assistant@,
                    ) is None && kind@ == item.kind@,
                    Err(_) => false,
                }
            }),
{
    let stamp = local_stamp(item);
    notification_text(item, full_reply, stamp.as_str(), assistant)
}

/// What `begin_delivery` gives, and the state after it, for the local time of
/// day `stamp`.
pub open spec fn delivery_begun(
    s: StoreView,
    item: ItemView,
    full_reply: bool,
    stamp: Seq<char>,
    assistant: Seq<char>,
    result: Result<DeliveryStep, DeliveryError>,
    after: StoreView,
) -> bool {
    let segments = segments_of(item, full_reply, stamp, assistant);
    let index = segment_index_of(item);
    match result {
        Ok(DeliveryStep::Done(outcome)) => if store::muted(s) {
            outcome == DeliveryOutcome::Suppressed && after == store::row_changed(
                s,
                item.id,
                store::marked(OutboxState::Suppressed, "notifications muted"@),
            )
        } else {
            &&& outcome == DeliveryOutcome::Delivered
            &&& segments is Some
            &&& index >= segments->0.len()
            &&& after == store::row_changed(
                segmented(s, item, segments->0),
                item.id,
                store::marked(OutboxState::Delivered, "already complete"@),
            )
        },
        Ok(DeliveryStep::Send { message, last, keyboard, segments: parts, index: at }) => {
            &&& !store::muted(s)
            &&& segments == Some(text::texts(parts@))
            &&& at == index
            &&& at < parts@.len()
            &&& message@ == formatting::rendered(segments->0, at as int)
            &&& last == (at + 1 >= parts@.len())
            &&& store::opt_payload(keyboard) == (if last {
                shortcuts(item)
            } else {
                None
            })
            &&& after == segmented(s, item, segments->0)
        },
        Err(DeliveryError::UnknownKind(kind)) => !store::muted(s) && segments is None && kind@
            == item.kind && after == s,
        Err(_) => false,
    }
}

/// The most that a random delay adds, in microseconds.
pub const JITTER: i64 = 2_000_000;

/// Begins a delivery at the local time of day, or closes it; see
/// `begin_delivery`. Once the chat has answered, `settle_item` ends it.
pub fn deliver_item(
    store: &mut Store,
    item: &OutboxItem,
    full_reply: bool,
    assistant: &str,
) -> (result: Result<DeliveryStep, DeliveryError>)
    ensures
        exists|offset: i32|
            clock::told(notification_time(item@), offset, "%H:%M:%S"@) && delivery_begun(
                old(store)@,
                item@,
                full_reply,
                #[trigger] day_time(item@, offset),
                assistant@,
                result,
                final(store)@,
            ),
        store::consistent(old(store)@) ==> store::consistent(final(store)@),
{
    let stamp = local_stamp(item);
    begin_delivery(store, item, full_reply, stamp.as_str(), assistant)
}

/// Ends the delivery of a segment by the answer of the chat; see
/// `finish_delivery`. The random part of a delay is less than two seconds.
pub fn settle_item(
    store: &mut Store,
    item: &OutboxItem,
    segments: &Vec<String>,
    index: usize,
    refusal: Option<&Vec<String>>,
    now: i64,
) -> (result: DeliveryOutcome)
    requires
        index < segments@.len(),
    ensures
        exists|jitter: int|
            0 <= jitter < JITTER && (final(store)@, result) == #[trigger] delivery_finished(
                old(store)@,
                item@,
                text::texts(segments@),
                index as nat,
                opt_messages(refusal),
                jitter,
                now,
            ),
        store::consistent(old(store)@) ==> store::consistent(final(store)@),
{
    let jitter: i64 = chance::draw_below(JITTER);
    finish_delivery(store, item, segments, index, refusal, jitter, now)
}

/// The notification of a failed turn offers to look at its task and to go on
/// with it.
pub proof fn lemma_failure_offers_its_task(item: ItemView, failure: store::FailureView)
    requires
        failure.thread_id.len() > 0,
        item.kind == "turn_failed"@,
        item.event_key == store::failure_key(failure),
        item.turn_id == Some(failure.turn_id),
    ensures
        shortcuts(item) == Some(
            qq_menu::keyboard_json(qq_menu::notification_rows(failure.thread_id, true)),
        ),
{
    reveal_strlit("turn_failed");
    reveal_strlit("final_reply");
    reveal_strlit("turn_ended_without_reply");
    assert("turn_failed"@[0] != "final_reply"@[0]);
    assert("turn_failed"@.len() != "turn_ended_without_reply"@.len());
    let key = item.event_key;
    let head = "turn_failed:"@;
    let tail = ":"@ + failure.turn_id;
    assert(key.subrange(0, head.len() as int) =~= head);
    assert(key.subrange(key.len() - tail.len(), key.len() as int) =~= tail);
    assert(key.subrange(head.len() as int, key.len() - tail.len()) =~= failure.thread_id);
}

/// The notification of a turn that ended offers to look at its task and to go
/// on with it, where the event names one.
pub proof fn lemma_ending_offers_its_task(
    item: ItemView,
    event: JsonView,
    notify: bool,
    now: i64,
)
    requires
        crate::hook_event::event_name(event) == "Stop"@,
        store::event_thread(event).len() > 0,
        store::event_thread(event) != "unknown"@,
        Some(item.kind) == store::hook_plan(event, notify, now).kind,
        item.payload == store::hook_plan(event, notify, now).payload,
    ensures
        shortcuts(item) == Some(
            qq_menu::keyboard_json(qq_menu::notification_rows(store::event_thread(event), true)),
        ),
{
    reveal_strlit("Stop");
    reveal_strlit("UserPromptSubmit");
    reveal_strlit("PermissionRequest");
    reveal_strlit("PostToolUse");
    reveal_strlit("project");
    reveal_strlit("model");
    reveal_strlit("content");
    reveal_strlit("created_at");
    reveal_strlit("thread_id");
    assert("Stop"@.len() == 4);
    assert("thread_id"@.len() == 9);
    reveal_with_fuel(json::member_of, 6);
}

/// A delivery is tried again after five seconds at the earliest and after five
/// minutes and the random part at the latest.
pub proof fn lemma_retry_is_bounded(attempts: nat, jitter: int)
    requires
        0 <= jitter <= JITTER,
    ensures
        5_000_000 <= retry_delay(attempts, jitter) <= 300_000_000 + jitter,
{
    reveal_with_fuel(two_to, 7);
}

// ---------------------------------------------------------------------------
// Every segment is sent
// ---------------------------------------------------------------------------

/// Once the chat has a segment, because it took it or because it had it before,
/// the notification goes on with the very next one, at once; it is delivered
/// with its last one and not before. Nothing else changes.
pub proof fn lemma_sent_segment_leads_to_the_next(
    s: StoreView,
    item: ItemView,
    segments: Seq<Seq<char>>,
    index: nat,
    refusal: Option<Seq<Seq<char>>>,
    jitter: int,
    now: i64,
    k: int,
)
    requires
        index < segments.len(),
        refusal matches Some(messages) ==> category_of(chained(messages))
            == DeliveryErrorCategory::Duplicate,
        0 <= k < s.outbox.len(),
    ensures
        ({
            let (after, outcome) = delivery_finished(
                s,
                item,
                segments,
                index,
                refusal,
                jitter,
                now,
            );
            let row = s.outbox[k];
            &&& after == (StoreView { outbox: after.outbox, ..s })
            &&& after.outbox.len() == s.outbox.len()
            &&& row.id != item.id ==> after.outbox[k] == row
            &&& index + 1 < segments.len() ==> outcome == DeliveryOutcome::Advanced
            &&& index + 1 == segments.len() ==> outcome == DeliveryOutcome::Delivered
            &&& row.id == item.id && index + 1 < segments.len() ==> after.outbox[k] == (
            store::OutboxView {
                segment_index: index + 1,
                attempts: 0,
                next_attempt_at: 0,
                last_error: None,
                ..row
            })
            &&& row.id == item.id && index + 1 == segments.len() ==> after.outbox[k] == (
            store::OutboxView {
                state: OutboxState::Delivered,
                segment_index: segments.len(),
                last_error: None,
                ..row
            })
        }),
{
}

/// A segment that the chat refused is not passed over: the notification does
/// not count as delivered, and where it is tried again it is with the segment
/// that was refused. What comes too fast waits longer than a minute, what
/// failed in passing at least five seconds, what can never be accepted ends.
/// What is too long is cut, so that the segments still make the same text.
pub proof fn lemma_refused_segment_is_not_passed_over(
    s: StoreView,
    item: ItemView,
    segments: Seq<Seq<char>>,
    index: nat,
    messages: Seq<Seq<char>>,
    jitter: int,
    now: i64,
    k: int,
)
    requires
        index < segments.len(),
        category_of(chained(messages)) != DeliveryErrorCategory::Duplicate,
        0 <= jitter <= JITTER,
        0 <= now <= i64::MAX - 400_000_000,
        0 <= k < s.outbox.len(),
        s.outbox[k].id == item.id,
        s.outbox[k].state == OutboxState::Pending,
        s.outbox[k].segments == Some(segments),
        s.outbox[k].segment_index == index,
    ensures
        ({
            let (after, outcome) = delivery_finished(
                s,
                item,
                segments,
                index,
                Some(messages),
                jitter,
                now,
            );
            let row = s.outbox[k];
            let then = after.outbox[k];
            let category = category_of(chained(messages));
            let too_long = category == DeliveryErrorCategory::Length;
            &&& then.state != OutboxState::Delivered
            &&& then.segment_index == index
            &&& then.payload == row.payload
            &&& category == DeliveryErrorCategory::Rate ==> {
                &&& outcome == DeliveryOutcome::Retry
                &&& then.state == OutboxState::Pending
                &&& then.segments == Some(segments)
                &&& then.next_attempt_at == now + 65_000_000
            }
            &&& category == DeliveryErrorCategory::Transient ==> {
                &&& outcome == DeliveryOutcome::Retry
                &&& then.state == OutboxState::Pending
                &&& then.segments == Some(segments)
                &&& now + 5_000_000 <= then.next_attempt_at <= now + 300_000_000 + jitter
                &&& then.attempts == row.attempts + 1 || row.attempts >= u32::MAX
            }
            &&& category == DeliveryErrorCategory::Permanent || (too_long
                && segments[index as int].len() <= 1) ==> {
                &&& outcome == DeliveryOutcome::FailedPermanent
                &&& then.state == OutboxState::FailedPermanent
            }
            &&& too_long && segments[index as int].len() > 1 ==> {
                &&& outcome == DeliveryOutcome::Split
                &&& then.state == OutboxState::Pending
                &&& then.next_attempt_at == row.next_attempt_at
                &&& then.segments matches Some(parts) && {
                    &&& parts.len() == segments.len() + 1
                    &&& parts.take(index as int) == segments.take(index as int)
                    &&& parts[index as int] + parts[(index + 1) as int] == segments[index as int]
                    &&& 0 < parts[index as int].len() < segments[index as int].len()
                    &&& parts.skip((index + 2) as int) == segments.skip((index + 1) as int)
                }
            }
        }),
{
    lemma_retry_is_bounded(item.attempts, jitter);
    if segments[index as int].len() > 1 {
        let segment = segments[index as int];
        let parts = segment_split(segments, index as int);
        assert(parts.take(index as int) =~= segments.take(index as int));
        assert(parts[index as int] + parts[(index + 1) as int] =~= segment);
        assert(parts.skip((index + 2) as int) =~= segments.skip((index + 1) as int));
    }
}

/// The wait after an error that passes doubles with every attempt from five
/// seconds on, up to five minutes.
pub proof fn lemma_retry_doubles(attempts: nat)
    ensures
        retry_delay(0, 0) == 5_000_000,
        attempts < 5 ==> retry_delay(attempts + 1, 0) == 2 * retry_delay(attempts, 0),
        attempts >= 6 ==> retry_delay(attempts, 0) == 300_000_000,
{
    reveal_with_fuel(two_to, 7);
}

/// The state after `n` segments of a notification were accepted one after
/// another, each the one at which the notification stood.
pub open spec fn after_sends(
    s: StoreView,
    item: ItemView,
    segments: Seq<Seq<char>>,
    k: int,
    n: nat,
    now: i64,
) -> StoreView
    decreases n,
{
    if n == 0 {
        s
    } else {
        let before = after_sends(s, item, segments, k, (n - 1) as nat, now);
        delivery_finished(
            before,
            item,
            segments,
            before.outbox[k].segment_index,
            None,
            0,
            now,
        ).0
    }
}

/// A notification sends its segments from the first to the last, each once: as
/// long as some are left it is pending and stands at the next one, and with the
/// last one it is delivered.
pub proof fn lemma_segments_leave_in_order(
    s: StoreView,
    item: ItemView,
    segments: Seq<Seq<char>>,
    k: int,
    n: nat,
    now: i64,
)
    requires
        0 <= k < s.outbox.len(),
        s.outbox[k].id == item.id,
        s.outbox[k].state == OutboxState::Pending,
        s.outbox[k].segment_index == 0,
        n <= segments.len(),
        segments.len() > 0,
    ensures
        ({
            let row = after_sends(s, item, segments, k, n, now).outbox[k];
            &&& row.id == item.id
            &&& row.segment_index == n
            &&& row.segments == s.outbox[k].segments
            &&& n < segments.len() ==> row.state == OutboxState::Pending
            &&& n == segments.len() ==> row.state == OutboxState::Delivered
        }),
        after_sends(s, item, segments, k, n, now).outbox.len() == s.outbox.len(),
    decreases n,
{
    if n > 0 {
        lemma_segments_leave_in_order(s, item, segments, k, (n - 1) as nat, now);
        let before = after_sends(s, item, segments, k, (n - 1) as nat, now);
        lemma_sent_segment_leads_to_the_next(
            before,
            item,
            segments,
            (n - 1) as nat,
            None,
            0,
            now,
            k,
        );
    }
}

/// What is sent of a notification is the segment at which it stands, behind its
/// place where there are several; one without segments begins with the first
/// piece of its text, and its pieces make up that text. The end of it is told.
pub proof fn lemma_next_segment_is_sent(
    s: StoreView,
    item: ItemView,
    full_reply: bool,
    stamp: Seq<char>,
    assistant: Seq<char>,
    result: Result<DeliveryStep, DeliveryError>,
    after: StoreView,
)
    requires
        delivery_begun(s, item, full_reply, stamp, assistant, result, after),
    ensures
        store::setting(s, "muted"@) == Some("1"@) ==> result matches Ok(
            DeliveryStep::Done(DeliveryOutcome::Suppressed),
        ),
        result matches Ok(DeliveryStep::Send { message, last, keyboard, segments, index }) ==> {
            &&& index < segments@.len()
            &&& text::ends(message@, segments@[index as int]@)
            &&& segments@.len() == 1 ==> message@ == segments@[0]@
            &&& segments@.len() > 1 ==> message@ == "["@ + text::decimal((index + 1) as nat) + "/"@
                + text::decimal(segments@.len()) + "]\n"@ + segments@[index as int]@
            &&& last == (index + 1 == segments@.len())
            &&& item.segments matches Some(parts) ==> index == item.segment_index && text::texts(
                segments@,
            ) == parts && after == s
            &&& item.segments is None ==> {
                &&& index == 0
                &&& shown_notification(item, full_reply, stamp, assistant) == Some(
                    formatting::concatenated(text::texts(segments@)),
                )
                &&& forall|k: int|
                    0 <= k < s.outbox.len() && s.outbox[k].id == item.id ==> (
                    #[trigger] after.outbox[k]).segments == Some(text::texts(segments@))
                        && after.outbox[k].segment_index == 0 && after.outbox[k].state
                        == s.outbox[k].state
            }
        },
        result matches Ok(DeliveryStep::Done(DeliveryOutcome::Delivered)) ==> item.segments matches Some(
            parts,
        ) && item.segment_index >= parts.len(),
        forall|k: int|
            0 <= k < s.outbox.len() && s.outbox[k].id != item.id ==> #[trigger] after.outbox[k]
                == s.outbox[k],
{
    if item.segments is None {
        match shown_notification(item, full_reply, stamp, assistant) {
            Some(shown) => formatting::lemma_chunks(
                shown,
                formatting::DEFAULT_CHUNK_SIZE as nat,
            ),
            None => {},
        }
    }
    if let Ok(DeliveryStep::Send { message, last, keyboard, segments, index }) = result {
        let part = segments@[index as int]@;
        assert(text::texts(segments@)[index as int] == part);
        assert(message@.subrange(message@.len() - part.len(), message@.len() as int) =~= part);
    }
}

/// A notification shows what its payload holds: the reply of the other
/// assistant word for word and alone, a full reply at its end, a request for
/// permission with its tool and its reason, a failure with its error.
pub proof fn lemma_notification_shows_its_payload(
    item: ItemView,
    key: Seq<char>,
    value: Seq<char>,
    full_reply: bool,
    stamp: Seq<char>,
    assistant: Seq<char>,
)
    requires
        item.payload.get(key) == Some(JsonView::Text(value)),
        value.len() > 0,
    ensures
        ({
            let shown = shown_notification(item, full_reply, stamp, assistant);
            &&& key == "content"@ && (item.kind == "claude_reply"@ || item.kind == "claude_failed"@)
                ==> shown == Some(value)
            &&& key == "content"@ && item.kind == "final_reply"@ && full_reply ==> shown is Some
                && text::ends(shown->0, value)
            &&& (key == "tool"@ || key == "reason"@ || key == "project"@) && item.kind
                == "permission_required"@ ==> shown is Some && text::occurs(shown->0, value)
            &&& (key == "error"@ || key == "project"@) && item.kind == "turn_failed"@ ==> shown
                is Some && text::occurs(shown->0, value)
            &&& key == "project"@ && (item.kind == "final_reply"@ || item.kind
                == "turn_ended_without_reply"@) ==> shown is Some && text::occurs(shown->0, value)
        }),
{
    lemma_kinds_differ();
    let payload = item.payload;
    let project = payload_shown(payload, "project"@, "unknown"@);
    let tool = payload_shown(payload, "tool"@, "unknown"@);
    let reason = payload_shown(payload, "reason"@, "需要确认的操作"@);
    if item.kind == "permission_required"@ {
        let shown = shown_notification(item, full_reply, stamp, assistant)->0;
        let a = "⏳ Codex 出现权限请求\n项目："@;
        let b = a + project + "\n工具："@;
        let c = b + tool + "\n原因："@;
        lemma_stands(shown, a, project);
        lemma_stands(shown, b, tool);
        lemma_stands(shown, c, reason);
    } else if item.kind == "turn_failed"@ {
        let shown = failure_text(payload);
        let error = payload_shown(payload, "error"@, "Codex 请求失败"@);
        let a = "❌ Codex 本轮失败\n项目："@;
        let b = a + project + "\n错误："@;
        lemma_stands(shown, a, project);
        lemma_stands(shown, b, error);
    } else if item.kind == "final_reply"@ {
        let shown = shown_notification(item, full_reply, stamp, assistant)->0;
        if full_reply {
            lemma_stands(shown, "✅ Codex 回复\n项目："@, project);
            let content = payload_shown(payload, "content"@, "（没有可显示的回复）"@);
            assert(shown.subrange(shown.len() - content.len(), shown.len() as int) =~= content);
        } else {
            lemma_stands(shown, "✅ Codex 本轮已结束\n项目："@, project);
        }
    } else if item.kind == "turn_ended_without_reply"@ {
        let shown = shown_notification(item, full_reply, stamp, assistant)->0;
        lemma_stands(
            shown,
            "⚠️ Codex 本轮结束但没有最终回复，可能中断或失败，请回电脑检查\n项目："@,
            project,
        );
    }
}

/// A part that stands behind the beginning of a text occurs in it.
proof fn lemma_stands(text: Seq<char>, head: Seq<char>, part: Seq<char>)
    requires
        text.len() >= head.len() + part.len(),
        text.subrange(head.len() as int, (head.len() + part.len()) as int) =~= part,
    ensures
        text::occurs(text, part),
{
    assert(text::occurs_at(text, part, head.len() as int));
}

proof fn lemma_kinds_differ()
    ensures
        "task_started"@.len() == 12,
        "permission_required"@.len() == 19,
        "final_reply"@.len() == 11,
        "claude_reply"@.len() == 12,
        "claude_failed"@.len() == 13,
        "turn_ended_without_reply"@.len() == 24,
        "turn_failed"@.len() == 11,
        "claude_reply"@ != "task_started"@,
        "final_reply"@ != "turn_failed"@,
{
    reveal_strlit("task_started");
    reveal_strlit("permission_required");
    reveal_strlit("final_reply");
    reveal_strlit("claude_reply");
    reveal_strlit("claude_failed");
    reveal_strlit("turn_ended_without_reply");
    reveal_strlit("turn_failed");
    assert("claude_reply"@[0] != "task_started"@[0]);
    assert("final_reply"@[0] != "turn_failed"@[0]);
}

} // verus!
