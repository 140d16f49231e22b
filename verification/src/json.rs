//! JSON values as plain data, with the readings that the rest of the library
//! makes of them.
use vstd::prelude::*;
use vstd::utf8;
use crate::text;
use crate::text::{decimal_text, signed_decimal_text, text_eq};

verus! {

// ---------------------------------------------------------------------------
// Model
// ---------------------------------------------------------------------------

/// A JSON number. A number that is no integer of 64 bits is kept in its
/// notation.
#[derive(Debug, PartialEq, Eq)]
pub enum JsonNumber {
    Unsigned(u64),
    Negative(i64),
    Float(String),
}

/// A JSON value. The members of an object stand in the order in which they are
/// written out.
#[derive(Debug, PartialEq, Eq)]
pub enum Json {
    Null,
    Bool(bool),
    Number(JsonNumber),
    Text(String),
    List(Vec<Json>),
    Object(Vec<(String, Json)>),
}

/// What a JSON number is.
pub enum NumberView {
    Unsigned(nat),
    Negative(int),
    Float(Seq<char>),
}

/// What a JSON value is.
pub enum JsonView {
    Null,
    Bool(bool),
    Number(NumberView),
    Text(Seq<char>),
    List(Seq<JsonView>),
    Object(Seq<(Seq<char>, JsonView)>),
}

impl JsonNumber {
    pub open spec fn view(&self) -> NumberView {
        match self {
            JsonNumber::Unsigned(n) => NumberView::Unsigned(*n as nat),
            JsonNumber::Negative(n) => NumberView::Negative(*n as int),
            JsonNumber::Float(text) => NumberView::Float(text@),
        }
    }
}

impl Json {
    pub open spec fn view(&self) -> JsonView
        decreases self,
    {
        match self {
            Json::Null => JsonView::Null,
            Json::Bool(value) => JsonView::Bool(*value),
            Json::Number(number) => JsonView::Number(number@),
            Json::Text(text) => JsonView::Text(text@),
            Json::List(items) => JsonView::List(
                Seq::new(
                    items@.len(),
                    |i: int|
                        if 0 <= i < items@.len() {
                            items@[i].view()
                        } else {
                            JsonView::Null
                        },
                ),
            ),
            Json::Object(members) => JsonView::Object(
                Seq::new(
                    members@.len(),
                    |i: int|
                        if 0 <= i < members@.len() {
                            (members@[i].0@, members@[i].1.view())
                        } else {
                            (Seq::empty(), JsonView::Null)
                        },
                ),
            ),
        }
    }
}

/// The values that a list of JSON values holds.
pub open spec fn values(items: Seq<Json>) -> Seq<JsonView> {
    Seq::new(items.len(), |i: int| items[i]@)
}

/// The members that a list of named JSON values holds.
pub open spec fn members(items: Seq<(String, Json)>) -> Seq<(Seq<char>, JsonView)> {
    Seq::new(items.len(), |i: int| (items[i].0@, items[i].1@))
}

/// What an optional JSON value holds.
pub open spec fn opt_json(value: Option<&Json>) -> Option<JsonView> {
    match value {
        Some(json) => Some(json@),
        None => None,
    }
}

/// The value of the first member called `key`.
pub open spec fn member_of(
    members: Seq<(Seq<char>, JsonView)>,
    key: Seq<char>,
) -> Option<JsonView>
    decreases members.len(),
{
    if members.len() == 0 {
        None
    } else if members[0].0 == key {
        Some(members[0].1)
    } else {
        member_of(members.drop_first(), key)
    }
}

impl JsonView {
    /// The member `key` of an object.
    pub open spec fn get(self, key: Seq<char>) -> Option<JsonView> {
        match self {
            JsonView::Object(members) => member_of(members, key),
            _ => None,
        }
    }

    pub open spec fn text(self) -> Option<Seq<char>> {
        match self {
            JsonView::Text(text) => Some(text),
            _ => None,
        }
    }

    pub open spec fn bool(self) -> Option<bool> {
        match self {
            JsonView::Bool(value) => Some(value),
            _ => None,
        }
    }

    pub open spec fn list(self) -> Option<Seq<JsonView>> {
        match self {
            JsonView::List(items) => Some(items),
            _ => None,
        }
    }

    /// The number as an integer of 64 bits without sign.
    pub open spec fn unsigned(self) -> Option<nat> {
        match self {
            JsonView::Number(NumberView::Unsigned(n)) => Some(n),
            _ => None,
        }
    }

    /// The number as an integer of 64 bits with sign.
    pub open spec fn signed(self) -> Option<int> {
        match self {
            JsonView::Number(NumberView::Unsigned(n)) => if n <= i64::MAX {
                Some(n as int)
            } else {
                None
            },
            JsonView::Number(NumberView::Negative(n)) => Some(n),
            _ => None,
        }
    }

    /// The text of the member `key`.
    pub open spec fn text_at(self, key: Seq<char>) -> Option<Seq<char>> {
        opt_text_of(self.get(key))
    }
}

/// The member `key` of an optional value.
pub open spec fn opt_get(value: Option<JsonView>, key: Seq<char>) -> Option<JsonView> {
    match value {
        Some(json) => json.get(key),
        None => None,
    }
}

/// The text that an optional value is.
pub open spec fn opt_text_of(value: Option<JsonView>) -> Option<Seq<char>> {
    match value {
        Some(json) => json.text(),
        None => None,
    }
}

// ---------------------------------------------------------------------------
// Notation
// ---------------------------------------------------------------------------

/// The lower-case hexadecimal digit of a value below sixteen.
pub open spec fn hex_digit(n: nat) -> char {
    if n < 10 {
        (48 + n) as char
    } else {
        (87 + n) as char
    }
}

/// How a character is written inside a JSON string.
pub open spec fn escaped(c: char) -> Seq<char> {
    let n = c as nat;
    if n == 0x22 || n == 0x5c {
        seq!['\\', c]
    } else if n == 0x8 {
        seq!['\\', 'b']
    } else if n == 0x9 {
        seq!['\\', 't']
    } else if n == 0xa {
        seq!['\\', 'n']
    } else if n == 0xc {
        seq!['\\', 'f']
    } else if n == 0xd {
        seq!['\\', 'r']
    } else if n < 0x20 {
        seq!['\\', 'u', '0', '0', hex_digit(n / 16), hex_digit(n % 16)]
    } else {
        seq![c]
    }
}

/// The characters of a text as they are written inside a JSON string.
pub open spec fn escaped_text(text: Seq<char>) -> Seq<char>
    decreases text.len(),
{
    if text.len() == 0 {
        Seq::empty()
    } else {
        escaped_text(text.drop_last()) + escaped(text.last())
    }
}

/// A text as a JSON string.
pub open spec fn quoted(text: Seq<char>) -> Seq<char> {
    seq!['"'] + escaped_text(text) + seq!['"']
}

pub open spec fn number_text(number: NumberView) -> Seq<char> {
    match number {
        NumberView::Unsigned(n) => crate::text::decimal(n),
        NumberView::Negative(n) => crate::text::signed_decimal(n),
        NumberView::Float(text) => text,
    }
}

/// A member name with its written value.
pub open spec fn member_text(member: (Seq<char>, Seq<char>), colon: Seq<char>) -> Seq<char> {
    quoted(member.0) + colon + member.1
}

pub open spec fn member_texts(
    members: Seq<(Seq<char>, Seq<char>)>,
    colon: Seq<char>,
) -> Seq<Seq<char>> {
    Seq::new(members.len(), |i: int| member_text(members[i], colon))
}

/// Whether `left` stands before `right` or equals it in the order of code
/// points.
pub open spec fn text_le(left: Seq<char>, right: Seq<char>) -> bool
    decreases left.len(),
{
    if left.len() == 0 {
        true
    } else if right.len() == 0 {
        false
    } else if left[0] == right[0] {
        text_le(left.drop_first(), right.drop_first())
    } else {
        (left[0] as int) < (right[0] as int)
    }
}

/// `sorted` with `member` put behind every member whose name is not greater.
pub open spec fn with_member(
    sorted: Seq<(Seq<char>, Seq<char>)>,
    member: (Seq<char>, Seq<char>),
) -> Seq<(Seq<char>, Seq<char>)>
    decreases sorted.len(),
{
    if sorted.len() == 0 || text_le(sorted.last().0, member.0) {
        sorted.push(member)
    } else {
        with_member(sorted.drop_last(), member).push(sorted.last())
    }
}

/// `members` in the order of their names.
pub open spec fn by_name(members: Seq<(Seq<char>, Seq<char>)>) -> Seq<(Seq<char>, Seq<char>)>
    decreases members.len(),
{
    if members.len() == 0 {
        members
    } else {
        with_member(by_name(members.drop_last()), members.last())
    }
}

/// How a value is written: `comma` between neighbours, `colon` behind a name,
/// and the members of an object in the order of their names if `sorted`.
pub open spec fn written(
    value: JsonView,
    comma: Seq<char>,
    colon: Seq<char>,
    sorted: bool,
) -> Seq<char>
    decreases value,
{
    match value {
        JsonView::Null => "null"@,
        JsonView::Bool(b) => if b {
            "true"@
        } else {
            "false"@
        },
        JsonView::Number(number) => number_text(number),
        JsonView::Text(text) => quoted(text),
        JsonView::List(items) => "["@ + crate::text::joined(
            written_items(items, comma, colon, sorted),
            comma,
        ) + "]"@,
        JsonView::Object(members) => {
            let named = written_members(members, comma, colon, sorted);
            let ordered = if sorted {
                by_name(named)
            } else {
                named
            };
            "{"@ + crate::text::joined(member_texts(ordered, colon), comma) + "}"@
        },
    }
}

/// How each item of a list is written.
pub open spec fn written_items(
    items: Seq<JsonView>,
    comma: Seq<char>,
    colon: Seq<char>,
    sorted: bool,
) -> Seq<Seq<char>>
    decreases items,
{
    Seq::new(
        items.len(),
        |i: int|
            if 0 <= i < items.len() {
                written(items[i], comma, colon, sorted)
            } else {
                Seq::empty()
            },
    )
}

/// Each member of an object with its value as it is written.
pub open spec fn written_members(
    members: Seq<(Seq<char>, JsonView)>,
    comma: Seq<char>,
    colon: Seq<char>,
    sorted: bool,
) -> Seq<(Seq<char>, Seq<char>)>
    decreases members,
{
    Seq::new(
        members.len(),
        |i: int|
            if 0 <= i < members.len() {
                (members[i].0, written(members[i].1, comma, colon, sorted))
            } else {
                (Seq::empty(), Seq::empty())
            },
    )
}

/// The notation without any white space, members in the order they stand.
pub open spec fn compact_json(value: JsonView) -> Seq<char> {
    written(value, ","@, ":"@, false)
}

/// The notation with a space behind each comma and colon and the members in
/// the order of their names.
pub open spec fn python_json(value: JsonView) -> Seq<char> {
    written(value, ", "@, ": "@, true)
}

// ---------------------------------------------------------------------------
// The order of names
// ---------------------------------------------------------------------------

/// The names of `members` stand in ascending order.
pub open spec fn in_order(members: Seq<(Seq<char>, Seq<char>)>) -> bool {
    forall|i: int, j: int|
        0 <= i <= j < members.len() ==> text_le(#[trigger] members[i].0, #[trigger] members[j].0)
}

proof fn lemma_text_le_refl(text: Seq<char>)
    ensures
        text_le(text, text),
    decreases text.len(),
{
    if text.len() > 0 {
        lemma_text_le_refl(text.drop_first());
    }
}

proof fn lemma_text_le_total(left: Seq<char>, right: Seq<char>)
    ensures
        text_le(left, right) || text_le(right, left),
    decreases left.len(),
{
    if left.len() > 0 && right.len() > 0 {
        lemma_text_le_total(left.drop_first(), right.drop_first());
        if left[0] != right[0] {
            assert(left[0] as int != right[0] as int);
            assert(text_le(left, right) == ((left[0] as int) < (right[0] as int)));
            assert(text_le(right, left) == ((right[0] as int) < (left[0] as int)));
        }
    } else {
        assert(left.len() == 0 ==> text_le(left, right));
        assert(right.len() == 0 ==> text_le(right, left));
    }
}

proof fn lemma_text_le_trans(a: Seq<char>, b: Seq<char>, c: Seq<char>)
    requires
        text_le(a, b),
        text_le(b, c),
    ensures
        text_le(a, c),
    decreases a.len(),
{
    if a.len() > 0 && b.len() > 0 && c.len() > 0 {
        if a[0] == b[0] && b[0] == c[0] {
            lemma_text_le_trans(a.drop_first(), b.drop_first(), c.drop_first());
        }
    }
}

proof fn lemma_with_member(
    sorted: Seq<(Seq<char>, Seq<char>)>,
    member: (Seq<char>, Seq<char>),
)
    requires
        in_order(sorted),
    ensures
        in_order(with_member(sorted, member)),
        with_member(sorted, member).len() == sorted.len() + 1,
        with_member(sorted, member).to_multiset() == sorted.to_multiset().insert(member),
        forall|i: int|
            0 <= i < with_member(sorted, member).len() ==> {
                let put = #[trigger] with_member(sorted, member)[i];
                put == member || sorted.contains(put)
            },
    decreases sorted.len(),
{
    broadcast use vstd::seq_lib::group_to_multiset_ensures;

    let result = with_member(sorted, member);
    if sorted.len() == 0 || text_le(sorted.last().0, member.0) {
        assert forall|i: int, j: int| 0 <= i <= j < result.len() implies text_le(
            #[trigger] result[i].0,
            #[trigger] result[j].0,
        ) by {
            if i == j {
                lemma_text_le_refl(result[i].0);
            } else if j == sorted.len() {
                assert(text_le(sorted[i].0, sorted[sorted.len() - 1].0));
                lemma_text_le_trans(sorted[i].0, sorted.last().0, member.0);
            }
        }
    } else {
        let rest = sorted.drop_last();
        assert forall|i: int, j: int| 0 <= i <= j < rest.len() implies text_le(
            #[trigger] rest[i].0,
            #[trigger] rest[j].0,
        ) by {
            assert(rest[i] == sorted[i]);
            assert(rest[j] == sorted[j]);
        }
        lemma_with_member(rest, member);
        let inner = with_member(rest, member);
        lemma_text_le_total(sorted.last().0, member.0);
        assert forall|i: int|
            #![trigger result[i]]
            0 <= i < result.len() implies text_le(result[i].0, sorted.last().0) && (result[i]
            == member || sorted.contains(result[i])) by {
            if i < inner.len() {
                assert(result[i] == inner[i]);
                if inner[i] != member {
                    let k = choose|k: int| 0 <= k < rest.len() && rest[k] == inner[i];
                    assert(sorted[k] == inner[i]);
                    assert(text_le(sorted[k].0, sorted[sorted.len() - 1].0));
                }
            } else {
                lemma_text_le_refl(sorted.last().0);
                assert(sorted[sorted.len() - 1] == result[i]);
            }
        }
        assert forall|i: int, j: int| 0 <= i <= j < result.len() implies text_le(
            #[trigger] result[i].0,
            #[trigger] result[j].0,
        ) by {
            if j < inner.len() {
                assert(result[i] == inner[i] && result[j] == inner[j]);
            }
        }
        assert(rest.push(sorted.last()) =~= sorted);
        assert(sorted.to_multiset() =~= rest.to_multiset().insert(sorted.last()));
        assert(result.to_multiset() =~= inner.to_multiset().insert(sorted.last()));
        assert(rest.to_multiset().insert(member).insert(sorted.last())
            =~= rest.to_multiset().insert(sorted.last()).insert(member));
    }
}

/// Putting the members of an object in the order of their names neither drops
/// nor adds one, and leaves their names in ascending order.
pub proof fn lemma_by_name(members: Seq<(Seq<char>, Seq<char>)>)
    ensures
        in_order(by_name(members)),
        by_name(members).to_multiset() == members.to_multiset(),
    decreases members.len(),
{
    broadcast use vstd::seq_lib::group_to_multiset_ensures;

    if members.len() > 0 {
        lemma_by_name(members.drop_last());
        lemma_with_member(by_name(members.drop_last()), members.last());
        assert(members.drop_last().push(members.last()) =~= members);
    }
}

// ---------------------------------------------------------------------------
// Trusted parts of serde_json
// ---------------------------------------------------------------------------

/// `serde_json::Value`, a parsed value. What it holds is read one level at a
/// time by `open_value`.
#[verifier::external_type_specification]
#[verifier::external_body]
pub struct ExValue(serde_json::Value);

/// `serde_json::Number`, a parsed number. It is read by `number_unsigned`,
/// `number_signed` and `number_notation`.
#[verifier::external_type_specification]
#[verifier::external_body]
pub struct ExNumber(serde_json::Number);

/// What kind of fault keeps a document from being read.
#[derive(Debug, Clone, Copy, PartialEq, Eq, Structural)]
pub enum JsonFault {
    Io,
    Syntax,
    Data,
    Eof,
}

/// What a `serde_json::Value` holds.
pub uninterp spec fn value_of(value: serde_json::Value) -> JsonView;

/// What a `serde_json::Number` holds.
pub uninterp spec fn number_of(number: serde_json::Number) -> NumberView;

/// What `serde_json::from_slice` makes of some bytes: the value that they
/// write, or the kind and the message of the error.
pub uninterp spec fn read_json(bytes: Seq<u8>) -> Result<JsonView, (JsonFault, Seq<char>)>;

/// The value that a JSON document writes, if the bytes are one.
pub open spec fn parsed(bytes: Seq<u8>) -> Option<JsonView> {
    match read_json(bytes) {
        Ok(value) => Some(value),
        Err(_) => None,
    }
}

/// Whether lists and objects are nested at most `depth` levels deep.
pub open spec fn nested_within(value: JsonView, depth: nat) -> bool
    decreases depth,
{
    match value {
        JsonView::List(items) => depth > 0 && forall|i: int|
            0 <= i < items.len() ==> nested_within(#[trigger] items[i], (depth - 1) as nat),
        JsonView::Object(members) => depth > 0 && forall|i: int|
            0 <= i < members.len() ==> nested_within(
                (#[trigger] members[i]).1,
                (depth - 1) as nat,
            ),
        _ => true,
    }
}

/// One level of a `serde_json::Value`.
pub enum ValueNode {
    Null,
    Bool(bool),
    Number(serde_json::Number),
    Text(String),
    List(Vec<serde_json::Value>),
    Object(Vec<(String, serde_json::Value)>),
}

impl ValueNode {
    pub open spec fn view(&self) -> JsonView {
        match self {
            ValueNode::Null => JsonView::Null,
            ValueNode::Bool(value) => JsonView::Bool(*value),
            ValueNode::Number(number) => JsonView::Number(number_of(*number)),
            ValueNode::Text(text) => JsonView::Text(text@),
            ValueNode::List(items) => JsonView::List(
                Seq::new(items@.len(), |i: int| value_of(items@[i])),
            ),
            ValueNode::Object(members) => JsonView::Object(
                Seq::new(members@.len(), |i: int| (members@[i].0@, value_of(members@[i].1))),
            ),
        }
    }
}

/// Calls `serde_json::from_slice`, and on an error `serde_json::Error::classify`
/// and its `Display` impl. What comes out is a function of the bytes alone. A
/// document whose lists and objects are nested too deeply is refused, so a value
/// is at most 128 levels deep.
#[verifier::external_body]
fn parse_value(bytes: &[u8]) -> (result: Result<serde_json::Value, (JsonFault, String)>)
    ensures
        match result {
            Ok(value) => read_json(bytes@) == Ok::<JsonView, (JsonFault, Seq<char>)>(
                value_of(value),
            ) && nested_within(value_of(value), 128),
            Err((fault, message)) => read_json(bytes@) == Err::<JsonView, (JsonFault, Seq<char>)>(
                (fault, message@),
            ),
        },
{
    serde_json::from_slice(bytes).map_err(
        |error: serde_json::Error| match error.classify() {
            serde_json::error::Category::Io => (JsonFault::Io, error.to_string()),
            serde_json::error::Category::Syntax => (JsonFault::Syntax, error.to_string()),
            serde_json::error::Category::Data => (JsonFault::Data, error.to_string()),
            serde_json::error::Category::Eof => (JsonFault::Eof, error.to_string()),
        },
    )
}

/// A list of texts as a value.
pub open spec fn text_list(parts: Seq<Seq<char>>) -> JsonView {
    JsonView::List(Seq::new(parts.len(), |i: int| JsonView::Text(parts[i])))
}

/// What `serde_json` reads from a document as a list of texts, or the message
/// of its error.
pub uninterp spec fn read_texts(bytes: Seq<u8>) -> Result<Seq<Seq<char>>, Seq<char>>;

/// Calls `serde_json::from_slice` for a list of texts, and on an error its
/// `Display` impl. What comes out is a function of the bytes alone, and a list
/// of texts in compact notation is read as that list.
#[verifier::external_body]
pub(crate) fn parse_texts(bytes: &[u8]) -> (result: Result<Vec<String>, String>)
    ensures
        match result {
            Ok(parts) => read_texts(bytes@) == Ok::<Seq<Seq<char>>, Seq<char>>(
                text::texts(parts@),
            ),
            Err(message) => read_texts(bytes@) == Err::<Seq<Seq<char>>, Seq<char>>(message@),
        },
        forall|parts: Seq<Seq<char>>|
            bytes@ == utf8::encode_utf8(#[trigger] compact_json(text_list(parts))) ==> match result {
                Ok(read) => text::texts(read@) == parts,
                Err(_) => false,
            },
{
    serde_json::from_slice::<Vec<String>>(bytes).map_err(|error: serde_json::Error| error.to_string())
}

/// Takes a `serde_json::Value` apart, one level deep. The members of an object
/// come in the order in which `serde_json::Map` walks them.
#[verifier::external_body]
fn open_value(value: serde_json::Value) -> (result: ValueNode)
    ensures
        result@ == value_of(value),
{
    match value {
        serde_json::Value::Null => ValueNode::Null,
        serde_json::Value::Bool(value) => ValueNode::Bool(value),
        serde_json::Value::Number(number) => ValueNode::Number(number),
        serde_json::Value::String(text) => ValueNode::Text(text),
        serde_json::Value::Array(items) => ValueNode::List(items),
        serde_json::Value::Object(members) => ValueNode::Object(members.into_iter().collect()),
    }
}

/// Calls `serde_json::Number::as_u64`, which gives the number exactly when it
/// is an integer of 64 bits that is not negative.
#[verifier::external_body]
fn number_unsigned(number: &serde_json::Number) -> (result: Option<u64>)
    ensures
        match result {
            Some(n) => number_of(*number) == NumberView::Unsigned(n as nat),
            None => !(number_of(*number) is Unsigned),
        },
{
    number.as_u64()
}

/// Calls `serde_json::Number::as_i64`, which gives the number exactly when it
/// is an integer that fits in an `i64`.
#[verifier::external_body]
fn number_signed(number: &serde_json::Number) -> (result: Option<i64>)
    ensures
        match result {
            Some(n) => if n < 0 {
                number_of(*number) == NumberView::Negative(n as int)
            } else {
                number_of(*number) == NumberView::Unsigned(n as nat)
            },
            None => match number_of(*number) {
                NumberView::Unsigned(n) => n > i64::MAX,
                NumberView::Negative(_) => false,
                NumberView::Float(_) => true,
            },
        },
{
    number.as_i64()
}

/// Writes a `serde_json::Number` out with its `Display` impl.
#[verifier::external_body]
fn number_notation(number: &serde_json::Number) -> (result: String)
    ensures
        result@ == number_text(number_of(*number)),
{
    number.to_string()
}

/// Calls `serde_json::to_string` on a text: the text between double quotes,
/// with quotes, backslashes and control characters escaped.
#[verifier::external_body]
pub(crate) fn quote(text: &str) -> (result: String)
    ensures
        result@ == quoted(text@),
{
    serde_json::to_string(text).expect("a text has a JSON notation")
}

// ---------------------------------------------------------------------------
// Reading a document
// ---------------------------------------------------------------------------

fn built_number(number: &serde_json::Number) -> (result: JsonNumber)
    ensures
        result@ == number_of(*number),
{
    match number_unsigned(number) {
        Some(n) => JsonNumber::Unsigned(n),
        None => match number_signed(number) {
            Some(n) => JsonNumber::Negative(n),
            None => JsonNumber::Float(number_notation(number)),
        },
    }
}

proof fn lemma_nested_list(items: Seq<JsonView>, depth: nat)
    requires
        nested_within(JsonView::List(items), depth),
    ensures
        depth > 0,
        forall|i: int|
            0 <= i < items.len() ==> nested_within(#[trigger] items[i], (depth - 1) as nat),
{
    let value = JsonView::List(items);
    let inner = (depth - 1) as nat;
    assert(value->List_0 == items);
    assert(nested_within(value, depth) == (depth > 0 && forall|i: int|
        0 <= i < items.len() ==> nested_within(#[trigger] items[i], inner)));
}

proof fn lemma_nested_object(members: Seq<(Seq<char>, JsonView)>, depth: nat)
    requires
        nested_within(JsonView::Object(members), depth),
    ensures
        depth > 0,
        forall|i: int|
            0 <= i < members.len() ==> nested_within(
                (#[trigger] members[i]).1,
                (depth - 1) as nat,
            ),
{
    let value = JsonView::Object(members);
    let inner = (depth - 1) as nat;
    assert(value->Object_0 == members);
    assert(nested_within(value, depth) == (depth > 0 && forall|i: int|
        0 <= i < members.len() ==> nested_within((#[trigger] members[i]).1, inner)));
}

fn built(value: serde_json::Value, depth: u32) -> (result: Json)
    requires
        nested_within(value_of(value), depth as nat),
    ensures
        result@ == value_of(value),
    decreases depth,
{
    let ghost whole = value_of(value);
    match open_value(value) {
        ValueNode::Null => Json::Null,
        ValueNode::Bool(value) => Json::Bool(value),
        ValueNode::Number(number) => Json::Number(built_number(&number)),
        ValueNode::Text(text) => Json::Text(text),
        ValueNode::List(items) => {
            let ghost all = items@;
            let ghost seen = Seq::new(all.len(), |i: int| value_of(all[i]));
            let mut result: Vec<Json> = Vec::new();
            assert(whole == JsonView::List(seen));
            proof {
                lemma_nested_list(seen, depth as nat);
            }
            for item in iter: items
                invariant
                    depth > 0,
                    iter.seq() == all,
                    seen == Seq::new(all.len(), |i: int| value_of(all[i])),
                    values(result@) == seen.take(iter.index() as int),
                    forall|i: int|
                        0 <= i < seen.len() ==> nested_within(
                            #[trigger] seen[i],
                            (depth - 1) as nat,
                        ),
            {
                assert(nested_within(seen[iter.index() as int], (depth - 1) as nat));
                let ghost before = values(result@);
                let next = built(item, depth - 1);
                result.push(next);
                assert(values(result@) =~= before.push(next@));
                assert(seen.take(iter.index() as int + 1) =~= before.push(next@));
            }
            assert(seen.take(seen.len() as int) =~= seen);
            let json = Json::List(result);
            assert(json@->List_0 =~= values(result@));
            json
        },
        ValueNode::Object(items) => {
            let ghost all = items@;
            let ghost seen = Seq::new(all.len(), |i: int| (all[i].0@, value_of(all[i].1)));
            let mut result: Vec<(String, Json)> = Vec::new();
            assert(whole == JsonView::Object(seen));
            proof {
                lemma_nested_object(seen, depth as nat);
            }
            for item in iter: items
                invariant
                    depth > 0,
                    iter.seq() == all,
                    seen == Seq::new(all.len(), |i: int| (all[i].0@, value_of(all[i].1))),
                    members(result@) == seen.take(iter.index() as int),
                    forall|i: int|
                        0 <= i < seen.len() ==> nested_within(
                            (#[trigger] seen[i]).1,
                            (depth - 1) as nat,
                        ),
            {
                assert(nested_within(seen[iter.index() as int].1, (depth - 1) as nat));
                let ghost before = members(result@);
                let (name, value) = item;
                let next = built(value, depth - 1);
                let ghost added = (name@, next@);
                result.push((name, next));
                assert(members(result@) =~= before.push(added));
                assert(seen.take(iter.index() as int + 1) =~= before.push(added));
            }
            assert(seen.take(seen.len() as int) =~= seen);
            let json = Json::Object(result);
            assert(json@->Object_0 =~= members(result@));
            json
        },
    }
}

/// Reads a JSON document.
pub fn parse_json(bytes: &[u8]) -> (result: Option<Json>)
    ensures
        match result {
            Some(json) => parsed(bytes@) == Some(json@),
            None => parsed(bytes@) is None,
        },
{
    match parse_value(bytes) {
        Ok(value) => Some(built(value, 128)),
        Err(_) => None,
    }
}

/// Reads a JSON document, or tells the kind and the message of the error.
pub fn parse_json_or_fault(bytes: &[u8]) -> (result: Result<Json, (JsonFault, String)>)
    ensures
        match result {
            Ok(json) => read_json(bytes@) == Ok::<JsonView, (JsonFault, Seq<char>)>(json@),
            Err((fault, message)) => read_json(bytes@) == Err::<JsonView, (JsonFault, Seq<char>)>(
                (fault, message@),
            ),
        },
{
    match parse_value(bytes) {
        Ok(value) => Ok(built(value, 128)),
        Err(error) => Err(error),
    }
}

// ---------------------------------------------------------------------------
// Access
// ---------------------------------------------------------------------------

proof fn lemma_member_skip(members: Seq<(Seq<char>, JsonView)>, key: Seq<char>, n: int)
    requires
        0 <= n <= members.len(),
        forall|j: int| 0 <= j < n ==> (#[trigger] members[j]).0 != key,
    ensures
        member_of(members, key) == member_of(members.skip(n), key),
    decreases n,
{
    if n == 0 {
        assert(members.skip(0) =~= members);
    } else {
        let rest = members.drop_first();
        assert forall|j: int| 0 <= j < n - 1 implies (#[trigger] rest[j]).0 != key by {
            assert(rest[j] == members[j + 1]);
        }
        lemma_member_skip(rest, key, n - 1);
        assert(rest.skip(n - 1) =~= members.skip(n));
    }
}

impl Json {
    /// The member `key` of an object.
    pub fn get(&self, key: &str) -> (result: Option<&Json>)
        ensures
            opt_json(result) == self@.get(key@),
    {
        match self {
            Json::Object(items) => {
                let ghost all = self@->Object_0;
                assert(all =~= members(items@));
                for i in 0..items.len()
                    invariant
                        all == members(items@),
                        forall|j: int| 0 <= j < i ==> (#[trigger] all[j]).0 != key@,
                        self@ == JsonView::Object(all),
                {
                    if text_eq(items[i].0.as_str(), key) {
                        proof {
                            lemma_member_skip(all, key@, i as int);
                            assert(all.skip(i as int)[0] == all[i as int]);
                        }
                        return Some(&items[i].1);
                    }
                    assert(all[i as int].0 != key@);
                }
                proof {
                    lemma_member_skip(all, key@, all.len() as int);
                }
                None
            },
            _ => None,
        }
    }

    pub fn as_text(&self) -> (result: Option<&str>)
        ensures
            crate::text::opt_str(result) == self@.text(),
    {
        match self {
            Json::Text(text) => Some(text.as_str()),
            _ => None,
        }
    }

    pub fn as_bool(&self) -> (result: Option<bool>)
        ensures
            result == self@.bool(),
    {
        match self {
            Json::Bool(value) => Some(*value),
            _ => None,
        }
    }

    pub fn as_list(&self) -> (result: Option<&Vec<Json>>)
        ensures
            match result {
                Some(items) => self@.list() == Some(values(items@)),
                None => self@.list() is None,
            },
    {
        match self {
            Json::List(items) => {
                assert(self@->List_0 =~= values(items@));
                Some(items)
            },
            _ => None,
        }
    }

    pub fn as_unsigned(&self) -> (result: Option<u64>)
        ensures
            match result {
                Some(n) => self@.unsigned() == Some(n as nat),
                None => self@.unsigned() is None,
            },
    {
        match self {
            Json::Number(JsonNumber::Unsigned(n)) => Some(*n),
            _ => None,
        }
    }

    pub fn as_signed(&self) -> (result: Option<i64>)
        ensures
            match result {
                Some(n) => self@.signed() == Some(n as int),
                None => self@.signed() is None,
            },
    {
        match self {
            Json::Number(JsonNumber::Unsigned(n)) => if *n <= 0x7fff_ffff_ffff_ffff {
                Some(*n as i64)
            } else {
                None
            },
            Json::Number(JsonNumber::Negative(n)) => Some(*n),
            _ => None,
        }
    }

    /// The text of the member `key`.
    pub fn text_at(&self, key: &str) -> (result: Option<&str>)
        ensures
            crate::text::opt_str(result) == self@.text_at(key@),
    {
        match self.get(key) {
            Some(value) => value.as_text(),
            None => None,
        }
    }

    /// A copy of the value.
    pub fn copy(&self) -> (result: Json)
        ensures
            result@ == self@,
        decreases self,
    {
        match self {
            Json::Null => Json::Null,
            Json::Bool(value) => Json::Bool(*value),
            Json::Number(JsonNumber::Unsigned(n)) => Json::Number(JsonNumber::Unsigned(*n)),
            Json::Number(JsonNumber::Negative(n)) => Json::Number(JsonNumber::Negative(*n)),
            Json::Number(JsonNumber::Float(text)) => Json::Number(JsonNumber::Float(text.clone())),
            Json::Text(text) => Json::Text(text.clone()),
            Json::List(items) => {
                let mut result: Vec<Json> = Vec::new();
                for i in 0..items.len()
                    invariant
                        values(result@) == values(items@).take(i as int),
                        self == Json::List(*items),
                {
                    let ghost before = values(result@);
                    assert(decreases_to!(self => self->List_0));
                    assert(decreases_to!(*items => items@));
                    assert(decreases_to!(items@ => items@[i as int]));
                    let next = items[i].copy();
                    result.push(next);
                    assert(values(result@) =~= before.push(next@));
                    assert(values(items@).take(i + 1) =~= before.push(next@));
                }
                let json = Json::List(result);
                assert(values(items@).take(items@.len() as int) =~= values(items@));
                assert(self@->List_0 =~= values(items@));
                assert(json@->List_0 =~= values(result@));
                json
            },
            Json::Object(items) => {
                let mut result: Vec<(String, Json)> = Vec::new();
                for i in 0..items.len()
                    invariant
                        members(result@) == members(items@).take(i as int),
                        self == Json::Object(*items),
                {
                    let ghost before = members(result@);
                    assert(decreases_to!(self => self->Object_0));
                    assert(decreases_to!(*items => items@));
                    assert(decreases_to!(items@ => items@[i as int]));
                    assert(decreases_to!(items@[i as int] => items@[i as int].1));
                    let next = items[i].1.copy();
                    let name = items[i].0.clone();
                    let ghost added = (name@, next@);
                    result.push((name, next));
                    assert(members(result@) =~= before.push(added));
                    assert(members(items@).take(i + 1) =~= before.push(added));
                }
                let json = Json::Object(result);
                assert(members(items@).take(items@.len() as int) =~= members(items@));
                assert(self@->Object_0 =~= members(items@));
                assert(json@->Object_0 =~= members(result@));
                json
            },
        }
    }
}

/// The member `key` of an optional value.
pub fn field<'a>(value: Option<&'a Json>, key: &str) -> (result: Option<&'a Json>)
    ensures
        opt_json(result) == opt_get(opt_json(value), key@),
{
    match value {
        Some(json) => json.get(key),
        None => None,
    }
}

/// The text that an optional value is.
pub fn text_in<'a>(value: Option<&'a Json>) -> (result: Option<&'a str>)
    ensures
        crate::text::opt_str(result) == opt_text_of(opt_json(value)),
{
    match value {
        Some(json) => json.as_text(),
        None => None,
    }
}

/// A member of an object.
pub fn member(name: &str, value: Json) -> (result: (String, Json))
    ensures
        result.0@ == name@,
        result.1 == value,
{
    (name.to_owned(), value)
}

/// The object with the given members.
pub fn object(parts: Vec<(String, Json)>) -> (result: Json)
    ensures
        result@ == JsonView::Object(members(parts@)),
{
    let result = Json::Object(parts);
    assert(result@->Object_0 =~= members(parts@));
    result
}

/// The list of the given values.
pub fn list(items: Vec<Json>) -> (result: Json)
    ensures
        result@ == JsonView::List(values(items@)),
{
    let result = Json::List(items);
    assert(result@->List_0 =~= values(items@));
    result
}

/// A text value.
pub fn text_json(text: &str) -> (result: Json)
    ensures
        result@ == JsonView::Text(text@),
{
    Json::Text(text.to_owned())
}

/// An optional text, `null` when absent.
pub open spec fn opt_text_json(text: Option<Seq<char>>) -> JsonView {
    match text {
        Some(text) => JsonView::Text(text),
        None => JsonView::Null,
    }
}

/// An optional text, `null` when absent.
pub fn optional_json(text: &Option<String>) -> (result: Json)
    ensures
        result@ == opt_text_json(crate::text::opt_text(*text)),
{
    match text {
        Some(text) => Json::Text(text.clone()),
        None => Json::Null,
    }
}

// ---------------------------------------------------------------------------
// Writing
// ---------------------------------------------------------------------------

/// What a list of written members holds.
pub open spec fn pairs(items: Seq<(String, String)>) -> Seq<(Seq<char>, Seq<char>)> {
    Seq::new(items.len(), |i: int| (items[i].0@, items[i].1@))
}

fn char_before(left: char, right: char) -> (result: bool)
    ensures
        result == ((left as int) < (right as int)),
{
    (left as u32) < (right as u32)
}

/// Whether `left` stands before `right` or equals it in the order of code
/// points.
pub fn text_ordered(left: &str, right: &str) -> (result: bool)
    ensures
        result == text_le(left@, right@),
{
    let l = crate::text::chars_of(left);
    let r = crate::text::chars_of(right);
    let mut i: usize = 0;
    assert(l@.skip(0) =~= l@ && r@.skip(0) =~= r@);
    while i < l.len() && i < r.len()
        invariant
            i <= l@.len(),
            i <= r@.len(),
            l@ == left@,
            r@ == right@,
            text_le(l@, r@) == text_le(l@.skip(i as int), r@.skip(i as int)),
        decreases l.len() - i,
    {
        assert(l@.skip(i as int)[0] == l@[i as int] && r@.skip(i as int)[0] == r@[i as int]);
        assert(l@.skip(i as int).drop_first() =~= l@.skip(i + 1));
        assert(r@.skip(i as int).drop_first() =~= r@.skip(i + 1));
        let a: char = l[i];
        let b: char = r[i];
        if a != b {
            return char_before(a, b);
        }
        i += 1;
    }
    i == l.len()
}

proof fn lemma_with_member_at(
    sorted: Seq<(Seq<char>, Seq<char>)>,
    member: (Seq<char>, Seq<char>),
    at: int,
)
    requires
        0 <= at <= sorted.len(),
        forall|j: int| at <= j < sorted.len() ==> !text_le((#[trigger] sorted[j]).0, member.0),
        at == 0 || text_le(sorted[at - 1].0, member.0),
    ensures
        with_member(sorted, member) == sorted.insert(at, member),
    decreases sorted.len(),
{
    if at == sorted.len() {
        assert(sorted.insert(at, member) =~= sorted.push(member));
    } else {
        let rest = sorted.drop_last();
        assert forall|j: int| at <= j < rest.len() implies !text_le(
            (#[trigger] rest[j]).0,
            member.0,
        ) by {
            assert(rest[j] == sorted[j]);
        }
        lemma_with_member_at(rest, member, at);
        assert(!text_le(sorted[sorted.len() - 1].0, member.0));
        assert(rest.insert(at, member).push(sorted.last()) =~= sorted.insert(at, member));
    }
}

fn put_member(sorted: &mut Vec<(String, String)>, name: String, text: String)
    ensures
        pairs(final(sorted)@) == with_member(pairs(old(sorted)@), (name@, text@)),
{
    let ghost before = pairs(sorted@);
    let mut at: usize = sorted.len();
    while at > 0 && !text_ordered(sorted[at - 1].0.as_str(), name.as_str())
        invariant
            at <= sorted@.len(),
            before == pairs(sorted@),
            forall|j: int| at <= j < before.len() ==> !text_le((#[trigger] before[j]).0, name@),
        decreases at,
    {
        at -= 1;
    }
    proof {
        lemma_with_member_at(before, (name@, text@), at as int);
    }
    let ghost added = (name@, text@);
    sorted.insert(at, (name, text));
    assert(pairs(sorted@) =~= before.insert(at as int, added));
}

pub(crate) fn sort_members(items: Vec<(String, String)>) -> (result: Vec<(String, String)>)
    ensures
        pairs(result@) == by_name(pairs(items@)),
{
    let ghost all = pairs(items@);
    let mut result: Vec<(String, String)> = Vec::new();
    assert(pairs(result@) =~= by_name(all.take(0)));
    for i in 0..items.len()
        invariant
            all == pairs(items@),
            pairs(result@) == by_name(all.take(i as int)),
    {
        assert(all.take(i + 1).drop_last() =~= all.take(i as int));
        put_member(&mut result, items[i].0.clone(), items[i].1.clone());
    }
    assert(all.take(items@.len() as int) =~= all);
    result
}

/// Writes a value out.
pub fn write_json(value: &Json, comma: &str, colon: &str, sorted: bool) -> (result: String)
    ensures
        result@ == written(value@, comma@, colon@, sorted),
    decreases value,
{
    match value {
        Json::Null => "null".to_owned(),
        Json::Bool(b) => if *b {
            "true".to_owned()
        } else {
            "false".to_owned()
        },
        Json::Number(JsonNumber::Unsigned(n)) => decimal_text(*n),
        Json::Number(JsonNumber::Negative(n)) => signed_decimal_text(*n),
        Json::Number(JsonNumber::Float(text)) => text.clone(),
        Json::Text(text) => quote(text.as_str()),
        Json::List(items) => {
            let ghost shown = written_items(value@->List_0, comma@, colon@, sorted);
            let mut parts: Vec<String> = Vec::new();
            for i in 0..items.len()
                invariant
                    value == Json::List(*items),
                    shown.len() == items@.len(),
                    forall|j: int|
                        0 <= j < items@.len() ==> #[trigger] shown[j] == written(
                            items@[j]@,
                            comma@,
                            colon@,
                            sorted,
                        ),
                    crate::text::texts(parts@) == shown.take(i as int),
            {
                assert(decreases_to!(value => value->List_0));
                assert(decreases_to!(*items => items@));
                assert(decreases_to!(items@ => items@[i as int]));
                let ghost before = crate::text::texts(parts@);
                let part = write_json(&items[i], comma, colon, sorted);
                parts.push(part);
                assert(crate::text::texts(parts@) =~= before.push(part@));
                assert(shown.take(i + 1) =~= before.push(part@));
            }
            assert(shown.take(items@.len() as int) =~= shown);
            let body = crate::text::join(&parts, comma);
            let mut result = "[".to_owned();
            result.append(body.as_str());
            result.append("]");
            result
        },
        Json::Object(items) => {
            let ghost named = written_members(value@->Object_0, comma@, colon@, sorted);
            let mut shown: Vec<(String, String)> = Vec::new();
            for i in 0..items.len()
                invariant
                    value == Json::Object(*items),
                    named.len() == items@.len(),
                    forall|j: int|
                        0 <= j < items@.len() ==> #[trigger] named[j] == (
                            items@[j].0@,
                            written(items@[j].1@, comma@, colon@, sorted),
                        ),
                    pairs(shown@) == named.take(i as int),
            {
                assert(decreases_to!(value => value->Object_0));
                assert(decreases_to!(*items => items@));
                assert(decreases_to!(items@ => items@[i as int]));
                assert(decreases_to!(items@[i as int] => items@[i as int].1));
                let ghost before = pairs(shown@);
                let text = write_json(&items[i].1, comma, colon, sorted);
                let ghost added = (items@[i as int].0@, text@);
                shown.push((items[i].0.clone(), text));
                assert(pairs(shown@) =~= before.push(added));
                assert(named.take(i + 1) =~= before.push(added));
            }
            assert(named.take(items@.len() as int) =~= named);
            let ordered = if sorted {
                sort_members(shown)
            } else {
                shown
            };
            let ghost order = pairs(ordered@);
            let mut parts: Vec<String> = Vec::new();
            for i in 0..ordered.len()
                invariant
                    order == pairs(ordered@),
                    crate::text::texts(parts@) == member_texts(order, colon@).take(i as int),
            {
                let ghost before = crate::text::texts(parts@);
                let mut part = quote(ordered[i].0.as_str());
                part.append(colon);
                part.append(ordered[i].1.as_str());
                assert(part@ == member_text(order[i as int], colon@));
                parts.push(part);
                assert(crate::text::texts(parts@) =~= before.push(part@));
                assert(member_texts(order, colon@).take(i + 1) =~= before.push(part@));
            }
            assert(member_texts(order, colon@).take(order.len() as int) =~= member_texts(
                order,
                colon@,
            ));
            let body = crate::text::join(&parts, comma);
            let mut result = "{".to_owned();
            result.append(body.as_str());
            result.append("}");
            result
        },
    }
}

/// The notation without any white space.
pub fn compact_text(value: &Json) -> (result: String)
    ensures
        result@ == compact_json(value@),
{
    write_json(value, ",", ":", false)
}

/// The compact notation of a list of texts.
pub fn texts_text(parts: &Vec<String>) -> (result: String)
    ensures
        result@ == compact_json(text_list(text::texts(parts@))),
{
    let mut items: Vec<Json> = Vec::new();
    for i in 0..parts.len()
        invariant
            items@.len() == i,
            forall|j: int| 0 <= j < i ==> (#[trigger] items@[j])@ == JsonView::Text(parts@[j]@),
    {
        items.push(text_json(parts[i].as_str()));
    }
    let all = list(items);
    assert(all@->List_0 =~= text_list(text::texts(parts@))->List_0);
    compact_text(&all)
}

/// The notation with spaced separators and sorted member names.
pub fn python_text(value: &Json) -> (result: String)
    ensures
        result@ == python_json(value@),
{
    write_json(value, ", ", ": ", true)
}

} // verus!
