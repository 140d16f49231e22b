//! Character-level text operations shared by every module.
//!
//! Texts are modelled as sequences of characters. Each executable operation
//! is tied to a spec function on such sequences.
use vstd::prelude::*;

verus! {

// ---------------------------------------------------------------------------
// Model
// ---------------------------------------------------------------------------

/// Whether a character has the Unicode `White_Space` property.
pub open spec fn is_space(c: char) -> bool {
    let n = c as u32;
    ||| 0x9 <= n <= 0xd
    ||| n == 0x20
    ||| n == 0x85
    ||| n == 0xa0
    ||| n == 0x1680
    ||| 0x2000 <= n <= 0x200a
    ||| n == 0x2028
    ||| n == 0x2029
    ||| n == 0x202f
    ||| n == 0x205f
    ||| n == 0x3000
}

/// The texts that a list of strings holds.
pub open spec fn texts(list: Seq<String>) -> Seq<Seq<char>> {
    Seq::new(list.len(), |i: int| list[i]@)
}

/// The text of an optional string.
pub open spec fn opt_text(value: Option<String>) -> Option<Seq<char>> {
    match value {
        Some(text) => Some(text@),
        None => None,
    }
}

/// The text of an optional string slice.
pub open spec fn opt_str(value: Option<&str>) -> Option<Seq<char>> {
    match value {
        Some(text) => Some(text@),
        None => None,
    }
}

/// `text` without its leading white space.
pub open spec fn trimmed_start(text: Seq<char>) -> Seq<char>
    decreases text.len(),
{
    if text.len() > 0 && is_space(text[0]) {
        trimmed_start(text.drop_first())
    } else {
        text
    }
}

/// `text` without its trailing white space.
pub open spec fn trimmed_end(text: Seq<char>) -> Seq<char>
    decreases text.len(),
{
    if text.len() > 0 && is_space(text.last()) {
        trimmed_end(text.drop_last())
    } else {
        text
    }
}

/// `text` without surrounding white space.
pub open spec fn trimmed(text: Seq<char>) -> Seq<char> {
    trimmed_end(trimmed_start(text))
}

/// `text` without the leading characters that occur in `set`.
pub open spec fn stripped_start(text: Seq<char>, set: Seq<char>) -> Seq<char>
    decreases text.len(),
{
    if text.len() > 0 && set.contains(text[0]) {
        stripped_start(text.drop_first(), set)
    } else {
        text
    }
}

/// `text` without the trailing characters that occur in `set`.
pub open spec fn stripped_end(text: Seq<char>, set: Seq<char>) -> Seq<char>
    decreases text.len(),
{
    if text.len() > 0 && set.contains(text.last()) {
        stripped_end(text.drop_last(), set)
    } else {
        text
    }
}

/// How many characters of `text` stand before its first white space.
pub open spec fn word_len(text: Seq<char>) -> nat
    decreases text.len(),
{
    if text.len() == 0 || is_space(text[0]) {
        0
    } else {
        1 + word_len(text.drop_first())
    }
}

/// The maximal runs of non-space characters of `text`, in order.
pub open spec fn words(text: Seq<char>) -> Seq<Seq<char>>
    decreases text.len(),
{
    if text.len() == 0 {
        Seq::empty()
    } else if is_space(text[0]) {
        words(text.drop_first())
    } else {
        let n = word_len(text) as int;
        if 0 < n <= text.len() {
            seq![text.take(n)] + words(text.skip(n))
        } else {
            Seq::empty()
        }
    }
}

/// `parts` one after another with `separator` between neighbours.
pub open spec fn joined(parts: Seq<Seq<char>>, separator: Seq<char>) -> Seq<char>
    decreases parts.len(),
{
    if parts.len() == 0 {
        Seq::empty()
    } else if parts.len() == 1 {
        parts[0]
    } else {
        joined(parts.drop_last(), separator) + separator + parts.last()
    }
}

/// `text` with every run of white space turned into one space and none at
/// either end.
pub open spec fn compacted(text: Seq<char>) -> Seq<char> {
    joined(words(text), seq![' '])
}

/// The first `limit` characters of `text`, or all of it when it is shorter.
pub open spec fn clipped(text: Seq<char>, limit: nat) -> Seq<char> {
    if text.len() <= limit {
        text
    } else {
        text.take(limit as int)
    }
}

/// Whether `needle` stands in `text` at index `at`.
pub open spec fn occurs_at(text: Seq<char>, needle: Seq<char>, at: int) -> bool {
    &&& 0 <= at
    &&& at + needle.len() <= text.len()
    &&& text.subrange(at, at + needle.len()) == needle
}

/// Whether `needle` stands somewhere in `text`.
pub open spec fn occurs(text: Seq<char>, needle: Seq<char>) -> bool {
    exists|at: int| #[trigger] occurs_at(text, needle, at)
}

/// Whether `text` begins with `prefix`.
pub open spec fn begins(text: Seq<char>, prefix: Seq<char>) -> bool {
    occurs_at(text, prefix, 0)
}

/// Whether `text` ends with `suffix`.
pub open spec fn ends(text: Seq<char>, suffix: Seq<char>) -> bool {
    occurs_at(text, suffix, text.len() - suffix.len())
}

/// `text` with every `from` turned into `to`.
pub open spec fn replaced(text: Seq<char>, from: char, to: char) -> Seq<char> {
    Seq::new(text.len(), |i: int| if text[i] == from { to } else { text[i] })
}

/// The number of characters of `text` before the first `separator`.
pub open spec fn field_len(text: Seq<char>, separator: char) -> nat
    decreases text.len(),
{
    if text.len() == 0 || text[0] == separator {
        0
    } else {
        1 + field_len(text.drop_first(), separator)
    }
}

/// The pieces of `text` between separators; one more than there are separators.
pub open spec fn fields(text: Seq<char>, separator: char) -> Seq<Seq<char>>
    decreases text.len(),
{
    let n = field_len(text, separator) as int;
    if 0 <= n < text.len() {
        seq![text.take(n)] + fields(text.skip(n + 1), separator)
    } else {
        seq![text]
    }
}

/// Whether `text` holds a path separator of Windows.
pub open spec fn has_separator(text: Seq<char>) -> bool {
    text.contains('\\') || text.contains('/')
}

/// What follows the last path separator of `text`.
pub open spec fn base_name(text: Seq<char>) -> Seq<char>
    decreases text.len(),
{
    if has_separator(text) {
        base_name(text.drop_first())
    } else {
        text
    }
}

/// The lower-case form of an ASCII letter; any other character itself.
pub open spec fn ascii_lower_char(c: char) -> char {
    let n = c as u32;
    if 65 <= n <= 90 {
        (n + 32) as char
    } else {
        c
    }
}

/// `text` with its ASCII letters in lower case.
pub open spec fn ascii_lower(text: Seq<char>) -> Seq<char> {
    Seq::new(text.len(), |i: int| ascii_lower_char(text[i]))
}

/// Equality of texts up to the case of ASCII letters.
pub open spec fn same_ascii(left: Seq<char>, right: Seq<char>) -> bool {
    ascii_lower(left) == ascii_lower(right)
}

/// What `str::to_lowercase` gives for a text.
pub uninterp spec fn lowercase(text: Seq<char>) -> Seq<char>;

pub open spec fn is_digit(c: char) -> bool {
    48 <= c as u32 <= 57
}

pub open spec fn all_digits(text: Seq<char>) -> bool {
    forall|i: int| 0 <= i < text.len() ==> is_digit(#[trigger] text[i])
}

/// The number that a run of decimal digits writes.
pub open spec fn digits_value(text: Seq<char>) -> nat
    decreases text.len(),
{
    if text.len() == 0 {
        0
    } else {
        digits_value(text.drop_last()) * 10 + ((text.last() as u32 - 48) as nat)
    }
}

/// The number that an optionally `+`-signed run of digits writes, if it is at
/// most `limit`.
pub open spec fn parsed_unsigned(text: Seq<char>, limit: nat) -> Option<nat> {
    let body = if text.len() > 0 && text[0] == '+' {
        text.drop_first()
    } else {
        text
    };
    if body.len() > 0 && all_digits(body) && digits_value(body) <= limit {
        Some(digits_value(body))
    } else {
        None
    }
}

/// The number that an optionally signed run of digits writes, if it fits in
/// an `i64`.
pub open spec fn parsed_signed(text: Seq<char>) -> Option<int> {
    let negative = text.len() > 0 && text[0] == '-';
    let body = if negative || (text.len() > 0 && text[0] == '+') {
        text.drop_first()
    } else {
        text
    };
    let value = if negative {
        -(digits_value(body) as int)
    } else {
        digits_value(body) as int
    };
    if body.len() > 0 && all_digits(body) && i64::MIN <= value <= i64::MAX {
        Some(value)
    } else {
        None
    }
}

/// The decimal digit of a value below ten.
pub open spec fn digit_char(digit: nat) -> char {
    (48 + digit) as char
}

/// The decimal notation of a natural number.
pub open spec fn decimal(n: nat) -> Seq<char>
    decreases n,
{
    if n < 10 {
        seq![digit_char(n)]
    } else {
        decimal(n / 10).push(digit_char(n % 10))
    }
}

/// The decimal notation of an integer.
pub open spec fn signed_decimal(n: int) -> Seq<char> {
    if n < 0 {
        seq!['-'] + decimal((-n) as nat)
    } else {
        decimal(n as nat)
    }
}

// ---------------------------------------------------------------------------
// Trusted parts of the standard library
// ---------------------------------------------------------------------------

/// `String::push` appends one character at the end.
pub assume_specification[ String::push ](target: &mut String, c: char)
    ensures
        final(target)@ == old(target)@.push(c),
;

/// Compares two string slices with `==`, which holds exactly when they have
/// the same characters.
#[verifier::external_body]
pub(crate) fn text_eq(left: &str, right: &str) -> (result: bool)
    ensures
        result == (left@ == right@),
{
    left == right
}

/// Calls `str::to_lowercase`. Its result is a function of the text alone; on
/// a text of ASCII characters it lowers the ASCII letters and keeps the rest.
#[verifier::external_body]
pub(crate) fn to_lower(text: &str) -> (result: String)
    ensures
        result@ == lowercase(text@),
        vstd::utf8::is_ascii_chars(text@) ==> result@ == ascii_lower(text@),
{
    text.to_lowercase()
}

// ---------------------------------------------------------------------------
// Conversions
// ---------------------------------------------------------------------------

/// The characters of a string, in order.
pub fn chars_of(text: &str) -> (result: Vec<char>)
    ensures
        result@ == text@,
{
    let mut result: Vec<char> = Vec::new();
    for c in iter: text.chars()
        invariant
            result@ == text@.take(iter.index() as int),
            iter.seq() == text@,
    {
        result.push(c);
    }
    result
}

/// The string made of `chars[from..to]`.
pub fn text_between(chars: &Vec<char>, from: usize, to: usize) -> (result: String)
    requires
        from <= to <= chars@.len(),
    ensures
        result@ == chars@.subrange(from as int, to as int),
{
    let mut result = String::new();
    let mut i: usize = from;
    while i < to
        invariant
            from <= i <= to <= chars@.len(),
            result@ == chars@.subrange(from as int, i as int),
        decreases to - i,
    {
        result.push(chars[i]);
        i += 1;
    }
    result
}

/// The string made of `chars`.
pub fn text_of(chars: &Vec<char>) -> (result: String)
    ensures
        result@ == chars@,
{
    text_between(chars, 0, chars.len())
}

/// A copy of an optional string slice as an owned string.
pub fn owned(value: Option<&str>) -> (result: Option<String>)
    ensures
        opt_text(result) == opt_str(value),
{
    match value {
        Some(text) => Some(text.to_owned()),
        None => None,
    }
}

/// A copy of an optional string.
pub fn copied(value: &Option<String>) -> (result: Option<String>)
    ensures
        result == *value,
{
    match value {
        Some(text) => Some(text.clone()),
        None => None,
    }
}

/// Whether two optional texts are both absent or hold the same characters.
pub fn opt_text_eq(left: &Option<String>, right: &Option<String>) -> (result: bool)
    ensures
        result == (opt_text(*left) == opt_text(*right)),
{
    match (left, right) {
        (Some(l), Some(r)) => text_eq(l.as_str(), r.as_str()),
        (None, None) => true,
        _ => false,
    }
}

/// A copy of a list of strings.
pub fn copied_list(list: &Vec<String>) -> (result: Vec<String>)
    ensures
        result@ == list@,
{
    let mut result: Vec<String> = Vec::new();
    for i in 0..list.len()
        invariant
            result@ == list@.take(i as int),
    {
        result.push(list[i].clone());
    }
    result
}

// ---------------------------------------------------------------------------
// Trimming
// ---------------------------------------------------------------------------

/// Whether a character is white space.
pub fn is_space_char(c: char) -> (result: bool)
    ensures
        result == is_space(c),
{
    let n: u32 = c as u32;
    (0x9 <= n && n <= 0xd) || n == 0x20 || n == 0x85 || n == 0xa0 || n == 0x1680 || (0x2000 <= n
        && n <= 0x200a) || n == 0x2028 || n == 0x2029 || n == 0x202f || n == 0x205f || n == 0x3000
}

/// Whether `set` holds the character `c`.
pub fn set_has(set: &Vec<char>, c: char) -> (result: bool)
    ensures
        result == set@.contains(c),
{
    for i in 0..set.len()
        invariant
            forall|j: int| 0 <= j < i ==> set@[j] != c,
    {
        if set[i] == c {
            return true;
        }
    }
    false
}

/// `text` without surrounding white space.
pub fn trim(text: &str) -> (result: String)
    ensures
        result@ == trimmed(text@),
{
    let chars = chars_of(text);
    let mut from: usize = 0;
    assert(chars@.skip(0) =~= chars@);
    while from < chars.len() && is_space_char(chars[from])
        invariant
            from <= chars@.len(),
            trimmed_start(chars@) == trimmed_start(chars@.skip(from as int)),
        decreases chars.len() - from,
    {
        assert(chars@.skip(from as int).drop_first() =~= chars@.skip(from + 1));
        from += 1;
    }
    let ghost start = chars@.skip(from as int);
    let mut to: usize = chars.len();
    assert(chars@.subrange(from as int, to as int) =~= start);
    while from < to && is_space_char(chars[to - 1])
        invariant
            from <= to <= chars@.len(),
            trimmed_end(start) == trimmed_end(chars@.subrange(from as int, to as int)),
        decreases to - from,
    {
        assert(chars@.subrange(from as int, to as int).drop_last() =~= chars@.subrange(
            from as int,
            to - 1,
        ));
        to -= 1;
    }
    text_between(&chars, from, to)
}

/// `text` without the leading characters that occur in `set`.
pub fn strip_start(text: &str, set: &str) -> (result: String)
    ensures
        result@ == stripped_start(text@, set@),
{
    let chars = chars_of(text);
    let members = chars_of(set);
    let mut from: usize = 0;
    assert(chars@.skip(0) =~= chars@);
    while from < chars.len() && set_has(&members, chars[from])
        invariant
            members@ == set@,
            from <= chars@.len(),
            stripped_start(chars@, set@) == stripped_start(chars@.skip(from as int), set@),
        decreases chars.len() - from,
    {
        assert(chars@.skip(from as int).drop_first() =~= chars@.skip(from + 1));
        from += 1;
    }
    assert(chars@.subrange(from as int, chars@.len() as int) =~= chars@.skip(from as int));
    text_between(&chars, from, chars.len())
}

/// `text` without the trailing characters that occur in `set`.
pub fn strip_end(text: &str, set: &str) -> (result: String)
    ensures
        result@ == stripped_end(text@, set@),
{
    let chars = chars_of(text);
    let members = chars_of(set);
    let mut to: usize = chars.len();
    assert(chars@.take(to as int) =~= chars@);
    while 0 < to && set_has(&members, chars[to - 1])
        invariant
            members@ == set@,
            to <= chars@.len(),
            stripped_end(chars@, set@) == stripped_end(chars@.take(to as int), set@),
        decreases to,
    {
        assert(chars@.take(to as int).drop_last() =~= chars@.take(to - 1));
        to -= 1;
    }
    assert(chars@.subrange(0, to as int) =~= chars@.take(to as int));
    text_between(&chars, 0, to)
}

// ---------------------------------------------------------------------------
// Splitting and joining
// ---------------------------------------------------------------------------

proof fn lemma_word_len(text: Seq<char>)
    ensures
        word_len(text) <= text.len(),
        text.len() > 0 && !is_space(text[0]) ==> word_len(text) > 0,
    decreases text.len(),
{
    if text.len() > 0 && !is_space(text[0]) {
        lemma_word_len(text.drop_first());
    }
}

proof fn lemma_word_len_at(text: Seq<char>, n: int)
    requires
        0 <= n <= text.len(),
        forall|j: int| 0 <= j < n ==> !is_space(#[trigger] text[j]),
        n == text.len() || is_space(text[n]),
    ensures
        word_len(text) == n,
    decreases n,
{
    if n > 0 {
        let rest = text.drop_first();
        assert forall|j: int| 0 <= j < n - 1 implies !is_space(#[trigger] rest[j]) by {
            assert(rest[j] == text[j + 1]);
        }
        lemma_word_len_at(rest, n - 1);
    }
}

/// The words of `text`.
pub fn split_words(text: &str) -> (result: Vec<String>)
    ensures
        texts(result@) == words(text@),
{
    let chars = chars_of(text);
    let mut result: Vec<String> = Vec::new();
    let mut i: usize = 0;
    assert(chars@.skip(0) =~= chars@);
    assert(texts(result@) + words(chars@) =~= words(chars@));
    while i < chars.len()
        invariant
            i <= chars@.len(),
            words(chars@) == texts(result@) + words(chars@.skip(i as int)),
        decreases chars.len() - i,
    {
        let ghost rest = chars@.skip(i as int);
        if is_space_char(chars[i]) {
            assert(rest.drop_first() =~= chars@.skip(i + 1));
            i += 1;
        } else {
            let mut j: usize = i;
            while j < chars.len() && !is_space_char(chars[j])
                invariant
                    i <= j <= chars@.len(),
                    forall|k: int| i <= k < j ==> !is_space(#[trigger] chars@[k]),
                decreases chars.len() - j,
            {
                j += 1;
            }
            let word = text_between(&chars, i, j);
            proof {
                assert forall|k: int| 0 <= k < j - i implies !is_space(#[trigger] rest[k]) by {
                    assert(rest[k] == chars@[i + k]);
                }
                if j < chars@.len() {
                    assert(rest[j - i] == chars@[j as int]);
                }
                lemma_word_len_at(rest, j - i);
                lemma_word_len(rest);
                assert(rest.take(j - i) =~= word@);
                assert(rest.skip(j - i) =~= chars@.skip(j as int));
            }
            let ghost before = texts(result@);
            result.push(word);
            assert(texts(result@) =~= before.push(word@));
            assert(before + (seq![word@] + words(chars@.skip(j as int))) =~= before.push(word@)
                + words(chars@.skip(j as int)));
            i = j;
        }
    }
    assert(chars@.skip(i as int).len() == 0);
    assert(texts(result@) + Seq::<Seq<char>>::empty() =~= texts(result@));
    result
}

/// The strings of `parts` with `separator` between neighbours.
pub fn join(parts: &Vec<String>, separator: &str) -> (result: String)
    ensures
        result@ == joined(texts(parts@), separator@),
{
    let mut result = String::new();
    let ghost all = texts(parts@);
    for i in 0..parts.len()
        invariant
            all == texts(parts@),
            result@ == joined(all.take(i as int), separator@),
    {
        if i > 0 {
            result.append(separator);
        }
        let ghost before = all.take(i as int);
        let ghost after = all.take(i + 1);
        assert(after.drop_last() =~= before);
        assert(after.last() == parts@[i as int]@);
        let ghost head = result@;
        result.append(parts[i].as_str());
        proof {
            if i == 0 {
                assert(result@ =~= parts@[0]@);
            }
        }
    }
    assert(all.take(parts@.len() as int) =~= all);
    result
}

/// `text` with every run of white space turned into one space.
pub fn compact(text: &str) -> (result: String)
    ensures
        result@ == compacted(text@),
{
    let parts = split_words(text);
    proof {
        reveal_strlit(" ");
        assert(" "@ =~= seq![' ']);
    }
    join(&parts, " ")
}

/// The first `limit` characters of `text`.
pub fn clip(text: &str, limit: usize) -> (result: String)
    ensures
        result@ == clipped(text@, limit as nat),
{
    let chars = chars_of(text);
    if chars.len() <= limit {
        text_of(&chars)
    } else {
        assert(chars@.subrange(0, limit as int) =~= chars@.take(limit as int));
        text_between(&chars, 0, limit)
    }
}

/// Where the first separator of a text stands.
pub proof fn lemma_field_len(text: Seq<char>, separator: char)
    ensures
        field_len(text, separator) <= text.len(),
        forall|j: int| 0 <= j < field_len(text, separator) ==> #[trigger] text[j] != separator,
        field_len(text, separator) < text.len() ==> text[field_len(text, separator) as int]
            == separator,
    decreases text.len(),
{
    if text.len() > 0 && text[0] != separator {
        let rest = text.drop_first();
        lemma_field_len(rest, separator);
        assert forall|j: int| 0 <= j < field_len(text, separator) implies #[trigger] text[j]
            != separator by {
            if j > 0 {
                assert(text[j] == rest[j - 1]);
            }
        }
    }
}

pub proof fn lemma_field_len_at(text: Seq<char>, separator: char, n: int)
    requires
        0 <= n <= text.len(),
        forall|j: int| 0 <= j < n ==> #[trigger] text[j] != separator,
        n == text.len() || text[n] == separator,
    ensures
        field_len(text, separator) == n,
    decreases n,
{
    if n > 0 {
        let rest = text.drop_first();
        assert forall|j: int| 0 <= j < n - 1 implies #[trigger] rest[j] != separator by {
            assert(rest[j] == text[j + 1]);
        }
        lemma_field_len_at(rest, separator, n - 1);
    }
}

/// The pieces of `text` between separators.
pub fn split_char(text: &str, separator: char) -> (result: Vec<String>)
    ensures
        texts(result@) == fields(text@, separator),
        result@.len() > 0,
{
    let chars = chars_of(text);
    let mut result: Vec<String> = Vec::new();
    let mut i: usize = 0;
    assert(chars@.skip(0) =~= chars@);
    assert(texts(result@) + fields(chars@, separator) =~= fields(chars@, separator));
    loop
        invariant
            i <= chars@.len(),
            chars@ == text@,
            fields(text@, separator) == texts(result@) + fields(chars@.skip(i as int), separator),
        decreases chars.len() - i,
    {
        let ghost rest = chars@.skip(i as int);
        let mut j: usize = i;
        while j < chars.len() && chars[j] != separator
            invariant
                i <= j <= chars@.len(),
                forall|k: int| i <= k < j ==> #[trigger] chars@[k] != separator,
            decreases chars.len() - j,
        {
            j += 1;
        }
        let piece = text_between(&chars, i, j);
        let ghost before = texts(result@);
        proof {
            assert forall|k: int| 0 <= k < j - i implies #[trigger] rest[k] != separator by {
                assert(rest[k] == chars@[i + k]);
            }
            if j < chars@.len() {
                assert(rest[j - i] == chars@[j as int]);
            }
            lemma_field_len_at(rest, separator, j - i);
            assert(rest.take(j - i) =~= piece@);
        }
        result.push(piece);
        assert(texts(result@) =~= before.push(piece@));
        if j >= chars.len() {
            assert(rest =~= piece@);
            assert(before + seq![rest] =~= before.push(piece@));
            return result;
        }
        proof {
            assert(rest.skip(j - i + 1) =~= chars@.skip(j + 1));
            assert(before + (seq![piece@] + fields(chars@.skip(j + 1), separator)) =~= before.push(
                piece@,
            ) + fields(chars@.skip(j + 1), separator));
        }
        i = j + 1;
    }
}

// ---------------------------------------------------------------------------
// Searching
// ---------------------------------------------------------------------------

fn matches_at(chars: &Vec<char>, needle: &Vec<char>, at: usize) -> (result: bool)
    requires
        at + needle@.len() <= chars@.len(),
    ensures
        result == occurs_at(chars@, needle@, at as int),
{
    for i in 0..needle.len()
        invariant
            at + needle.len() <= chars.len(),
            forall|j: int| 0 <= j < i ==> chars@[at + j] == #[trigger] needle@[j],
    {
        if chars[at + i] != needle[i] {
            proof {
                let sub = chars@.subrange(at as int, at + needle@.len());
                assert(sub[i as int] == chars@[at + i]);
            }
            return false;
        }
    }
    assert(chars@.subrange(at as int, at + needle@.len()) =~= needle@);
    true
}

/// Whether `needle` stands somewhere in `text`.
pub fn contains(text: &str, needle: &str) -> (result: bool)
    ensures
        result == occurs(text@, needle@),
{
    let chars = chars_of(text);
    let wanted = chars_of(needle);
    if wanted.len() > chars.len() {
        return false;
    }
    let last: usize = chars.len() - wanted.len();
    let mut at: usize = 0;
    while at <= last
        invariant
            chars@ == text@,
            wanted@ == needle@,
            last == chars@.len() - wanted@.len(),
            at <= last + 1,
            forall|j: int| 0 <= j < at ==> !#[trigger] occurs_at(text@, needle@, j),
        decreases last + 1 - at,
    {
        if matches_at(&chars, &wanted, at) {
            return true;
        }
        if at == last {
            return false;
        }
        at += 1;
    }
    false
}

/// Whether `text` begins with `prefix`.
pub fn starts_with(text: &str, prefix: &str) -> (result: bool)
    ensures
        result == begins(text@, prefix@),
{
    let chars = chars_of(text);
    let wanted = chars_of(prefix);
    wanted.len() <= chars.len() && matches_at(&chars, &wanted, 0)
}

/// Whether `text` ends with `suffix`.
pub fn ends_with(text: &str, suffix: &str) -> (result: bool)
    ensures
        result == ends(text@, suffix@),
{
    let chars = chars_of(text);
    let wanted = chars_of(suffix);
    wanted.len() <= chars.len() && matches_at(&chars, &wanted, chars.len() - wanted.len())
}

/// What follows `prefix` in `text`, when `text` begins with it.
pub fn strip_prefix(text: &str, prefix: &str) -> (result: Option<String>)
    ensures
        result is Some == begins(text@, prefix@),
        result matches Some(rest) ==> rest@ == text@.skip(prefix@.len() as int),
{
    let chars = chars_of(text);
    let wanted = chars_of(prefix);
    if wanted.len() <= chars.len() && matches_at(&chars, &wanted, 0) {
        assert(chars@.subrange(wanted@.len() as int, chars@.len() as int) =~= chars@.skip(
            wanted@.len() as int,
        ));
        Some(text_between(&chars, wanted.len(), chars.len()))
    } else {
        None
    }
}

/// What precedes `suffix` in `text`, when `text` ends with it.
pub fn strip_suffix(text: &str, suffix: &str) -> (result: Option<String>)
    ensures
        result is Some == ends(text@, suffix@),
        result matches Some(rest) ==> rest@ == text@.take(text@.len() - suffix@.len()),
{
    let chars = chars_of(text);
    let wanted = chars_of(suffix);
    if wanted.len() <= chars.len() && matches_at(&chars, &wanted, chars.len() - wanted.len()) {
        let end: usize = chars.len() - wanted.len();
        assert(chars@.subrange(0, end as int) =~= chars@.take(end as int));
        Some(text_between(&chars, 0, end))
    } else {
        None
    }
}

/// Whether `text` holds the character `c`.
pub fn has_char(text: &str, c: char) -> (result: bool)
    ensures
        result == text@.contains(c),
{
    let chars = chars_of(text);
    set_has(&chars, c)
}

/// `text` with every `from` turned into `to`.
pub fn replace_char(text: &str, from: char, to: char) -> (result: String)
    ensures
        result@ == replaced(text@, from, to),
{
    let chars = chars_of(text);
    let mut result = String::new();
    for i in 0..chars.len()
        invariant
            chars@ == text@,
            result@ == replaced(text@, from, to).take(i as int),
    {
        if chars[i] == from {
            result.push(to);
        } else {
            result.push(chars[i]);
        }
    }
    assert(replaced(text@, from, to).take(chars@.len() as int) =~= replaced(text@, from, to));
    result
}

/// `text` with its ASCII letters in lower case.
pub fn to_ascii_lower(text: &str) -> (result: String)
    ensures
        result@ == ascii_lower(text@),
{
    let chars = chars_of(text);
    let mut result = String::new();
    for i in 0..chars.len()
        invariant
            chars@ == text@,
            result@ == ascii_lower(text@).take(i as int),
    {
        let c = chars[i];
        let n: u32 = c as u32;
        if 65 <= n && n <= 90 {
            let lowered: u8 = (n + 32) as u8;
            result.push(lowered as char);
        } else {
            result.push(c);
        }
    }
    assert(ascii_lower(text@).take(chars@.len() as int) =~= ascii_lower(text@));
    result
}

/// Equality up to the case of ASCII letters.
pub fn eq_ignore_ascii_case(left: &str, right: &str) -> (result: bool)
    ensures
        result == same_ascii(left@, right@),
{
    let l = to_ascii_lower(left);
    let r = to_ascii_lower(right);
    text_eq(l.as_str(), r.as_str())
}

proof fn lemma_base_name_at(text: Seq<char>, n: int)
    requires
        0 <= n <= text.len(),
        n == 0 || text[n - 1] == '\\' || text[n - 1] == '/',
        forall|j: int|
            n <= j < text.len() ==> (#[trigger] text[j]) != '\\' && text[j] != '/',
    ensures
        base_name(text) == text.skip(n),
    decreases text.len(),
{
    if n == 0 {
        assert(!has_separator(text));
        assert(text.skip(0) =~= text);
    } else {
        assert(text.contains(text[n - 1]));
        let rest = text.drop_first();
        if n > 1 {
            assert(rest[n - 2] == text[n - 1]);
        }
        assert forall|j: int| n - 1 <= j < rest.len() implies (#[trigger] rest[j]) != '\\'
            && rest[j] != '/' by {
            assert(rest[j] == text[j + 1]);
        }
        lemma_base_name_at(rest, n - 1);
        assert(rest.skip(n - 1) =~= text.skip(n));
    }
}

/// What follows the last path separator of `text`.
pub fn windows_basename(text: &str) -> (result: String)
    ensures
        result@ == base_name(text@),
{
    let chars = chars_of(text);
    let mut at: usize = chars.len();
    while at > 0 && chars[at - 1] != '\\' && chars[at - 1] != '/'
        invariant
            at <= chars@.len(),
            forall|j: int|
                at <= j < chars@.len() ==> (#[trigger] chars@[j]) != '\\' && chars@[j] != '/',
        decreases at,
    {
        at -= 1;
    }
    proof {
        lemma_base_name_at(chars@, at as int);
        assert(chars@.subrange(at as int, chars@.len() as int) =~= chars@.skip(at as int));
    }
    text_between(&chars, at, chars.len())
}

// ---------------------------------------------------------------------------
// Numbers
// ---------------------------------------------------------------------------

proof fn lemma_digits_prefix(text: Seq<char>, n: int)
    requires
        0 <= n <= text.len(),
        all_digits(text),
    ensures
        digits_value(text.take(n)) <= digits_value(text),
    decreases text.len() - n,
{
    if n < text.len() {
        lemma_digits_prefix(text, n + 1);
        let next = text.take(n + 1);
        assert(next.drop_last() =~= text.take(n));
        assert(is_digit(text[n]));
    } else {
        assert(text.take(n) =~= text);
    }
}

fn digits_from(chars: &Vec<char>, from: usize, limit: u64) -> (result: Option<u64>)
    requires
        from <= chars@.len(),
    ensures
        ({
            let body = chars@.skip(from as int);
            if body.len() > 0 && all_digits(body) && digits_value(body) <= limit {
                result == Some(digits_value(body) as u64)
            } else {
                result is None
            }
        }),
{
    if from >= chars.len() {
        return None;
    }
    let ghost body = chars@.skip(from as int);
    let mut value: u64 = 0;
    let mut i: usize = from;
    while i < chars.len()
        invariant
            from <= i <= chars@.len(),
            body == chars@.skip(from as int),
            all_digits(body.take(i - from)),
            value == digits_value(body.take(i - from)),
            value <= limit,
        decreases chars.len() - i,
    {
        let n: u32 = chars[i] as u32;
        let ghost next = body.take(i - from + 1);
        assert(next.drop_last() =~= body.take(i - from));
        assert(next.last() == chars@[i as int]);
        if n < 48 || n > 57 {
            assert(body[i - from] == chars@[i as int]);
            return None;
        }
        let digit: u64 = (n - 48) as u64;
        if value > (u64::MAX - digit) / 10 || value * 10 + digit > limit {
            proof {
                if all_digits(body) {
                    lemma_digits_prefix(body, i - from + 1);
                }
            }
            return None;
        }
        proof {
            assert forall|k: int| 0 <= k < next.len() implies is_digit(#[trigger] next[k]) by {
                if k < i - from {
                    assert(next[k] == body.take(i - from)[k]);
                }
            }
        }
        value = value * 10 + digit;
        i += 1;
    }
    assert(body.take(i - from) =~= body);
    Some(value)
}

/// The number at most `limit` that `text` writes in decimal, with an optional
/// `+` before it.
pub fn parse_unsigned(text: &str, limit: u64) -> (result: Option<u64>)
    ensures
        result is Some == parsed_unsigned(text@, limit as nat) is Some,
        result matches Some(n) ==> parsed_unsigned(text@, limit as nat) == Some(n as nat),
{
    let chars = chars_of(text);
    if chars.len() > 0 && chars[0] == '+' {
        assert(chars@.skip(1) =~= chars@.drop_first());
        digits_from(&chars, 1, limit)
    } else {
        assert(chars@.skip(0) =~= chars@);
        digits_from(&chars, 0, limit)
    }
}

/// The `i64` that `text` writes in decimal, with an optional sign before it.
pub fn parse_signed(text: &str) -> (result: Option<i64>)
    ensures
        result is Some == parsed_signed(text@) is Some,
        result matches Some(n) ==> parsed_signed(text@) == Some(n as int),
{
    let chars = chars_of(text);
    if chars.len() > 0 && chars[0] == '-' {
        assert(chars@.skip(1) =~= chars@.drop_first());
        let limit: u64 = 0x8000_0000_0000_0000;
        match digits_from(&chars, 1, limit) {
            Some(n) => if n == limit {
                Some(i64::MIN)
            } else {
                Some(-(n as i64))
            },
            None => None,
        }
    } else {
        let limit: u64 = 0x7fff_ffff_ffff_ffff;
        let from: usize = if chars.len() > 0 && chars[0] == '+' {
            1
        } else {
            0
        };
        assert(chars@.skip(1) =~= chars@.drop_first());
        assert(chars@.skip(0) =~= chars@);
        match digits_from(&chars, from, limit) {
            Some(n) => Some(n as i64),
            None => None,
        }
    }
}

/// The decimal notation of a natural number.
pub fn decimal_text(n: u64) -> (result: String)
    ensures
        result@ == decimal(n as nat),
    decreases n,
{
    if n < 10 {
        let digit: u8 = 48 + n as u8;
        let mut result = String::new();
        result.push(digit as char);
        assert(result@ =~= seq![digit_char(n as nat)]);
        result
    } else {
        let mut result = decimal_text(n / 10);
        let digit: u8 = 48 + (n % 10) as u8;
        result.push(digit as char);
        result
    }
}

/// The decimal notation of an integer.
pub fn signed_decimal_text(n: i64) -> (result: String)
    ensures
        result@ == signed_decimal(n as int),
{
    if n < 0 {
        let magnitude: u64 = if n == i64::MIN {
            0x8000_0000_0000_0000
        } else {
            (-n) as u64
        };
        let mut result = String::new();
        result.push('-');
        let body = decimal_text(magnitude);
        result.append(body.as_str());
        assert(result@ =~= seq!['-'] + decimal(magnitude as nat));
        result
    } else {
        decimal_text(n as u64)
    }
}

/// Decimal notation consists of digits and is read back as the number.
pub proof fn lemma_decimal(n: nat)
    ensures
        decimal(n).len() > 0,
        all_digits(decimal(n)),
        digits_value(decimal(n)) == n,
    decreases n,
{
    if n < 10 {
        let shown = decimal(n);
        assert(shown.drop_last() =~= Seq::<char>::empty());
        assert(digits_value(Seq::<char>::empty()) == 0);
    } else {
        lemma_decimal(n / 10);
        let shown = decimal(n);
        assert(shown.drop_last() =~= decimal(n / 10));
        assert forall|i: int| 0 <= i < shown.len() implies is_digit(#[trigger] shown[i]) by {
            if i < shown.len() - 1 {
                assert(shown[i] == decimal(n / 10)[i]);
            }
        }
    }
}

/// A text splits at its only separator.
pub proof fn lemma_two_fields(left: Seq<char>, separator: char, right: Seq<char>)
    requires
        !left.contains(separator),
        !right.contains(separator),
    ensures
        fields(left + seq![separator] + right, separator) == seq![left, right],
        fields(left, separator) == seq![left],
{
    let whole = left + seq![separator] + right;
    assert forall|j: int| 0 <= j < left.len() implies #[trigger] whole[j] != separator by {
        assert(whole[j] == left[j]);
        assert(left.contains(left[j]));
    }
    lemma_field_len_at(whole, separator, left.len() as int);
    assert(whole.take(left.len() as int) =~= left);
    assert(whole.skip(left.len() as int + 1) =~= right);
    assert forall|j: int| 0 <= j < right.len() implies #[trigger] right[j] != separator by {
        assert(right.contains(right[j]));
    }
    lemma_field_len_at(right, separator, right.len() as int);
    assert forall|j: int| 0 <= j < left.len() implies #[trigger] left[j] != separator by {
        assert(left.contains(left[j]));
    }
    lemma_field_len_at(left, separator, left.len() as int);
    assert(fields(right, separator) == seq![right]);
    assert(fields(whole, separator) == seq![left] + seq![right]);
    assert(seq![left] + seq![right] =~= seq![left, right]);
}

// ---------------------------------------------------------------------------
// Laws
// ---------------------------------------------------------------------------

/// Whether every white space of a text is a plain space.
pub open spec fn on_one_line(text: Seq<char>) -> bool {
    forall|i: int| 0 <= i < text.len() && is_space(#[trigger] text[i]) ==> text[i] == ' '
}

/// The parts between separators hold none and nothing new.
pub proof fn lemma_fields_hold(text: Seq<char>, separator: char)
    ensures
        forall|k: int, i: int|
            #![trigger fields(text, separator)[k][i]]
            0 <= k < fields(text, separator).len() && 0 <= i < fields(
                text,
                separator,
            )[k].len() ==> fields(text, separator)[k][i] != separator && text.contains(
                fields(text, separator)[k][i],
            ),
    decreases text.len(),
{
    lemma_field_len(text, separator);
    let n = field_len(text, separator) as int;
    let parts = fields(text, separator);
    if n < text.len() {
        let rest = text.skip(n + 1);
        lemma_fields_hold(rest, separator);
        assert forall|k: int, i: int|
            #![trigger parts[k][i]]
            0 <= k < parts.len() && 0 <= i < parts[k].len() implies parts[k][i] != separator
            && text.contains(parts[k][i]) by {
            if k == 0 {
                assert(parts[0][i] == text[i]);
            } else {
                let other = fields(rest, separator);
                assert(parts[k] == other[k - 1]);
                assert(rest.contains(other[k - 1][i]));
                let j = choose|j: int| 0 <= j < rest.len() && rest[j] == other[k - 1][i];
                assert(text[j + n + 1] == rest[j]);
            }
        }
    } else {
        assert forall|k: int, i: int|
            #![trigger parts[k][i]]
            0 <= k < parts.len() && 0 <= i < parts[k].len() implies parts[k][i] != separator
            && text.contains(parts[k][i]) by {
            assert(parts[0][i] == text[i]);
        }
    }
}

/// A separator and a part behind a text give one part more.
proof fn lemma_fields_push(text: Seq<char>, separator: char, part: Seq<char>)
    requires
        !part.contains(separator),
    ensures
        fields(text + seq![separator] + part, separator) == fields(
            text,
            separator,
        ).push(part),
    decreases text.len(),
{
    lemma_field_len(text, separator);
    let n = field_len(text, separator) as int;
    if n < text.len() {
        let whole = text + seq![separator] + part;
        assert forall|j: int| 0 <= j < n implies #[trigger] whole[j] != separator by {
            assert(whole[j] == text[j]);
        }
        lemma_field_len_at(whole, separator, n);
        assert(whole.take(n) =~= text.take(n));
        assert(whole.skip(n + 1) =~= text.skip(n + 1) + seq![separator] + part);
        lemma_fields_push(text.skip(n + 1), separator, part);
        assert(fields(whole, separator) =~= fields(text, separator).push(part));
    } else {
        assert(!text.contains(separator));
        lemma_two_fields(text, separator, part);
        assert(seq![text, part] =~= seq![text].push(part));
    }
}

/// Parts without separators come back from the text that joins them.
pub proof fn lemma_fields_of_joined(parts: Seq<Seq<char>>, separator: char)
    requires
        parts.len() > 0,
        forall|k: int| 0 <= k < parts.len() ==> !(#[trigger] parts[k]).contains(separator),
    ensures
        fields(joined(parts, seq![separator]), separator) == parts,
    decreases parts.len(),
{
    if parts.len() == 1 {
        lemma_two_fields(parts[0], separator, parts[0]);
        assert(parts =~= seq![parts[0]]);
    } else {
        let init = parts.drop_last();
        assert forall|k: int| 0 <= k < init.len() implies !(#[trigger] init[k]).contains(separator) by {
            assert(init[k] == parts[k]);
        }
        lemma_fields_of_joined(init, separator);
        lemma_fields_push(joined(init, seq![separator]), separator, parts.last());
        assert(parts =~= init.push(parts.last()));
    }
}

/// Two words with one space between them are compact.
pub proof fn lemma_two_words(left: Seq<char>, right: Seq<char>)
    requires
        left.len() > 0,
        right.len() > 0,
        forall|j: int| 0 <= j < left.len() ==> !is_space(#[trigger] left[j]),
        forall|j: int| 0 <= j < right.len() ==> !is_space(#[trigger] right[j]),
    ensures
        words(left + seq![' '] + right) == seq![left, right],
        compacted(left + seq![' '] + right) == left + seq![' '] + right,
{
    let whole = left + seq![' '] + right;
    let n = left.len() as int;
    assert forall|j: int| 0 <= j < n implies !is_space(#[trigger] whole[j]) by {
        assert(whole[j] == left[j]);
    }
    lemma_word_len_at(whole, n);
    lemma_word_len_at(right, right.len() as int);
    assert(whole[0] == left[0]);
    assert(whole.take(n) =~= left);
    let rest = whole.skip(n);
    assert(rest[0] == ' ');
    assert(rest.drop_first() =~= right);
    assert(right.take(right.len() as int) =~= right);
    assert(right.skip(right.len() as int) =~= Seq::<char>::empty());
    assert(words(right.skip(right.len() as int)) =~= Seq::<Seq<char>>::empty());
    assert(words(right) =~= seq![right]);
    assert(words(rest) == words(right));
    assert(words(whole) =~= seq![left, right]);
    let parts = seq![left, right];
    assert(parts.drop_last() =~= seq![left]);
    assert(joined(parts.drop_last(), seq![' ']) == left);
}

/// What is left without leading white space begins with none and holds nothing
/// new.
proof fn lemma_trimmed_start(text: Seq<char>)
    ensures
        trimmed_start(text).len() > 0 ==> !is_space(trimmed_start(text)[0]),
        forall|i: int|
            0 <= i < trimmed_start(text).len() ==> text.contains(#[trigger] trimmed_start(text)[i]),
    decreases text.len(),
{
    if text.len() > 0 && is_space(text[0]) {
        let rest = text.drop_first();
        lemma_trimmed_start(rest);
        assert forall|i: int| 0 <= i < trimmed_start(text).len() implies text.contains(
            #[trigger] trimmed_start(text)[i],
        ) by {
            let c = trimmed_start(rest)[i];
            let k = choose|k: int| 0 <= k < rest.len() && rest[k] == c;
            assert(text[k + 1] == c);
        }
    }
}

/// What is left without trailing white space ends with none and is a beginning
/// of the whole.
proof fn lemma_trimmed_end(text: Seq<char>)
    ensures
        trimmed_end(text).len() <= text.len(),
        trimmed_end(text) == text.take(trimmed_end(text).len() as int),
        trimmed_end(text).len() > 0 ==> !is_space(trimmed_end(text).last()),
    decreases text.len(),
{
    if text.len() > 0 && is_space(text.last()) {
        lemma_trimmed_end(text.drop_last());
        let n = trimmed_end(text).len() as int;
        assert(text.drop_last().take(n) =~= text.take(n));
    } else {
        assert(text.take(text.len() as int) =~= text);
    }
}

/// A text without surrounding white space holds nothing new, and nothing is
/// left to take away from it.
pub proof fn lemma_trimmed(text: Seq<char>)
    ensures
        trimmed(trimmed(text)) == trimmed(text),
        trimmed(text).len() > 0 ==> !is_space(trimmed(text)[0]) && !is_space(trimmed(text).last()),
        forall|i: int| 0 <= i < trimmed(text).len() ==> text.contains(#[trigger] trimmed(text)[i]),
{
    let head = trimmed_start(text);
    lemma_trimmed_start(text);
    lemma_trimmed_end(head);
    assert forall|i: int| 0 <= i < trimmed(text).len() implies text.contains(
        #[trigger] trimmed(text)[i],
    ) by {
        assert(trimmed(text)[i] == head[i]);
    }
}

proof fn lemma_word_has_no_space(text: Seq<char>, i: int)
    requires
        0 <= i < word_len(text),
    ensures
        i < text.len(),
        !is_space(text[i]),
    decreases text.len(),
{
    if i > 0 {
        lemma_word_has_no_space(text.drop_first(), i - 1);
    }
}

proof fn lemma_words_have_no_space(text: Seq<char>, k: int)
    requires
        0 <= k < words(text).len(),
    ensures
        forall|i: int| 0 <= i < words(text)[k].len() ==> !is_space(#[trigger] words(text)[k][i]),
    decreases text.len(),
{
    if text.len() > 0 && is_space(text[0]) {
        lemma_words_have_no_space(text.drop_first(), k);
    } else if text.len() > 0 {
        let n = word_len(text) as int;
        if k == 0 {
            assert forall|i: int| 0 <= i < words(text)[0].len() implies !is_space(
                #[trigger] words(text)[0][i],
            ) by {
                lemma_word_has_no_space(text, i);
            }
        } else {
            assert(words(text)[k] == words(text.skip(n))[k - 1]);
            lemma_words_have_no_space(text.skip(n), k - 1);
        }
    }
}

proof fn lemma_joined_on_one_line(parts: Seq<Seq<char>>)
    requires
        forall|k: int| 0 <= k < parts.len() ==> on_one_line(#[trigger] parts[k]),
    ensures
        on_one_line(joined(parts, seq![' '])),
    decreases parts.len(),
{
    if parts.len() > 1 {
        let rest = parts.drop_last();
        assert forall|k: int| 0 <= k < rest.len() implies on_one_line(#[trigger] rest[k]) by {
            assert(rest[k] == parts[k]);
        }
        lemma_joined_on_one_line(rest);
        let head = joined(rest, seq![' ']);
        let whole = joined(parts, seq![' ']);
        assert forall|i: int| 0 <= i < whole.len() && is_space(#[trigger] whole[i]) implies whole[i]
            == ' ' by {
            if i < head.len() {
                assert(whole[i] == head[i]);
            } else if i > head.len() {
                assert(whole[i] == parts.last()[i - head.len() - 1]);
            }
        }
    }
}

/// A compacted text stands on one line.
pub proof fn lemma_compacted_on_one_line(text: Seq<char>)
    ensures
        on_one_line(compacted(text)),
{
    let parts = words(text);
    assert forall|k: int| 0 <= k < parts.len() implies on_one_line(#[trigger] parts[k]) by {
        lemma_words_have_no_space(text, k);
    }
    lemma_joined_on_one_line(parts);
}

} // verus!
