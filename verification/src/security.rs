//! Redaction of secrets, previews and pairing codes.
use vstd::prelude::*;
use crate::chance;
use crate::digest;
use crate::text;

verus! {

/// What stands in place of a redacted value.
pub open spec fn redaction() -> Seq<char> {
    "[REDACTED]"@
}

/// The names, in lower case, whose values are secret.
pub open spec fn secret_names() -> Seq<Seq<char>> {
    seq![
        "api_key"@,
        "api-key"@,
        "apikey"@,
        "app_secret"@,
        "app-secret"@,
        "appsecret"@,
        "client_secret"@,
        "clientsecret"@,
        "access_token"@,
        "accesstoken"@,
        "refresh_token"@,
        "id_token"@,
        "password"@,
        "secret"@,
        "token"@,
    ]
}

/// `text` behind an opening quotation mark, if it has one.
pub open spec fn after_quote(text: Seq<char>) -> Seq<char> {
    if text.len() > 0 && (text[0] == '"' || text[0] == '\'') {
        text.drop_first()
    } else {
        text
    }
}

/// `text` behind its leading blanks.
pub open spec fn after_blanks(text: Seq<char>) -> Seq<char>
    decreases text.len(),
{
    if text.len() > 0 && text[0] == ' ' {
        after_blanks(text.drop_first())
    } else {
        text
    }
}

/// `text` behind the `=` or `:` with which it begins, blanks and quotation
/// marks aside.
pub open spec fn after_separator(text: Seq<char>) -> Option<Seq<char>> {
    let rest = after_blanks(after_quote(text));
    if rest.len() > 0 && (rest[0] == '=' || rest[0] == ':') {
        Some(after_quote(after_blanks(rest.drop_first())))
    } else {
        None
    }
}

/// Whether a character ends a secret value.
pub open spec fn ends_value(c: char) -> bool {
    text::is_space(c) || c == '"' || c == '\'' || c == ',' || c == ';' || c == '&' || c == '}'
        || c == ')' || c == ']'
}

/// `text` from the first character that ends a value.
pub open spec fn after_value(text: Seq<char>) -> Seq<char>
    decreases text.len(),
{
    if text.len() > 0 && !ends_value(text[0]) {
        after_value(text.drop_first())
    } else {
        text
    }
}

/// The secret value with which `text` goes on behind `name` and a separator.
pub open spec fn tail_behind(text: Seq<char>, name: Seq<char>) -> Option<Seq<char>> {
    if text::begins(text::ascii_lower(text), name) {
        match after_separator(text.skip(name.len() as int)) {
            Some(tail) => if tail.len() > 0 && !ends_value(tail[0]) {
                Some(tail)
            } else {
                None
            },
            None => None,
        }
    } else {
        None
    }
}

/// The first of the names from index `from` on that gives `text` a secret
/// value.
pub open spec fn tail_among(text: Seq<char>, names: Seq<Seq<char>>, from: int) -> Option<Seq<char>>
    decreases names.len() - from,
{
    if 0 <= from < names.len() {
        match tail_behind(text, names[from]) {
            Some(tail) => Some(tail),
            None => tail_among(text, names, from + 1),
        }
    } else {
        None
    }
}

/// `text` from the secret value on, when `text` begins with what announces one.
pub open spec fn secret_tail(text: Seq<char>) -> Option<Seq<char>> {
    let token = text.skip("bearer "@.len() as int);
    if text::begins(text::ascii_lower(text), "bearer "@) && token.len() > 0 && !ends_value(
        token[0],
    ) {
        Some(token)
    } else {
        tail_among(text, secret_names(), 0)
    }
}

/// `text` with every announced secret value replaced.
pub open spec fn redacted(text: Seq<char>) -> Seq<char>
    decreases text.len(),
{
    if text.len() == 0 {
        Seq::empty()
    } else {
        match secret_tail(text) {
            Some(tail) => if after_value(tail).len() < text.len() {
                text.take(text.len() - tail.len()) + redaction() + redacted(after_value(tail))
            } else {
                text
            },
            None => seq![text[0]] + redacted(text.drop_first()),
        }
    }
}

/// `text` on one line, at most `limit` characters long, the last one an
/// ellipsis when it was cut.
pub open spec fn preview(text: Seq<char>, limit: nat) -> Seq<char> {
    let line = text::compacted(text);
    if line.len() <= limit {
        line
    } else if limit == 0 {
        Seq::empty()
    } else {
        line.take(limit - 1) + "…"@
    }
}

/// `text` with line breaks turned into blanks.
pub open spec fn without_breaks(text: Seq<char>) -> Seq<char> {
    text::replaced(text::replaced(text, '\r', ' '), '\n', ' ')
}

/// The redacted text with its white space compacted, cut at `limit` characters.
pub open spec fn safe_words(text: Seq<char>, limit: nat) -> Seq<char> {
    text::clipped(text::compacted(redacted(text)), limit)
}

pub open spec fn is_ascii_alnum(c: char) -> bool {
    let n = c as u32;
    48 <= n <= 57 || 65 <= n <= 90 || 97 <= n <= 122
}

/// The upper-case form of an ASCII letter; any other character itself.
pub open spec fn ascii_upper_char(c: char) -> char {
    let n = c as u32;
    if 97 <= n <= 122 {
        (n - 32) as char
    } else {
        c
    }
}

/// The letters and digits of a pairing code in upper case.
pub open spec fn pairing_key(code: Seq<char>) -> Seq<char>
    decreases code.len(),
{
    if code.len() == 0 {
        Seq::empty()
    } else if is_ascii_alnum(code.last()) {
        pairing_key(code.drop_last()).push(ascii_upper_char(code.last()))
    } else {
        pairing_key(code.drop_last())
    }
}

// ---------------------------------------------------------------------------
// Redaction
// ---------------------------------------------------------------------------

fn secret_name_list() -> (result: Vec<String>)
    ensures
        text::texts(result@) == secret_names(),
{
    let mut names: Vec<String> = Vec::new();
    names.push("api_key".to_owned());
    names.push("api-key".to_owned());
    names.push("apikey".to_owned());
    names.push("app_secret".to_owned());
    names.push("app-secret".to_owned());
    names.push("appsecret".to_owned());
    names.push("client_secret".to_owned());
    names.push("clientsecret".to_owned());
    names.push("access_token".to_owned());
    names.push("accesstoken".to_owned());
    names.push("refresh_token".to_owned());
    names.push("id_token".to_owned());
    names.push("password".to_owned());
    names.push("secret".to_owned());
    names.push("token".to_owned());
    assert(text::texts(names@) =~= secret_names());
    names
}

fn quote_end(chars: &Vec<char>, at: usize) -> (result: usize)
    requires
        at <= chars@.len(),
    ensures
        at <= result <= chars@.len(),
        chars@.skip(result as int) == after_quote(chars@.skip(at as int)),
{
    if at < chars.len() && (chars[at] == '"' || chars[at] == '\'') {
        assert(chars@.skip(at as int).drop_first() =~= chars@.skip(at + 1));
        at + 1
    } else {
        at
    }
}

fn blanks_end(chars: &Vec<char>, at: usize) -> (result: usize)
    requires
        at <= chars@.len(),
    ensures
        at <= result <= chars@.len(),
        chars@.skip(result as int) == after_blanks(chars@.skip(at as int)),
{
    let mut i: usize = at;
    while i < chars.len() && chars[i] == ' '
        invariant
            at <= i <= chars@.len(),
            after_blanks(chars@.skip(i as int)) == after_blanks(chars@.skip(at as int)),
        decreases chars.len() - i,
    {
        assert(chars@.skip(i as int).drop_first() =~= chars@.skip(i + 1));
        i += 1;
    }
    i
}

fn separator_end(chars: &Vec<char>, at: usize) -> (result: Option<usize>)
    requires
        at <= chars@.len(),
    ensures
        match result {
            Some(end) => at <= end <= chars@.len() && after_separator(chars@.skip(at as int))
                == Some(chars@.skip(end as int)),
            None => after_separator(chars@.skip(at as int)) is None,
        },
{
    let quote = quote_end(chars, at);
    let start = blanks_end(chars, quote);
    if start < chars.len() && (chars[start] == '=' || chars[start] == ':') {
        assert(chars@.skip(start as int).drop_first() =~= chars@.skip(start + 1));
        let blank = blanks_end(chars, start + 1);
        Some(quote_end(chars, blank))
    } else {
        None
    }
}

fn char_ends_value(c: char) -> (result: bool)
    ensures
        result == ends_value(c),
{
    text::is_space_char(c) || c == '"' || c == '\'' || c == ',' || c == ';' || c == '&' || c == '}'
        || c == ')' || c == ']'
}

fn value_end(chars: &Vec<char>, at: usize) -> (result: usize)
    requires
        at <= chars@.len(),
    ensures
        at <= result <= chars@.len(),
        chars@.skip(result as int) == after_value(chars@.skip(at as int)),
        at < chars@.len() && !ends_value(chars@[at as int]) ==> at < result,
{
    let mut i: usize = at;
    while i < chars.len() && !char_ends_value(chars[i])
        invariant
            at <= i <= chars@.len(),
            after_value(chars@.skip(i as int)) == after_value(chars@.skip(at as int)),
        decreases chars.len() - i,
    {
        assert(chars@.skip(i as int).drop_first() =~= chars@.skip(i + 1));
        i += 1;
    }
    i
}

/// Whether `lower`, the lower-case form of `chars`, has `name` at `at`.
fn name_at(lower: &Vec<char>, name: &Vec<char>, at: usize) -> (result: bool)
    requires
        at <= lower@.len(),
    ensures
        result == text::begins(lower@.skip(at as int), name@),
        result ==> at + name.len() <= lower.len(),
{
    if lower.len() - at < name.len() {
        return false;
    }
    let ghost rest = lower@.skip(at as int);
    for i in 0..name.len()
        invariant
            at + name.len() <= lower.len(),
            rest == lower@.skip(at as int),
            forall|j: int| 0 <= j < i ==> lower@[at + j] == #[trigger] name@[j],
    {
        if lower[at + i] != name[i] {
            proof {
                let sub = rest.subrange(0, name@.len() as int);
                assert(sub[i as int] == lower@[at + i]);
            }
            return false;
        }
    }
    assert(rest.subrange(0, name@.len() as int) =~= name@);
    true
}

fn tail_at(chars: &Vec<char>, lower: &Vec<char>, name: &str, at: usize) -> (result: Option<usize>)
    requires
        at < chars@.len(),
        lower@ == text::ascii_lower(chars@),
    ensures
        match result {
            Some(end) => at <= end < chars@.len() && !ends_value(chars@[end as int])
                && tail_behind(chars@.skip(at as int), name@) == Some(chars@.skip(end as int)),
            None => tail_behind(chars@.skip(at as int), name@) is None,
        },
{
    let wanted = text::chars_of(name);
    let ghost rest = chars@.skip(at as int);
    assert(text::ascii_lower(rest) =~= lower@.skip(at as int));
    if !name_at(lower, &wanted, at) {
        return None;
    }
    assert(rest.skip(wanted@.len() as int) =~= chars@.skip(at + wanted@.len()));
    match separator_end(chars, at + wanted.len()) {
        Some(end) => if end < chars.len() && !char_ends_value(chars[end]) {
            assert(chars@.skip(end as int)[0] == chars@[end as int]);
            Some(end)
        } else {
            assert(end < chars@.len() ==> chars@.skip(end as int)[0] == chars@[end as int]);
            None
        },
        None => None,
    }
}

fn secret_at(
    chars: &Vec<char>,
    lower: &Vec<char>,
    names: &Vec<String>,
    at: usize,
) -> (result: Option<usize>)
    requires
        at < chars@.len(),
        lower@ == text::ascii_lower(chars@),
        text::texts(names@) == secret_names(),
    ensures
        match result {
            Some(end) => at <= end < chars@.len() && !ends_value(chars@[end as int])
                && secret_tail(chars@.skip(at as int)) == Some(chars@.skip(end as int)),
            None => secret_tail(chars@.skip(at as int)) is None,
        },
{
    let bearer = text::chars_of("bearer ");
    let ghost rest = chars@.skip(at as int);
    assert(text::ascii_lower(rest) =~= lower@.skip(at as int));
    if name_at(lower, &bearer, at) {
        let end: usize = at + bearer.len();
        assert(rest.skip(bearer@.len() as int) =~= chars@.skip(end as int));
        if end < chars.len() && !char_ends_value(chars[end]) {
            assert(chars@.skip(end as int)[0] == chars@[end as int]);
            return Some(end);
        }
        assert(end < chars@.len() ==> chars@.skip(end as int)[0] == chars@[end as int]);
    }
    for i in 0..names.len()
        invariant
            at < chars@.len(),
            lower@ == text::ascii_lower(chars@),
            text::texts(names@) == secret_names(),
            rest == chars@.skip(at as int),
            secret_tail(rest) == tail_among(rest, secret_names(), i as int),
    {
        assert(secret_names()[i as int] == names@[i as int]@);
        match tail_at(chars, lower, names[i].as_str(), at) {
            Some(end) => {
                return Some(end);
            },
            None => {},
        }
    }
    assert(secret_names().len() == names@.len());
    None
}

/// Replaces the values of known secrets in `text`.
pub fn redact_secrets(text: &str) -> (result: String)
    ensures
        result@ == redacted(text@),
{
    let chars = text::chars_of(text);
    let lowered = text::to_ascii_lower(text);
    let lower = text::chars_of(lowered.as_str());
    let names = secret_name_list();
    let mut result = String::new();
    let mut at: usize = 0;
    assert(chars@.skip(0) =~= chars@);
    assert(result@ + redacted(chars@) =~= redacted(chars@));
    while at < chars.len()
        invariant
            at <= chars@.len(),
            chars@ == text@,
            lower@ == text::ascii_lower(chars@),
            text::texts(names@) == secret_names(),
            redacted(text@) == result@ + redacted(chars@.skip(at as int)),
        decreases chars.len() - at,
    {
        let ghost rest = chars@.skip(at as int);
        let ghost before = result@;
        match secret_at(&chars, &lower, &names, at) {
            Some(start) => {
                let end = value_end(&chars, start);
                let head = text::text_between(&chars, at, start);
                result.append(head.as_str());
                result.append("[REDACTED]");
                proof {
                    assert(rest.take(rest.len() - chars@.skip(start as int).len()) =~= head@);
                    assert(before + (head@ + redaction() + redacted(chars@.skip(end as int)))
                        =~= before + head@ + redaction() + redacted(chars@.skip(end as int)));
                }
                at = end;
            },
            None => {
                result.push(chars[at]);
                proof {
                    assert(rest.drop_first() =~= chars@.skip(at + 1));
                    assert(before + (seq![rest[0]] + redacted(rest.drop_first())) =~= before.push(
                        rest[0],
                    ) + redacted(rest.drop_first()));
                }
                at += 1;
            },
        }
    }
    assert(chars@.skip(at as int).len() == 0);
    assert(result@ + Seq::<char>::empty() =~= result@);
    result
}

/// The redacted text with its white space compacted, cut at `limit` characters.
pub fn safe_words_text(text: &str, limit: usize) -> (result: String)
    ensures
        result@ == safe_words(text@, limit as nat),
{
    let clean = redact_secrets(text);
    let line = text::compact(clean.as_str());
    text::clip(line.as_str(), limit)
}

/// `text` on one line, at most `limit` characters long.
pub fn prompt_preview(text: &str, limit: usize) -> (result: String)
    ensures
        result@ == preview(text@, limit as nat),
{
    let line = text::compact(text);
    let chars = text::chars_of(line.as_str());
    if chars.len() <= limit {
        line
    } else if limit == 0 {
        String::new()
    } else {
        let mut result = text::text_between(&chars, 0, limit - 1);
        assert(chars@.subrange(0, limit - 1) =~= chars@.take(limit - 1));
        result.append("…");
        result
    }
}

// ---------------------------------------------------------------------------
// Pairing codes
// ---------------------------------------------------------------------------

fn normal_code(code: &str) -> (result: String)
    ensures
        result@ == pairing_key(code@),
{
    let chars = text::chars_of(code);
    let mut result = String::new();
    for i in 0..chars.len()
        invariant
            result@ == pairing_key(chars@.take(i as int)),
    {
        assert(chars@.take(i + 1).drop_last() =~= chars@.take(i as int));
        let c: char = chars[i];
        let n: u32 = c as u32;
        if (48 <= n && n <= 57) || (65 <= n && n <= 90) {
            result.push(c);
        } else if 97 <= n && n <= 122 {
            let upper: u8 = (n - 32) as u8;
            result.push(upper as char);
        }
    }
    assert(chars@.take(chars@.len() as int) =~= chars@);
    result
}

/// The digest under which a pairing code is stored. Case and punctuation do
/// not matter.
pub fn hash_pairing_code(code: &str) -> (result: String)
    ensures
        result@ == digest::text_digest(pairing_key(code@)),
{
    let key = normal_code(code);
    digest::digest_text(key.as_str())
}

/// The characters of a pairing code: no `0`, `1`, `I`, `O`.
pub open spec fn code_letters() -> Seq<char> {
    "ABCDEFGHJKLMNPQRSTUVWXYZ23456789"@
}

/// The letters that `draws` picks.
pub open spec fn drawn(draws: Seq<u32>) -> Seq<char> {
    Seq::new(draws.len(), |i: int| code_letters()[draws[i] as int % code_letters().len() as int])
}

/// The pairing code that eight draws pick: two groups of four.
pub open spec fn drawn_code(draws: Seq<u32>) -> Seq<char> {
    drawn(draws).take(4) + "-"@ + drawn(draws).skip(4)
}

/// The pairing code that eight draws pick: two groups of four.
pub fn pairing_code(draws: &Vec<u32>) -> (result: String)
    requires
        draws@.len() == 8,
    ensures
        result@ == drawn_code(draws@),
{
    let letters = text::chars_of("ABCDEFGHJKLMNPQRSTUVWXYZ23456789");
    proof {
        reveal_strlit("ABCDEFGHJKLMNPQRSTUVWXYZ23456789");
    }
    let count: u32 = letters.len() as u32;
    let mut result = String::new();
    let ghost all = drawn(draws@);
    let ghost whole = all.take(4) + "-"@ + all.skip(4);
    for i in 0..4usize
        invariant
            draws@.len() == 8,
            letters@ == code_letters(),
            count == letters@.len(),
            count == 32,
            all == drawn(draws@),
            result@ == all.take(i as int),
    {
        result.push(letters[(draws[i] % count) as usize]);
        assert(result@ =~= all.take(i + 1));
    }
    result.append("-");
    let ghost head = result@;
    for i in 4..8usize
        invariant
            draws@.len() == 8,
            letters@ == code_letters(),
            count == letters@.len(),
            count == 32,
            all == drawn(draws@),
            result@ == head + all.subrange(4, i as int),
    {
        result.push(letters[(draws[i] % count) as usize]);
        assert(result@ =~= head + all.subrange(4, i + 1));
    }
    assert(all.subrange(4, 8) =~= all.skip(4));
    result
}

/// A random pairing code.
pub fn generate_pairing_code() -> (result: String)
    ensures
        exists|draws: Seq<u32>|
            draws.len() == 8 && result@ == #[trigger] drawn_code(draws),
{
    let mut draws: Vec<u32> = Vec::new();
    for i in 0..8usize
        invariant
            draws@.len() == i,
    {
        let draw: i64 = chance::draw_below(32);
        draws.push(draw as u32);
    }
    pairing_code(&draws)
}

// ---------------------------------------------------------------------------
// Laws
// ---------------------------------------------------------------------------

/// What is shown of an error is one line within its limit.
pub proof fn lemma_shown_is_a_short_line(text: Seq<char>, limit: nat)
    ensures
        safe_words(text, limit).len() <= limit,
        text::on_one_line(safe_words(text, limit)),
{
    let line = text::compacted(redacted(text));
    text::lemma_compacted_on_one_line(redacted(text));
    assert forall|i: int|
        0 <= i < safe_words(text, limit).len() && text::is_space(
            #[trigger] safe_words(text, limit)[i],
        ) implies safe_words(text, limit)[i] == ' ' by {
        assert(safe_words(text, limit)[i] == line[i]);
    }
}

proof fn lemma_after_blanks(text: Seq<char>)
    ensures
        after_blanks(text).len() <= text.len(),
    decreases text.len(),
{
    if text.len() > 0 && text[0] == ' ' {
        lemma_after_blanks(text.drop_first());
    }
}

proof fn lemma_after_value(text: Seq<char>)
    ensures
        after_value(text).len() <= text.len(),
        text.len() > 0 && !ends_value(text[0]) ==> after_value(text).len() < text.len(),
    decreases text.len(),
{
    if text.len() > 0 && !ends_value(text[0]) {
        lemma_after_value(text.drop_first());
    }
}

proof fn lemma_tail_among(text: Seq<char>, names: Seq<Seq<char>>, from: int)
    ensures
        tail_among(text, names, from) matches Some(tail) ==> 0 < tail.len() <= text.len()
            && !ends_value(tail[0]),
    decreases names.len() - from,
{
    if 0 <= from < names.len() {
        let name = names[from];
        if text::begins(text::ascii_lower(text), name) {
            let behind = text.skip(name.len() as int);
            let rest = after_blanks(after_quote(behind));
            lemma_after_blanks(after_quote(behind));
            if rest.len() > 0 {
                lemma_after_blanks(rest.drop_first());
            }
        }
        lemma_tail_among(text, names, from + 1);
    }
}

/// A secret does not show: texts that begin with the same announcement and go
/// on alike behind the secret value are shown alike, whatever the value is.
pub proof fn lemma_secret_is_hidden(
    first: Seq<char>,
    second: Seq<char>,
    announced: Seq<char>,
    rest: Seq<char>,
)
    requires
        secret_tail(first) is Some,
        secret_tail(second) is Some,
        first == announced + secret_tail(first)->0,
        second == announced + secret_tail(second)->0,
        after_value(secret_tail(first)->0) == rest,
        after_value(secret_tail(second)->0) == rest,
    ensures
        redacted(first) == announced + redaction() + redacted(rest),
        redacted(second) == redacted(first),
{
    reveal_strlit("bearer ");
    lemma_tail_among(first, secret_names(), 0);
    lemma_tail_among(second, secret_names(), 0);
    lemma_after_value(secret_tail(first)->0);
    lemma_after_value(secret_tail(second)->0);
    assert(first.take(first.len() - secret_tail(first)->0.len()) =~= announced);
    assert(second.take(second.len() - secret_tail(second)->0.len()) =~= announced);
}

} // verus!
