//! Laws of the keys and names by which sessions and accounts are told apart.
use vstd::prelude::*;
use vstd::utf8;
use crate::account_switch;
use crate::digest;
use crate::hook_event;
use crate::json;
use crate::security;
use crate::text;

verus! {

// ---------------------------------------------------------------------------
// Session keys
// ---------------------------------------------------------------------------

/// The first character of a text is written first.
proof fn lemma_escaped_first(value: Seq<char>)
    requires
        value.len() > 0,
    ensures
        json::escaped_text(value) == json::escaped(value[0]) + json::escaped_text(
            value.drop_first(),
        ),
    decreases value.len(),
{
    if value.len() == 1 {
        assert(value.drop_last() =~= Seq::<char>::empty());
        assert(value.drop_first() =~= Seq::<char>::empty());
        assert(json::escaped_text(value) =~= json::escaped(value[0]) + json::escaped_text(
            value.drop_first(),
        ));
    } else {
        let init = value.drop_last();
        lemma_escaped_first(init);
        assert(value.drop_first().drop_last() =~= init.drop_first());
        assert(json::escaped_text(value) =~= json::escaped(value[0]) + json::escaped_text(
            value.drop_first(),
        ));
    }
}

/// What is written for one character is no beginning of what is written for
/// another.
proof fn lemma_escapes_differ(c: char, d: char, left: Seq<char>, right: Seq<char>)
    requires
        json::escaped(c) + left == json::escaped(d) + right,
    ensures
        c == d,
        left == right,
{
    let whole = json::escaped(c) + left;
    let other = json::escaped(d) + right;
    assert(whole[0] == json::escaped(c)[0]);
    assert(other[0] == json::escaped(d)[0]);
    if json::escaped(c).len() > 1 && json::escaped(d).len() > 1 {
        assert(whole[1] == json::escaped(c)[1]);
        assert(other[1] == json::escaped(d)[1]);
        if json::escaped(c).len() == 6 && json::escaped(d).len() == 6 {
            assert(whole[4] == json::escaped(c)[4]);
            assert(other[4] == json::escaped(d)[4]);
            assert(whole[5] == json::escaped(c)[5]);
            assert(other[5] == json::escaped(d)[5]);
        }
    }
    assert(c == d);
    assert(left =~= whole.skip(json::escaped(c).len() as int));
    assert(right =~= other.skip(json::escaped(d).len() as int));
}

/// A quotation mark ends a written text, wherever it is followed by more.
proof fn lemma_written_text_ends(
    first: Seq<char>,
    second: Seq<char>,
    left: Seq<char>,
    right: Seq<char>,
)
    requires
        json::escaped_text(first) + (seq!['"'] + left) == json::escaped_text(second) + (seq!['"']
            + right),
    ensures
        first == second,
        left == right,
    decreases first.len(),
{
    let whole = json::escaped_text(first) + (seq!['"'] + left);
    let other = json::escaped_text(second) + (seq!['"'] + right);
    if first.len() > 0 {
        lemma_escaped_first(first);
    }
    if second.len() > 0 {
        lemma_escaped_first(second);
    }
    if first.len() == 0 && second.len() == 0 {
        assert(left =~= whole.skip(1));
        assert(right =~= other.skip(1));
        assert(first =~= second);
    } else if first.len() == 0 {
        assert(whole[0] == '"');
        assert(other[0] == json::escaped(second[0])[0]);
    } else if second.len() == 0 {
        assert(other[0] == '"');
        assert(whole[0] == json::escaped(first[0])[0]);
    } else {
        let more = json::escaped_text(first.drop_first()) + (seq!['"'] + left);
        let rest = json::escaped_text(second.drop_first()) + (seq!['"'] + right);
        assert(whole =~= json::escaped(first[0]) + more);
        assert(other =~= json::escaped(second[0]) + rest);
        lemma_escapes_differ(first[0], second[0], more, rest);
        lemma_written_text_ends(first.drop_first(), second.drop_first(), left, right);
        assert(first =~= seq![first[0]] + first.drop_first());
        assert(second =~= seq![second[0]] + second.drop_first());
    }
}

/// What tells a session apart holds its name and its scope, and nothing of
/// either is lost.
pub proof fn lemma_identity_keeps_both(
    name: Seq<char>,
    scope: Seq<char>,
    name2: Seq<char>,
    scope2: Seq<char>,
)
    ensures
        hook_event::session_identity(name, scope) == hook_event::session_identity(name2, scope2)
            <==> name == name2 && scope == scope2,
{
    let whole = hook_event::session_identity(name, scope);
    let other = hook_event::session_identity(name2, scope2);
    if whole == other {
        let start = "{\"cwd\": "@;
        let middle = ", \"session\": "@;
        let end = "}"@;
        let tail = middle + json::quoted(name) + end;
        let tail2 = middle + json::quoted(name2) + end;
        let n = start.len() as int;
        assert(whole.skip(n + 1) =~= json::escaped_text(scope) + (seq!['"'] + tail));
        assert(other.skip(n + 1) =~= json::escaped_text(scope2) + (seq!['"'] + tail2));
        lemma_written_text_ends(scope, scope2, tail, tail2);
        let m = middle.len() as int;
        assert(tail.skip(m + 1) =~= json::escaped_text(name) + (seq!['"'] + end));
        assert(tail2.skip(m + 1) =~= json::escaped_text(name2) + (seq!['"'] + end));
        lemma_written_text_ends(name, name2, end, end);
    }
}

/// But for a collision of digests, two sessions have one key exactly if they
/// have one name and one working directory in its one notation.
pub proof fn lemma_session_key_tells_apart(
    session: Seq<char>,
    cwd: Seq<char>,
    session2: Seq<char>,
    cwd2: Seq<char>,
)
    requires
        ({
            let bytes = utf8::encode_utf8(
                hook_event::session_identity(
                    hook_event::session_name(session),
                    hook_event::normalized(cwd),
                ),
            );
            let bytes2 = utf8::encode_utf8(
                hook_event::session_identity(
                    hook_event::session_name(session2),
                    hook_event::normalized(cwd2),
                ),
            );
            digest::sha256_of(bytes) == digest::sha256_of(bytes2) ==> bytes == bytes2
        }),
    ensures
        hook_event::session_key(session, cwd, None) == hook_event::session_key(
            session2,
            cwd2,
            None,
        ) <==> hook_event::session_name(session) == hook_event::session_name(session2)
            && hook_event::normalized(cwd) == hook_event::normalized(cwd2),
{
    let name = hook_event::session_name(session);
    let name2 = hook_event::session_name(session2);
    let scope = hook_event::normalized(cwd);
    let scope2 = hook_event::normalized(cwd2);
    let key = hook_event::session_key(session, cwd, None);
    let key2 = hook_event::session_key(session2, cwd2, None);
    let identity = hook_event::session_identity(name, scope);
    let identity2 = hook_event::session_identity(name2, scope2);
    lemma_identity_keeps_both(name, scope, name2, scope2);
    digest::lemma_digest_tells_apart(identity, identity2);
    let n = hook_event::session_prefix().len() as int;
    assert(key.skip(n) =~= digest::text_digest(identity));
    assert(key2.skip(n) =~= digest::text_digest(identity2));
}

// ---------------------------------------------------------------------------
// Working directories
// ---------------------------------------------------------------------------

/// Whether a character is an ordinary one of a path: a letter or a digit of
/// ASCII, `-`, `_`, `.` or a slash of either kind.
pub open spec fn path_char(c: char) -> bool {
    account_switch::slug_char(c) || c == '/' || c == '\\'
}

/// Whether a path holds ordinary characters only, behind a letter of a drive
/// and its colon where it begins with them.
pub open spec fn plain_path(path: Seq<char>) -> bool {
    &&& forall|i: int|
        0 <= i < path.len() && !(i == 1 && path[1] == ':') ==> path_char(#[trigger] path[i])
    &&& path.len() > 1 && path[1] == ':' ==> security::is_ascii_alnum(path[0])
}

/// `path` with every slash turned into a slash of the other kind.
pub open spec fn slashes_turned(path: Seq<char>) -> Seq<char> {
    Seq::new(
        path.len(),
        |i: int|
            if path[i] == '/' {
                '\\'
            } else if path[i] == '\\' {
                '/'
            } else {
                path[i]
            },
    )
}

/// `path` with its ASCII letters in upper case.
pub open spec fn ascii_upper(path: Seq<char>) -> Seq<char> {
    Seq::new(path.len(), |i: int| security::ascii_upper_char(path[i]))
}

/// A path in lower case and with backslashes.
pub open spec fn folded(path: Seq<char>) -> Seq<char> {
    text::ascii_lower(text::replaced(path, '/', '\\'))
}

/// Whether a path is in lower case and has backslashes, ordinary characters
/// but for the colon of its drive.
spec fn is_folded(path: Seq<char>) -> bool {
    &&& plain_path(path)
    &&& forall|i: int|
        0 <= i < path.len() ==> #[trigger] path[i] != '/' && !(65 <= path[i] as int <= 90)
}

/// The number of a character is the same in either type.
proof fn lemma_char_number(c: char)
    ensures
        c as u32 == c as int,
{
}

/// A part that names nothing in front changes nothing.
proof fn lemma_resolved_skips_empty(parts: Seq<Seq<char>>, keep_up: bool)
    ensures
        hook_event::resolved(seq![Seq::<char>::empty()] + parts, keep_up) == hook_event::resolved(
            parts,
            keep_up,
        ),
    decreases parts.len(),
{
    reveal_strlit("");
    let whole = seq![Seq::<char>::empty()] + parts;
    assert(""@ =~= Seq::<char>::empty());
    if parts.len() == 0 {
        assert(whole.drop_last() =~= Seq::<Seq<char>>::empty());
        assert(whole.last() == ""@);
        assert(hook_event::resolved(whole.drop_last(), keep_up) =~= Seq::<Seq<char>>::empty());
        assert(hook_event::resolved(parts, keep_up) =~= Seq::<Seq<char>>::empty());
    } else {
        assert(whole.drop_last() =~= seq![Seq::<char>::empty()] + parts.drop_last());
        assert(whole.last() == parts.last());
        lemma_resolved_skips_empty(parts.drop_last(), keep_up);
    }
}

/// Resolved parts are among the parts and name something.
proof fn lemma_resolved_parts(parts: Seq<Seq<char>>, keep_up: bool)
    ensures
        hook_event::resolved(parts, keep_up).len() <= parts.len(),
        forall|k: int|
            0 <= k < hook_event::resolved(parts, keep_up).len() ==> (#[trigger]
            hook_event::resolved(parts, keep_up)[k]).len() > 0 && parts.contains(
                hook_event::resolved(parts, keep_up)[k],
            ),
    decreases parts.len(),
{
    reveal_strlit("");
    reveal_strlit("..");
    if parts.len() > 0 {
        let init = parts.drop_last();
        let before = hook_event::resolved(init, keep_up);
        let after = hook_event::resolved(parts, keep_up);
        lemma_resolved_parts(init, keep_up);
        assert forall|k: int| 0 <= k < after.len() implies (#[trigger] after[k]).len() > 0
            && parts.contains(after[k]) by {
            if k < before.len() && after[k] == before[k] {
                let j = choose|j: int| 0 <= j < init.len() && init[j] == before[k];
                assert(parts[j] == before[k]);
            } else {
                assert(after[k] == parts.last());
                assert(parts[parts.len() - 1] == after[k]);
                if after[k].len() == 0 {
                    assert(after[k] =~= ""@);
                }
            }
        }
    }
}

/// Resolved parts are resolved.
proof fn lemma_resolved_twice(parts: Seq<Seq<char>>, keep_up: bool)
    ensures
        hook_event::resolved(hook_event::resolved(parts, keep_up), keep_up)
            == hook_event::resolved(parts, keep_up),
    decreases parts.len(),
{
    if parts.len() > 0 {
        let part = parts.last();
        let before = hook_event::resolved(parts.drop_last(), keep_up);
        let after = hook_event::resolved(parts, keep_up);
        lemma_resolved_twice(parts.drop_last(), keep_up);
        if part == ""@ || part == "."@ {
        } else if part == ".."@ && before.len() > 0 && before.last() != ".."@ {
            lemma_resolved_parts(before.drop_last(), keep_up);
            assert(hook_event::resolved(before, keep_up) == before);
            assert(hook_event::resolved(before.drop_last(), keep_up) =~= before.drop_last());
        } else if part == ".."@ && !keep_up {
        } else {
            assert(after == before.push(part));
            assert(after.drop_last() =~= before);
        }
    } else {
        assert(hook_event::resolved(parts, keep_up) =~= parts);
    }
}

/// What joined parts hold comes from the parts or the separator.
proof fn lemma_joined_holds(parts: Seq<Seq<char>>, separator: Seq<char>, i: int)
    requires
        0 <= i < text::joined(parts, separator).len(),
    ensures
        separator.contains(text::joined(parts, separator)[i]) || exists|k: int|
            0 <= k < parts.len() && (#[trigger] parts[k]).contains(
                text::joined(parts, separator)[i],
            ),
    decreases parts.len(),
{
    if parts.len() == 1 {
        assert(parts[0].contains(parts[0][i]));
    } else if parts.len() > 1 {
        let init = text::joined(parts.drop_last(), separator);
        let whole = text::joined(parts, separator);
        if i < init.len() {
            lemma_joined_holds(parts.drop_last(), separator, i);
            if !separator.contains(init[i]) {
                let k = choose|k: int|
                    0 <= k < parts.drop_last().len() && (#[trigger] parts.drop_last()[k]).contains(
                        init[i],
                    );
                assert(parts[k].contains(init[i]));
            }
        } else if i < init.len() + separator.len() {
            assert(whole[i] == separator[i - init.len()]);
        } else {
            assert(whole[i] == parts.last()[i - init.len() - separator.len()]);
            assert(parts[parts.len() - 1].contains(whole[i]));
        }
    }
}

/// What parts that name something give joined does not begin with a separator,
/// unless the first does.
proof fn lemma_joined_begins(parts: Seq<Seq<char>>, separator: Seq<char>)
    requires
        parts.len() > 0,
        parts[0].len() > 0,
    ensures
        text::joined(parts, separator).len() > 0,
        text::joined(parts, separator)[0] == parts[0][0],
    decreases parts.len(),
{
    if parts.len() > 1 {
        lemma_joined_begins(parts.drop_last(), separator);
    }
}

/// The resolved parts of a path, joined: nothing new but separators, none in
/// front, and the same parts again.
proof fn lemma_rejoined(body: Seq<char>, keep_up: bool)
    ensures
        ({
            let parts = hook_event::resolved(text::fields(body, '\\'), keep_up);
            let whole = text::joined(parts, "\\"@);
            &&& forall|i: int|
                0 <= i < whole.len() ==> #[trigger] whole[i] == '\\' || body.contains(whole[i])
            &&& whole.len() > 0 ==> whole[0] != '\\'
            &&& hook_event::resolved(text::fields(whole, '\\'), keep_up) == parts
        }),
{
    reveal_strlit("\\");
    reveal_strlit("");
    assert("\\"@ =~= seq!['\\']);
    let pieces = text::fields(body, '\\');
    let parts = hook_event::resolved(pieces, keep_up);
    let whole = text::joined(parts, "\\"@);
    text::lemma_fields_hold(body, '\\');
    lemma_resolved_parts(pieces, keep_up);
    lemma_resolved_twice(pieces, keep_up);
    assert forall|k: int| 0 <= k < parts.len() implies !(#[trigger] parts[k]).contains('\\') by {
        let j = choose|j: int| 0 <= j < pieces.len() && pieces[j] == parts[k];
        assert(pieces[j] == parts[k]);
    }
    assert forall|i: int| 0 <= i < whole.len() implies #[trigger] whole[i] == '\\'
        || body.contains(whole[i]) by {
        lemma_joined_holds(parts, "\\"@, i);
        if whole[i] != '\\' {
            assert(!"\\"@.contains(whole[i]));
            let k = choose|k: int|
                0 <= k < parts.len() && (#[trigger] parts[k]).contains(whole[i]);
            let j = choose|j: int| 0 <= j < pieces.len() && pieces[j] == parts[k];
            let at = choose|at: int| 0 <= at < parts[k].len() && parts[k][at] == whole[i];
            assert(pieces[j][at] == whole[i]);
        }
    }
    if parts.len() == 0 {
        text::lemma_two_fields(whole, '\\', whole);
        assert(whole =~= ""@);
        let only = seq![whole];
        assert(only.drop_last() =~= Seq::<Seq<char>>::empty());
        assert(hook_event::resolved(only, keep_up) =~= parts);
    } else {
        text::lemma_fields_of_joined(parts, '\\');
        lemma_joined_begins(parts, "\\"@);
        assert(parts[0].contains(parts[0][0]));
    }
}

/// Separators in front of a text are empty parts.
proof fn lemma_fields_behind_separator(value: Seq<char>, keep_up: bool)
    ensures
        hook_event::resolved(text::fields(seq!['\\'] + value, '\\'), keep_up)
            == hook_event::resolved(text::fields(value, '\\'), keep_up),
{
    let whole = seq!['\\'] + value;
    text::lemma_field_len_at(whole, '\\', 0);
    assert(whole.take(0) =~= Seq::<char>::empty());
    assert(whole.skip(1) =~= value);
    assert(text::fields(whole, '\\') =~= seq![Seq::<char>::empty()] + text::fields(value, '\\'));
    lemma_resolved_skips_empty(text::fields(value, '\\'), keep_up);
}

/// A tidied path of ordinary characters is one, and tidy.
proof fn lemma_tidied(path: Seq<char>)
    requires
        path.len() > 0,
        is_folded(path),
    ensures
        is_folded(hook_event::tidied(path)),
        hook_event::tidied(path).len() > 0,
        hook_event::tidied(hook_event::tidied(path)) == hook_event::tidied(path),
{
    reveal_strlit("\\");
    reveal_strlit("\\\\");
    reveal_strlit(".");
    let drive = hook_event::has_drive(path);
    let unc = text::begins(path, "\\\\"@);
    let absolute = drive && path.len() > 2 && path[2] == '\\';
    let rooted = text::begins(path, "\\"@);
    let body = if drive {
        path.skip(2)
    } else {
        path
    };
    let keep_up = !absolute && !unc;
    let whole = text::joined(
        hook_event::resolved(text::fields(body, '\\'), keep_up),
        "\\"@,
    );
    let result = hook_event::tidied(path);
    lemma_rejoined(body, keep_up);
    lemma_fields_behind_separator(whole, keep_up);
    lemma_fields_behind_separator(seq!['\\'] + whole, keep_up);
    assert("\\"@ =~= seq!['\\']);
    assert("\\\\"@ =~= seq!['\\', '\\']);
    assert forall|i: int| 0 <= i < whole.len() implies #[trigger] whole[i] != '/' && !(65
        <= whole[i] as int <= 90) && path_char(whole[i]) by {
        if whole[i] != '\\' {
            let j = choose|j: int| 0 <= j < body.len() && body[j] == whole[i];
            if drive {
                assert(body[j] == path[j + 2]);
            } else {
                lemma_char_number(path[0]);
                assert(body[j] == path[j]);
            }
        }
    }
    assert(unc ==> path.subrange(0, 2) == "\\\\"@ && path[0] == path.subrange(0, 2)[0] && path[1]
        == path.subrange(0, 2)[1]);
    if drive {
        if absolute {
            assert(result =~= path.take(2) + (seq!['\\'] + whole));
            assert(result.skip(2) =~= seq!['\\'] + whole);
            assert(result.take(2) =~= path.take(2));
        } else {
            assert(result =~= path.take(2) + whole);
            assert(result.skip(2) =~= whole);
            assert(result.take(2) =~= path.take(2));
            if text::begins(result, "\\\\"@) {
                assert(result.subrange(0, 2)[1] == result[1]);
            }
        }
    } else if unc {
        assert(result =~= seq!['\\'] + (seq!['\\'] + whole));
        assert(result.subrange(0, 2) =~= "\\\\"@);
    } else if rooted {
        assert(result =~= seq!['\\'] + whole);
        assert(result.subrange(0, 1) =~= "\\"@);
        if text::begins(result, "\\\\"@) {
            assert(result.subrange(0, 2)[1] == result[1]);
        }
    } else if whole.len() == 0 {
        assert(result == "."@);
        assert(result =~= seq!['.']);
        assert(!result.contains('\\'));
        text::lemma_two_fields(result, '\\', result);
        let only = seq![result];
        assert(only.drop_last() =~= Seq::<Seq<char>>::empty());
        assert(only.last() == "."@);
        assert(hook_event::resolved(only.drop_last(), true) =~= Seq::<Seq<char>>::empty());
        assert(hook_event::resolved(only, true) =~= Seq::<Seq<char>>::empty());
        if text::begins(result, "\\"@) {
            assert(result.subrange(0, 1)[0] == result[0]);
        }
    } else {
        assert(result == whole);
        if text::begins(result, "\\"@) {
            assert(result.subrange(0, 1)[0] == result[0]);
        }
        if text::begins(result, "\\\\"@) {
            assert(result.subrange(0, 2)[0] == result[0]);
        }
    }
}

/// A path of ordinary characters is one in lower case and with backslashes,
/// and nothing is trimmed from it.
proof fn lemma_folded(path: Seq<char>)
    requires
        plain_path(path),
    ensures
        is_folded(folded(path)),
        text::trimmed(path) == path,
        is_folded(path) ==> folded(path) == path,
{
    if is_folded(path) {
        assert forall|i: int| 0 <= i < path.len() implies #[trigger] folded(path)[i] == path[i] by {
            lemma_char_number(path[i]);
        }
        assert(folded(path) =~= path);
    }
}

/// The notation of a working directory depends neither on the case of letters
/// nor on the kind of slashes.
pub proof fn lemma_notation_is_one(cwd: Seq<char>)
    requires
        plain_path(cwd),
    ensures
        hook_event::ascii_normalized(ascii_upper(cwd)) == hook_event::ascii_normalized(cwd),
        hook_event::ascii_normalized(slashes_turned(cwd)) == hook_event::ascii_normalized(cwd),
{
    lemma_folded(cwd);
    lemma_folded(ascii_upper(cwd));
    lemma_folded(slashes_turned(cwd));
    assert(folded(ascii_upper(cwd)) =~= folded(cwd));
    assert(folded(slashes_turned(cwd)) =~= folded(cwd));
}

/// The notation of a working directory is its own notation, and holds neither
/// a slash nor an upper-case letter.
pub proof fn lemma_notation_is_stable(cwd: Seq<char>)
    requires
        plain_path(cwd),
    ensures
        ({
            let shown = hook_event::ascii_normalized(cwd);
            &&& utf8::is_ascii_chars(cwd)
            &&& hook_event::ascii_normalized(shown) == shown
            &&& forall|i: int|
                0 <= i < shown.len() ==> #[trigger] shown[i] != '/' && !(65 <= shown[i] as int
                    <= 90)
        }),
{
    reveal_strlit("");
    lemma_folded(cwd);
    assert forall|i: int| 0 <= i < cwd.len() implies '\0' <= #[trigger] cwd[i] <= '\u{7f}' by {
        lemma_char_number(cwd[i]);
    }
    if cwd.len() > 0 {
        let shown = hook_event::ascii_normalized(cwd);
        lemma_tidied(folded(cwd));
        lemma_folded(shown);
    } else {
        assert(text::trimmed(cwd) == cwd);
        assert(hook_event::ascii_normalized(cwd) =~= ""@);
        assert(text::trimmed(""@) == ""@);
    }
}

// ---------------------------------------------------------------------------
// Names of account files
// ---------------------------------------------------------------------------

/// Whether every character of a text may stand in a file name.
pub open spec fn all_slug(value: Seq<char>) -> bool {
    forall|i: int| 0 <= i < value.len() ==> account_switch::slug_char(#[trigger] value[i])
}

/// Whether a text holds no letter and no digit of ASCII.
pub open spec fn no_alnum(value: Seq<char>) -> bool {
    forall|i: int| 0 <= i < value.len() ==> !security::is_ascii_alnum(#[trigger] value[i])
}

proof fn lemma_slugged(name: Seq<char>)
    ensures
        all_slug(account_switch::slugged(name)),
        all_slug(name) ==> account_switch::slugged(name) == name,
        no_alnum(name) ==> no_alnum(account_switch::slugged(name)),
    decreases name.len(),
{
    if name.len() > 0 {
        let init = name.drop_last();
        lemma_slugged(init);
        assert(name =~= init.push(name.last()));
        if all_slug(name) {
            assert forall|i: int| 0 <= i < init.len() implies account_switch::slug_char(
                #[trigger] init[i],
            ) by {
                assert(init[i] == name[i]);
            }
        }
        if no_alnum(name) {
            assert forall|i: int| 0 <= i < init.len() implies !security::is_ascii_alnum(
                #[trigger] init[i],
            ) by {
                assert(init[i] == name[i]);
            }
        }
    } else {
        assert(account_switch::slugged(name) =~= name);
    }
}

/// What is left without the leading characters of a set.
proof fn lemma_stripped_start(value: Seq<char>, set: Seq<char>)
    ensures
        text::stripped_start(value, set).len() > 0 ==> !set.contains(
            text::stripped_start(value, set)[0],
        ),
        all_slug(value) ==> all_slug(text::stripped_start(value, set)),
        (forall|i: int| 0 <= i < value.len() ==> set.contains(#[trigger] value[i]))
            ==> text::stripped_start(value, set).len() == 0,
    decreases value.len(),
{
    if value.len() > 0 && set.contains(value[0]) {
        let rest = value.drop_first();
        lemma_stripped_start(rest, set);
        assert forall|i: int| 0 <= i < rest.len() implies #[trigger] rest[i] == value[i + 1] by {}
    } else if value.len() > 0 {
        assert(!set.contains(value[0]));
    }
}

/// What is left without the trailing characters of a set.
proof fn lemma_stripped_end(value: Seq<char>, set: Seq<char>)
    ensures
        text::stripped_end(value, set).len() > 0 ==> !set.contains(
            text::stripped_end(value, set).last(),
        ) && text::stripped_end(value, set)[0] == value[0],
        all_slug(value) ==> all_slug(text::stripped_end(value, set)),
    decreases value.len(),
{
    if value.len() > 0 && set.contains(value.last()) {
        lemma_stripped_end(value.drop_last(), set);
    }
}

/// The part of a file name that shows a name is not empty, holds letters and
/// digits of ASCII, `_`, `.` and `-` only, and begins and ends with a letter
/// or a digit.
pub proof fn lemma_slug_is_clean(name: Seq<char>)
    ensures
        account_switch::slug(name).len() > 0,
        all_slug(account_switch::slug(name)),
        security::is_ascii_alnum(account_switch::slug(name)[0]),
        security::is_ascii_alnum(account_switch::slug(name).last()),
{
    reveal_strlit("._-");
    reveal_strlit("account");
    let shown = account_switch::slugged(text::trimmed(name));
    let head = text::stripped_start(shown, "._-"@);
    let bare = text::stripped_end(head, "._-"@);
    lemma_slugged(text::trimmed(name));
    lemma_stripped_start(shown, "._-"@);
    lemma_stripped_end(head, "._-"@);
    assert("._-"@[0] == '.' && "._-"@[1] == '_' && "._-"@[2] == '-');
    if bare.len() > 0 {
        assert(account_switch::slug_char(bare[0]));
        assert(account_switch::slug_char(bare[bare.len() - 1]));
    }
}

/// Neither white space around a name nor showing a name twice changes what is
/// shown of it.
pub proof fn lemma_slug_is_stable(name: Seq<char>)
    ensures
        account_switch::slug(account_switch::slug(name)) == account_switch::slug(name),
        account_switch::slug(text::trimmed(name)) == account_switch::slug(name),
{
    reveal_strlit("._-");
    text::lemma_trimmed(name);
    lemma_slug_is_clean(name);
    let shown = account_switch::slug(name);
    lemma_char_number(shown[0]);
    lemma_char_number(shown.last());
    assert(!text::is_space(shown[0]));
    assert(!text::is_space(shown.last()));
    assert(text::trimmed(shown) == shown);
    lemma_slugged(shown);
    assert(!"._-"@.contains(shown[0]));
    assert(!"._-"@.contains(shown.last()));
}

/// A name without a letter or a digit of ASCII is shown as `account`.
pub proof fn lemma_slug_of_nothing(name: Seq<char>)
    requires
        no_alnum(name),
    ensures
        account_switch::slug(name) == "account"@,
{
    reveal_strlit("._-");
    let value = text::trimmed(name);
    text::lemma_trimmed(name);
    assert forall|i: int| 0 <= i < value.len() implies !security::is_ascii_alnum(
        #[trigger] value[i],
    ) by {
        let k = choose|k: int| 0 <= k < name.len() && name[k] == value[i];
        assert(name[k] == value[i]);
    }
    let shown = account_switch::slugged(value);
    lemma_slugged(value);
    assert forall|i: int| 0 <= i < shown.len() implies "._-"@.contains(#[trigger] shown[i]) by {
        assert(account_switch::slug_char(shown[i]));
        assert("._-"@[0] == '.' && "._-"@[1] == '_' && "._-"@[2] == '-');
    }
    lemma_stripped_start(shown, "._-"@);
}

/// White space around a name does not change the file of its account.
pub proof fn lemma_snapshot_ignores_space(name: Seq<char>)
    ensures
        account_switch::snapshot_name(text::trimmed(name)) == account_switch::snapshot_name(name),
{
    text::lemma_trimmed(name);
    lemma_slug_is_stable(name);
}

/// But for a collision of the first sixteen digits of digests, accounts whose
/// trimmed names differ in lower case have different files.
pub proof fn lemma_snapshot_tells_apart(name: Seq<char>, name2: Seq<char>)
    requires
        account_switch::name_digest(name).len() == 64,
        account_switch::name_digest(name2).len() == 64,
        account_switch::name_digest(name).take(16) == account_switch::name_digest(name2).take(16)
            ==> text::lowercase(text::trimmed(name)) == text::lowercase(text::trimmed(name2)),
    ensures
        text::lowercase(text::trimmed(name)) != text::lowercase(text::trimmed(name2))
            ==> account_switch::snapshot_name(name) != account_switch::snapshot_name(name2),
{
    let file = account_switch::snapshot_name(name);
    let file2 = account_switch::snapshot_name(name2);
    if file == file2 {
        let n = file.len() - ".enc"@.len();
        assert(file.subrange(n - 16, n) =~= account_switch::name_digest(name).take(16));
        assert(file2.subrange(n - 16, n) =~= account_switch::name_digest(name2).take(16));
    }
}

} // verus!
