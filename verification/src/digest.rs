//! Digests and byte encodings.
use vstd::prelude::*;
use vstd::utf8;
use base64::Engine;
use sha2::Digest;

verus! {

/// What `sha2::Sha256::digest` gives for some bytes.
pub uninterp spec fn sha256_of(bytes: Seq<u8>) -> Seq<u8>;

/// What the `URL_SAFE_NO_PAD` engine of base64 writes for some bytes.
pub uninterp spec fn url_base64(bytes: Seq<u8>) -> Seq<char>;

/// What the `URL_SAFE_NO_PAD` engine of base64 reads from a text.
pub uninterp spec fn url_base64_bytes(text: Seq<char>) -> Option<Seq<u8>>;

/// What the `URL_SAFE` engine of base64, which demands padding, reads from a
/// text.
pub uninterp spec fn padded_base64_bytes(text: Seq<char>) -> Option<Seq<u8>>;

/// The lower-case hexadecimal notation of some bytes.
pub open spec fn hex_text(bytes: Seq<u8>) -> Seq<char>
    decreases bytes.len(),
{
    if bytes.len() == 0 {
        Seq::empty()
    } else {
        hex_text(bytes.drop_last()) + seq![
            crate::json::hex_digit((bytes.last() / 16) as nat),
            crate::json::hex_digit((bytes.last() % 16) as nat),
        ]
    }
}

/// Whether a text holds lower-case hexadecimal digits only.
pub open spec fn all_hex(text: Seq<char>) -> bool {
    forall|i: int|
        0 <= i < text.len() ==> (48 <= #[trigger] text[i] as int <= 57 || 97 <= text[i] as int
            <= 102)
}

/// The SHA-256 digest of some bytes in hexadecimal notation.
pub open spec fn sha256_text(bytes: Seq<u8>) -> Seq<char> {
    hex_text(sha256_of(bytes))
}

/// The SHA-256 digest of the UTF-8 encoding of a text.
pub open spec fn text_digest(text: Seq<char>) -> Seq<char> {
    sha256_text(utf8::encode_utf8(text))
}

/// The text that some bytes encode in UTF-8.
pub open spec fn utf8_text(bytes: Seq<u8>) -> Option<Seq<char>> {
    if utf8::valid_utf8(bytes) {
        Some(utf8::decode_utf8(bytes))
    } else {
        None
    }
}

/// Calls `sha2::Sha256::digest`. The digest is a function of the bytes alone
/// and has thirty-two bytes.
#[verifier::external_body]
fn sha256(bytes: &[u8]) -> (result: Vec<u8>)
    ensures
        result@ == sha256_of(bytes@),
        result@.len() == 32,
{
    sha2::Sha256::digest(bytes).to_vec()
}

/// Calls `hex::encode`: two lower-case hexadecimal digits for each byte, the
/// high half first.
#[verifier::external_body]
fn hex_encode(bytes: &[u8]) -> (result: String)
    ensures
        result@ == hex_text(bytes@),
{
    hex::encode(bytes)
}

/// Whether a character belongs to the alphabet of the URL-safe base64.
pub open spec fn is_base64_char(c: char) -> bool {
    let n = c as int;
    48 <= n <= 57 || 65 <= n <= 90 || 97 <= n <= 122 || n == 45 || n == 95
}

/// Calls `encode` of base64's `URL_SAFE_NO_PAD` engine. What it writes holds
/// letters, digits, hyphens and underscores only, and the same engine reads it
/// back.
#[verifier::external_body]
pub(crate) fn encode_base64(bytes: &[u8]) -> (result: String)
    ensures
        result@ == url_base64(bytes@),
        url_base64_bytes(result@) == Some(bytes@),
        forall|i: int| 0 <= i < result@.len() ==> is_base64_char(#[trigger] result@[i]),
{
    base64::engine::general_purpose::URL_SAFE_NO_PAD.encode(bytes)
}

/// Calls `decode` of base64's `URL_SAFE_NO_PAD` engine.
#[verifier::external_body]
pub(crate) fn decode_base64(text: &str) -> (result: Option<Vec<u8>>)
    ensures
        match result {
            Some(bytes) => url_base64_bytes(text@) == Some(bytes@),
            None => url_base64_bytes(text@) is None,
        },
{
    base64::engine::general_purpose::URL_SAFE_NO_PAD.decode(text).ok()
}

/// Calls `decode` of base64's `URL_SAFE` engine.
#[verifier::external_body]
pub(crate) fn decode_padded_base64(text: &str) -> (result: Option<Vec<u8>>)
    ensures
        match result {
            Some(bytes) => padded_base64_bytes(text@) == Some(bytes@),
            None => padded_base64_bytes(text@) is None,
        },
{
    base64::engine::general_purpose::URL_SAFE.decode(text).ok()
}

/// Calls `String::from_utf8`, which succeeds exactly on valid UTF-8 and then
/// holds the text that the bytes encode.
#[verifier::external_body]
pub(crate) fn text_from_utf8(bytes: Vec<u8>) -> (result: Option<String>)
    ensures
        crate::text::opt_text(result) == utf8_text(bytes@),
{
    String::from_utf8(bytes).ok()
}

/// The SHA-256 digest of some bytes in hexadecimal notation.
pub fn sha256_hex(bytes: &[u8]) -> (result: String)
    ensures
        result@ == sha256_text(bytes@),
        result@.len() == 64,
        all_hex(result@),
{
    let digest = sha256(bytes);
    proof {
        lemma_hex_text(digest@);
    }
    hex_encode(digest.as_slice())
}

/// The SHA-256 digest of the UTF-8 encoding of a text.
pub fn digest_text(text: &str) -> (result: String)
    ensures
        result@ == text_digest(text@),
        result@.len() == 64,
        all_hex(result@),
{
    sha256_hex(text.as_bytes())
}

/// The hexadecimal notation has two digits for each byte.
pub proof fn lemma_hex_text(bytes: Seq<u8>)
    ensures
        hex_text(bytes).len() == 2 * bytes.len(),
        all_hex(hex_text(bytes)),
    decreases bytes.len(),
{
    if bytes.len() > 0 {
        lemma_hex_text(bytes.drop_last());
    }
}

/// Different bytes have different hexadecimal notations.
pub proof fn lemma_hex_tells_apart(left: Seq<u8>, right: Seq<u8>)
    requires
        hex_text(left) == hex_text(right),
    ensures
        left == right,
    decreases left.len(),
{
    lemma_hex_text(left);
    lemma_hex_text(right);
    if left.len() > 0 {
        let n = hex_text(left).len();
        lemma_hex_text(left.drop_last());
        lemma_hex_text(right.drop_last());
        assert(hex_text(left).take(n - 2) =~= hex_text(left.drop_last()));
        assert(hex_text(right).take(n - 2) =~= hex_text(right.drop_last()));
        lemma_hex_tells_apart(left.drop_last(), right.drop_last());
        assert(hex_text(left)[n - 2] == crate::json::hex_digit((left.last() / 16) as nat));
        assert(hex_text(right)[n - 2] == crate::json::hex_digit((right.last() / 16) as nat));
        assert(hex_text(left)[n - 1] == crate::json::hex_digit((left.last() % 16) as nat));
        assert(hex_text(right)[n - 1] == crate::json::hex_digit((right.last() % 16) as nat));
        assert(left.last() == right.last());
        assert(left =~= left.drop_last().push(left.last()));
        assert(right =~= right.drop_last().push(right.last()));
    } else {
        assert(left =~= right);
    }
}

/// But for a collision, two texts have one digest exactly if they are equal.
pub proof fn lemma_digest_tells_apart(left: Seq<char>, right: Seq<char>)
    requires
        sha256_of(utf8::encode_utf8(left)) == sha256_of(utf8::encode_utf8(right))
            ==> utf8::encode_utf8(left) == utf8::encode_utf8(right),
    ensures
        text_digest(left) == text_digest(right) <==> left == right,
{
    if text_digest(left) == text_digest(right) {
        lemma_hex_tells_apart(
            sha256_of(utf8::encode_utf8(left)),
            sha256_of(utf8::encode_utf8(right)),
        );
        utf8::encode_utf8_decode_utf8(left);
        utf8::encode_utf8_decode_utf8(right);
    }
}

/// Whether two byte strings are equal, in a time that depends on their lengths
/// alone.
pub fn constant_time_eq(left: &[u8], right: &[u8]) -> (result: bool)
    ensures
        result == (left@ == right@),
{
    let maximum: usize = if left.len() > right.len() {
        left.len()
    } else {
        right.len()
    };
    let mut difference: u8 = if left.len() == right.len() {
        0
    } else {
        1
    };
    let ghost same_len = left@.len() == right@.len();
    assert(left@.take(0) =~= right@.take(0));
    for i in 0..maximum
        invariant
            same_len == (left@.len() == right@.len()),
            same_len ==> maximum == left@.len(),
            !same_len ==> difference != 0,
            same_len ==> ((difference == 0) == (left@.take(i as int) == right@.take(i as int))),
    {
        let l: u8 = if i < left.len() {
            left[i]
        } else {
            0
        };
        let r: u8 = if i < right.len() {
            right[i]
        } else {
            0
        };
        let before: u8 = difference;
        difference = before | (l ^ r);
        assert((before | (l ^ r)) == 0 <==> before == 0 && l == r) by (bit_vector);
        proof {
            if same_len {
                let a = left@.take(i + 1);
                let b = right@.take(i + 1);
                assert(a.drop_last() =~= left@.take(i as int));
                assert(b.drop_last() =~= right@.take(i as int));
                assert(a =~= a.drop_last().push(l));
                assert(b =~= b.drop_last().push(r));
                assert(a.last() == l && b.last() == r);
            }
        }
    }
    proof {
        if same_len {
            assert(left@.take(maximum as int) =~= left@);
            assert(right@.take(maximum as int) =~= right@);
        }
    }
    difference == 0
}

} // verus!
