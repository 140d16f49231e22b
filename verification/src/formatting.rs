//! Cutting long texts into messages.
use vstd::prelude::*;
use crate::text;

verus! {

/// The most characters that one message carries.
pub const DEFAULT_CHUNK_SIZE: usize = 1500;

/// Why a text could not be cut or shown.
#[derive(Debug, Clone, Copy, PartialEq, Eq, Structural)]
pub enum FormattingError {
    EmptyChunkSize,
    SegmentOutOfRange,
    IndivisibleSegment,
}

/// The message of an error.
pub open spec fn formatting_message(error: FormattingError) -> Seq<char> {
    match error {
        FormattingError::EmptyChunkSize => "chunk size must be positive"@,
        FormattingError::SegmentOutOfRange => "segment index is out of range"@,
        FormattingError::IndivisibleSegment => "segment cannot be divided further"@,
    }
}

impl FormattingError {
    pub fn message(&self) -> (result: String)
        ensures
            result@ == formatting_message(*self),
    {
        match self {
            FormattingError::EmptyChunkSize => "chunk size must be positive".to_owned(),
            FormattingError::SegmentOutOfRange => "segment index is out of range".to_owned(),
            FormattingError::IndivisibleSegment => "segment cannot be divided further".to_owned(),
        }
    }
}

/// `text` cut into pieces of `size` characters, the last one as long as what
/// is left.
pub open spec fn chunks(text: Seq<char>, size: nat) -> Seq<Seq<char>>
    decreases text.len(),
{
    if size == 0 || text.len() <= size {
        seq![text]
    } else {
        seq![text.take(size as int)] + chunks(text.skip(size as int), size)
    }
}

/// `parts` one after another.
pub open spec fn concatenated(parts: Seq<Seq<char>>) -> Seq<char>
    decreases parts.len(),
{
    if parts.len() == 0 {
        Seq::empty()
    } else {
        parts[0] + concatenated(parts.drop_first())
    }
}

/// A segment with its place among several.
pub open spec fn rendered(segments: Seq<Seq<char>>, index: int) -> Seq<char> {
    if segments.len() == 1 {
        segments[index]
    } else {
        "["@ + text::decimal((index + 1) as nat) + "/"@ + text::decimal(segments.len()) + "]\n"@
            + segments[index]
    }
}

/// The pieces of a text put together again are the text, none of them is
/// longer than the size, and only a text that is empty has an empty piece.
pub proof fn lemma_chunks(text: Seq<char>, size: nat)
    requires
        size > 0,
    ensures
        chunks(text, size).len() > 0,
        concatenated(chunks(text, size)) == text,
        forall|i: int|
            0 <= i < chunks(text, size).len() ==> (#[trigger] chunks(text, size)[i]).len() <= size,
        forall|i: int|
            0 <= i < chunks(text, size).len() && text.len() > 0 ==> (#[trigger] chunks(
                text,
                size,
            )[i]).len() > 0,
    decreases text.len(),
{
    let parts = chunks(text, size);
    if text.len() <= size {
        assert(parts.drop_first() =~= Seq::<Seq<char>>::empty());
        assert(concatenated(parts.drop_first()) =~= Seq::<char>::empty());
        assert(parts[0] + Seq::<char>::empty() =~= text);
    } else {
        let rest = text.skip(size as int);
        lemma_chunks(rest, size);
        assert(parts.drop_first() =~= chunks(rest, size));
        assert(text.take(size as int) + rest =~= text);
        assert(parts[0] =~= text.take(size as int));
        assert(concatenated(parts) == parts[0] + concatenated(parts.drop_first()));
        assert forall|i: int| 0 <= i < parts.len() implies 0 < (#[trigger] parts[i]).len()
            <= size by {
            if i > 0 {
                assert(parts[i] == chunks(rest, size)[i - 1]);
            }
        }
    }
}

/// Cuts `text` into pieces of at most `size` characters.
pub fn split_text(text: &str, size: usize) -> (result: Result<Vec<String>, FormattingError>)
    ensures
        match result {
            Ok(parts) => size > 0 && text::texts(parts@) == chunks(text@, size as nat),
            Err(error) => size == 0 && error == FormattingError::EmptyChunkSize,
        },
{
    if size == 0 {
        return Err(FormattingError::EmptyChunkSize);
    }
    let chars = text::chars_of(text);
    let mut parts: Vec<String> = Vec::new();
    let mut at: usize = 0;
    assert(chars@.skip(0) =~= chars@);
    assert(text::texts(parts@) + chunks(chars@, size as nat) =~= chunks(chars@, size as nat));
    while chars.len() - at > size
        invariant
            size > 0,
            at <= chars@.len(),
            chunks(chars@, size as nat) == text::texts(parts@) + chunks(
                chars@.skip(at as int),
                size as nat,
            ),
        decreases chars.len() - at,
    {
        let ghost before = text::texts(parts@);
        let ghost rest = chars@.skip(at as int);
        let part = text::text_between(&chars, at, at + size);
        proof {
            assert(rest.take(size as int) =~= part@);
            assert(rest.skip(size as int) =~= chars@.skip(at + size));
        }
        parts.push(part);
        assert(text::texts(parts@) =~= before.push(part@));
        assert(before + (seq![part@] + chunks(chars@.skip(at + size), size as nat)) =~= before.push(
            part@,
        ) + chunks(chars@.skip(at + size), size as nat));
        at += size;
    }
    let ghost before = text::texts(parts@);
    let part = text::text_between(&chars, at, chars.len());
    assert(chars@.skip(at as int) =~= part@);
    parts.push(part);
    assert(text::texts(parts@) =~= before + seq![part@]);
    Ok(parts)
}

/// Shows one of `segments`, with its place when there are several.
pub fn render_segment(segments: &Vec<String>, index: usize) -> (result: Result<
    String,
    FormattingError,
>)
    ensures
        match result {
            Ok(shown) => index < segments@.len() && shown@ == rendered(
                text::texts(segments@),
                index as int,
            ),
            Err(error) => index >= segments@.len() && error == FormattingError::SegmentOutOfRange,
        },
{
    if index >= segments.len() {
        return Err(FormattingError::SegmentOutOfRange);
    }
    if segments.len() == 1 {
        return Ok(segments[index].clone());
    }
    let mut shown = "[".to_owned();
    let place = text::decimal_text((index + 1) as u64);
    shown.append(place.as_str());
    shown.append("/");
    let total = text::decimal_text(segments.len() as u64);
    shown.append(total.as_str());
    shown.append("]\n");
    shown.append(segments[index].as_str());
    Ok(shown)
}

/// Cuts a segment in two halves, which together are the segment.
pub fn bisect_segment(segment: &str) -> (result: Result<(String, String), FormattingError>)
    ensures
        match result {
            Ok((left, right)) => segment@.len() >= 2 && left@ == segment@.take(
                segment@.len() as int / 2,
            ) && right@ == segment@.skip(segment@.len() as int / 2) && left@ + right@ == segment@,
            Err(error) => segment@.len() < 2 && error == FormattingError::IndivisibleSegment,
        },
{
    let chars = text::chars_of(segment);
    if chars.len() < 2 {
        return Err(FormattingError::IndivisibleSegment);
    }
    let middle: usize = chars.len() / 2;
    let left = text::text_between(&chars, 0, middle);
    let right = text::text_between(&chars, middle, chars.len());
    assert(left@ =~= segment@.take(middle as int));
    assert(right@ =~= segment@.skip(middle as int));
    assert(left@ + right@ =~= segment@);
    Ok((left, right))
}

} // verus!
