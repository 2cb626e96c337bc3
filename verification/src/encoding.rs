use vstd::prelude::*;
use vstd::utf8::*;
use crate::chars::spec_width;

verus! {

/// The text that a run of ASCII bytes spells: one character for each byte.
pub open spec fn ascii_text(bytes: Seq<u8>) -> Seq<char> {
    Seq::new(bytes.len(), |i: int| bytes[i] as char)
}

/// Every byte of the sequence is below 0x80.
pub open spec fn all_ascii(bytes: Seq<u8>) -> bool {
    forall|i: int| 0 <= i < bytes.len() ==> #[trigger] bytes[i] < 0x80
}

/// The character whose encoding begins at `pos`.
pub open spec fn char_at(bytes: Seq<u8>, pos: int) -> char {
    decode_first_scalar(bytes.subrange(pos, bytes.len() as int)) as char
}

/// The suffix of well-formed text that begins at a character boundary opens with a
/// well-formed character, whose width can be read off its first byte, and the offset just
/// behind that character is a boundary again.
pub proof fn lemma_boundary_advance(bytes: Seq<u8>, pos: int)
    requires
        valid_utf8(bytes),
        is_char_boundary(bytes, pos),
        0 <= pos < bytes.len(),
    ensures
        pos + spec_width(bytes[pos]) <= bytes.len(),
        is_char_boundary(bytes, pos + spec_width(bytes[pos])),
        valid_first_scalar(bytes.subrange(pos, bytes.len() as int)),
        length_of_first_scalar(bytes.subrange(pos, bytes.len() as int)) == spec_width(bytes[pos]),
{
    let rest = bytes.subrange(pos, bytes.len() as int);
    valid_utf8_split(bytes, pos);
    assert(valid_utf8(rest));
    assert(rest.len() > 0);
    assert(valid_first_scalar(rest));
    assert(rest[0] == bytes[pos]);
    let w = length_of_first_scalar(rest);
    assert(w == spec_width(bytes[pos]));
    assert(w <= rest.len());
    let next = pos + w;
    if next < bytes.len() {
        let tail = pop_first_scalar(rest);
        assert(valid_utf8(tail));
        assert(tail.len() > 0);
        assert(valid_first_scalar(tail));
        assert(tail[0] == bytes[next]);
        assert(!is_continuation_byte(bytes[next]));
        is_char_boundary_iff_not_is_continuation_byte(bytes, next);
    } else {
        is_char_boundary_start_end_of_seq(bytes);
    }
}

/// In well-formed text the offset just behind an ASCII byte is a character boundary.
pub proof fn lemma_boundary_after_ascii(bytes: Seq<u8>, pos: int)
    requires
        valid_utf8(bytes),
        0 <= pos < bytes.len(),
        bytes[pos] < 0x80,
    ensures
        is_char_boundary(bytes, pos),
        is_char_boundary(bytes, pos + 1),
{
    is_char_boundary_iff_not_is_continuation_byte(bytes, pos);
    lemma_boundary_advance(bytes, pos);
}

/// A boundary of the whole text is a boundary of each prefix that reaches it.
pub proof fn lemma_boundary_in_prefix(bytes: Seq<u8>, start: int, end: int)
    requires
        valid_utf8(bytes),
        is_char_boundary(bytes, start),
        is_char_boundary(bytes, end),
        0 <= start <= end <= bytes.len(),
    ensures
        valid_utf8(bytes.subrange(0, end)),
        is_char_boundary(bytes.subrange(0, end), start),
{
    let head = bytes.subrange(0, end);
    valid_utf8_split(bytes, end);
    if start < end {
        is_char_boundary_iff_not_is_continuation_byte(bytes, start);
        assert(head[start] == bytes[start]);
        is_char_boundary_iff_not_is_continuation_byte(head, start);
    } else {
        is_char_boundary_start_end_of_seq(head);
    }
}

/// A run of ASCII bytes is well-formed text, and decodes to one character for each byte.
pub proof fn lemma_ascii_decode(bytes: Seq<u8>)
    requires
        all_ascii(bytes),
    ensures
        valid_utf8(bytes),
        decode_utf8(bytes) == ascii_text(bytes),
{
    let text = ascii_text(bytes);
    assert(is_ascii_chars(text)) by {
        assert forall|i: int| 0 <= i < text.len() implies '\0' <= #[trigger] text[i]
            <= '\u{7f}' by {
            assert(bytes[i] < 0x80);
        }
    }
    is_ascii_chars_encode_utf8(text);
    assert(encode_utf8(text) =~= bytes) by {
        assert forall|i: int| 0 <= i < bytes.len() implies encode_utf8(text)[i] == bytes[i] by {
            assert(bytes[i] < 0x80);
            assert(text[i] as u8 == encode_utf8(text)[i]);
        }
    }
    encode_utf8_valid_utf8(text);
    encode_utf8_decode_utf8(text);
}

} // verus!
