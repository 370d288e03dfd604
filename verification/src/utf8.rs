//! Facts about UTF-8 that the rendering of errors rests on.

use vstd::prelude::*;
use crate::item::text_of;
use vstd::utf8::{
    decode_utf8, encode_utf8, encode_utf8_decode_utf8, encode_utf8_valid_utf8, is_ascii_chars, is_ascii_chars_encode_utf8,
    is_char_boundary, is_char_boundary_iff_not_is_continuation_byte,
    is_char_boundary_start_end_of_seq, length_of_first_scalar, pop_first_scalar, valid_utf8,
    valid_utf8_split,
};

verus! {

/// Whether every byte is an ASCII character.
pub open spec fn is_ascii(bytes: Seq<u8>) -> bool {
    forall|i: int| 0 <= i < bytes.len() ==> #[trigger] bytes[i] <= 0x7f
}

/// ASCII characters are UTF-8.
pub proof fn lemma_ascii_valid(bytes: Seq<u8>)
    requires
        is_ascii(bytes),
    ensures
        valid_utf8(bytes),
{
    let chars = Seq::new(bytes.len(), |i: int| bytes[i] as char);
    assert(is_ascii_chars(chars));
    is_ascii_chars_encode_utf8(chars);
    assert(encode_utf8(chars) =~= bytes);
    encode_utf8_valid_utf8(chars);
}

/// Behind an ASCII character in UTF-8 a character starts, or the text ends.
pub proof fn lemma_boundary_behind_ascii(bytes: Seq<u8>, i: int)
    requires
        valid_utf8(bytes),
        0 <= i < bytes.len(),
        bytes[i] <= 0x7f,
    ensures
        is_char_boundary(bytes, i + 1),
    decreases bytes.len(),
{
    is_char_boundary_iff_not_is_continuation_byte(bytes, i);
    let n = length_of_first_scalar(bytes);
    let rest = pop_first_scalar(bytes);
    if i == 0 {
        assert(is_char_boundary(rest, 0));
    } else {
        assert(is_char_boundary(rest, i - n));
        assert(rest[i - n] == bytes[i]);
        lemma_boundary_behind_ascii(rest, i - n);
    }
}

/// A stretch of UTF-8 that starts at the start of the text or behind an
/// ASCII character, and ends at the end of the text or in front of an ASCII
/// character, is UTF-8.
pub proof fn lemma_stretch_valid(bytes: Seq<u8>, from: int, to: int)
    requires
        valid_utf8(bytes),
        0 <= from <= to <= bytes.len(),
        from == 0 || bytes[from - 1] <= 0x7f,
        to == bytes.len() || bytes[to] <= 0x7f,
    ensures
        valid_utf8(bytes.subrange(from, to)),
{
    is_char_boundary_start_end_of_seq(bytes);
    if from > 0 {
        lemma_boundary_behind_ascii(bytes, from - 1);
    }
    valid_utf8_split(bytes, from);
    let tail = bytes.subrange(from, bytes.len() as int);
    is_char_boundary_start_end_of_seq(tail);
    if to < bytes.len() {
        assert(tail[to - from] == bytes[to]);
        is_char_boundary_iff_not_is_continuation_byte(tail, to - from);
    }
    valid_utf8_split(tail, to - from);
    assert(tail.subrange(0, to - from) =~= bytes.subrange(from, to));
}

/// Whether the bytes `[a, b)` are ASCII characters.
pub open spec fn ascii_between(s: Seq<u8>, a: int, b: int) -> bool {
    forall|i: int| a <= i < b ==> #[trigger] s[i] <= 0x7f
}

/// A stretch of ASCII characters, taken out, is ASCII characters.
pub proof fn lemma_ascii_subrange(s: Seq<u8>, a: int, b: int)
    requires
        0 <= a <= b <= s.len(),
        ascii_between(s, a, b),
    ensures
        is_ascii(s.subrange(a, b)),
{
    assert forall|i: int| 0 <= i < b - a implies #[trigger] s.subrange(a, b)[i] <= 0x7f by {
        assert(s.subrange(a, b)[i] == s[a + i]);
    }
}

/// The text that ASCII characters are.
pub fn ascii_text(bytes: &[u8]) -> (text: String)
    requires
        is_ascii(bytes@),
    ensures
        text@ == decode_utf8(bytes@),
{
    proof {
        lemma_ascii_valid(bytes@);
    }
    let text = text_of(bytes);
    proof {
        encode_utf8_decode_utf8(text@);
    }
    text
}

} // verus!
