//! How the characters of a text and the bytes of its UTF-8 encoding
//! correspond.
//!
//! The executable string functions of this crate work on bytes, and their
//! contracts speak of characters. The lemmas here carry an occurrence of one
//! text in another from bytes to characters and back.

use vstd::prelude::*;
use vstd::utf8::*;
use crate::text::occurs_at;

verus! {

/// The number of bytes that the first `count` characters of `text` take.
pub open spec fn byte_offset(text: Seq<char>, count: int) -> int {
    encode_utf8(text.take(count)).len() as int
}

/// `needle` stands in `hay` at byte index `at`.
pub open spec fn bytes_occur_at(needle: Seq<u8>, hay: Seq<u8>, at: int) -> bool {
    &&& 0 <= at
    &&& at + needle.len() <= hay.len()
    &&& hay.subrange(at, at + needle.len()) == needle
}

/// Encoding goes through concatenation.
pub proof fn lemma_encode_concat(a: Seq<char>, b: Seq<char>)
    ensures
        encode_utf8(a + b) == encode_utf8(a) + encode_utf8(b),
    decreases a.len(),
{
    if a.len() == 0 {
        assert(a + b =~= b);
        assert(encode_utf8(a) + encode_utf8(b) =~= encode_utf8(b));
    } else {
        assert((a + b).drop_first() =~= a.drop_first() + b);
        lemma_encode_concat(a.drop_first(), b);
        assert(encode_utf8(a + b) =~= encode_utf8(a) + encode_utf8(b));
    }
}

/// Every character takes at least one byte.
pub proof fn lemma_encode_len(text: Seq<char>)
    ensures
        encode_utf8(text).len() >= text.len(),
    decreases text.len(),
{
    if text.len() > 0 {
        lemma_encode_len(text.drop_first());
    }
}

/// A text is encoded as its first `count` characters followed by the rest.
pub proof fn lemma_encode_split(text: Seq<char>, count: int)
    requires
        0 <= count <= text.len(),
    ensures
        encode_utf8(text) == encode_utf8(text.take(count)) + encode_utf8(text.skip(count)),
        encode_utf8(text).subrange(0, byte_offset(text, count)) == encode_utf8(text.take(count)),
        encode_utf8(text).subrange(byte_offset(text, count), encode_utf8(text).len() as int)
            == encode_utf8(text.skip(count)),
        0 <= byte_offset(text, count) <= encode_utf8(text).len(),
{
    assert(text.take(count) + text.skip(count) =~= text);
    lemma_encode_concat(text.take(count), text.skip(count));
    let whole = encode_utf8(text);
    let k = byte_offset(text, count);
    assert(whole.subrange(0, k) =~= encode_utf8(text.take(count)));
    assert(whole.subrange(k, whole.len() as int) =~= encode_utf8(text.skip(count)));
}

/// More characters take more bytes.
pub proof fn lemma_byte_offset_grows(text: Seq<char>, fewer: int, more: int)
    requires
        0 <= fewer < more <= text.len(),
    ensures
        byte_offset(text, fewer) < byte_offset(text, more),
{
    let middle = text.subrange(fewer, more);
    assert(text.take(more) =~= text.take(fewer) + middle);
    lemma_encode_concat(text.take(fewer), middle);
    lemma_encode_len(middle);
}

/// A character boundary of the encoding is where some number of characters
/// ends.
pub proof fn lemma_boundary_is_offset(text: Seq<char>, at: int) -> (count: int)
    requires
        is_char_boundary(encode_utf8(text), at),
    ensures
        0 <= count <= text.len(),
        byte_offset(text, count) == at,
{
    let bytes = encode_utf8(text);
    encode_utf8_valid_utf8(text);
    encode_utf8_decode_utf8(text);
    if at == 0 {
        assert(text.take(0) =~= Seq::<char>::empty());
        0
    } else {
        assert(0 < at <= bytes.len()) by {
            reveal_with_fuel(is_char_boundary, 1);
        }
        let front = bytes.subrange(0, at);
        let back = bytes.subrange(at, bytes.len() as int);
        valid_utf8_split(bytes, at);
        decode_utf8_split(bytes, at);
        decode_utf8_encode_utf8(front);
        let count = decode_utf8(front).len() as int;
        assert(text.take(count) =~= decode_utf8(front));
        count
    }
}

/// Where some number of characters ends, the encoding has a character
/// boundary.
pub proof fn lemma_offset_is_boundary(text: Seq<char>, count: int)
    requires
        0 <= count <= text.len(),
    ensures
        is_char_boundary(encode_utf8(text), byte_offset(text, count)),
    decreases count,
{
    let bytes = encode_utf8(text);
    encode_utf8_valid_utf8(text);
    if count == 0 {
        assert(text.take(0) =~= Seq::<char>::empty());
    } else {
        let rest = text.drop_first();
        encode_utf8_first_scalar(text);
        assert(pop_first_scalar(bytes) =~= encode_utf8(rest));
        lemma_offset_is_boundary(rest, count - 1);
        assert(text.take(count).drop_first() =~= rest.take(count - 1));
        lemma_encode_split(text, count);
        assert(byte_offset(text, count) == length_of_first_scalar(bytes) + byte_offset(
            rest,
            count - 1,
        ));
    }
}

/// Texts with the same encoding are the same.
pub proof fn lemma_encode_injective(a: Seq<char>, b: Seq<char>)
    requires
        encode_utf8(a) == encode_utf8(b),
    ensures
        a == b,
{
    encode_utf8_decode_utf8(a);
    encode_utf8_decode_utf8(b);
}

/// A character below 128 is encoded as the one byte of its number.
pub proof fn lemma_encode_ascii(c: char)
    requires
        (c as u32) < 0x80,
    ensures
        encode_utf8(seq![c]) == seq![c as u8],
{
    let v = c as u32;
    assert((v & 0x7F) as u8 == v as u8) by (bit_vector)
        requires
            v < 0x80,
    ;
    reveal_with_fuel(encode_utf8, 2);
    assert(seq![c].drop_first() =~= Seq::<char>::empty());
    assert(encode_scalar(v) =~= seq![c as u8]);
    assert(encode_utf8(seq![c]) =~= seq![c as u8]);
}

/// The first character of a text ends at the first character boundary
/// behind the start of its encoding.
pub proof fn lemma_first_boundary(text: Seq<char>, at: int)
    requires
        0 < at,
        is_char_boundary(encode_utf8(text), at),
        forall|i: int| 0 < i < at ==> !is_char_boundary(encode_utf8(text), i),
    ensures
        text.len() > 0,
        byte_offset(text, 1) == at,
{
    let count = lemma_boundary_is_offset(text, at);
    assert(text.take(0) =~= Seq::<char>::empty());
    if count > 1 {
        lemma_byte_offset_grows(text, 0, 1);
        lemma_byte_offset_grows(text, 1, count);
        lemma_offset_is_boundary(text, 1);
    }
}

/// A text whose encoding begins with the encoding of another begins with
/// that other text.
pub proof fn lemma_encoded_prefix(needle: Seq<char>, text: Seq<char>)
    requires
        encode_utf8(needle).is_prefix_of(encode_utf8(text)),
    ensures
        needle.is_prefix_of(text),
    decreases needle.len(),
{
    if needle.len() > 0 {
        let small = encode_utf8(needle);
        let large = encode_utf8(text);
        lemma_encode_len(needle);
        assert(text.len() > 0);
        encode_utf8_first_scalar(needle);
        encode_utf8_first_scalar(text);
        let width = length_of_first_scalar(small);
        assert(small[0] == large[0]);
        assert(width >= 2 ==> small[1] == large[1]);
        assert(width >= 3 ==> small[2] == large[2]);
        assert(width >= 4 ==> small[3] == large[3]);
        assert(needle[0] as u32 == text[0] as u32);
        char_u32_cast(needle[0], needle[0] as u32);
        char_u32_cast(text[0], text[0] as u32);
        assert(needle[0] == text[0]);
        assert(pop_first_scalar(small) =~= encode_utf8(needle.drop_first()));
        assert(pop_first_scalar(large) =~= encode_utf8(text.drop_first()));
        assert(pop_first_scalar(small) =~= pop_first_scalar(large).subrange(
            0,
            pop_first_scalar(small).len() as int,
        ));
        lemma_encoded_prefix(needle.drop_first(), text.drop_first());
        let shorter = needle.drop_first();
        let rest = text.drop_first();
        assert(shorter.len() <= rest.len());
        assert forall|i: int| 0 <= i < needle.len() implies needle[i] == text[i] by {
            if i > 0 {
                assert(needle[i] == shorter[i - 1]);
                assert(shorter[i - 1] == rest.subrange(0, shorter.len() as int)[i - 1]);
            }
        }
        assert(needle =~= text.subrange(0, needle.len() as int));
    } else {
        assert(needle =~= text.subrange(0, 0));
    }
}

/// Where the bytes of a text (not empty) stand in the bytes of another, the
/// text itself stands in the other, at the character that begins there.
pub proof fn lemma_occurrence_from_bytes(
    needle: Seq<char>,
    hay: Seq<char>,
    at: int,
) -> (count: int)
    requires
        needle.len() > 0,
        bytes_occur_at(encode_utf8(needle), encode_utf8(hay), at),
    ensures
        occurs_at(needle, hay, count),
        byte_offset(hay, count) == at,
{
    let small = encode_utf8(needle);
    let large = encode_utf8(hay);
    encode_utf8_valid_utf8(needle);
    encode_utf8_valid_utf8(hay);
    lemma_encode_len(needle);
    assert(large[at] == small[0]) by {
        assert(large.subrange(at, at + small.len())[0] == small[0]);
    }
    is_char_boundary_iff_not_is_continuation_byte(small, 0);
    is_char_boundary_iff_not_is_continuation_byte(large, at);
    let count = lemma_boundary_is_offset(hay, at);
    lemma_encode_split(hay, count);
    let tail = hay.skip(count);
    assert(small =~= encode_utf8(tail).subrange(0, small.len() as int));
    lemma_encoded_prefix(needle, tail);
    assert(hay.subrange(count, count + needle.len()) =~= tail.subrange(0, needle.len() as int));
    count
}

/// Where a text stands in another, its bytes stand in the bytes of the
/// other, at the byte where that character begins.
pub proof fn lemma_occurrence_to_bytes(needle: Seq<char>, hay: Seq<char>, count: int)
    requires
        occurs_at(needle, hay, count),
    ensures
        bytes_occur_at(encode_utf8(needle), encode_utf8(hay), byte_offset(hay, count)),
{
    let end = count + needle.len();
    lemma_encode_split(hay, count);
    lemma_encode_split(hay, end);
    assert(hay.take(end) =~= hay.take(count) + needle);
    lemma_encode_concat(hay.take(count), needle);
    let large = encode_utf8(hay);
    let at = byte_offset(hay, count);
    assert(large.subrange(at, at + encode_utf8(needle).len()) =~= encode_utf8(needle));
}

} // verus!
