//! The text codec: text travels as a region that holds its UTF-8 bytes and
//! then one zero byte.
//!
//! The terminator is the only zero byte of the region, and it is the last
//! byte: the region is exactly one byte longer than the text. A reader that
//! sees only the pointer finds the end of the text, and with it the capacity
//! of the region, by looking for the terminator.

use crate::arena::{Arena, Pointer};
use vstd::prelude::*;
use vstd::string::StrSliceExecFns;
use vstd::utf8::*;

verus! {

/// True when no character of `text` is the NUL character. Only such text can
/// travel: a NUL inside it would be taken for the terminator.
pub open spec fn nul_free(text: Seq<char>) -> bool {
    forall|i: int| 0 <= i < text.len() ==> (#[trigger] text[i]) != '\0'
}

/// True when no byte of `bytes` is zero.
pub open spec fn zero_free(bytes: Seq<u8>) -> bool {
    forall|i: int| 0 <= i < bytes.len() ==> (#[trigger] bytes[i]) != 0u8
}

/// The region that carries `text`.
pub open spec fn c_string(text: Seq<char>) -> Seq<u8> {
    encode_utf8(text).push(0u8)
}

/// True when the first zero byte of `region` stands at index `at`.
pub open spec fn terminator_at(region: Seq<u8>, at: int) -> bool {
    &&& 0 <= at < region.len()
    &&& region[at] == 0u8
    &&& zero_free(region.subrange(0, at))
}

/// True when `region` holds a zero byte somewhere.
pub open spec fn has_terminator(region: Seq<u8>) -> bool {
    exists|at: int| terminator_at(region, at)
}

/// True when `region` is a text buffer: its last byte is the terminator, and
/// no byte before it is zero.
pub open spec fn is_c_string(region: Seq<u8>) -> bool {
    terminator_at(region, region.len() - 1)
}

/// The bytes of a text buffer that stand before the terminator.
pub open spec fn text_bytes(region: Seq<u8>) -> Seq<u8>
    recommends
        is_c_string(region),
{
    region.drop_last()
}

/// True when `region` is a text buffer whose bytes are valid UTF-8.
pub open spec fn is_text(region: Seq<u8>) -> bool {
    is_c_string(region) && valid_utf8(text_bytes(region))
}

/// The text that a text buffer carries.
pub open spec fn text_of(region: Seq<u8>) -> Seq<char>
    recommends
        is_text(region),
{
    decode_utf8(text_bytes(region))
}

/// The encoding of a single character holds a zero byte only if the character
/// is NUL.
proof fn scalar_zero_free(scalar: u32)
    requires
        is_scalar(scalar),
    ensures
        zero_free(encode_scalar(scalar)) <==> scalar != 0,
{
    if has_width_1_encoding(scalar) {
        assert(leading_byte_width_1(scalar) == 0 <==> scalar == 0) by (bit_vector)
            requires
                has_width_1_encoding(scalar),
        ;
        assert(encode_scalar(scalar)[0] == leading_byte_width_1(scalar));
    } else {
        assert(leading_byte_width_2(scalar) != 0) by (bit_vector);
        assert(leading_byte_width_3(scalar) != 0) by (bit_vector);
        assert(leading_byte_width_4(scalar) != 0) by (bit_vector);
        assert(last_continuation_byte(scalar) != 0) by (bit_vector);
        assert(second_last_continuation_byte(scalar) != 0) by (bit_vector);
        assert(third_last_continuation_byte(scalar) != 0) by (bit_vector);
    }
}

/// Text is free of NUL characters exactly when its UTF-8 bytes are free of
/// zero bytes.
pub proof fn nul_free_bytes(text: Seq<char>)
    ensures
        nul_free(text) <==> zero_free(encode_utf8(text)),
    decreases text.len(),
{
    if text.len() > 0 {
        let head = encode_scalar(text[0] as u32);
        let rest = text.drop_first();
        let tail = encode_utf8(rest);
        char_is_scalar(text[0]);
        scalar_zero_free(text[0] as u32);
        nul_free_bytes(rest);
        assert(encode_utf8(text) == head + tail);
        assert((text[0] as u32) != 0 <==> text[0] != '\0') by {
            assert('\0' as u32 == 0);
            if text[0] as u32 == 0 {
                char_u32_cast(text[0], 0u32);
                char_u32_cast('\0', 0u32);
            }
        }
        if nul_free(text) {
            assert forall|i: int| 0 <= i < rest.len() implies (#[trigger] rest[i]) != '\0' by {
                assert(rest[i] == text[i + 1]);
            }
            assert forall|i: int| 0 <= i < (head + tail).len() implies (#[trigger] (head
                + tail)[i]) != 0u8 by {
                if i >= head.len() {
                    assert((head + tail)[i] == tail[i - head.len()]);
                }
            }
        }
        if zero_free(encode_utf8(text)) {
            assert forall|i: int| 0 <= i < head.len() implies (#[trigger] head[i]) != 0u8 by {
                assert(head[i] == (head + tail)[i]);
            }
            assert forall|i: int| 0 <= i < tail.len() implies (#[trigger] tail[i]) != 0u8 by {
                assert(tail[i] == (head + tail)[i + head.len()]);
            }
            assert forall|i: int| 0 <= i < text.len() implies (#[trigger] text[i]) != '\0' by {
                if i > 0 {
                    assert(text[i] == rest[i - 1]);
                }
            }
        }
    }
}

/// The UTF-8 bytes of two texts put together are the bytes of the first and
/// then the bytes of the second.
pub proof fn encode_concat(first: Seq<char>, second: Seq<char>)
    ensures
        encode_utf8(first + second) == encode_utf8(first) + encode_utf8(second),
    decreases first.len(),
{
    if first.len() == 0 {
        assert(first + second =~= second);
        assert(encode_utf8(first) + encode_utf8(second) =~= encode_utf8(second));
    } else {
        encode_concat(first.drop_first(), second);
        assert((first + second).drop_first() =~= first.drop_first() + second);
        assert(encode_utf8(first + second) =~= encode_utf8(first) + encode_utf8(second));
    }
}

/// Only one index can hold the first zero byte of a region.
pub proof fn terminator_unique(region: Seq<u8>, at: int, other: int)
    requires
        terminator_at(region, at),
        terminator_at(region, other),
    ensures
        at == other,
{
    if at < other {
        assert(region.subrange(0, other)[at] == region[at]);
    }
    if other < at {
        assert(region.subrange(0, at)[other] == region[other]);
    }
}

/// What is encoded is always a well-formed text buffer: valid UTF-8, closed
/// by the only zero byte of the region. Invalid text cannot be written down
/// as an argument, so none ever reaches a decoder from here.
pub proof fn encoded_text_is_text(text: Seq<char>)
    requires
        nul_free(text),
    ensures
        is_text(c_string(text)),
        text_bytes(c_string(text)) == encode_utf8(text),
{
    nul_free_bytes(text);
    encode_utf8_valid_utf8(text);
    assert(c_string(text).drop_last() =~= encode_utf8(text));
    assert(c_string(text).subrange(0, c_string(text).len() - 1) =~= encode_utf8(text));
}

/// Decoding what was encoded gives the text back, for every text that can
/// travel.
pub proof fn text_round_trip(text: Seq<char>)
    requires
        nul_free(text),
    ensures
        is_text(c_string(text)),
        text_of(c_string(text)) == text,
{
    encoded_text_is_text(text);
    encode_utf8_decode_utf8(text);
}

/// The size of an encoded text is the number of its UTF-8 bytes, which is not
/// the number of its characters unless all of them are ASCII.
pub proof fn size_is_byte_count(text: Seq<char>)
    requires
        nul_free(text),
    ensures
        terminator_at(c_string(text), encode_utf8(text).len() as int),
{
    encoded_text_is_text(text);
}

/// A text buffer is the encoding of its own text: the text determines every
/// byte of the region.
pub proof fn text_determines_region(region: Seq<u8>)
    requires
        is_text(region),
    ensures
        nul_free(text_of(region)),
        c_string(text_of(region)) == region,
{
    decode_utf8_encode_utf8(text_bytes(region));
    nul_free_bytes(text_of(region));
    assert(region.subrange(0, region.len() - 1) =~= text_bytes(region));
    assert(c_string(text_of(region)) =~= region);
}

/// `String::from_utf8` of the standard library. It accepts the bytes exactly
/// when they are valid UTF-8, and the string it then returns is made of these
/// very bytes.
#[verifier::external_body]
fn string_from_utf8(bytes: Vec<u8>) -> (text: Option<String>)
    ensures
        text is Some <==> valid_utf8(bytes@),
        text matches Some(t) ==> encode_utf8(t@) == bytes@,
{
    match String::from_utf8(bytes) {
        Ok(text) => Some(text),
        Err(_) => None,
    }
}

/// Tells whether text can travel, that is, whether it is free of NUL
/// characters.
pub fn is_nul_free(text: &str) -> (free: bool)
    ensures
        free == nul_free(text@),
{
    let bytes = text.as_bytes();
    let mut i: usize = 0;
    while i < bytes.len()
        invariant
            i <= bytes@.len(),
            bytes@ == encode_utf8(text@),
            zero_free(bytes@.subrange(0, i as int)),
        decreases bytes@.len() - i,
    {
        if bytes[i] == 0 {
            proof {
                nul_free_bytes(text@);
            }
            return false;
        }
        i += 1;
        assert forall|k: int| 0 <= k < i implies (#[trigger] bytes@.subrange(0, i as int)[k])
            != 0u8 by {
            if k < i - 1 {
                assert(bytes@.subrange(0, i - 1)[k] == bytes@[k]);
            }
        }
    }
    proof {
        assert(bytes@.subrange(0, i as int) =~= bytes@);
        nul_free_bytes(text@);
    }
    true
}

/// Encodes text: a new buffer that holds the UTF-8 bytes of the text and then
/// the terminator.
pub fn encode(text: &str) -> (region: Vec<u8>)
    requires
        nul_free(text@),
    ensures
        region@ == c_string(text@),
        is_text(region@),
{
    proof {
        encoded_text_is_text(text@);
    }
    let mut region: Vec<u8> = text.as_bytes_vec();
    region.push(0u8);
    region
}

/// Measures text without taking it: the number of bytes that stand before the
/// terminator.
pub fn string_size(region: &[u8]) -> (size: usize)
    requires
        has_terminator(region@),
    ensures
        terminator_at(region@, size as int),
{
    let ghost end = choose|at: int| terminator_at(region@, at);
    let mut size: usize = 0;
    while region[size] != 0
        invariant
            terminator_at(region@, end),
            size <= end,
            zero_free(region@.subrange(0, size as int)),
        decreases end - size,
    {
        proof {
            if size == end {
                assert(false);
            }
        }
        size += 1;
        assert forall|k: int| 0 <= k < size implies (#[trigger] region@.subrange(0, size as int)[k])
            != 0u8 by {
            if k < size - 1 {
                assert(region@.subrange(0, size - 1)[k] == region@[k]);
            }
        }
    }
    size
}

/// Decodes a text buffer. The buffer is used up. There is text to return
/// exactly when the bytes before the terminator are valid UTF-8.
pub fn decode(region: Vec<u8>) -> (text: Option<String>)
    requires
        is_c_string(region@),
    ensures
        text is Some <==> is_text(region@),
        text matches Some(t) ==> t@ == text_of(region@),
{
    let ghost whole = region@;
    let mut bytes = region;
    let _ = bytes.pop();
    assert(bytes@ =~= text_bytes(whole));
    let text = string_from_utf8(bytes);
    proof {
        if text is Some {
            encode_utf8_decode_utf8(text->0@);
        }
    }
    text
}

/// Encodes text into a region of its own and returns the pointer to it. The
/// caller owns the region.
pub fn ptr_from_string(arena: &mut Arena, data: String) -> (pointer: Pointer)
    requires
        nul_free(data@),
    ensures
        pointer != 0,
        !old(arena)@.dom().contains(pointer),
        final(arena)@ == old(arena)@.insert(pointer, c_string(data@)),
        is_text(final(arena)@[pointer]),
{
    let region: Vec<u8> = encode(data.as_str());
    arena.place(region)
}

/// Decodes the text buffer behind a pointer and releases its region. This
/// reads once and for all: afterwards the pointer is dead.
///
/// Bytes that are not valid UTF-8 cannot be answered: this boundary has no
/// way to report them, so they are ruled out beforehand.
pub fn string_from_ptr(arena: &mut Arena, ptr: Pointer) -> (text: String)
    requires
        old(arena)@.dom().contains(ptr),
        is_text(old(arena)@[ptr]),
    ensures
        text@ == text_of(old(arena)@[ptr]),
        final(arena)@ == old(arena)@.remove(ptr),
{
    let region: Vec<u8> = arena.reclaim(ptr);
    decode(region).unwrap()
}

/// Measures the text behind a pointer: the number of bytes before the
/// terminator. The region is only looked at. It stays live, unchanged, and
/// with its owner.
pub fn get_string_size(arena: &Arena, raw: Pointer) -> (size: usize)
    requires
        arena@.dom().contains(raw),
        has_terminator(arena@[raw]),
    ensures
        terminator_at(arena@[raw], size as int),
{
    string_size(arena.peek(raw))
}

} // verus!
