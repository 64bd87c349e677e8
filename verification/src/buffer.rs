//! The byte buffer codec: a binary payload travels as a region that starts
//! with its own length.
//!
//! The first four bytes of such a region hold the length of the payload,
//! least significant byte first; the payload follows. The region is exactly
//! four bytes longer than the payload, so a reader that sees only the pointer
//! learns the capacity from the header.

use crate::arena::{Arena, Pointer};
use vstd::arithmetic::div_mod::lemma_fundamental_div_mod_converse;
use vstd::prelude::*;

verus! {

/// The number of bytes that the length takes at the head of a region.
pub const HEADER_LEN: usize = 4;

/// The longest payload whose length the header can hold.
pub const MAX_PAYLOAD: usize = 0xffff_ffff;

/// The four header bytes that record `len`.
pub open spec fn header(len: nat) -> Seq<u8> {
    seq![
        (len % 256) as u8,
        (len / 256 % 256) as u8,
        (len / 65536 % 256) as u8,
        (len / 16777216 % 256) as u8,
    ]
}

/// The length that the first four bytes of `region` record.
pub open spec fn header_value(region: Seq<u8>) -> nat
    recommends
        region.len() >= HEADER_LEN,
{
    (region[0] as nat) + 256 * (region[1] as nat) + 65536 * (region[2] as nat) + 16777216 * (
    region[3] as nat)
}

/// The region that carries `payload`.
pub open spec fn framed(payload: Seq<u8>) -> Seq<u8> {
    header(payload.len()) + payload
}

/// True when `region` is a length-prefixed buffer: it has a header, and the
/// header tells the truth about what follows it.
pub open spec fn is_framed(region: Seq<u8>) -> bool {
    &&& region.len() >= HEADER_LEN
    &&& region.len() == header_value(region) + HEADER_LEN
}

/// The payload that `region` carries.
pub open spec fn payload(region: Seq<u8>) -> Seq<u8>
    recommends
        is_framed(region),
{
    region.subrange(HEADER_LEN as int, HEADER_LEN + header_value(region))
}

/// A header holds the length it was written for.
pub proof fn header_round_trip(len: nat)
    requires
        len <= MAX_PAYLOAD,
    ensures
        header(len).len() == HEADER_LEN,
        header_value(header(len)) == len,
{
    let n = len as int;
    let q1 = n / 256;
    let q2 = q1 / 256;
    let q3 = q2 / 256;
    let b0 = n % 256;
    let b1 = q1 % 256;
    let b2 = q2 % 256;
    assert(q3 < 256);
    lemma_fundamental_div_mod_converse(n, 65536, q2, 256 * b1 + b0);
    lemma_fundamental_div_mod_converse(n, 16777216, q3, 65536 * b2 + 256 * b1 + b0);
    lemma_fundamental_div_mod_converse(q3, 256, 0, q3);
}

/// The header that is written for the length which four bytes record is
/// made of these four bytes.
pub proof fn header_of_value(region: Seq<u8>)
    requires
        region.len() >= HEADER_LEN,
    ensures
        header_value(region) <= MAX_PAYLOAD,
        header(header_value(region)) == region.subrange(0, HEADER_LEN as int),
{
    let b0 = region[0] as int;
    let b1 = region[1] as int;
    let b2 = region[2] as int;
    let b3 = region[3] as int;
    let n = header_value(region) as int;
    lemma_fundamental_div_mod_converse(n, 256, b1 + 256 * b2 + 65536 * b3, b0);
    lemma_fundamental_div_mod_converse(b1 + 256 * b2 + 65536 * b3, 256, b2 + 256 * b3, b1);
    lemma_fundamental_div_mod_converse(n, 65536, b2 + 256 * b3, b0 + 256 * b1);
    lemma_fundamental_div_mod_converse(b2 + 256 * b3, 256, b3, b2);
    lemma_fundamental_div_mod_converse(n, 16777216, b3, b0 + 256 * b1 + 65536 * b2);
    lemma_fundamental_div_mod_converse(b3, 256, 0, b3);
    assert(header(header_value(region)) =~= region.subrange(0, HEADER_LEN as int));
}

/// Decoding what was encoded gives the payload back, whatever the payload,
/// the empty one included.
pub proof fn byte_round_trip(data: Seq<u8>)
    requires
        data.len() <= MAX_PAYLOAD,
    ensures
        is_framed(framed(data)),
        payload(framed(data)) == data,
{
    header_round_trip(data.len());
    let region = framed(data);
    assert(region.subrange(0, HEADER_LEN as int) =~= header(data.len()));
    assert(header_value(region) == header_value(header(data.len())));
    assert(payload(region) =~= data);
}

/// A length-prefixed buffer is the encoding of its own payload: the payload
/// determines every byte of the region.
pub proof fn framed_by_payload(region: Seq<u8>)
    requires
        is_framed(region),
    ensures
        payload(region).len() == header_value(region),
        framed(payload(region)) == region,
{
    header_of_value(region);
    assert(framed(payload(region)) =~= region);
}

/// Reads the payload length from the head of a region.
pub fn payload_len(region: &[u8]) -> (len: usize)
    requires
        region@.len() >= HEADER_LEN,
    ensures
        len == header_value(region@),
{
    let b0: usize = region[0] as usize;
    let b1: usize = region[1] as usize;
    let b2: usize = region[2] as usize;
    let b3: usize = region[3] as usize;
    b0 + 256 * b1 + 65536 * b2 + 16777216 * b3
}

/// Encodes a payload: a new buffer that holds the length header and then a
/// copy of the payload.
pub fn encode(data: &[u8]) -> (region: Vec<u8>)
    requires
        data@.len() <= MAX_PAYLOAD,
    ensures
        region@ == framed(data@),
        is_framed(region@),
{
    proof {
        byte_round_trip(data@);
    }
    let len: usize = data.len();
    let mut region: Vec<u8> = Vec::with_capacity(len);
    region.push((len % 256) as u8);
    region.push((len / 256 % 256) as u8);
    region.push((len / 65536 % 256) as u8);
    region.push((len / 16777216 % 256) as u8);
    assert(region@ =~= header(len as nat));
    let mut i: usize = 0;
    while i < len
        invariant
            i <= len,
            len == data@.len(),
            region@ == header(len as nat) + data@.subrange(0, i as int),
        decreases len - i,
    {
        region.push(data[i]);
        i += 1;
        assert(region@ =~= header(len as nat) + data@.subrange(0, i as int));
    }
    assert(data@.subrange(0, len as int) =~= data@);
    region
}

/// Decodes a length-prefixed buffer: reads the length from the header and
/// returns the payload that follows it. The buffer is used up.
pub fn decode(region: Vec<u8>) -> (data: Vec<u8>)
    requires
        is_framed(region@),
    ensures
        data@ == payload(region@),
{
    let ghost whole = region@;
    let len: usize = payload_len(region.as_slice());
    let mut region = region;
    let mut data: Vec<u8> = region.split_off(HEADER_LEN);
    data.truncate(len);
    assert(data@ =~= payload(whole));
    data
}

/// Encodes a payload into a region of its own and returns the pointer to it.
/// The caller owns the region.
pub fn ptr_from_bytes(arena: &mut Arena, data: Vec<u8>) -> (pointer: Pointer)
    requires
        data@.len() <= MAX_PAYLOAD,
    ensures
        pointer != 0,
        !old(arena)@.dom().contains(pointer),
        final(arena)@ == old(arena)@.insert(pointer, framed(data@)),
        is_framed(final(arena)@[pointer]),
{
    let region: Vec<u8> = encode(data.as_slice());
    arena.place(region)
}

/// Decodes the length-prefixed buffer behind a pointer and releases its
/// region. This reads once and for all: afterwards the pointer is dead, and
/// it must be neither decoded again nor deallocated.
pub fn bytes_from_ptr(arena: &mut Arena, raw: Pointer) -> (data: Vec<u8>)
    requires
        old(arena)@.dom().contains(raw),
        is_framed(old(arena)@[raw]),
    ensures
        data@ == payload(old(arena)@[raw]),
        final(arena)@ == old(arena)@.remove(raw),
{
    let region: Vec<u8> = arena.reclaim(raw);
    decode(region)
}

} // verus!
