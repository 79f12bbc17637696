//! Portable little-endian encodings of the fixed-width integers that appear
//! on the wire, together with the recovery lemmas the codec's round-trip
//! proofs rest on.

use vstd::prelude::*;

verus! {

/// The two little-endian bytes of a `u16`.
pub open spec fn u16_le(x: u16) -> Seq<u8> {
    seq![(x & 0xff) as u8, ((x >> 8) & 0xff) as u8]
}

/// The `u16` whose little-endian bytes are `b0, b1`.
pub open spec fn u16_from(b0: u8, b1: u8) -> u16 {
    (b0 as u16) | ((b1 as u16) << 8)
}

/// The four little-endian bytes of a `u32`.
pub open spec fn u32_le(x: u32) -> Seq<u8> {
    seq![
        (x & 0xff) as u8,
        ((x >> 8) & 0xff) as u8,
        ((x >> 16) & 0xff) as u8,
        ((x >> 24) & 0xff) as u8,
    ]
}

/// The `u32` whose little-endian bytes are `s[0] .. s[3]`.
pub open spec fn u32_from(s: Seq<u8>) -> u32 {
    (s[0] as u32) | ((s[1] as u32) << 8) | ((s[2] as u32) << 16) | ((s[3] as u32) << 24)
}

/// The eight little-endian bytes of a `u64`.
pub open spec fn u64_le(x: u64) -> Seq<u8> {
    seq![
        (x & 0xff) as u8,
        ((x >> 8) & 0xff) as u8,
        ((x >> 16) & 0xff) as u8,
        ((x >> 24) & 0xff) as u8,
        ((x >> 32) & 0xff) as u8,
        ((x >> 40) & 0xff) as u8,
        ((x >> 48) & 0xff) as u8,
        ((x >> 56) & 0xff) as u8,
    ]
}

/// The `u64` whose little-endian bytes are `s[0] .. s[7]`.
pub open spec fn u64_from(s: Seq<u8>) -> u64 {
    (s[0] as u64) | ((s[1] as u64) << 8) | ((s[2] as u64) << 16) | ((s[3] as u64) << 24)
        | ((s[4] as u64) << 32) | ((s[5] as u64) << 40) | ((s[6] as u64) << 48)
        | ((s[7] as u64) << 56)
}

/// The four little-endian bytes of an `i32`, written through its two's
/// complement bit pattern.
pub open spec fn i32_le(x: i32) -> Seq<u8> {
    u32_le(x as u32)
}

/// The `i32` whose little-endian bytes are `s[0] .. s[3]`.
pub open spec fn i32_from(s: Seq<u8>) -> i32 {
    u32_from(s) as i32
}

/// Reading back the two bytes of a `u16` yields the value written.
pub proof fn lemma_u16_round_trip(x: u16)
    ensures
        u16_from((x & 0xff) as u8, ((x >> 8) & 0xff) as u8) == x,
{
    assert((((x & 0xff) as u8) as u16) | (((((x >> 8) & 0xff) as u8) as u16) << 8) == x)
        by (bit_vector);
}

/// Reading back the four bytes of a `u32` yields the value written.
pub proof fn lemma_u32_round_trip(x: u32)
    ensures
        u32_from(u32_le(x)) == x,
{
    assert((((x & 0xff) as u8) as u32) | (((((x >> 8) & 0xff) as u8) as u32) << 8)
        | (((((x >> 16) & 0xff) as u8) as u32) << 16)
        | (((((x >> 24) & 0xff) as u8) as u32) << 24) == x) by (bit_vector);
}

/// Reading back the eight bytes of a `u64` yields the value written.
pub proof fn lemma_u64_round_trip(x: u64)
    ensures
        u64_from(u64_le(x)) == x,
{
    assert((((x & 0xff) as u8) as u64) | (((((x >> 8) & 0xff) as u8) as u64) << 8)
        | (((((x >> 16) & 0xff) as u8) as u64) << 16)
        | (((((x >> 24) & 0xff) as u8) as u64) << 24)
        | (((((x >> 32) & 0xff) as u8) as u64) << 32)
        | (((((x >> 40) & 0xff) as u8) as u64) << 40)
        | (((((x >> 48) & 0xff) as u8) as u64) << 48)
        | (((((x >> 56) & 0xff) as u8) as u64) << 56) == x) by (bit_vector);
}

/// Reading back the four bytes of an `i32` yields the value written.
pub proof fn lemma_i32_round_trip(x: i32)
    ensures
        i32_from(i32_le(x)) == x,
{
    lemma_u32_round_trip(x as u32);
    assert(((x as u32) as i32) == x) by (bit_vector);
}

} // verus!
