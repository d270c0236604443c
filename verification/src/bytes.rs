//! Little-endian integers read from byte slices.

use vstd::prelude::*;

verus! {

/// The little-endian value of the two bytes at the front of `s`.
pub open spec fn le16(s: Seq<u8>) -> nat {
    s[0] as nat + 0x100 * s[1] as nat
}

/// The little-endian value of the four bytes at the front of `s`.
pub open spec fn le32(s: Seq<u8>) -> nat {
    s[0] as nat + 0x100 * s[1] as nat + 0x1_0000 * s[2] as nat + 0x100_0000 * s[3] as nat
}

/// The little-endian value of the eight bytes at the front of `s`.
pub open spec fn le64(s: Seq<u8>) -> nat {
    le32(s) + 0x1_0000_0000 * le32(s.skip(4))
}

/// The two bytes that spell `v` in little-endian order.
pub open spec fn le16_bytes(v: u16) -> Seq<u8> {
    seq![(v % 0x100) as u8, (v / 0x100) as u8]
}

/// The four bytes that spell `v` in little-endian order.
pub open spec fn le32_bytes(v: u32) -> Seq<u8> {
    seq![
        (v % 0x100) as u8,
        (v / 0x100 % 0x100) as u8,
        (v / 0x1_0000 % 0x100) as u8,
        (v / 0x100_0000) as u8,
    ]
}

/// The eight bytes that spell `v` in little-endian order.
pub open spec fn le64_bytes(v: u64) -> Seq<u8> {
    le32_bytes((v % 0x1_0000_0000) as u32) + le32_bytes((v / 0x1_0000_0000) as u32)
}

/// A 16-bit number is its low byte plus 256 times its high byte.
proof fn lemma_parts16(v: u16)
    by (bit_vector)
    ensures
        v / 0x100 < 0x100,
        (v % 0x100) + 0x100 * (v / 0x100) == v,
{
}

/// A 32-bit number is the sum of its four bytes, each scaled by its place.
proof fn lemma_parts32(v: u32)
    by (bit_vector)
    ensures
        v / 0x100_0000 < 0x100,
        (v % 0x100) + 0x100 * (v / 0x100 % 0x100) + 0x1_0000 * (v / 0x1_0000 % 0x100) + 0x100_0000
            * (v / 0x100_0000) == v,
{
}

/// A 64-bit number is its low half plus 2^32 times its high half.
proof fn lemma_parts64(v: u64)
    by (bit_vector)
    ensures
        v / 0x1_0000_0000 < 0x1_0000_0000,
        (v % 0x1_0000_0000) + 0x1_0000_0000 * (v / 0x1_0000_0000) == v,
{
}

/// Reading back the two bytes that spell a number gives the number,
/// whatever follows them.
pub proof fn lemma_le16_round_trip(v: u16, tail: Seq<u8>)
    ensures
        le16_bytes(v).len() == 2,
        le16(le16_bytes(v) + tail) == v,
{
    lemma_parts16(v);
    let s = le16_bytes(v) + tail;
    assert(s[0] == le16_bytes(v)[0] && s[1] == le16_bytes(v)[1]);
}

/// Reading back the four bytes that spell a number gives the number,
/// whatever follows them.
pub proof fn lemma_le32_round_trip(v: u32, tail: Seq<u8>)
    ensures
        le32_bytes(v).len() == 4,
        le32(le32_bytes(v) + tail) == v,
{
    lemma_parts32(v);
    let s = le32_bytes(v) + tail;
    assert(s[0] == le32_bytes(v)[0] && s[1] == le32_bytes(v)[1]);
    assert(s[2] == le32_bytes(v)[2] && s[3] == le32_bytes(v)[3]);
}

/// Reading back the eight bytes that spell a number gives the number,
/// whatever follows them.
pub proof fn lemma_le64_round_trip(v: u64, tail: Seq<u8>)
    ensures
        le64_bytes(v).len() == 8,
        le64(le64_bytes(v) + tail) == v,
{
    lemma_parts64(v);
    let lo = (v % 0x1_0000_0000) as u32;
    let hi = (v / 0x1_0000_0000) as u32;
    let s = le64_bytes(v) + tail;
    assert(s =~= le32_bytes(lo) + (le32_bytes(hi) + tail));
    assert(s.skip(4) =~= le32_bytes(hi) + tail);
    lemma_le32_round_trip(lo, le32_bytes(hi) + tail);
    lemma_le32_round_trip(hi, tail);
}

/// Shifting a byte left by a multiple of eight bits scales it by a power of 256.
proof fn lemma_byte_shifts(b: u64)
    by (bit_vector)
    requires
        b < 0x100,
    ensures
        b << 0 == b,
        b << 8 == b * 0x100,
        b << 16 == b * 0x1_0000,
        b << 24 == b * 0x100_0000,
        b << 32 == b * 0x1_0000_0000,
        b << 40 == b * 0x100_0000_0000,
        b << 48 == b * 0x1_0000_0000_0000,
        b << 56 == b * 0x100_0000_0000_0000,
{
}

/// A byte shifted inside a narrower word has the value it has in a 64-bit word,
/// as long as no bit leaves the word.
proof fn lemma_shifts_agree(a: u8, b: u8, c: u8, d: u8)
    by (bit_vector)
    ensures
        (a as u16) << 0 == (a as u64) << 0,
        (b as u16) << 8 == (b as u64) << 8,
        (a as u32) << 0 == (a as u64) << 0,
        (b as u32) << 8 == (b as u64) << 8,
        (c as u32) << 16 == (c as u64) << 16,
        (d as u32) << 24 == (d as u64) << 24,
{
}

/// Reads the eight bytes at the front of `array` as a little-endian number.
pub fn as_u64_le(array: &[u8]) -> (r: u64)
    requires
        array@.len() >= 8,
    ensures
        r == le64(array@),
{
    proof {
        lemma_byte_shifts(array[0] as u64);
        lemma_byte_shifts(array[1] as u64);
        lemma_byte_shifts(array[2] as u64);
        lemma_byte_shifts(array[3] as u64);
        lemma_byte_shifts(array[4] as u64);
        lemma_byte_shifts(array[5] as u64);
        lemma_byte_shifts(array[6] as u64);
        lemma_byte_shifts(array[7] as u64);
    }
    ((array[0] as u64) << 0) + ((array[1] as u64) << 8) + ((array[2] as u64) << 16) + ((
    array[3] as u64) << 24) + ((array[4] as u64) << 32) + ((array[5] as u64) << 40) + ((
    array[6] as u64) << 48) + ((array[7] as u64) << 56)
}

/// Reads the four bytes at the front of `array` as a little-endian number.
pub fn as_u32_le(array: &[u8]) -> (r: u32)
    requires
        array@.len() >= 4,
    ensures
        r == le32(array@),
{
    proof {
        lemma_byte_shifts(array[0] as u64);
        lemma_byte_shifts(array[1] as u64);
        lemma_byte_shifts(array[2] as u64);
        lemma_byte_shifts(array[3] as u64);
        lemma_shifts_agree(array[0], array[1], array[2], array[3]);
    }
    ((array[0] as u32) << 0) + ((array[1] as u32) << 8) + ((array[2] as u32) << 16) + ((
    array[3] as u32) << 24)
}

/// Reads the two bytes at the front of `array` as a little-endian number.
pub fn as_u16_le(array: &[u8]) -> (r: u16)
    requires
        array@.len() >= 2,
    ensures
        r == le16(array@),
{
    proof {
        lemma_byte_shifts(array[0] as u64);
        lemma_byte_shifts(array[1] as u64);
        lemma_shifts_agree(array[0], array[1], 0, 0);
    }
    ((array[0] as u16) << 0) + ((array[1] as u16) << 8)
}

} // verus!
