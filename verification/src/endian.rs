//! Little-endian integers as they lie in the two files.

use vstd::prelude::*;

verus! {

/// The value of two bytes, least significant first.
pub open spec fn u16_from_le(bytes: Seq<u8>) -> int {
    bytes[0] + bytes[1] * 0x100
}

/// The value of four bytes, least significant first.
pub open spec fn u32_from_le(bytes: Seq<u8>) -> int {
    bytes[0] + bytes[1] * 0x100 + bytes[2] * 0x1_0000 + bytes[3] * 0x100_0000
}

/// The value of eight bytes, least significant first.
pub open spec fn u64_from_le(bytes: Seq<u8>) -> int {
    bytes[0] + bytes[1] * 0x100 + bytes[2] * 0x1_0000 + bytes[3] * 0x100_0000 + bytes[4]
        * 0x1_0000_0000 + bytes[5] * 0x100_0000_0000 + bytes[6] * 0x1_0000_0000_0000 + bytes[7]
        * 0x100_0000_0000_0000
}

/// The two bytes of `value`, least significant first.
pub open spec fn u16_to_le(value: u16) -> Seq<u8> {
    seq![(value % 256) as u8, (value / 0x100) as u8]
}

/// The four bytes of `value`, least significant first.
pub open spec fn u32_to_le(value: u32) -> Seq<u8> {
    seq![
        (value % 256) as u8,
        (value / 0x100 % 256) as u8,
        (value / 0x1_0000 % 256) as u8,
        (value / 0x100_0000) as u8,
    ]
}

/// The eight bytes of `value`, least significant first.
pub open spec fn u64_to_le(value: u64) -> Seq<u8> {
    seq![
        (value % 256) as u8,
        (value / 0x100 % 256) as u8,
        (value / 0x1_0000 % 256) as u8,
        (value / 0x100_0000 % 256) as u8,
        (value / 0x1_0000_0000 % 256) as u8,
        (value / 0x100_0000_0000 % 256) as u8,
        (value / 0x1_0000_0000_0000 % 256) as u8,
        (value / 0x100_0000_0000_0000) as u8,
    ]
}

/// The four bytes of `value`, most significant first.
pub open spec fn u32_to_be(value: u32) -> Seq<u8> {
    seq![
        (value / 0x100_0000) as u8,
        (value / 0x1_0000 % 256) as u8,
        (value / 0x100 % 256) as u8,
        (value % 256) as u8,
    ]
}

/// The eight bytes of `value`, most significant first.
pub open spec fn u64_to_be(value: u64) -> Seq<u8> {
    seq![
        (value / 0x100_0000_0000_0000) as u8,
        (value / 0x1_0000_0000_0000 % 256) as u8,
        (value / 0x100_0000_0000 % 256) as u8,
        (value / 0x1_0000_0000 % 256) as u8,
        (value / 0x100_0000 % 256) as u8,
        (value / 0x1_0000 % 256) as u8,
        (value / 0x100 % 256) as u8,
        (value % 256) as u8,
    ]
}

/// Decoding undoes encoding, at each of the three widths.
pub proof fn lemma_le_round_trip(small: u16, medium: u32, large: u64)
    ensures
        u16_from_le(u16_to_le(small)) == small,
        u32_from_le(u32_to_le(medium)) == medium,
        u64_from_le(u64_to_le(large)) == large,
{
    assert(small == (small % 256) as u8 + (small / 0x100) as u8 * 0x100) by (bit_vector);
    assert(medium == (medium % 256) as u8 + (medium / 0x100 % 256) as u8 * 0x100 + (medium
        / 0x1_0000 % 256) as u8 * 0x1_0000 + (medium / 0x100_0000) as u8 * 0x100_0000)
        by (bit_vector);
    assert(large == (large % 256) as u8 + (large / 0x100 % 256) as u8 * 0x100 + (large / 0x1_0000
        % 256) as u8 * 0x1_0000 + (large / 0x100_0000 % 256) as u8 * 0x100_0000 + (large
        / 0x1_0000_0000 % 256) as u8 * 0x1_0000_0000 + (large / 0x100_0000_0000 % 256) as u8
        * 0x100_0000_0000 + (large / 0x1_0000_0000_0000 % 256) as u8 * 0x1_0000_0000_0000 + (large
        / 0x100_0000_0000_0000) as u8 * 0x100_0000_0000_0000) by (bit_vector);
}

pub fn read_u16_le(bytes: &[u8], at: usize) -> (value: u16)
    requires
        at + 2 <= bytes@.len(),
    ensures
        value == u16_from_le(bytes@.subrange(at as int, at + 2)),
{
    let b0: u16 = bytes[at] as u16;
    let b1: u16 = bytes[at + 1] as u16;
    b0 + b1 * 0x100
}

pub fn read_u32_le(bytes: &[u8], at: usize) -> (value: u32)
    requires
        at + 4 <= bytes@.len(),
    ensures
        value == u32_from_le(bytes@.subrange(at as int, at + 4)),
{
    let b0: u32 = bytes[at] as u32;
    let b1: u32 = bytes[at + 1] as u32;
    let b2: u32 = bytes[at + 2] as u32;
    let b3: u32 = bytes[at + 3] as u32;
    b0 + b1 * 0x100 + b2 * 0x1_0000 + b3 * 0x100_0000
}

pub fn read_u64_le(bytes: &[u8], at: usize) -> (value: u64)
    requires
        at + 8 <= bytes@.len(),
    ensures
        value == u64_from_le(bytes@.subrange(at as int, at + 8)),
{
    let b0: u64 = bytes[at] as u64;
    let b1: u64 = bytes[at + 1] as u64;
    let b2: u64 = bytes[at + 2] as u64;
    let b3: u64 = bytes[at + 3] as u64;
    let b4: u64 = bytes[at + 4] as u64;
    let b5: u64 = bytes[at + 5] as u64;
    let b6: u64 = bytes[at + 6] as u64;
    let b7: u64 = bytes[at + 7] as u64;
    b0 + b1 * 0x100 + b2 * 0x1_0000 + b3 * 0x100_0000 + b4 * 0x1_0000_0000 + b5
        * 0x100_0000_0000 + b6 * 0x1_0000_0000_0000 + b7 * 0x100_0000_0000_0000
}

pub fn u16_le_bytes(value: u16) -> (bytes: [u8; 2])
    ensures
        bytes@ == u16_to_le(value),
{
    let bytes: [u8; 2] = [(value % 256) as u8, (value / 0x100) as u8];
    assert(bytes@ =~= u16_to_le(value));
    bytes
}

pub fn u32_le_bytes(value: u32) -> (bytes: [u8; 4])
    ensures
        bytes@ == u32_to_le(value),
{
    let bytes: [u8; 4] = [
        (value % 256) as u8,
        (value / 0x100 % 256) as u8,
        (value / 0x1_0000 % 256) as u8,
        (value / 0x100_0000) as u8,
    ];
    assert(bytes@ =~= u32_to_le(value));
    bytes
}

pub fn u64_le_bytes(value: u64) -> (bytes: [u8; 8])
    ensures
        bytes@ == u64_to_le(value),
{
    let bytes: [u8; 8] = [
        (value % 256) as u8,
        (value / 0x100 % 256) as u8,
        (value / 0x1_0000 % 256) as u8,
        (value / 0x100_0000 % 256) as u8,
        (value / 0x1_0000_0000 % 256) as u8,
        (value / 0x100_0000_0000 % 256) as u8,
        (value / 0x1_0000_0000_0000 % 256) as u8,
        (value / 0x100_0000_0000_0000) as u8,
    ];
    assert(bytes@ =~= u64_to_le(value));
    bytes
}

} // verus!
