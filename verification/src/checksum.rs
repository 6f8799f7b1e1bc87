//! The integrity tag stored in front of every record.

use vstd::prelude::*;

use crate::LogPosition;

verus! {

pub type Checksum = u16;

/// The 16-bit half of `position` that starts at bit `16 * index`.
pub open spec fn position_half(position: u64, index: u64) -> u16 {
    ((position >> (16 * index)) & 0xffff) as u16
}

/// The 16-bit half of `item_size` that starts at bit `16 * index`.
pub open spec fn size_half(item_size: u32, index: u32) -> u16 {
    ((item_size >> (16 * index)) & 0xffff) as u16
}

/// The tag of a record that starts at `position` and carries `item_size`
/// payload bytes: the exclusive or of the four halves of the position and
/// the two halves of the size.
pub open spec fn checksum_of(position: u64, item_size: u32) -> u16 {
    position_half(position, 0) ^ position_half(position, 1) ^ position_half(position, 2)
        ^ position_half(position, 3) ^ size_half(item_size, 0) ^ size_half(item_size, 1)
}

/// The little-endian value of two bytes.
pub open spec fn u16_of_bytes(low: u8, high: u8) -> u16 {
    (low as u16) | ((high as u16) << 8)
}

fn join(low: u8, high: u8) -> (value: u16)
    ensures
        value == u16_of_bytes(low, high),
{
    (low as u16) | ((high as u16) << 8)
}

fn byte_of_position(position: u64, index: u32) -> (byte: u8)
    requires
        index < 8,
    ensures
        byte == ((position >> (8 * index)) & 0xff) as u8,
{
    ((position >> (8 * index)) & 0xff) as u8
}

fn byte_of_size(item_size: u32, index: u32) -> (byte: u8)
    requires
        index < 4,
    ensures
        byte == ((item_size >> (8 * index)) & 0xff) as u8,
{
    ((item_size >> (8 * index)) & 0xff) as u8
}

pub fn calculate(position: LogPosition, item_size: u32) -> (checksum: Checksum)
    ensures
        checksum == checksum_of(position, item_size),
{
    let first: u16 = join(byte_of_position(position, 0), byte_of_position(position, 1));
    let second: u16 = join(byte_of_position(position, 2), byte_of_position(position, 3));
    let third: u16 = join(byte_of_position(position, 4), byte_of_position(position, 5));
    let fourth: u16 = join(byte_of_position(position, 6), byte_of_position(position, 7));
    let low: u16 = join(byte_of_size(item_size, 0), byte_of_size(item_size, 1));
    let high: u16 = join(byte_of_size(item_size, 2), byte_of_size(item_size, 3));
    assert(first == position_half(position, 0) && second == position_half(position, 1) && third
        == position_half(position, 2) && fourth == position_half(position, 3)) by (bit_vector)
        requires
            first == (((position >> 0u64) & 0xff) as u8 as u16) | ((((position >> 8u64) & 0xff) as u8 as u16) << 8),
            second == (((position >> 16u64) & 0xff) as u8 as u16) | ((((position >> 24u64) & 0xff) as u8 as u16) << 8),
            third == (((position >> 32u64) & 0xff) as u8 as u16) | ((((position >> 40u64) & 0xff) as u8 as u16) << 8),
            fourth == (((position >> 48u64) & 0xff) as u8 as u16) | ((((position >> 56u64) & 0xff) as u8 as u16) << 8),
    ;
    assert(low == size_half(item_size, 0) && high == size_half(item_size, 1)) by (bit_vector)
        requires
            low == (((item_size >> 0u32) & 0xff) as u8 as u16) | ((((item_size >> 8u32) & 0xff) as u8 as u16) << 8),
            high == (((item_size >> 16u32) & 0xff) as u8 as u16) | ((((item_size >> 24u32) & 0xff) as u8 as u16) << 8),
    ;
    first ^ second ^ third ^ fourth ^ low ^ high
}

} // verus!
