//! The frame of a record: a checksum of two bytes and a payload length of
//! four, both little-endian, in front of the payload.

use vstd::prelude::*;

use crate::checksum::{calculate, checksum_of};
use crate::endian::{
    lemma_le_round_trip, read_u16_le, read_u32_le, u16_from_le, u16_le_bytes, u16_to_le,
    u32_from_le, u32_le_bytes, u32_to_le,
};
use crate::LogPosition;

verus! {

/// The number of bytes in front of a record's payload.
pub const HEADER_SIZE: u64 = 6;

/// The header of the record that starts at `position` and carries `len`
/// payload bytes.
pub open spec fn header_image(position: u64, len: u32) -> Seq<u8> {
    u16_to_le(checksum_of(position, len)) + u32_to_le(len)
}

/// The checksum that six header bytes claim.
pub open spec fn header_checksum(header: Seq<u8>) -> u16 {
    u16_from_le(header.subrange(0, 2)) as u16
}

/// The payload length that six header bytes claim.
pub open spec fn header_len(header: Seq<u8>) -> u32 {
    u32_from_le(header.subrange(2, 6)) as u32
}

/// Whether six bytes found at `position` are the header of a record there:
/// their checksum is the one of the position and of the length they claim.
pub open spec fn header_valid(position: u64, header: Seq<u8>) -> bool {
    header_checksum(header) == checksum_of(position, header_len(header))
}

/// The whole record: header, then payload.
pub open spec fn record_image(position: u64, payload: Seq<u8>) -> Seq<u8> {
    header_image(position, payload.len() as u32) + payload
}

/// The header that the writer patches in once the payload length is known.
pub fn encode_header(position: LogPosition, len: u32) -> (header: [u8; 6])
    ensures
        header@ == header_image(position, len),
{
    let sum: [u8; 2] = u16_le_bytes(calculate(position, len));
    let size: [u8; 4] = u32_le_bytes(len);
    let header: [u8; 6] = [sum[0], sum[1], size[0], size[1], size[2], size[3]];
    assert(header@ =~= header_image(position, len));
    header
}

/// The payload length in a header read at `position`, if its checksum fits.
pub fn decode_header(position: LogPosition, header: &[u8; 6]) -> (len: Option<u32>)
    ensures
        len is Some <==> header_valid(position, header@),
        len is Some ==> len->0 == header_len(header@),
{
    let checksum: u16 = read_u16_le(header.as_slice(), 0);
    let len: u32 = read_u32_le(header.as_slice(), 2);
    if calculate(position, len) == checksum {
        Some(len)
    } else {
        None
    }
}

/// A header written for a position is valid there and yields its length.
pub proof fn lemma_header_round_trip(position: u64, len: u32)
    ensures
        header_image(position, len).len() == 6,
        header_valid(position, header_image(position, len)),
        header_len(header_image(position, len)) == len,
{
    let header = header_image(position, len);
    lemma_le_round_trip(checksum_of(position, len), len, 0);
    assert(header.subrange(0, 2) =~= u16_to_le(checksum_of(position, len)));
    assert(header.subrange(2, 6) =~= u32_to_le(len));
}

} // verus!
