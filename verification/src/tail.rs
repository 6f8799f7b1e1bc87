//! The tail pointer file: three copies of the tail position, written in
//! order, so that a write torn between two copies still leaves the last
//! committed tail readable.

use vstd::prelude::*;

use crate::endian::{read_u64_le, u64_from_le, u64_le_bytes, u64_to_le, lemma_le_round_trip};
use crate::LogPosition;

verus! {

pub const U64SIZE: usize = 8;

/// The length of the tail pointer file.
pub const TAIL_FILE_SIZE: usize = 24;

/// The copy of the tail position in slot `slot` (0, 1 or 2) of the file.
pub open spec fn tail_slot(bytes: Seq<u8>, slot: int) -> int {
    u64_from_le(bytes.subrange(8 * slot, 8 * slot + 8))
}

/// The tail that a tail file of 24 bytes stands for: the first copy if the
/// second agrees with it, else the second if the third agrees with it.
pub open spec fn recovered_tail(bytes: Seq<u8>) -> Option<u64> {
    if tail_slot(bytes, 0) == tail_slot(bytes, 1) {
        Some(tail_slot(bytes, 0) as u64)
    } else if tail_slot(bytes, 1) == tail_slot(bytes, 2) {
        Some(tail_slot(bytes, 1) as u64)
    } else {
        None
    }
}

/// The contents of the tail file after `position` was written to it in full.
pub open spec fn tail_file_image(position: u64) -> Seq<u8> {
    u64_to_le(position) + u64_to_le(position) + u64_to_le(position)
}

/// This should be enough to check for corruption, if writes are in order
pub fn parse_tail_position(bytes: [u8; 24]) -> (position: Option<u64>)
    ensures
        position == recovered_tail(bytes@),
{
    let first: u64 = read_u64_le(bytes.as_slice(), 0);
    let second: u64 = read_u64_le(bytes.as_slice(), 8);
    let third: u64 = read_u64_le(bytes.as_slice(), 16);

    if first == second {
        Some(first)
    } else if second == third {
        Some(second)
    } else {
        None
    }
}

/// The 24 bytes that an update of the tail file writes at offset 0.
pub fn tail_file_bytes(position: LogPosition) -> (bytes: [u8; 24])
    ensures
        bytes@ == tail_file_image(position),
{
    let copy: [u8; 8] = u64_le_bytes(position);
    let bytes: [u8; 24] = [
        copy[0], copy[1], copy[2], copy[3], copy[4], copy[5], copy[6], copy[7],
        copy[0], copy[1], copy[2], copy[3], copy[4], copy[5], copy[6], copy[7],
        copy[0], copy[1], copy[2], copy[3], copy[4], copy[5], copy[6], copy[7],
    ];
    assert(bytes@ =~= tail_file_image(position));
    bytes
}

/// The tail file while `next` is being written over `previous`, after the
/// first `slots` copies have reached the disk.
pub open spec fn tail_file_during_update(previous: u64, next: u64, slots: int) -> Seq<u8> {
    tail_file_image(next).subrange(0, 8 * slots) + tail_file_image(previous).subrange(
        8 * slots,
        24,
    )
}

/// The three copies of a tail file that was written in full hold the
/// position, and the file stands for it.
pub proof fn lemma_tail_round_trip(position: u64)
    ensures
        tail_file_image(position).len() == 24,
        tail_slot(tail_file_image(position), 0) == position,
        tail_slot(tail_file_image(position), 1) == position,
        tail_slot(tail_file_image(position), 2) == position,
        recovered_tail(tail_file_image(position)) == Some(position),
{
    let image = tail_file_image(position);
    lemma_le_round_trip(0, 0, position);
    assert(image.subrange(0, 8) =~= u64_to_le(position));
    assert(image.subrange(8, 16) =~= u64_to_le(position));
    assert(image.subrange(16, 24) =~= u64_to_le(position));
}

/// An update that is torn between two copies loses nothing: the file stands
/// for the previous tail until the second copy is written, and for the next
/// tail from then on.
pub proof fn lemma_torn_update_recovers(previous: u64, next: u64, slots: int)
    requires
        0 <= slots <= 3,
    ensures
        tail_file_during_update(previous, next, slots).len() == 24,
        recovered_tail(tail_file_during_update(previous, next, slots)) == Some(
            if slots >= 2 {
                next
            } else {
                previous
            },
        ),
{
    let file = tail_file_during_update(previous, next, slots);
    lemma_tail_round_trip(previous);
    lemma_tail_round_trip(next);
    let old_image = tail_file_image(previous);
    let new_image = tail_file_image(next);
    assert(file.subrange(0, 8) =~= if slots >= 1 {
        new_image.subrange(0, 8)
    } else {
        old_image.subrange(0, 8)
    });
    assert(file.subrange(8, 16) =~= if slots >= 2 {
        new_image.subrange(8, 16)
    } else {
        old_image.subrange(8, 16)
    });
    assert(file.subrange(16, 24) =~= if slots >= 3 {
        new_image.subrange(16, 24)
    } else {
        old_image.subrange(16, 24)
    });
}

/// A tail file whose second copy agrees with neither neighbour stands for
/// no tail; in particular one whose three copies are pairwise distinct.
pub proof fn lemma_distinct_copies_are_corrupt(bytes: Seq<u8>)
    requires
        tail_slot(bytes, 0) != tail_slot(bytes, 1),
        tail_slot(bytes, 1) != tail_slot(bytes, 2),
    ensures
        recovered_tail(bytes) is None,
{
}

} // verus!
