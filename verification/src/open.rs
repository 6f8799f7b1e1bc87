//! What opening a log decides, once the two files have been looked at.

use vstd::prelude::*;

use crate::tail::{parse_tail_position, recovered_tail, tail_file_bytes, tail_file_image};
use crate::{LogPosition, OpenError};

verus! {

/// What the tail file says, and what has to be written to it before use.
pub struct TailFile {
    /// The tail position that the file stands for.
    pub position: LogPosition,
    /// For a file that was just created: the 24 bytes to write to it.
    pub initial: Option<[u8; 24]>,
}

/// The tail that a tail file with these contents stands for: 0 for an empty
/// file, the recoverable tail of a file of 24 bytes, none for any other.
pub open spec fn tail_of_contents(contents: Seq<u8>) -> Option<u64> {
    if contents.len() == 0 {
        Some(0)
    } else if contents.len() == 24 {
        recovered_tail(contents)
    } else {
        None
    }
}

/// Reads the tail file's contents. `exclusive` says whether the lock on the
/// file was obtained: without it another writer has the log.
pub fn open_tail_file(exclusive: bool, contents: &[u8]) -> (opened: Result<TailFile, OpenError>)
    ensures
        match opened {
            Ok(tail) => {
                &&& exclusive
                &&& tail_of_contents(contents@) == Some(tail.position)
                &&& tail.initial is Some <==> contents@.len() == 0
                &&& tail.initial is Some ==> tail.initial->0@ == tail_file_image(0)
            },
            Err(OpenError::AlreadyOpen) => !exclusive,
            Err(OpenError::CorruptTailPosition) => exclusive && tail_of_contents(contents@) is None,
            Err(_) => false,
        },
{
    if !exclusive {
        return Err(OpenError::AlreadyOpen);
    }
    if contents.len() == 0 {
        Ok(TailFile { position: 0, initial: Some(tail_file_bytes(0)) })
    } else if contents.len() == 24 {
        let mut bytes: [u8; 24] = [0u8; 24];
        let mut i: usize = 0;
        while i < 24
            invariant
                i <= 24,
                contents@.len() == 24,
                forall|k: int| 0 <= k < i ==> bytes@[k] == contents@[k],
            decreases 24 - i,
        {
            bytes[i] = contents[i];
            i += 1;
        }
        assert(bytes@ =~= contents@);
        match parse_tail_position(bytes) {
            Some(position) => Ok(TailFile { position, initial: None }),
            None => Err(OpenError::CorruptTailPosition),
        }
    } else {
        Err(OpenError::CorruptTailPosition)
    }
}

/// Whether a log file of `log_len` bytes ends in a partial write: in bytes
/// behind the tail.
pub open spec fn partial_write(log_len: u64, tail: u64) -> bool {
    log_len > tail
}

/// Holds the length of the log file against the tail. A shorter file cannot
/// hold what the tail claims. A longer one ends in what a writer left behind
/// when it was cut short: the result is `true`, and those bytes are ignored.
pub fn open_log_file(actual_tail_pos: LogPosition, expected_tail_pos: LogPosition) -> (recovered:
    Result<bool, OpenError>)
    ensures
        match recovered {
            Ok(partial) => actual_tail_pos >= expected_tail_pos && partial == partial_write(
                actual_tail_pos,
                expected_tail_pos,
            ),
            Err(OpenError::LogTooSmall) => actual_tail_pos < expected_tail_pos,
            Err(_) => false,
        },
{
    if actual_tail_pos < expected_tail_pos {
        return Err(OpenError::LogTooSmall);
    }
    Ok(actual_tail_pos > expected_tail_pos)
}

} // verus!
