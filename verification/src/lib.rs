//! The core of an append-only, durable log: record framing, the redundant
//! tail pointer, and the writer and reader as state machines that leave the
//! files to their caller. The laws of the log are stated and proved over a
//! model of the two files. Beside it stands what a server of named logs
//! decides before it touches a log: topic names, routes, read options.

use vstd::prelude::*;
use vstd::string::StringExecFns;

pub mod appendqueue;
pub mod bodyreader;
pub mod channel;
pub mod checksum;
pub mod config;
pub mod endian;
pub mod error;
pub mod model;
pub mod open;
pub mod query;
pub mod read;
pub mod reader;
pub mod record;
pub mod recovery;
pub mod route;
pub mod scan;
pub mod tail;
pub mod text;
pub mod topicname;
pub mod writer;

use channel::tail_channel;
use open::{open_log_file, partial_write, TailFile};
use reader::ReaderFactory;
use writer::{AppendPhase, Writer};

verus! {

/// A byte offset into the log file. Offset 0 is the first record.
pub type LogPosition = u64;

#[derive(Debug)]
pub enum OpenError {
    /// A failure of the file system, with its description.
    Io(String),
    CorruptTailPosition,
    /// Indicates a corrupt or mismatched logfile relative to the tail position file.
    LogTooSmall,
    /// Another writer holds the log.
    AlreadyOpen,
}

impl OpenError {
    /// The text that describes the error.
    pub fn message(&self) -> (text: String)
        ensures
            text@ == match self {
                OpenError::Io(description) => description@,
                OpenError::CorruptTailPosition => "Corrupt tail position"@,
                OpenError::LogTooSmall => "Log file was smalled than expected"@,
                OpenError::AlreadyOpen => "Log is already open"@,
            },
    {
        match self {
            OpenError::Io(description) => description.clone(),
            OpenError::CorruptTailPosition => String::from_str("Corrupt tail position"),
            OpenError::LogTooSmall => String::from_str("Log file was smalled than expected"),
            OpenError::AlreadyOpen => String::from_str("Log is already open"),
        }
    }
}

pub struct OpenedLog {
    pub writer: Writer,
    pub reader_factory: ReaderFactory,
    /// Indicates that there was a partial write before the database crashed or was terminated
    /// without the chance to shutdown. This partial item will be discarded.
    pub recovered: bool,
}

/// Opens the log whose tail file was read as `tail` and whose log file is
/// `log_len` bytes long: the writer starts at the tail, idle, and shares the
/// tail-change channel with the reader factory.
pub fn open_log(tail: TailFile, log_len: u64) -> (opened: Result<OpenedLog, OpenError>)
    ensures
        match opened {
            Ok(log) => {
                &&& log_len >= tail.position
                &&& log.writer.tail() == tail.position
                &&& log.writer.phase() == AppendPhase::Idle
                &&& log.recovered == partial_write(log_len, tail.position)
            },
            Err(OpenError::LogTooSmall) => log_len < tail.position,
            Err(_) => false,
        },
{
    let tail_pos: LogPosition = tail.position;
    let recovered: bool = match open_log_file(log_len, tail_pos) {
        Ok(recovered) => recovered,
        Err(error) => {
            return Err(error);
        },
    };

    let (tail_sender, tail_recv) = tail_channel(tail_pos);

    Ok(
        OpenedLog {
            writer: Writer::new(tail_sender, tail_pos),
            reader_factory: ReaderFactory { tail_recv },
            recovered,
        },
    )
}

} // verus!
