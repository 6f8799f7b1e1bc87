//! The writer's side of an append, as a state machine: the caller performs
//! each step on the files and reports how it went.

use vstd::prelude::*;
use vstd::string::StringExecFns;

use crate::channel::publish_tail;
use crate::record::{encode_header, header_image, HEADER_SIZE};
use crate::tail::{tail_file_bytes, tail_file_image};
use crate::LogPosition;

verus! {

#[derive(Debug)]
pub enum Error {
    /// A failure of the file system or of the channel, with its description.
    Io(String),
    /// Log items are limited to 2^32 bytes.
    ItemTooLarge,
}

impl Error {
    /// The text that describes the error.
    pub fn message(&self) -> (text: String)
        ensures
            text@ == match self {
                Error::Io(description) => description@,
                Error::ItemTooLarge => "Item too large"@,
            },
    {
        match self {
            Error::Io(description) => description.clone(),
            Error::ItemTooLarge => String::from_str("Item too large"),
        }
    }
}

/// How far an append has come.
#[derive(Debug, Clone, Copy, PartialEq, Eq, Structural)]
pub enum AppendPhase {
    /// No append is under way.
    Idle,
    /// The placeholder header is being written at the tail.
    Placeholder,
    /// The contents are being streamed in behind the placeholder.
    Contents,
    /// The header is being written over the placeholder.
    Header { len: u32 },
    /// The log file is being flushed.
    LogFlush { len: u32 },
    /// The new tail is being written to the tail file.
    TailWrite { len: u32 },
    /// The tail file is being flushed.
    TailFlush { len: u32 },
}

/// What the caller reports to the writer.
pub enum AppendEvent {
    /// An append is asked for.
    Begin,
    /// The step that was handed out has been performed.
    Completed,
    /// The contents have been streamed in: so many bytes.
    Copied(u64),
    /// The step that was handed out has failed.
    Failed(String),
}

/// What the caller does next.
pub enum AppendStep {
    /// Seek to `offset` in the log file and write `bytes` there.
    WriteLog { offset: LogPosition, bytes: [u8; 6] },
    /// Stream the contents into the log file, where the last write ended.
    CopyContents,
    /// Flush the log file to durable storage.
    FlushLog,
    /// Seek to the start of the tail file and write `copies` there.
    WriteTail { copies: [u8; 24] },
    /// Flush the tail file to durable storage.
    FlushTail,
    /// The append is over: the position of the new record, or the error.
    Done(Result<LogPosition, Error>),
}

/// Why an append ended without a record.
pub enum Fault {
    Io(Seq<char>),
    ItemTooLarge,
}

/// An `AppendStep` with its bytes and texts as sequences.
pub enum Action {
    WriteLog { offset: u64, bytes: Seq<u8> },
    CopyContents,
    FlushLog,
    WriteTail { copies: Seq<u8> },
    FlushTail,
    Done(Result<u64, Fault>),
}

impl View for Error {
    type V = Fault;

    open spec fn view(&self) -> Fault {
        match self {
            Error::Io(description) => Fault::Io(description@),
            Error::ItemTooLarge => Fault::ItemTooLarge,
        }
    }
}

impl View for AppendStep {
    type V = Action;

    open spec fn view(&self) -> Action {
        match self {
            AppendStep::WriteLog { offset, bytes } => Action::WriteLog {
                offset: *offset,
                bytes: bytes@,
            },
            AppendStep::CopyContents => Action::CopyContents,
            AppendStep::FlushLog => Action::FlushLog,
            AppendStep::WriteTail { copies } => Action::WriteTail { copies: copies@ },
            AppendStep::FlushTail => Action::FlushTail,
            AppendStep::Done(Ok(position)) => Action::Done(Ok(*position)),
            AppendStep::Done(Err(error)) => Action::Done(Err(error@)),
        }
    }
}

/// The text of the error for an event that the phase does not expect.
pub open spec fn out_of_order() -> Seq<char> {
    "append: event out of order"@
}

/// Six zero bytes: the header before the length of the contents is known.
pub open spec fn placeholder_image() -> Seq<u8> {
    seq![0u8, 0u8, 0u8, 0u8, 0u8, 0u8]
}

/// The tail once a record with `len` payload bytes stands at `tail`.
pub open spec fn tail_after(tail: u64, len: u32) -> int {
    tail + HEADER_SIZE + len
}

/// Whether the event is the one that the phase waits for.
pub open spec fn expected(phase: AppendPhase, event: AppendEvent) -> bool {
    match phase {
        AppendPhase::Idle => event is Begin,
        AppendPhase::Contents => event is Copied,
        _ => event is Completed,
    }
}

/// The phase that follows `phase` on `event`. An append goes through the
/// phases in their order; a failure, contents of more than 2^32 - 1 bytes
/// and an event out of order each end it.
pub open spec fn next_phase(phase: AppendPhase, event: AppendEvent) -> AppendPhase {
    if !expected(phase, event) {
        AppendPhase::Idle
    } else {
        match phase {
            AppendPhase::Idle => AppendPhase::Placeholder,
            AppendPhase::Placeholder => AppendPhase::Contents,
            AppendPhase::Contents => if event->Copied_0 <= u32::MAX {
                AppendPhase::Header { len: event->Copied_0 as u32 }
            } else {
                AppendPhase::Idle
            },
            AppendPhase::Header { len } => AppendPhase::LogFlush { len },
            AppendPhase::LogFlush { len } => AppendPhase::TailWrite { len },
            AppendPhase::TailWrite { len } => AppendPhase::TailFlush { len },
            AppendPhase::TailFlush { len } => AppendPhase::Idle,
        }
    }
}

/// Whether `event` in `phase` commits the record: the tail file holds the new
/// tail and has been flushed.
pub open spec fn commits(phase: AppendPhase, event: AppendEvent) -> bool {
    phase is TailFlush && event is Completed
}

/// The tail in memory after `event` in `phase`: it moves only when the record
/// is committed.
pub open spec fn next_tail(tail: u64, phase: AppendPhase, event: AppendEvent) -> int {
    if commits(phase, event) {
        tail_after(tail, phase->TailFlush_len)
    } else {
        tail as int
    }
}

/// What the caller is told to do after `event` in `phase`, with the tail at
/// `tail` before the event.
pub open spec fn next_action(tail: u64, phase: AppendPhase, event: AppendEvent) -> Action {
    if !expected(phase, event) {
        Action::Done(
            Err(
                Fault::Io(
                    if event is Failed {
                        event->Failed_0@
                    } else {
                        out_of_order()
                    },
                ),
            ),
        )
    } else {
        match phase {
            AppendPhase::Idle => Action::WriteLog { offset: tail, bytes: placeholder_image() },
            AppendPhase::Placeholder => Action::CopyContents,
            AppendPhase::Contents => if event->Copied_0 <= u32::MAX {
                Action::WriteLog {
                    offset: tail,
                    bytes: header_image(tail, event->Copied_0 as u32),
                }
            } else {
                Action::Done(Err(Fault::ItemTooLarge))
            },
            AppendPhase::Header { len } => Action::FlushLog,
            AppendPhase::LogFlush { len } => Action::WriteTail {
                copies: tail_file_image(tail_after(tail, len) as u64),
            },
            AppendPhase::TailWrite { len } => Action::FlushTail,
            AppendPhase::TailFlush { len } => Action::Done(Ok(tail)),
        }
    }
}

/// Whether a record of the length that the phase carries fits behind `tail`.
pub open spec fn phase_fits(tail: u64, phase: AppendPhase) -> bool {
    match phase {
        AppendPhase::Header { len } => tail_after(tail, len) <= u64::MAX,
        AppendPhase::LogFlush { len } => tail_after(tail, len) <= u64::MAX,
        AppendPhase::TailWrite { len } => tail_after(tail, len) <= u64::MAX,
        AppendPhase::TailFlush { len } => tail_after(tail, len) <= u64::MAX,
        _ => true,
    }
}

pub struct Writer {
    pub(crate) tail_sender: tokio::sync::watch::Sender<LogPosition>,
    pub(crate) tail_pos: u64,
    pub(crate) phase: AppendPhase,
}

impl Writer {
    #[verifier::type_invariant]
    spec fn fits(&self) -> bool {
        phase_fits(self.tail_pos, self.phase)
    }

    /// The tail: where the next record will start.
    pub closed spec fn tail(&self) -> u64 {
        self.tail_pos
    }

    /// How far the append under way has come.
    pub closed spec fn phase(&self) -> AppendPhase {
        self.phase
    }

    /// An idle writer on a log whose tail is at `tail_pos`.
    pub(crate) fn new(
        tail_sender: tokio::sync::watch::Sender<LogPosition>,
        tail_pos: LogPosition,
    ) -> (writer: Writer)
        ensures
            writer.tail() == tail_pos,
            writer.phase() == AppendPhase::Idle,
    {
        Writer { tail_sender, tail_pos, phase: AppendPhase::Idle }
    }

    /// The tail: where the next record will start.
    pub fn tail_position(&self) -> (tail: LogPosition)
        ensures
            tail == self.tail(),
    {
        self.tail_pos
    }

    /// How far the append under way has come.
    pub fn append_phase(&self) -> (phase: AppendPhase)
        ensures
            phase == self.phase(),
    {
        self.phase
    }

    /// Takes the outcome of the last step of an append and hands out the
    /// next one, `Begin` starting an append. The tail in memory moves, and is
    /// published to the readers, only when the last step has been reported
    /// as completed; whatever ends the append earlier leaves it as it was.
    /// Where publishing fails the record stays committed and the append ends
    /// with that error.
    pub fn append(&mut self, event: AppendEvent) -> (step: AppendStep)
        requires
            old(self).phase() is Contents && event is Copied && event->Copied_0 <= u32::MAX
                ==> tail_after(old(self).tail(), event->Copied_0 as u32) <= u64::MAX,
        ensures
            final(self).phase() == next_phase(old(self).phase(), event),
            final(self).tail() == next_tail(old(self).tail(), old(self).phase(), event),
            step@ == next_action(old(self).tail(), old(self).phase(), event) || (commits(
                old(self).phase(),
                event,
            ) && step@ is Done && step@->Done_0 is Err && step@->Done_0->Err_0 is Io),
    {
        proof {
            use_type_invariant(&*self);
        }
        let tail: u64 = self.tail_pos;
        match (self.phase, event) {
            (AppendPhase::Idle, AppendEvent::Begin) => {
                self.phase = AppendPhase::Placeholder;
                let bytes: [u8; 6] = [0u8, 0u8, 0u8, 0u8, 0u8, 0u8];
                assert(bytes@ =~= placeholder_image());
                AppendStep::WriteLog { offset: tail, bytes }
            },
            (AppendPhase::Placeholder, AppendEvent::Completed) => {
                self.phase = AppendPhase::Contents;
                AppendStep::CopyContents
            },
            (AppendPhase::Contents, AppendEvent::Copied(bytes_written)) => {
                if bytes_written > 0xffff_ffff {
                    self.phase = AppendPhase::Idle;
                    AppendStep::Done(Err(Error::ItemTooLarge))
                } else {
                    let len: u32 = bytes_written as u32;
                    self.phase = AppendPhase::Header { len };
                    AppendStep::WriteLog { offset: tail, bytes: encode_header(tail, len) }
                }
            },
            (AppendPhase::Header { len }, AppendEvent::Completed) => {
                self.phase = AppendPhase::LogFlush { len };
                AppendStep::FlushLog
            },
            (AppendPhase::LogFlush { len }, AppendEvent::Completed) => {
                self.phase = AppendPhase::TailWrite { len };
                let new_tail_pos: u64 = tail + HEADER_SIZE + (len as u64);
                AppendStep::WriteTail { copies: tail_file_bytes(new_tail_pos) }
            },
            (AppendPhase::TailWrite { len }, AppendEvent::Completed) => {
                self.phase = AppendPhase::TailFlush { len };
                AppendStep::FlushTail
            },
            (AppendPhase::TailFlush { len }, AppendEvent::Completed) => {
                let new_tail_pos: u64 = tail + HEADER_SIZE + (len as u64);
                self.phase = AppendPhase::Idle;
                self.tail_pos = new_tail_pos;
                match publish_tail(&self.tail_sender, new_tail_pos) {
                    Ok(()) => AppendStep::Done(Ok(tail)),
                    Err(description) => AppendStep::Done(Err(Error::Io(description))),
                }
            },
            (_, AppendEvent::Failed(description)) => {
                self.phase = AppendPhase::Idle;
                AppendStep::Done(Err(Error::Io(description)))
            },
            (_, _) => {
                self.phase = AppendPhase::Idle;
                AppendStep::Done(Err(Error::Io(String::from_str("append: event out of order"))))
            },
        }
    }
}

} // verus!
