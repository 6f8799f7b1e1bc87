//! The reader's side: a cursor that walks the records one by one, handing
//! itself over to each record while its payload is read.

use vstd::prelude::*;
use vstd::string::StringExecFns;

use crate::channel::{another_receiver, latest_tail};
use crate::record::{decode_header, header_len, header_valid, HEADER_SIZE};
use crate::LogPosition;

verus! {

#[derive(Debug)]
pub enum Error {
    /// A failure of the file system, with its description.
    Io(String),
    /// Indicates that a read position was not aligned to an item, or the log is corrupt.
    InvalidItemChecksum,
}

impl Error {
    /// The text that describes the error.
    pub fn message(&self) -> (text: String)
        ensures
            text@ == match self {
                Error::Io(description) => description@,
                Error::InvalidItemChecksum => "Item checksum failed"@,
            },
    {
        match self {
            Error::Io(description) => description.clone(),
            Error::InvalidItemChecksum => String::from_str("Item checksum failed"),
        }
    }
}

pub struct ReaderFactory {
    pub(crate) tail_recv: tokio::sync::watch::Receiver<LogPosition>,
}

pub(crate) struct ReaderState {
    pub(crate) tail_recv: tokio::sync::watch::Receiver<LogPosition>,
    pub(crate) pos: LogPosition,
}

pub struct Reader {
    pub(crate) state: ReaderState,
}

pub struct LogItem {
    start_pos: LogPosition,
    len: u32,
    read: usize,
    reader_state: ReaderState,
}

pub enum NextItem {
    Item(LogItem),
    End(Reader),
}

/// What a reader that was asked for its next record does first.
pub enum NextStep {
    /// A record starts at the cursor: seek to `position()` in the log file,
    /// read six bytes and hand them to `read_item`.
    ReadHeader(Reader),
    /// The reader has caught up and was told to wait: suspend until the
    /// channel tells of a newer tail or of its end, then call `after_wait`.
    Wait(Reader),
    /// The reader has caught up, or the writer is gone: no further record.
    End(Reader),
}

/// What `next` does with the cursor at `pos`, the tail last published at
/// `log_tail`, and the caller's wish to wait for more.
pub enum Plan {
    ReadHeader,
    Wait,
    End,
}

/// A record is read if the cursor is before the tail; otherwise the reader
/// waits if it was told to, and ends if not.
pub open spec fn plan(pos: u64, log_tail: u64, wait_for_more: bool) -> Plan {
    if pos < log_tail {
        Plan::ReadHeader
    } else if wait_for_more {
        Plan::Wait
    } else {
        Plan::End
    }
}

impl NextStep {
    /// The reader that the step carries.
    pub open spec fn reader(&self) -> Reader {
        match self {
            NextStep::ReadHeader(reader) => *reader,
            NextStep::Wait(reader) => *reader,
            NextStep::End(reader) => *reader,
        }
    }

    /// The step without the reader.
    pub open spec fn plan(&self) -> Plan {
        match self {
            NextStep::ReadHeader(_) => Plan::ReadHeader,
            NextStep::Wait(_) => Plan::Wait,
            NextStep::End(_) => Plan::End,
        }
    }
}

impl ReaderFactory {
    /// A reader with its cursor at `position`, which is not looked at: one
    /// that is no record boundary shows at the first record read.
    pub fn read_from(&self, position: LogPosition) -> (reader: Reader)
        ensures
            reader.cursor() == position,
    {
        let tail_recv = another_receiver(&self.tail_recv);
        Reader { state: ReaderState { tail_recv, pos: position } }
    }

    /// One more receiving end of the tail-change channel, to wait on.
    pub fn tail_receiver(&self) -> (receiver: tokio::sync::watch::Receiver<LogPosition>)
        ensures
            receiver == self.channel(),
    {
        another_receiver(&self.tail_recv)
    }

    /// The factory's own receiving end of the tail-change channel, which the
    /// writer of the same log publishes to.
    pub closed spec fn channel(&self) -> tokio::sync::watch::Receiver<LogPosition> {
        self.tail_recv
    }
}

impl Reader {
    /// Where the next record starts, or the tail if the reader has caught up.
    pub closed spec fn cursor(&self) -> u64 {
        self.state.pos
    }

    pub fn position(&self) -> (pos: LogPosition)
        ensures
            pos == self.cursor(),
    {
        self.state.pos
    }

    /// Decides the next step from the tail that was published last. The
    /// cursor does not move.
    pub fn next(self, wait_for_more: bool) -> (step: NextStep)
        ensures
            step.reader().cursor() == self.cursor(),
            exists|log_tail: u64| step.plan() == plan(self.cursor(), log_tail, wait_for_more),
    {
        let log_tail: LogPosition = latest_tail(&self.state.tail_recv);
        self.next_at(log_tail, wait_for_more)
    }

    /// Decides the next step with the tail at `log_tail`. The cursor does not
    /// move.
    pub fn next_at(self, log_tail: LogPosition, wait_for_more: bool) -> (step: NextStep)
        ensures
            step.reader().cursor() == self.cursor(),
            step.plan() == plan(self.cursor(), log_tail, wait_for_more),
    {
        if self.state.pos < log_tail {
            NextStep::ReadHeader(self)
        } else if wait_for_more {
            NextStep::Wait(self)
        } else {
            NextStep::End(self)
        }
    }

    /// Goes on after a wait on the channel. If the channel has ended because
    /// the writer is gone, there is no further record; otherwise the tail
    /// has moved and the decision is taken anew.
    pub fn after_wait(self, writer_gone: bool, wait_for_more: bool) -> (step: NextStep)
        ensures
            step.reader().cursor() == self.cursor(),
            writer_gone ==> step.plan() == Plan::End,
            !writer_gone ==> exists|log_tail: u64|
                step.plan() == plan(self.cursor(), log_tail, wait_for_more),
    {
        if writer_gone {
            NextStep::End(self)
        } else {
            self.next(wait_for_more)
        }
    }

    /// Turns the six bytes read at the cursor into the record that starts
    /// there. The record takes the reader along, its cursor behind the record.
    pub fn read_item(self, header: &[u8; 6]) -> (item: Result<LogItem, Error>)
        requires
            self.cursor() + HEADER_SIZE + u32::MAX <= u64::MAX,
        ensures
            match item {
                Ok(item) => {
                    &&& header_valid(self.cursor(), header@)
                    &&& item.start() == self.cursor()
                    &&& item.size() == header_len(header@)
                    &&& item.consumed() == 0
                },
                Err(Error::InvalidItemChecksum) => !header_valid(self.cursor(), header@),
                Err(_) => false,
            },
    {
        let Reader { state } = self;
        let len: u32 = match read_log_item_size(header, state.pos) {
            Ok(len) => len,
            Err(error) => {
                return Err(error);
            },
        };

        let next_pos: u64 = state.pos + 2 + 4 + (len as u64);

        Ok(
            LogItem {
                start_pos: state.pos,
                read: 0,
                len,
                reader_state: ReaderState { pos: next_pos, tail_recv: state.tail_recv },
            },
        )
    }
}

/// The payload length that the header found at `position` gives, once its
/// checksum has been held against the position and that length.
pub fn read_log_item_size(header: &[u8; 6], position: LogPosition) -> (size: Result<u32, Error>)
    ensures
        match size {
            Ok(len) => header_valid(position, header@) && len == header_len(header@),
            Err(Error::InvalidItemChecksum) => !header_valid(position, header@),
            Err(_) => false,
        },
{
    match decode_header(position, header) {
        Some(len) => Ok(len),
        None => Err(Error::InvalidItemChecksum),
    }
}

impl LogItem {
    #[verifier::type_invariant]
    spec fn well_formed(&self) -> bool {
        &&& self.read <= self.len
        &&& self.reader_state.pos == self.start_pos + HEADER_SIZE + self.len
    }

    /// Where the record starts: the position of its header.
    pub closed spec fn start(&self) -> u64 {
        self.start_pos
    }

    /// The length of the payload.
    pub closed spec fn size(&self) -> u32 {
        self.len
    }

    /// How many payload bytes have been handed out.
    pub closed spec fn consumed(&self) -> nat {
        self.read as nat
    }

    pub fn position(&self) -> (pos: LogPosition)
        ensures
            pos == self.start(),
    {
        self.start_pos
    }

    /// Returns the length of the contents in bytes.
    pub fn len(&self) -> (len: u32)
        ensures
            len == self.size(),
    {
        self.len
    }

    pub fn left_to_read(&self) -> (left: usize)
        ensures
            left == self.size() - self.consumed(),
    {
        proof {
            use_type_invariant(self);
        }
        self.len as usize - self.read
    }

    pub fn is_empty(&self) -> (empty: bool)
        ensures
            empty == (self.size() == 0),
    {
        self.len() == 0
    }

    /// Takes note that `count` more payload bytes were handed out. A read
    /// of the file behind the record may advance by `left_to_read()` bytes at
    /// most, so the payload never yields more than its length.
    pub fn advance(&mut self, count: usize)
        requires
            count <= old(self).size() - old(self).consumed(),
        ensures
            final(self).start() == old(self).start(),
            final(self).size() == old(self).size(),
            final(self).consumed() == old(self).consumed() + count,
    {
        proof {
            use_type_invariant(&*self);
        }
        self.read += count;
    }

    /// Finish with the log item so we can recover the reader to fetch the next.
    /// Its cursor is behind the whole record, however much of the payload
    /// was read.
    pub fn finish(self) -> (reader: Reader)
        ensures
            reader.cursor() == self.start() + HEADER_SIZE + self.size(),
    {
        proof {
            use_type_invariant(&self);
        }
        Reader { state: self.reader_state }
    }
}

impl NextItem {
    pub fn unwrap(self) -> (item: LogItem)
        requires
            self is Item,
        ensures
            item == self->Item_0,
    {
        match self {
            NextItem::Item(item) => item,
            NextItem::End(_) => unreached(),
        }
    }

    pub fn is_end(&self) -> (end: bool)
        ensures
            end == (self is End),
    {
        match self {
            NextItem::Item(_) => false,
            NextItem::End(_) => true,
        }
    }
}

} // verus!
