//! What a request to read asks for, and how the records are framed in the
//! answer.

use vstd::prelude::*;
use vstd::string::StringSliceAdditionalSpecFns;

use crate::endian::{u32_to_be, u64_to_be};
use crate::query::{Pair, ParsedQuery};
use crate::reader::{LogItem, Reader};
use crate::record::HEADER_SIZE;
use crate::text::{decimal, parse_decimal, same_text};
use crate::LogPosition;

verus! {

#[derive(Debug, Clone, Copy, PartialEq, Eq)]
pub struct ReadOptions {
    pub from: Option<LogPosition>,
    pub end_before: Option<LogPosition>,
    pub end_after: Option<LogPosition>,
    pub max_items: Option<usize>,
    pub wait_for_more: bool,
}

/// The options of a request that asks for nothing in particular.
pub open spec fn no_options() -> ReadOptions {
    ReadOptions {
        from: None,
        end_before: None,
        end_after: None,
        max_items: None,
        wait_for_more: false,
    }
}

/// What `true` or `false` says; any other text says nothing.
pub open spec fn truth(text: Seq<u8>) -> Option<bool> {
    if text == "true".spec_bytes() {
        Some(true)
    } else if text == "false".spec_bytes() {
        Some(false)
    } else {
        None
    }
}

/// The options with one more pair taken in: none if the key is not known or
/// the value is not what the key asks for.
pub open spec fn with_pair(options: ReadOptions, key: Seq<u8>, value: Seq<u8>) -> Option<
    ReadOptions,
> {
    if key == "from".spec_bytes() {
        match decimal(value, u64::MAX as nat) {
            Some(position) => Some(ReadOptions { from: Some(position as u64), ..options }),
            None => None,
        }
    } else if key == "end_before".spec_bytes() {
        match decimal(value, u64::MAX as nat) {
            Some(position) => Some(ReadOptions { end_before: Some(position as u64), ..options }),
            None => None,
        }
    } else if key == "end_after".spec_bytes() {
        match decimal(value, u64::MAX as nat) {
            Some(position) => Some(ReadOptions { end_after: Some(position as u64), ..options }),
            None => None,
        }
    } else if key == "max_items".spec_bytes() {
        match decimal(value, usize::MAX as nat) {
            Some(count) => Some(ReadOptions { max_items: Some(count as usize), ..options }),
            None => None,
        }
    } else if key == "wait_for_more".spec_bytes() {
        match truth(value) {
            Some(wait) => Some(ReadOptions { wait_for_more: wait, ..options }),
            None => None,
        }
    } else {
        None
    }
}

/// The options with all the pairs taken in, one after the other.
pub open spec fn options_from(options: ReadOptions, pairs: Seq<Pair>) -> Option<ReadOptions>
    decreases pairs.len(),
{
    if pairs.len() == 0 {
        Some(options)
    } else {
        match with_pair(options, pairs[0].0, pairs[0].1) {
            Some(next) => options_from(next, pairs.drop_first()),
            None => None,
        }
    }
}

/// Whether a reader with these options is done before it reads at
/// `position`: no items are wanted, or the position is the one to end
/// before, or it lies behind the one to end after.
pub open spec fn ends(options: ReadOptions, position: u64) -> bool {
    ||| options.max_items == Some(0usize)
    ||| options.end_before == Some(position)
    ||| (options.end_after is Some && options.end_after->0 < position)
}

fn parse_truth(text: &str) -> (value: Option<bool>)
    ensures
        value == truth(text.spec_bytes()),
{
    if same_text(text, "true") {
        Some(true)
    } else if same_text(text, "false") {
        Some(false)
    } else {
        None
    }
}

impl ReadOptions {
    fn take(self, k: &str, v: &str) -> (taken: Option<ReadOptions>)
        ensures
            taken == with_pair(self, k.spec_bytes(), v.spec_bytes()),
    {
        let mut options = self;
        if same_text(k, "from") {
            match parse_decimal(v, u64::MAX) {
                Some(position) => {
                    options.from = Some(position);
                },
                None => {
                    return None;
                },
            }
        } else if same_text(k, "end_before") {
            match parse_decimal(v, u64::MAX) {
                Some(position) => {
                    options.end_before = Some(position);
                },
                None => {
                    return None;
                },
            }
        } else if same_text(k, "end_after") {
            match parse_decimal(v, u64::MAX) {
                Some(position) => {
                    options.end_after = Some(position);
                },
                None => {
                    return None;
                },
            }
        } else if same_text(k, "max_items") {
            match parse_decimal(v, usize::MAX as u64) {
                Some(count) => {
                    options.max_items = Some(count as usize);
                },
                None => {
                    return None;
                },
            }
        } else if same_text(k, "wait_for_more") {
            match parse_truth(v) {
                Some(wait) => {
                    options.wait_for_more = wait;
                },
                None => {
                    return None;
                },
            }
        } else {
            return None;
        }
        Some(options)
    }

    pub fn from_query(query: ParsedQuery) -> (result: Option<ReadOptions>)
        ensures
            result == options_from(no_options(), query@),
    {
        let mut options = ReadOptions {
            from: None,
            end_before: None,
            end_after: None,
            max_items: None,
            wait_for_more: false,
        };
        let n: usize = query.len();
        let mut i: usize = 0;
        assert(query@.subrange(0, n as int) =~= query@);
        while i < n
            invariant
                i <= n,
                n == query@.len(),
                options_from(no_options(), query@) == options_from(
                    options,
                    query@.subrange(i as int, n as int),
                ),
            decreases n - i,
        {
            let (k, v) = query.pair(i);
            let ghost left = query@.subrange(i as int, n as int);
            assert(left[0] == query@[i as int]);
            assert(left.drop_first() =~= query@.subrange(i + 1, n as int));
            match options.take(k, v) {
                Some(next) => {
                    options = next;
                },
                None => {
                    return None;
                },
            }
            i += 1;
        }
        Some(options)
    }

    /// Whether the stream of items ends before a reader at `position` reads
    /// on.
    pub fn ends_at(&self, position: LogPosition) -> (end: bool)
        ensures
            end == ends(*self, position),
    {
        let none_wanted: bool = match self.max_items {
            Some(count) => count == 0,
            None => false,
        };
        let end_before: bool = match self.end_before {
            Some(pos) => pos == position,
            None => false,
        };
        let end_after: bool = match self.end_after {
            Some(pos) => pos < position,
            None => false,
        };
        none_wanted || end_before || end_after
    }
}

/// A stream of items between two of them, or within one.
pub enum ReaderStream {
    Between(ReadOptions, Reader),
    Reading(ReadOptions, LogItem),
}

/// Calls `bytes::BufMut::put_u64` on a `Vec<u8>`: the eight bytes of the
/// number are appended, most significant first.
#[verifier::external_body]
fn put_u64(buf: &mut Vec<u8>, n: u64)
    requires
        old(buf)@.len() + 8 <= isize::MAX,
    ensures
        final(buf)@ == old(buf)@ + u64_to_be(n),
{
    bytes::BufMut::put_u64(buf, n)
}

/// Calls `bytes::BufMut::put_u32` on a `Vec<u8>`: the four bytes of the
/// number are appended, most significant first.
#[verifier::external_body]
fn put_u32(buf: &mut Vec<u8>, n: u32)
    requires
        old(buf)@.len() + 4 <= isize::MAX,
    ensures
        final(buf)@ == old(buf)@ + u32_to_be(n),
{
    bytes::BufMut::put_u32(buf, n)
}

/// What stands in front of the payload of an item in the answer: its
/// position in eight bytes and its length in four, most significant first.
pub open spec fn item_frame(position: u64, len: u32) -> Seq<u8> {
    u64_to_be(position) + u32_to_be(len)
}

/// The buffer that the next piece of the item's payload is read into. For
/// the first piece of an item it starts with the item's frame.
pub fn chunk_buffer(start_new_item: bool, log_item: &LogItem) -> (buf: Vec<u8>)
    ensures
        buf@ == if start_new_item {
            item_frame(log_item.start(), log_item.size())
        } else {
            Seq::<u8>::empty()
        },
{
    let mut buf: Vec<u8> = Vec::new();
    if start_new_item {
        put_u64(&mut buf, log_item.position());
        put_u32(&mut buf, log_item.len());
    }
    buf
}

/// Where the stream stands after a piece of the item's payload was read:
/// between two items, the reader behind the item, once the payload is
/// exhausted; within the item until then.
pub fn after_chunk(options: ReadOptions, log_item: LogItem) -> (stream: ReaderStream)
    ensures
        match stream {
            ReaderStream::Between(kept, reader) => {
                &&& kept == options
                &&& log_item.consumed() == log_item.size()
                &&& reader.cursor() == log_item.start() + HEADER_SIZE + log_item.size()
            },
            ReaderStream::Reading(kept, item) => {
                &&& kept == options
                &&& item == log_item
                &&& log_item.consumed() < log_item.size()
            },
        },
{
    if log_item.left_to_read() == 0 {
        ReaderStream::Between(options, log_item.finish())
    } else {
        ReaderStream::Reading(options, log_item)
    }
}

} // verus!
