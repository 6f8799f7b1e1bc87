//! The body of a request as a source of bytes: a chunk that does not fit
//! the reader's buffer is cut, and what is left over comes first next time.

use vstd::prelude::*;

verus! {

/// `bytes::Bytes`, a chunk of a body. What it holds goes by the name
/// `contents`.
#[verifier::external_type_specification]
#[verifier::external_body]
pub struct ExBytes(bytes::Bytes);

/// The bytes that a `bytes::Bytes` holds.
pub uninterp spec fn contents(chunk: bytes::Bytes) -> Seq<u8>;

/// Calls `bytes::Bytes::len`: the number of bytes held.
#[verifier::external_body]
fn chunk_len(chunk: &bytes::Bytes) -> (len: usize)
    ensures
        len == contents(*chunk).len(),
{
    chunk.len()
}

/// Calls `bytes::Bytes::split_off`: the chunk keeps the bytes in front of
/// `at`, those from `at` on are returned. It panics where `at` is beyond the
/// length.
#[verifier::external_body]
fn chunk_split_off(chunk: &mut bytes::Bytes, at: usize) -> (back: bytes::Bytes)
    requires
        at <= contents(*old(chunk)).len(),
    ensures
        contents(*final(chunk)) == contents(*old(chunk)).subrange(0, at as int),
        contents(back) == contents(*old(chunk)).subrange(
            at as int,
            contents(*old(chunk)).len() as int,
        ),
{
    chunk.split_off(at)
}

/// Calls `bytes::Bytes::new`: a chunk that holds no bytes.
#[verifier::external_body]
fn empty_chunk() -> (chunk: bytes::Bytes)
    ensures
        contents(chunk) == Seq::<u8>::empty(),
{
    bytes::Bytes::new()
}

/// The front of the bytes that fits into `remaining`.
pub open spec fn fitting(bytes: Seq<u8>, remaining: usize) -> Seq<u8> {
    if bytes.len() > remaining {
        bytes.subrange(0, remaining as int)
    } else {
        bytes
    }
}

/// What does not fit into `remaining`, if anything.
pub open spec fn overflow(bytes: Seq<u8>, remaining: usize) -> Option<Seq<u8>> {
    if bytes.len() > remaining {
        Some(bytes.subrange(remaining as int, bytes.len() as int))
    } else {
        None
    }
}

/// The part of a request body that was received and not yet handed on.
pub struct BodyReader {
    left_over: Option<bytes::Bytes>,
}

fn cut(chunk: bytes::Bytes, remaining: usize) -> (parts: (bytes::Bytes, bytes::Bytes))
    ensures
        contents(parts.0) == fitting(contents(chunk), remaining),
        contents(parts.1) == match overflow(contents(chunk), remaining) {
            Some(rest) => rest,
            None => Seq::<u8>::empty(),
        },
        overflow(contents(chunk), remaining) is Some ==> contents(parts.1).len() > 0,
{
    let mut chunk = chunk;
    let next_left_over = if chunk_len(&chunk) > remaining {
        chunk_split_off(&mut chunk, remaining)
    } else {
        empty_chunk()
    };
    (chunk, next_left_over)
}

impl BodyReader {
    /// What was left over, if anything.
    pub closed spec fn pending(&self) -> Option<Seq<u8>> {
        match self.left_over {
            Some(chunk) => Some(contents(chunk)),
            None => None,
        }
    }

    pub fn new() -> (reader: BodyReader)
        ensures
            reader.pending() is None,
    {
        BodyReader { left_over: None }
    }

    /// Starts a read into a buffer with room for `remaining` bytes. Where
    /// something was left over, its front that fits is handed out, and what
    /// does not fit stays left over. Where nothing was, the result is `None`:
    /// the body is to be asked for its next chunk.
    pub fn resume(&mut self, remaining: usize) -> (part: Option<bytes::Bytes>)
        ensures
            match old(self).pending() {
                Some(bytes) => {
                    &&& part is Some
                    &&& contents(part->0) == fitting(bytes, remaining)
                    &&& final(self).pending() == overflow(bytes, remaining)
                },
                None => part is None && final(self).pending() is None,
            },
    {
        match self.left_over.take() {
            Some(left_over) => {
                let (part, next_left_over) = cut(left_over, remaining);
                if chunk_len(&next_left_over) != 0 {
                    self.left_over = Some(next_left_over);
                }
                Some(part)
            },
            None => None,
        }
    }

    /// Takes a chunk that the body has yielded, for a buffer with room for
    /// `remaining` bytes: its front that fits is handed out. What does not
    /// fit is left over; where all fits, what was left over before stays.
    pub fn accept(&mut self, chunk: bytes::Bytes, remaining: usize) -> (part: bytes::Bytes)
        ensures
            contents(part) == fitting(contents(chunk), remaining),
            final(self).pending() == match overflow(contents(chunk), remaining) {
                Some(rest) => Some(rest),
                None => old(self).pending(),
            },
    {
        let (part, next_left_over) = cut(chunk, remaining);
        if chunk_len(&next_left_over) != 0 {
            self.left_over = Some(next_left_over);
        }
        part
    }
}

} // verus!
