//! What opening a log finds after the writer went away, in good order or
//! not.

use vstd::prelude::*;

use crate::model::{
    after_appends, append_turns, begin, committed, lemma_append_never_loses,
    lemma_appends_commit, lemma_empty_log_committed, lemma_write_behind_tail, log_image,
    payloads_fit, turns, write_at, Files,
};
use crate::open::{partial_write, tail_of_contents};
use crate::scan::{lemma_positions, lemma_read_back, records_of, walk, Stop};
use crate::tail::{
    lemma_tail_round_trip, lemma_torn_update_recovers, tail_file_during_update, tail_file_image,
};
use crate::writer::tail_after;

verus! {

/// A log that is opened again after its appends ran to their end, on a log
/// file that ended at the tail before them, is opened at the end of the last
/// record and without a partial write, and a reader from 0 finds the records
/// from before and the appended ones, in their order.
pub proof fn lemma_reopen_after_appends(
    tail: u64,
    files: Files,
    payloads: Seq<Seq<u8>>,
    more: Seq<Seq<u8>>,
)
    requires
        committed(files.log, tail, payloads),
        files.log.len() == tail,
        files.tail == tail_file_image(tail),
        payloads_fit(payloads + more),
    ensures
        ({
            let end = after_appends(tail, files, more);
            &&& tail_of_contents(end.files.tail) == Some(end.tail)
            &&& end.files.log.len() == end.tail
            &&& !partial_write(end.files.log.len() as u64, end.tail)
            &&& walk(end.files.log, 0, end.tail) == (records_of(payloads + more), Stop::End)
        }),
{
    let end = after_appends(tail, files, more);
    lemma_appends_commit(tail, files, payloads, more);
    lemma_tail_round_trip(end.tail);
    lemma_read_back(end.files.log, end.tail, payloads + more);
}

/// A log whose log file got bytes at or behind the tail, by a writer that
/// was cut short or by hand, is opened at the same tail and with a partial
/// write reported, and a reader from 0 finds the committed records and ends
/// at the tail.
pub proof fn lemma_reopen_with_residue(
    log: Seq<u8>,
    tail: u64,
    payloads: Seq<Seq<u8>>,
    offset: int,
    residue: Seq<u8>,
)
    requires
        committed(log, tail, payloads),
        tail <= offset <= log.len(),
        residue.len() > 0,
        offset + residue.len() <= u64::MAX,
        log.len() <= u64::MAX,
    ensures
        ({
            let written = write_at(log, offset, residue);
            &&& tail_of_contents(tail_file_image(tail)) == Some(tail)
            &&& partial_write(written.len() as u64, tail)
            &&& committed(written, tail, payloads)
            &&& walk(written, 0, tail) == (records_of(payloads), Stop::End)
        }),
{
    lemma_tail_round_trip(tail);
    lemma_write_behind_tail(log, tail, payloads, offset, residue);
    lemma_read_back(write_at(log, offset, residue), tail, payloads);
}

/// A log that starts empty, as opening leaves it, holds after any appends
/// that ran to their end exactly their payloads: opened again it is at the
/// end of the last record with no partial write, and a reader from 0 finds
/// each payload in its order, the first at 0 and each next one six bytes
/// and a payload behind the one before.
pub proof fn lemma_fresh_log_round_trip(payloads: Seq<Seq<u8>>)
    requires
        payloads_fit(payloads),
    ensures
        ({
            let fresh = Files { log: Seq::empty(), cursor: 0, tail: tail_file_image(0) };
            let end = after_appends(0, fresh, payloads);
            &&& tail_of_contents(fresh.tail) == Some(0u64)
            &&& tail_of_contents(end.files.tail) == Some(end.tail)
            &&& end.files.log == log_image(payloads)
            &&& !partial_write(end.files.log.len() as u64, end.tail)
            &&& walk(end.files.log, 0, end.tail) == (records_of(payloads), Stop::End)
            &&& records_of(payloads).len() == payloads.len()
            &&& forall|i: int|
                0 <= i < payloads.len() ==> (#[trigger] records_of(payloads)[i]).payload
                    == payloads[i]
            &&& forall|i: int|
                0 <= i < payloads.len() ==> (#[trigger] records_of(payloads)[i]).position == (if i
                    == 0 {
                    0
                } else {
                    records_of(payloads)[i - 1].position + 6 + payloads[i - 1].len()
                })
        }),
{
    let fresh = Files { log: Seq::empty(), cursor: 0, tail: tail_file_image(0) };
    let end = after_appends(0, fresh, payloads);
    lemma_tail_round_trip(0);
    lemma_empty_log_committed();
    assert(Seq::<Seq<u8>>::empty() + payloads =~= payloads);
    lemma_reopen_after_appends(0, fresh, Seq::empty(), payloads);
    lemma_appends_commit(0, fresh, Seq::empty(), payloads);
    assert(end.files.log =~= end.files.log.subrange(0, end.tail as int));
    assert forall|i: int| 0 <= i < payloads.len() implies (#[trigger] records_of(
        payloads,
    )[i]).position == (if i == 0 {
        0
    } else {
        records_of(payloads)[i - 1].position + 6 + payloads[i - 1].len()
    }) by {
        lemma_positions(payloads, i);
        if i > 0 {
            lemma_positions(payloads, i - 1);
        }
    }
}

/// A log whose writer was cut short between two turns of an append is opened
/// without error, at the old tail or at the new one, and a reader from 0
/// finds the records committed before, followed by the new one exactly if
/// the tail is the new one.
pub proof fn lemma_reopen_after_crash(
    tail: u64,
    files: Files,
    payloads: Seq<Seq<u8>>,
    contents: Seq<u8>,
    done: nat,
)
    requires
        committed(files.log, tail, payloads),
        files.tail == tail_file_image(tail),
        contents.len() <= u32::MAX,
        tail_after(tail, contents.len() as u32) <= u64::MAX,
        done <= append_turns(),
    ensures
        ({
            let now = turns(begin(tail, files), contents, done);
            let new_tail = tail_after(tail, contents.len() as u32) as u64;
            let found = tail_of_contents(now.files.tail);
            &&& found == Some(if done >= 5 { new_tail } else { tail })
            &&& now.files.log.len() >= found->0
            &&& walk(now.files.log, 0, found->0) == (
                records_of(if done >= 5 { payloads.push(contents) } else { payloads }),
                Stop::End,
            )
        }),
{
    let now = turns(begin(tail, files), contents, done);
    let new_tail = tail_after(tail, contents.len() as u32) as u64;
    lemma_append_never_loses(tail, files, payloads, contents, done);
    lemma_tail_round_trip(tail);
    lemma_tail_round_trip(new_tail);
    if done >= 5 {
        lemma_read_back(now.files.log, new_tail, payloads.push(contents));
    } else {
        lemma_read_back(now.files.log, tail, payloads);
    }
}

/// A log whose writer was cut short while it wrote the tail file, between
/// two of the three copies, is opened without error: at the old tail if
/// fewer than two copies were written, at the new one else; and a reader
/// from 0 finds the records that belong to that tail.
pub proof fn lemma_reopen_after_torn_tail(
    tail: u64,
    files: Files,
    payloads: Seq<Seq<u8>>,
    contents: Seq<u8>,
    slots: int,
)
    requires
        committed(files.log, tail, payloads),
        files.tail == tail_file_image(tail),
        contents.len() <= u32::MAX,
        tail_after(tail, contents.len() as u32) <= u64::MAX,
        0 <= slots <= 3,
    ensures
        ({
            let flushed = turns(begin(tail, files), contents, 4);
            let new_tail = tail_after(tail, contents.len() as u32) as u64;
            let torn = tail_file_during_update(tail, new_tail, slots);
            let found = tail_of_contents(torn);
            &&& found == Some(if slots >= 2 { new_tail } else { tail })
            &&& flushed.files.log.len() >= found->0
            &&& walk(flushed.files.log, 0, found->0) == (
                records_of(if slots >= 2 { payloads.push(contents) } else { payloads }),
                Stop::End,
            )
        }),
{
    let flushed = turns(begin(tail, files), contents, 4);
    let new_tail = tail_after(tail, contents.len() as u32) as u64;
    lemma_append_never_loses(tail, files, payloads, contents, 4);
    lemma_torn_update_recovers(tail, new_tail, slots);
    if slots >= 2 {
        lemma_read_back(flushed.files.log, new_tail, payloads.push(contents));
    } else {
        lemma_read_back(flushed.files.log, tail, payloads);
    }
}

} // verus!
