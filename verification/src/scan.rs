//! What a reader finds when it walks a log file from a position to the
//! tail, and the laws that tie it to what the writer has committed.

use vstd::prelude::*;

use crate::model::{committed, log_image, payloads_fit, position_of, lemma_log_image_len};
use crate::reader::{plan, Plan};
use crate::record::{header_image, header_len, header_valid, lemma_header_round_trip, record_image};

verus! {

/// A record as a reader hands it out: where it starts, and its payload.
pub struct Record {
    pub position: int,
    pub payload: Seq<u8>,
}

/// How a walk ends.
pub enum Stop {
    /// The cursor has reached the tail.
    End,
    /// The bytes at the cursor are no header of a record there.
    InvalidItemChecksum,
    /// The file ends before the six bytes of a header could be read.
    Io,
}

/// The payload bytes that the record at `position` yields: `len` of them, or
/// what the file holds where it ends before that.
pub open spec fn payload_at(log: Seq<u8>, position: int, len: int) -> Seq<u8> {
    log.subrange(
        position + 6,
        if position + 6 + len <= log.len() {
            position + 6 + len
        } else {
            log.len() as int
        },
    )
}

/// The records that a reader hands out from `pos` on with the tail at `tail`,
/// without waiting for more, and how it ends. Each record is read where the
/// one before it ends, and its header is held against its position.
pub open spec fn walk(log: Seq<u8>, pos: int, tail: u64) -> (Seq<Record>, Stop)
    decreases tail - pos,
{
    if pos < 0 || pos >= tail {
        (Seq::empty(), Stop::End)
    } else if pos + 6 > log.len() {
        (Seq::empty(), Stop::Io)
    } else {
        let header = log.subrange(pos, pos + 6);
        if !header_valid(pos as u64, header) {
            (Seq::empty(), Stop::InvalidItemChecksum)
        } else {
            let len = header_len(header);
            let rest = if pos + 6 + len >= tail {
                (Seq::empty(), Stop::End)
            } else {
                walk(log, pos + 6 + len, tail)
            };
            (
                seq![Record { position: pos, payload: payload_at(log, pos, len as int) }] + rest.0,
                rest.1,
            )
        }
    }
}

/// The records with these payloads, each at its position.
pub open spec fn records_of(payloads: Seq<Seq<u8>>) -> Seq<Record> {
    Seq::new(
        payloads.len(),
        |i: int| Record { position: position_of(payloads, i), payload: payloads[i] },
    )
}

/// A walk goes on exactly where the reader's own decision is to read a
/// header, and ends where that is to end.
pub proof fn lemma_walk_follows_plan(log: Seq<u8>, pos: u64, tail: u64)
    ensures
        plan(pos, tail, false) == Plan::End <==> walk(log, pos as int, tail) == (
            Seq::<Record>::empty(),
            Stop::End,
        ),
        plan(pos, tail, false) == Plan::End || plan(pos, tail, false) == Plan::ReadHeader,
{
    if pos < tail {
        if pos + 6 <= log.len() && header_valid(pos, log.subrange(pos as int, pos + 6)) {
            let len = header_len(log.subrange(pos as int, pos + 6));
            let rest = walk(log, pos + 6 + len, tail);
            let found = seq![Record { position: pos as int, payload: payload_at(log, pos as int, len as int) }]
                + rest.0;
            assert(found.len() > 0);
        }
    }
}

/// The first record starts at 0, and each next one where the one before it
/// ends: six bytes of header behind its payload's start.
pub proof fn lemma_positions(payloads: Seq<Seq<u8>>, index: int)
    requires
        payloads_fit(payloads),
        0 <= index < payloads.len(),
    ensures
        position_of(payloads, 0) == 0,
        position_of(payloads, index + 1) == position_of(payloads, index) + 6
            + payloads[index].len(),
{
    assert(payloads.take(0).len() == 0);
    let upto = payloads.take(index + 1);
    assert(upto.drop_last() =~= payloads.take(index));
    assert(upto.last() == payloads[index]);
    lemma_log_image_len(upto);
}

/// The log that holds the first `count` records is the front of the log that
/// holds them all, and record `count` follows it.
pub proof fn lemma_log_image_front(payloads: Seq<Seq<u8>>, count: int)
    requires
        payloads_fit(payloads),
        0 <= count <= payloads.len(),
    ensures
        position_of(payloads, count) <= log_image(payloads).len(),
        log_image(payloads).subrange(0, position_of(payloads, count)) == log_image(
            payloads.take(count),
        ),
        count < payloads.len() ==> position_of(payloads, count) + 6 + payloads[count].len()
            <= log_image(payloads).len() && log_image(payloads).subrange(
            position_of(payloads, count),
            position_of(payloads, count) + 6 + payloads[count].len(),
        ) == record_image(position_of(payloads, count) as u64, payloads[count]),
    decreases payloads.len(),
{
    let whole = log_image(payloads);
    if count == payloads.len() {
        assert(payloads.take(count) =~= payloads);
        assert(whole.subrange(0, whole.len() as int) =~= whole);
    } else {
        let front = payloads.drop_last();
        let before = log_image(front);
        let record = record_image(before.len() as u64, payloads.last());
        lemma_log_image_len(payloads);
        assert(whole == before + record);
        assert forall|i: int| 0 <= i < front.len() implies (#[trigger] front[i]).len()
            <= u32::MAX by {
            assert(front[i] == payloads[i]);
        }
        assert(front.take(count) =~= payloads.take(count));
        lemma_log_image_front(front, count);
        let start = position_of(payloads, count);
        assert(whole.subrange(0, start) =~= before.subrange(0, start));
        if count < front.len() {
            assert(front[count] == payloads[count]);
            let end = start + 6 + payloads[count].len();
            assert(whole.subrange(start, end) =~= before.subrange(start, end));
        } else {
            assert(front.take(count) =~= front);
            assert(start == before.len());
            assert(whole.subrange(start, start + record.len()) =~= record);
            lemma_header_round_trip(before.len() as u64, payloads.last().len() as u32);
        }
    }
}

/// Each committed record stands in the log file with a header whose checksum
/// is the one of its position and its length: a reader that is told of a
/// tail behind the record finds it valid.
pub proof fn lemma_committed_record_is_valid(
    log: Seq<u8>,
    tail: u64,
    payloads: Seq<Seq<u8>>,
    index: int,
)
    requires
        committed(log, tail, payloads),
        0 <= index < payloads.len(),
    ensures
        ({
            let pos = position_of(payloads, index);
            let header = log.subrange(pos, pos + 6);
            &&& pos + 6 + payloads[index].len() <= tail
            &&& header == header_image(pos as u64, payloads[index].len() as u32)
            &&& header_valid(pos as u64, header)
            &&& header_len(header) == payloads[index].len()
            &&& log.subrange(pos + 6, pos + 6 + payloads[index].len()) == payloads[index]
        }),
{
    let pos = position_of(payloads, index);
    let payload = payloads[index];
    let len = payload.len() as u32;
    lemma_log_image_front(payloads, index);
    lemma_header_round_trip(pos as u64, len);
    let record = record_image(pos as u64, payload);
    assert(log.subrange(pos, pos + 6 + len) =~= log.subrange(0, tail as int).subrange(
        pos,
        pos + 6 + len,
    ));
    assert(log.subrange(pos, pos + 6) =~= record.subrange(0, 6));
    assert(record.subrange(0, 6) =~= header_image(pos as u64, len));
    assert(log.subrange(pos + 6, pos + 6 + len) =~= record.subrange(6, 6 + len));
    assert(record.subrange(6, 6 + len) =~= payload);
}

/// A reader that starts at record `first` of a committed log hands out that
/// record and all behind it, each with its position and its whole payload,
/// and then ends.
pub proof fn lemma_read_back_from(
    log: Seq<u8>,
    tail: u64,
    payloads: Seq<Seq<u8>>,
    first: int,
)
    requires
        committed(log, tail, payloads),
        0 <= first <= payloads.len(),
    ensures
        walk(log, position_of(payloads, first), tail) == (
            records_of(payloads).subrange(first, payloads.len() as int),
            Stop::End,
        ),
    decreases payloads.len() - first,
{
    let pos = position_of(payloads, first);
    let all = records_of(payloads);
    lemma_log_image_front(payloads, first);
    if first == payloads.len() {
        assert(payloads.take(first) =~= payloads);
        assert(all.subrange(first, payloads.len() as int) =~= Seq::<Record>::empty());
    } else {
        let payload = payloads[first];
        let len = payload.len() as u32;
        lemma_positions(payloads, first);
        lemma_committed_record_is_valid(log, tail, payloads, first);
        assert(payload_at(log, pos, len as int) == payload);
        lemma_read_back_from(log, tail, payloads, first + 1);
        let rest = walk(log, pos + 6 + len, tail);
        assert(seq![Record { position: pos, payload }] + rest.0 =~= all.subrange(
            first,
            payloads.len() as int,
        ));
    }
}

/// A reader that starts at 0 hands out exactly the payloads that were
/// appended, in their order, each at its position, and then ends. What lies
/// behind the tail in the log file is never looked at.
pub proof fn lemma_read_back(log: Seq<u8>, tail: u64, payloads: Seq<Seq<u8>>)
    requires
        committed(log, tail, payloads),
    ensures
        walk(log, 0, tail) == (records_of(payloads), Stop::End),
{
    lemma_read_back_from(log, tail, payloads, 0);
    assert(payloads.take(0).len() == 0);
    assert(records_of(payloads).subrange(0, payloads.len() as int) =~= records_of(payloads));
}

/// A reader at a position that is no record boundary, where the six bytes
/// do not happen to carry the checksum of that position and of the length
/// they claim, fails at once and hands out nothing.
pub proof fn lemma_misaligned_read_fails(log: Seq<u8>, pos: u64, tail: u64)
    requires
        pos < tail,
        pos + 6 <= log.len(),
        !header_valid(pos, log.subrange(pos as int, pos + 6)),
    ensures
        plan(pos, tail, false) == Plan::ReadHeader,
        walk(log, pos as int, tail) == (Seq::<Record>::empty(), Stop::InvalidItemChecksum),
{
}

/// A reader between two records: its cursor, the records it has handed out,
/// and how it stopped, once it has.
pub struct Progress {
    pub pos: int,
    pub seen: Seq<Record>,
    pub stop: Option<Stop>,
}

/// A reader that starts at `pos`.
pub open spec fn start_at(pos: int) -> Progress {
    Progress { pos, seen: Seq::empty(), stop: None }
}

/// The reader after one more record was asked for, without waiting, read and
/// finished. A reader that has stopped stays as it is.
pub open spec fn read_next(log: Seq<u8>, tail: u64, reader: Progress) -> Progress {
    if reader.stop is Some {
        reader
    } else if reader.pos < 0 || reader.pos >= tail {
        Progress { stop: Some(Stop::End), ..reader }
    } else if reader.pos + 6 > log.len() {
        Progress { stop: Some(Stop::Io), ..reader }
    } else {
        let header = log.subrange(reader.pos, reader.pos + 6);
        if !header_valid(reader.pos as u64, header) {
            Progress { stop: Some(Stop::InvalidItemChecksum), ..reader }
        } else {
            let len = header_len(header);
            Progress {
                pos: reader.pos + 6 + len,
                seen: reader.seen.push(
                    Record { position: reader.pos, payload: payload_at(log, reader.pos, len as int) },
                ),
                stop: None,
            }
        }
    }
}

/// Two readers over one log that take turns as `schedule` says: where it
/// holds `true` the first reads its next record, where `false` the second.
pub open spec fn interleave(
    log: Seq<u8>,
    tail: u64,
    first: Progress,
    second: Progress,
    schedule: Seq<bool>,
) -> (Progress, Progress)
    decreases schedule.len(),
{
    if schedule.len() == 0 {
        (first, second)
    } else {
        let before = interleave(log, tail, first, second, schedule.drop_last());
        if schedule.last() {
            (read_next(log, tail, before.0), before.1)
        } else {
            (before.0, read_next(log, tail, before.1))
        }
    }
}

/// Whether the reader has got as far as a walk from `origin` gets: what it
/// has seen, followed by what a walk from its cursor finds, is that walk.
pub open spec fn on_the_walk(log: Seq<u8>, tail: u64, origin: int, reader: Progress) -> bool {
    let whole = walk(log, origin, tail);
    match reader.stop {
        Some(stop) => whole == (reader.seen, stop),
        None => {
            let ahead = walk(log, reader.pos, tail);
            whole == (reader.seen + ahead.0, ahead.1)
        },
    }
}

/// One more record keeps a reader on the walk.
pub proof fn lemma_read_next_stays_on_the_walk(
    log: Seq<u8>,
    tail: u64,
    origin: int,
    reader: Progress,
)
    requires
        on_the_walk(log, tail, origin, reader),
    ensures
        on_the_walk(log, tail, origin, read_next(log, tail, reader)),
{
    let after = read_next(log, tail, reader);
    if reader.stop is None {
        let ahead = walk(log, reader.pos, tail);
        if after.stop is Some {
            assert(ahead.0 =~= Seq::<Record>::empty());
            assert(reader.seen + ahead.0 =~= reader.seen);
        } else {
            let further = walk(log, after.pos, tail);
            let record = after.seen.last();
            assert(ahead.0 =~= seq![record] + further.0);
            assert(reader.seen + ahead.0 =~= after.seen + further.0);
        }
    }
}

/// However two readers over one log take turns, each hands out the records
/// of its own walk, in their order: neither sees anything of the other. Of
/// two readers that start at one position, what either has seen at any time
/// is the start of the one sequence that both end with.
pub proof fn lemma_readers_agree(log: Seq<u8>, tail: u64, pos: int, schedule: Seq<bool>)
    ensures
        ({
            let readers = interleave(log, tail, start_at(pos), start_at(pos), schedule);
            let whole = walk(log, pos, tail);
            &&& on_the_walk(log, tail, pos, readers.0)
            &&& on_the_walk(log, tail, pos, readers.1)
            &&& readers.0.seen.is_prefix_of(whole.0)
            &&& readers.1.seen.is_prefix_of(whole.0)
            &&& readers.0.stop is Some && readers.1.stop is Some ==> readers.0.seen
                == readers.1.seen && readers.0.stop == readers.1.stop
        }),
    decreases schedule.len(),
{
    let whole = walk(log, pos, tail);
    if schedule.len() == 0 {
        assert(Seq::<Record>::empty() + whole.0 =~= whole.0);
    } else {
        lemma_readers_agree(log, tail, pos, schedule.drop_last());
        let before = interleave(log, tail, start_at(pos), start_at(pos), schedule.drop_last());
        lemma_read_next_stays_on_the_walk(log, tail, pos, before.0);
        lemma_read_next_stays_on_the_walk(log, tail, pos, before.1);
    }
    let readers = interleave(log, tail, start_at(pos), start_at(pos), schedule);
    lemma_seen_is_front(log, tail, pos, readers.0);
    lemma_seen_is_front(log, tail, pos, readers.1);
}

/// What a reader on the walk has seen is the front of the walk.
proof fn lemma_seen_is_front(log: Seq<u8>, tail: u64, origin: int, reader: Progress)
    requires
        on_the_walk(log, tail, origin, reader),
    ensures
        reader.seen.is_prefix_of(walk(log, origin, tail).0),
{
    let whole = walk(log, origin, tail);
    assert(whole.0.subrange(0, reader.seen.len() as int) =~= reader.seen);
}

} // verus!
