//! The two files as byte sequences, what the writer's steps do to them, and
//! what a reader finds in them: the setting in which the laws of the log
//! are stated and proved.

use vstd::prelude::*;

use crate::record::{header_image, lemma_header_round_trip, record_image};
use crate::tail::{lemma_tail_round_trip, tail_file_image};
use crate::writer::{
    next_action, next_phase, next_tail, placeholder_image, tail_after, Action, AppendEvent,
    AppendPhase,
};

verus! {

/// A file after `data` was written at `offset`: the bytes in front stay, the
/// bytes behind the data stay, and the file grows if the data reaches past
/// its end.
pub open spec fn write_at(file: Seq<u8>, offset: int, data: Seq<u8>) -> Seq<u8> {
    file.subrange(0, offset) + data + if offset + data.len() < file.len() {
        file.subrange(offset + data.len(), file.len() as int)
    } else {
        Seq::empty()
    }
}

/// The log file, the offset at which its next write without a seek lands,
/// and the tail file.
pub struct Files {
    pub log: Seq<u8>,
    pub cursor: int,
    pub tail: Seq<u8>,
}

/// The files after the caller has performed `action`, with `contents` as what
/// the byte source yields.
pub open spec fn perform(files: Files, action: Action, contents: Seq<u8>) -> Files {
    match action {
        Action::WriteLog { offset, bytes } => Files {
            log: write_at(files.log, offset as int, bytes),
            cursor: offset + bytes.len(),
            tail: files.tail,
        },
        Action::CopyContents => Files {
            log: write_at(files.log, files.cursor, contents),
            cursor: files.cursor + contents.len(),
            tail: files.tail,
        },
        Action::WriteTail { copies } => Files {
            log: files.log,
            cursor: files.cursor,
            tail: write_at(files.tail, 0, copies),
        },
        _ => files,
    }
}

/// What the caller reports after it has performed `action` without failure.
pub open spec fn report(action: Action, contents: Seq<u8>) -> AppendEvent {
    match action {
        Action::CopyContents => AppendEvent::Copied(contents.len() as u64),
        _ => AppendEvent::Completed,
    }
}

/// An append under way: the writer's tail and phase, the files, and the
/// event that the writer is told next.
pub struct Run {
    pub tail: u64,
    pub phase: AppendPhase,
    pub files: Files,
    pub event: AppendEvent,
}

/// The start of an append on `files` by an idle writer with its tail at `tail`.
pub open spec fn begin(tail: u64, files: Files) -> Run {
    Run { tail, phase: AppendPhase::Idle, files, event: AppendEvent::Begin }
}

/// One turn: the writer takes the event and hands out a step, the caller
/// performs it and has its report ready.
pub open spec fn turn(run: Run, contents: Seq<u8>) -> Run {
    let action = next_action(run.tail, run.phase, run.event);
    Run {
        tail: next_tail(run.tail, run.phase, run.event) as u64,
        phase: next_phase(run.phase, run.event),
        files: perform(run.files, action, contents),
        event: report(action, contents),
    }
}

/// The run after `turns` turns.
pub open spec fn turns(run: Run, contents: Seq<u8>, turns: nat) -> Run
    decreases turns,
{
    if turns == 0 {
        run
    } else {
        turn(self::turns(run, contents, (turns - 1) as nat), contents)
    }
}

/// The number of turns that an append takes.
pub open spec fn append_turns() -> nat {
    7
}

/// The log file that holds exactly the records with these payloads.
pub open spec fn log_image(payloads: Seq<Seq<u8>>) -> Seq<u8>
    decreases payloads.len(),
{
    if payloads.len() == 0 {
        Seq::empty()
    } else {
        let before = log_image(payloads.drop_last());
        before + record_image(before.len() as u64, payloads.last())
    }
}

/// Where record `index` starts: behind the records in front of it.
pub open spec fn position_of(payloads: Seq<Seq<u8>>, index: int) -> int {
    log_image(payloads.take(index)).len() as int
}

/// Whether each payload fits the length field of a header, and the whole log
/// fits a position.
pub open spec fn payloads_fit(payloads: Seq<Seq<u8>>) -> bool {
    &&& forall|i: int| 0 <= i < payloads.len() ==> (#[trigger] payloads[i]).len() <= u32::MAX
    &&& log_image(payloads).len() <= u64::MAX
}

/// Whether the log file, with the tail at `tail`, holds the records with
/// these payloads: they fill the file up to the tail. What lies behind the
/// tail may be anything.
pub open spec fn committed(log: Seq<u8>, tail: u64, payloads: Seq<Seq<u8>>) -> bool {
    &&& payloads_fit(payloads)
    &&& log_image(payloads).len() == tail
    &&& log.len() >= tail
    &&& log.subrange(0, tail as int) == log_image(payloads)
}

/// The framed size of a record is six more than its payload; the tail is
/// the sum of the framed sizes.
pub proof fn lemma_log_image_len(payloads: Seq<Seq<u8>>)
    requires
        payloads.len() > 0,
        payloads.last().len() <= u32::MAX,
    ensures
        log_image(payloads).len() == log_image(payloads.drop_last()).len() + 6
            + payloads.last().len(),
{
    let before = log_image(payloads.drop_last());
    lemma_header_round_trip(before.len() as u64, payloads.last().len() as u32);
}

/// The bytes that the records with these payloads take up: six for each
/// header, and the payloads.
pub open spec fn framed_size(payloads: Seq<Seq<u8>>) -> nat
    decreases payloads.len(),
{
    if payloads.len() == 0 {
        0
    } else {
        framed_size(payloads.drop_last()) + 6 + payloads.last().len()
    }
}

/// The tail of a log is the sum of the framed sizes of its records.
pub proof fn lemma_tail_is_framed_size(log: Seq<u8>, tail: u64, payloads: Seq<Seq<u8>>)
    requires
        committed(log, tail, payloads),
    ensures
        tail == framed_size(payloads),
    decreases payloads.len(),
{
    if payloads.len() > 0 {
        let front = payloads.drop_last();
        let before = log_image(front);
        lemma_log_image_len(payloads);
        assert forall|i: int| 0 <= i < front.len() implies (#[trigger] front[i]).len()
            <= u32::MAX by {
            assert(front[i] == payloads[i]);
        }
        assert(before.subrange(0, before.len() as int) =~= before);
        lemma_tail_is_framed_size(before, before.len() as u64, front);
    }
}

/// An empty log file holds no records.
pub proof fn lemma_empty_log_committed()
    ensures
        committed(Seq::empty(), 0, Seq::empty()),
{
    assert(Seq::<u8>::empty().subrange(0, 0) =~= Seq::<u8>::empty());
}

/// A record written at the tail is committed with the tail behind it: the
/// records in front of it stay, and so does whatever lay behind the new tail.
pub proof fn lemma_append_commits(
    log: Seq<u8>,
    tail: u64,
    payloads: Seq<Seq<u8>>,
    contents: Seq<u8>,
)
    requires
        committed(log, tail, payloads),
        contents.len() <= u32::MAX,
        tail_after(tail, contents.len() as u32) <= u64::MAX,
    ensures
        committed(
            write_at(log, tail as int, record_image(tail, contents)),
            tail_after(tail, contents.len() as u32) as u64,
            payloads.push(contents),
        ),
{
    let record = record_image(tail, contents);
    let after = write_at(log, tail as int, record);
    let all = payloads.push(contents);
    lemma_header_round_trip(tail, contents.len() as u32);
    assert(all.drop_last() =~= payloads);
    assert(all.last() == contents);
    assert(log_image(all) == log_image(payloads) + record);
    assert(after.subrange(0, tail + record.len()) =~= log.subrange(0, tail as int) + record);
    assert forall|i: int| 0 <= i < all.len() implies (#[trigger] all[i]).len() <= u32::MAX by {
        if i < payloads.len() {
            assert(all[i] == payloads[i]);
        }
    }
}

/// Whatever is written at or behind the tail leaves the committed records
/// as they are: so does all that an append writes to the log file before the
/// tail moves, and all that a writer leaves behind when it is cut short.
pub proof fn lemma_write_behind_tail(
    log: Seq<u8>,
    tail: u64,
    payloads: Seq<Seq<u8>>,
    offset: int,
    data: Seq<u8>,
)
    requires
        committed(log, tail, payloads),
        tail <= offset <= log.len(),
    ensures
        committed(write_at(log, offset, data), tail, payloads),
{
    assert(write_at(log, offset, data).subrange(0, tail as int) =~= log.subrange(0, tail as int));
}

/// The log file after the three writes of an append: the placeholder, the
/// contents behind it, and the header over the placeholder. It is the file
/// with the whole record written at the tail.
pub proof fn lemma_three_writes(log: Seq<u8>, tail: u64, contents: Seq<u8>)
    requires
        tail <= log.len(),
        contents.len() <= u32::MAX,
    ensures
        write_at(
            write_at(write_at(log, tail as int, placeholder_image()), tail + 6, contents),
            tail as int,
            header_image(tail, contents.len() as u32),
        ) == write_at(log, tail as int, record_image(tail, contents)),
{
    lemma_header_round_trip(tail, contents.len() as u32);
    let first = write_at(log, tail as int, placeholder_image());
    let second = write_at(first, tail + 6, contents);
    let third = write_at(second, tail as int, header_image(tail, contents.len() as u32));
    assert(first.len() >= tail + 6);
    assert(second.len() >= tail + 6 + contents.len());
    assert(third =~= write_at(log, tail as int, record_image(tail, contents)));
}

/// An append that nothing interrupts takes seven turns. It leaves the whole
/// record at the old tail of the log file, the new tail in the tail file and
/// in memory, and the writer idle, and it ends by handing out the position
/// of the record.
pub proof fn lemma_append_run(tail: u64, files: Files, contents: Seq<u8>)
    requires
        tail <= files.log.len(),
        files.tail.len() == 24,
        contents.len() <= u32::MAX,
        tail_after(tail, contents.len() as u32) <= u64::MAX,
    ensures
        ({
            let end = turns(begin(tail, files), contents, append_turns());
            let last = turns(begin(tail, files), contents, (append_turns() - 1) as nat);
            &&& end.phase == AppendPhase::Idle
            &&& end.tail == tail_after(tail, contents.len() as u32)
            &&& end.files.log == write_at(files.log, tail as int, record_image(tail, contents))
            &&& end.files.tail == tail_file_image(end.tail)
            &&& next_action(last.tail, last.phase, last.event) == Action::Done(Ok(tail))
        }),
{
    lemma_append_steps(tail, files, contents);
}

/// The seven turns of an append, one by one.
proof fn lemma_append_steps(tail: u64, files: Files, contents: Seq<u8>)
    requires
        tail <= files.log.len(),
        files.tail.len() == 24,
        contents.len() <= u32::MAX,
        tail_after(tail, contents.len() as u32) <= u64::MAX,
    ensures
        ({
            let len = contents.len() as u32;
            let new_tail = tail_after(tail, len) as u64;
            let start = begin(tail, files);
            let placeholder = write_at(files.log, tail as int, placeholder_image());
            let streamed = write_at(placeholder, tail + 6, contents);
            let framed = write_at(files.log, tail as int, record_image(tail, contents));
            let idle = Files { log: framed, cursor: tail + 6, tail: tail_file_image(new_tail) };
            &&& turns(start, contents, 0) == start
            &&& turns(start, contents, 1) == Run {
                tail,
                phase: AppendPhase::Placeholder,
                files: Files { log: placeholder, cursor: tail + 6, tail: files.tail },
                event: AppendEvent::Completed,
            }
            &&& turns(start, contents, 2) == Run {
                tail,
                phase: AppendPhase::Contents,
                files: Files { log: streamed, cursor: tail + 6 + len, tail: files.tail },
                event: AppendEvent::Copied(len as u64),
            }
            &&& turns(start, contents, 3) == Run {
                tail,
                phase: AppendPhase::Header { len },
                files: Files { log: framed, cursor: tail + 6, tail: files.tail },
                event: AppendEvent::Completed,
            }
            &&& turns(start, contents, 4) == Run {
                tail,
                phase: AppendPhase::LogFlush { len },
                files: Files { log: framed, cursor: tail + 6, tail: files.tail },
                event: AppendEvent::Completed,
            }
            &&& turns(start, contents, 5) == Run {
                tail,
                phase: AppendPhase::TailWrite { len },
                files: idle,
                event: AppendEvent::Completed,
            }
            &&& turns(start, contents, 6) == Run {
                tail,
                phase: AppendPhase::TailFlush { len },
                files: idle,
                event: AppendEvent::Completed,
            }
            &&& turns(start, contents, 7) == Run {
                tail: new_tail,
                phase: AppendPhase::Idle,
                files: idle,
                event: AppendEvent::Completed,
            }
        }),
{
    let len = contents.len() as u32;
    let new_tail = tail_after(tail, len) as u64;
    let start = begin(tail, files);
    reveal_with_fuel(turns, 2);
    lemma_header_round_trip(tail, len);
    lemma_three_writes(files.log, tail, contents);
    lemma_tail_round_trip(new_tail);
    let r1 = turns(start, contents, 1);
    assert(r1 == turn(start, contents));
    let r2 = turns(start, contents, 2);
    assert(r2 == turn(r1, contents));
    let r3 = turns(start, contents, 3);
    assert(r3 == turn(r2, contents));
    let r4 = turns(start, contents, 4);
    assert(r4 == turn(r3, contents));
    let r5 = turns(start, contents, 5);
    assert(r5 == turn(r4, contents));
    assert(write_at(files.tail, 0, tail_file_image(new_tail)) =~= tail_file_image(new_tail));
    let r6 = turns(start, contents, 6);
    assert(r6 == turn(r5, contents));
    let r7 = turns(start, contents, 7);
    assert(r7 == turn(r6, contents));
}

/// An append that is cut short after any number of turns loses nothing.
/// The records committed before it stay committed under the old tail. From
/// the third turn on, the new record is committed under the new tail as
/// well. The tail file holds the old tail up to the fourth turn and the new
/// one from the fifth on, so it never names a tail whose records are not in
/// the log file. The tail in memory moves with the last turn only.
pub proof fn lemma_append_never_loses(
    tail: u64,
    files: Files,
    payloads: Seq<Seq<u8>>,
    contents: Seq<u8>,
    done: nat,
)
    requires
        committed(files.log, tail, payloads),
        files.tail == tail_file_image(tail),
        contents.len() <= u32::MAX,
        tail_after(tail, contents.len() as u32) <= u64::MAX,
        done <= append_turns(),
    ensures
        ({
            let now = turns(begin(tail, files), contents, done);
            let new_tail = tail_after(tail, contents.len() as u32) as u64;
            &&& committed(now.files.log, tail, payloads)
            &&& done >= 3 ==> committed(now.files.log, new_tail, payloads.push(contents))
            &&& done <= 4 ==> now.files.tail == tail_file_image(tail)
            &&& done >= 5 ==> now.files.tail == tail_file_image(new_tail)
            &&& now.tail == if done == append_turns() {
                new_tail
            } else {
                tail
            }
        }),
{
    lemma_tail_round_trip(tail);
    lemma_append_steps(tail, files, contents);
    lemma_append_commits(files.log, tail, payloads, contents);
    let placeholder = write_at(files.log, tail as int, placeholder_image());
    lemma_write_behind_tail(files.log, tail, payloads, tail as int, placeholder_image());
    lemma_write_behind_tail(placeholder, tail, payloads, tail + 6, contents);
    lemma_write_behind_tail(files.log, tail, payloads, tail as int, record_image(tail, contents));
}

/// The idle writer and the files after one append for each of `more`, in
/// their order, none of them interrupted.
pub open spec fn after_appends(tail: u64, files: Files, more: Seq<Seq<u8>>) -> Run
    decreases more.len(),
{
    if more.len() == 0 {
        begin(tail, files)
    } else {
        let before = after_appends(tail, files, more.drop_last());
        let end = turns(begin(before.tail, before.files), more.last(), append_turns());
        begin(end.tail, end.files)
    }
}

/// The payloads without the last fit where all of them fit.
pub proof fn lemma_front_fits(payloads: Seq<Seq<u8>>)
    requires
        payloads_fit(payloads),
        payloads.len() > 0,
    ensures
        payloads_fit(payloads.drop_last()),
        log_image(payloads).len() == log_image(payloads.drop_last()).len() + 6
            + payloads.last().len(),
{
    let front = payloads.drop_last();
    lemma_log_image_len(payloads);
    assert forall|i: int| 0 <= i < front.len() implies (#[trigger] front[i]).len()
        <= u32::MAX by {
        assert(front[i] == payloads[i]);
    }
}

/// Appends that run to their end commit their payloads behind those that
/// were committed before, in their order: the tail in memory and the tail
/// file name the end of the last record. A log file that ended at the tail
/// ends at the new tail.
pub proof fn lemma_appends_commit(
    tail: u64,
    files: Files,
    payloads: Seq<Seq<u8>>,
    more: Seq<Seq<u8>>,
)
    requires
        committed(files.log, tail, payloads),
        files.tail == tail_file_image(tail),
        payloads_fit(payloads + more),
    ensures
        ({
            let end = after_appends(tail, files, more);
            &&& end.phase == AppendPhase::Idle
            &&& committed(end.files.log, end.tail, payloads + more)
            &&& end.files.tail == tail_file_image(end.tail)
            &&& files.log.len() == tail ==> end.files.log.len() == end.tail
        }),
    decreases more.len(),
{
    lemma_tail_round_trip(tail);
    if more.len() == 0 {
        assert(payloads + more =~= payloads);
    } else {
        let all = payloads + more;
        let contents = more.last();
        assert(all.drop_last() =~= payloads + more.drop_last());
        assert(all.last() == contents);
        lemma_front_fits(all);
        lemma_appends_commit(tail, files, payloads, more.drop_last());
        let before = after_appends(tail, files, more.drop_last());
        lemma_tail_round_trip(before.tail);
        lemma_append_run(before.tail, before.files, contents);
        lemma_append_commits(before.files.log, before.tail, all.drop_last(), contents);
        assert(all.drop_last().push(contents) =~= all);
        lemma_header_round_trip(before.tail, contents.len() as u32);
    }
}

} // verus!
