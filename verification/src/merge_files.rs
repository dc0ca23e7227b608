//! What a merge of runs does to the files that it reads and writes.

use vstd::prelude::*;
use crate::layout::{MAX_MERGE_FANOUT, MTIME_RECORD_SIZE};
use crate::record;
use crate::record::MtimeRecord;
use crate::run_merge;
use crate::run_merge::{MergeEvent, MergeStep, RunMergeModel};

verus! {

/// What the files hold that a merge works with.
pub struct MergeFiles {
    /// The inputs, none of which a merge changes.
    pub inputs: Seq<Seq<u8>>,
    /// Per input, how many bytes of it were read.
    pub read: Seq<int>,
    /// The output, with what is still buffered; none where there is no such
    /// file.
    pub output: Option<Seq<u8>>,
}

/// Performing the step that `m` asks for, with `event` coming of it, turns files
/// that hold `before` into ones that hold `after`. What creating or writing the
/// output leaves in it after a failure is left open.
pub open spec fn is_performed(
    m: RunMergeModel,
    event: MergeEvent,
    before: MergeFiles,
    after: MergeFiles,
) -> bool {
    match (m.step, event) {
        (MergeStep::ReadHead(slot), MergeEvent::Head(bytes)) => {
            let i = slot as int;
            let start = before.read[i];
            &&& start + MTIME_RECORD_SIZE <= before.inputs[i].len()
            &&& bytes@ == before.inputs[i].subrange(start, start + MTIME_RECORD_SIZE)
            &&& after == (MergeFiles {
                read: before.read.update(i, start + MTIME_RECORD_SIZE),
                ..before
            })
        },
        (MergeStep::ReadHead(slot), MergeEvent::EndOfInput) => {
            let i = slot as int;
            &&& before.read[i] + MTIME_RECORD_SIZE > before.inputs[i].len()
            &&& after == before
        },
        (MergeStep::CreateOutput, MergeEvent::Succeeded) => after == (MergeFiles {
            output: Some(Seq::empty()),
            ..before
        }),
        (MergeStep::WriteHead(slot), MergeEvent::Succeeded) => {
            &&& before.output is Some
            &&& after == (MergeFiles {
                output: Some(before.output->0 + m.heads[slot as int]->0.bytes()),
                ..before
            })
        },
        (
            MergeStep::CreateOutput | MergeStep::WriteHead(_) | MergeStep::SyncOutput,
            MergeEvent::Failed,
        ) => after == (MergeFiles { output: after.output, ..before }),
        _ => after == before,
    }
}

/// The state of a merge of `inputs` inputs after all of `events`.
pub open spec fn after_all(inputs: nat, events: Seq<MergeEvent>) -> RunMergeModel
    decreases events.len(),
{
    if events.len() == 0 {
        RunMergeModel::start(inputs)
    } else {
        after_all(inputs, events.drop_last()).after(events.last())
    }
}

/// `files` are what the files hold at the start of a merge, when nothing is
/// read, and after each of `events`.
pub open spec fn are_performed(events: Seq<MergeEvent>, files: Seq<MergeFiles>) -> bool {
    let inputs = files[0].inputs.len();
    &&& files.len() == events.len() + 1
    &&& files[0].read == Seq::new(inputs, |i: int| 0int)
    &&& forall|i: int|
        0 <= i < events.len() ==> is_performed(
            after_all(inputs, events.take(i)),
            #[trigger] events[i],
            files[i],
            files[i + 1],
        )
}

/// The records that each of these files holds.
pub open spec fn records_in_files(files: Seq<Seq<u8>>) -> Seq<Seq<MtimeRecord>> {
    Seq::new(files.len(), |i: int| record::records_in_file(files[i]))
}

/// Whether the merge has found out what comes next in input `i`: a record that
/// is its head, or the end.
pub open spec fn has_looked_at(m: RunMergeModel, i: int) -> bool {
    match m.step {
        MergeStep::ReadHead(slot) => if m.created {
            i != slot
        } else {
            i < slot
        },
        _ => true,
    }
}

/// What was read of input `i` is the beginning of what it holds, and all of it
/// where the merge has come to its end.
pub open spec fn agrees_on_input(m: RunMergeModel, files: MergeFiles, i: int) -> bool {
    let held = record::records_in_file(files.inputs[i]);
    &&& files.read[i] == m.consumed[i].len() * MTIME_RECORD_SIZE
    &&& m.consumed[i].is_prefix_of(held)
    &&& has_looked_at(m, i) && m.heads[i] is None ==> m.consumed[i] == held
}

/// What a merge has read is what the inputs hold so far, and the output holds
/// what it has written, unless it has failed.
pub open spec fn agrees_with_files(m: RunMergeModel, files: MergeFiles) -> bool {
    &&& files.inputs.len() == m.heads.len()
    &&& files.read.len() == m.heads.len()
    &&& !(m.step is Failed) ==> {
        &&& forall|i: int| 0 <= i < m.heads.len() ==> #[trigger] agrees_on_input(m, files, i)
        &&& m.created ==> files.output == Some(record::records_file(m.written))
    }
}

/// What comes next in a file of which `consumed` was read: one more record, or the
/// end.
pub proof fn lemma_next_record(file: Seq<u8>, consumed: Seq<MtimeRecord>, start: int)
    requires
        consumed.is_prefix_of(record::records_in_file(file)),
        start == consumed.len() * MTIME_RECORD_SIZE,
    ensures
        start + MTIME_RECORD_SIZE <= file.len() ==> consumed.push(
            MtimeRecord::of_bytes(file.subrange(start, start + MTIME_RECORD_SIZE)),
        ).is_prefix_of(record::records_in_file(file)),
        start + MTIME_RECORD_SIZE > file.len() ==> consumed == record::records_in_file(file),
{
    let held = record::records_in_file(file);
    if start + MTIME_RECORD_SIZE <= file.len() {
        let next = MtimeRecord::of_bytes(file.subrange(start, start + MTIME_RECORD_SIZE));
        assert(held[consumed.len() as int] == next);
        assert(consumed.push(next) =~= held.take(consumed.len() as int + 1));
    } else {
        assert(consumed =~= held);
    }
}

proof fn lemma_step_agrees_with_files(
    m: RunMergeModel,
    event: MergeEvent,
    before: MergeFiles,
    after: MergeFiles,
)
    requires
        m.is_sound(),
        agrees_with_files(m, before),
        is_performed(m, event, before, after),
    ensures
        agrees_with_files(m.after(event), after),
        after.inputs == before.inputs,
{
    let n = m.after(event);
    assert(record::records_file(Seq::empty()) =~= Seq::<u8>::empty());
    if !m.created {
        assert(m.written =~= Seq::empty());
    }
    if let MergeStep::WriteHead(slot) = m.step {
        run_merge::lemma_first_head_is_least(m.heads);
        record::appended_record_extends_file(m.written, m.heads[slot as int]->0);
    }
    if !(n.step is Failed) {
        assert forall|i: int| 0 <= i < n.heads.len() implies #[trigger] agrees_on_input(
            n,
            after,
            i,
        ) by {
            assert(agrees_on_input(m, before, i));
            lemma_next_record(before.inputs[i], m.consumed[i], before.read[i]);
        }
    }
}

/// A merge that has finished has read all records that its inputs hold, and
/// leaves an output with exactly the records that it has written.
pub proof fn finished_merge_leaves_its_file(events: Seq<MergeEvent>, files: Seq<MergeFiles>)
    requires
        files.len() > 0,
        files[0].inputs.len() <= MAX_MERGE_FANOUT,
        are_performed(events, files),
    ensures
        ({
            let end = after_all(files[0].inputs.len(), events);
            &&& end.is_sound()
            &&& agrees_with_files(end, files.last())
            &&& files.last().inputs == files[0].inputs
            &&& end.step == MergeStep::Finished ==> {
                &&& end.consumed == records_in_files(files[0].inputs)
                &&& files.last().output == Some(record::records_file(end.written))
            }
        }),
    decreases events.len(),
{
    let inputs = files[0].inputs.len();
    let end = after_all(inputs, events);
    if events.len() == 0 {
        run_merge::merge_starts_sound(inputs);
        assert forall|i: int| 0 <= i < end.heads.len() implies #[trigger] agrees_on_input(
            end,
            files[0],
            i,
        ) by {
            assert(end.consumed[i] =~= Seq::empty());
        }
    } else {
        let front = events.drop_last();
        let earlier = files.drop_last();
        assert forall|i: int| 0 <= i < front.len() implies is_performed(
            after_all(inputs, front.take(i)),
            #[trigger] front[i],
            earlier[i],
            earlier[i + 1],
        ) by {
            assert(front[i] == events[i]);
            assert(front.take(i) =~= events.take(i));
        }
        finished_merge_leaves_its_file(front, earlier);
        let i = events.len() - 1;
        assert(is_performed(after_all(inputs, events.take(i)), events[i], files[i], files[i + 1]));
        assert(events.take(i) =~= front);
        assert(earlier.last() == files[i]);
        run_merge::merge_stays_sound(after_all(inputs, front), events.last());
        lemma_step_agrees_with_files(
            after_all(inputs, front),
            events.last(),
            files[i],
            files[i + 1],
        );
    }
    if end.step == MergeStep::Finished {
        run_merge::lemma_no_heads(end.heads);
        assert forall|i: int| 0 <= i < end.heads.len() implies end.consumed[i] == records_in_files(
            files[0].inputs,
        )[i] by {
            assert(agrees_on_input(end, files.last(), i));
            assert(end.heads[i] is None);
        }
        assert(end.consumed =~= records_in_files(files[0].inputs));
    }
}

} // verus!
