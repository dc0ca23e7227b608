//! What an external sort does to the files that it reads and writes.

use vstd::prelude::*;
use crate::external_sort;
use crate::external_sort::{RunId, SortEvent, SortModel, SortStep};
use crate::layout::{EXTERNAL_SORT_CHUNK_RECORDS, MAX_MERGE_FANOUT, MTIME_RECORD_SIZE};
use crate::merge_files;
use crate::merge_files::MergeFiles;
use crate::record;
use crate::record::MtimeRecord;
use crate::run_merge::{MergeEvent, MergeStep, RunMergeModel};
use crate::stored_index;

verus! {

/// What the files hold that an external sort works with.
pub struct SortFiles {
    /// The input, which a sort does not change.
    pub input: Seq<u8>,
    /// How many bytes of the input were read.
    pub read: int,
    /// The runs that there are.
    pub runs: Map<RunId, Seq<u8>>,
    /// The output; none where there is no such file.
    pub output: Option<Seq<u8>>,
}

/// What the runs hold that `m` merges next.
pub open spec fn group_files(m: SortModel, files: SortFiles) -> Seq<Seq<u8>> {
    Seq::new(m.group().len(), |i: int| files.runs[m.group()[i]])
}

/// `merge` has finished a merge of files that hold `inputs`, and has left
/// `output`, as [`crate::merge_files`] shows of one.
pub open spec fn is_merge_of(
    merge: RunMergeModel,
    inputs: Seq<Seq<u8>>,
    output: Seq<u8>,
) -> bool {
    &&& merge.is_sound()
    &&& merge.step == MergeStep::Finished
    &&& merge.consumed == merge_files::records_in_files(inputs)
    &&& output == record::records_file(merge.written)
}

/// A merge that has finished, its steps performed on files, is one of those
/// files.
pub proof fn performed_merge_is_merge_of_its_inputs(
    events: Seq<MergeEvent>,
    files: Seq<MergeFiles>,
)
    requires
        files.len() > 0,
        files[0].inputs.len() <= MAX_MERGE_FANOUT,
        merge_files::are_performed(events, files),
        merge_files::after_all(files[0].inputs.len(), events).step == MergeStep::Finished,
    ensures
        files.last().output is Some,
        is_merge_of(
            merge_files::after_all(files[0].inputs.len(), events),
            files[0].inputs,
            files.last().output->0,
        ),
{
    merge_files::finished_merge_leaves_its_file(events, files);
}

/// The next bytes of the input: as many as make up a chunk, or all that are left.
pub open spec fn next_chunk(files: SortFiles) -> Seq<u8> {
    let rest = files.input.skip(files.read);
    let limit = EXTERNAL_SORT_CHUNK_RECORDS * MTIME_RECORD_SIZE;
    if rest.len() <= limit {
        rest
    } else {
        rest.take(limit)
    }
}

/// Performing the step that `m` asks for, with `event` coming of it, turns files
/// that hold `before` into ones that hold `after`. What writing a run or the
/// output leaves in it after a failure is left open, and removing runs may remove
/// some of them or none.
pub open spec fn is_performed(
    m: SortModel,
    event: SortEvent,
    before: SortFiles,
    after: SortFiles,
) -> bool {
    match (m.step, event) {
        (SortStep::CreateEmptyOutput, SortEvent::Succeeded) => after == (SortFiles {
            output: Some(Seq::empty()),
            ..before
        }),
        (SortStep::ReadChunk, SortEvent::Chunk(bytes)) => {
            &&& bytes@ == next_chunk(before)
            &&& after == (SortFiles { read: before.read + bytes@.len(), ..before })
        },
        (SortStep::WriteRun(run), SortEvent::Succeeded) => after == (SortFiles {
            runs: before.runs.insert(run, record::records_file(m.chunk)),
            ..before
        }),
        (SortStep::MergeGroup(run), SortEvent::Succeeded) => {
            &&& after == (SortFiles {
                runs: before.runs.insert(run, after.runs[run]),
                ..before
            })
            &&& exists|merge: RunMergeModel| #[trigger]
                is_merge_of(merge, group_files(m, before), after.runs[run])
        },
        (SortStep::RemoveGroup, SortEvent::Succeeded | SortEvent::Failed) => {
            &&& after == (SortFiles { runs: after.runs, ..before })
            &&& forall|run: RunId|
                before.runs.dom().contains(run) && !m.group().contains(run) ==> {
                    &&& after.runs.dom().contains(run)
                    &&& #[trigger] after.runs[run] == before.runs[run]
                }
        },
        (SortStep::Promote(run), SortEvent::Succeeded) => {
            &&& before.runs.dom().contains(run)
            &&& after == (SortFiles {
                runs: before.runs.remove(run),
                output: Some(before.runs[run]),
                ..before
            })
        },
        (SortStep::CreateEmptyOutput, SortEvent::Failed) => after == (SortFiles {
            output: after.output,
            ..before
        }),
        (
            SortStep::WriteRun(_) | SortStep::MergeGroup(_) | SortStep::CleanUp(_),
            SortEvent::Failed,
        ) | (SortStep::CleanUp(_), SortEvent::Succeeded) => after == (SortFiles {
            runs: after.runs,
            ..before
        }),
        _ => after == before,
    }
}

/// The state of a sort of `expected` records after all of `events`.
pub open spec fn after_all(expected: u64, events: Seq<SortEvent>) -> SortModel
    decreases events.len(),
{
    if events.len() == 0 {
        SortModel::start(expected)
    } else {
        after_all(expected, events.drop_last()).after(events.last())
    }
}

/// `files` are what the files hold at the start of a sort, when nothing is read,
/// and after each of `events`.
pub open spec fn are_performed(
    expected: u64,
    events: Seq<SortEvent>,
    files: Seq<SortFiles>,
) -> bool {
    &&& files.len() == events.len() + 1
    &&& files[0].read == 0
    &&& forall|i: int|
        0 <= i < events.len() ==> is_performed(
            after_all(expected, events.take(i)),
            #[trigger] events[i],
            files[i],
            files[i + 1],
        )
}

/// This run is there and holds these records.
pub open spec fn holds_run(files: SortFiles, run: RunId, records: Seq<MtimeRecord>) -> bool {
    &&& files.runs.dom().contains(run)
    &&& files.runs[run] == record::records_file(records)
}

/// The first run of this round that still counts.
pub open spec fn first_live_run(m: SortModel) -> nat {
    if m.step == SortStep::RemoveGroup {
        m.group_end()
    } else {
        m.position
    }
}

/// Every run of a sort that still counts is there and holds its records.
pub open spec fn holds_live_runs(m: SortModel, files: SortFiles) -> bool {
    &&& forall|i: int|
        first_live_run(m) <= i < m.runs.len() ==> holds_run(
            files,
            #[trigger] m.runs[i],
            m.run_records[i],
        )
    &&& forall|i: int|
        0 <= i < m.merged.len() ==> holds_run(
            files,
            #[trigger] m.merged[i],
            m.merged_records[i],
        )
}

/// What a sort has read is the beginning of what the input holds; its runs hold
/// what it has written, and once it has finished, so does the output.
pub open spec fn agrees_with_files(m: SortModel, files: SortFiles) -> bool {
    &&& m.input.is_prefix_of(record::records_in_file(files.input))
    &&& match m.step {
        SortStep::OpenInput | SortStep::ReadChunk => files.read == m.input.len()
            * MTIME_RECORD_SIZE && holds_live_runs(m, files),
        SortStep::WriteRun(_) => (!m.exhausted ==> files.read == m.input.len() * MTIME_RECORD_SIZE)
            && holds_live_runs(m, files),
        SortStep::MergeGroup(_) | SortStep::RemoveGroup | SortStep::Promote(_) => holds_live_runs(
            m,
            files,
        ),
        SortStep::Finished => files.output == Some(record::records_file(m.output())),
        SortStep::CreateEmptyOutput | SortStep::CleanUp(_) | SortStep::Failed(_) => true,
    }
}

proof fn lemma_chunk_goes_on(files: SortFiles, input: Seq<MtimeRecord>)
    requires
        input.is_prefix_of(record::records_in_file(files.input)),
        files.read == input.len() * MTIME_RECORD_SIZE,
    ensures
        ({
            let records = record::records_in_file(next_chunk(files));
            &&& (input + records).is_prefix_of(record::records_in_file(files.input))
            &&& records.len() >= EXTERNAL_SORT_CHUNK_RECORDS ==> files.read + next_chunk(
                files,
            ).len() == (input.len() + records.len()) * MTIME_RECORD_SIZE
        }),
{
    let chunk = next_chunk(files);
    let held = record::records_in_file(files.input);
    let records = record::records_in_file(chunk);
    let so_far = input + records;
    assert(so_far.len() <= held.len());
    assert forall|i: int| 0 <= i < so_far.len() implies so_far[i] == held[i] by {
        if i >= input.len() {
            let k = i - input.len();
            assert(chunk.subrange(k * MTIME_RECORD_SIZE, k * MTIME_RECORD_SIZE + MTIME_RECORD_SIZE)
                =~= files.input.subrange(
                i * MTIME_RECORD_SIZE,
                i * MTIME_RECORD_SIZE + MTIME_RECORD_SIZE,
            ));
        }
    }
    assert(so_far =~= held.take(so_far.len() as int));
}

proof fn lemma_merge_is_held(
    m: SortModel,
    run: RunId,
    before: SortFiles,
    after: SortFiles,
)
    requires
        m.is_sound(),
        m.step == SortStep::MergeGroup(run),
        holds_live_runs(m, before),
        is_performed(m, SortEvent::Succeeded, before, after),
    ensures
        holds_run(after, run, record::chronological(m.group_records().flatten())),
{
    let inputs = group_files(m, before);
    let merge = choose|merge: RunMergeModel| #[trigger]
        is_merge_of(merge, inputs, after.runs[run]);
    assert forall|i: int| 0 <= i < inputs.len() implies merge.consumed[i]
        == m.group_records()[i] by {
        let k = m.position + i;
        assert(m.group()[i] == m.runs[k]);
        assert(holds_run(before, m.runs[k], m.run_records[k]));
        record::records_file_round_trips(m.run_records[k]);
    }
    assert(merge.consumed =~= m.group_records());
    stored_index::merge_writes_run_of_sort(m, run, merge);
    let n = m.after(SortEvent::Succeeded);
    assert(n.merged_records.last() == merge.written);
}

proof fn lemma_removal_keeps_live_runs(
    m: SortModel,
    event: SortEvent,
    before: SortFiles,
    after: SortFiles,
)
    requires
        m.is_sound(),
        m.step == SortStep::RemoveGroup,
        event is Succeeded || event is Failed,
        holds_live_runs(m, before),
        is_performed(m, event, before, after),
    ensures
        holds_live_runs(m, after),
{
    assert forall|i: int| first_live_run(m) <= i < m.runs.len() implies holds_run(
        after,
        #[trigger] m.runs[i],
        m.run_records[i],
    ) by {
        assert(holds_run(before, m.runs[i], m.run_records[i]));
        if m.group().contains(m.runs[i]) {
            let k = choose|k: int| 0 <= k < m.group().len() && m.group()[k] == m.runs[i];
            assert(m.runs[m.position + k] == m.runs[i]);
        }
        assert(after.runs[m.runs[i]] == before.runs[m.runs[i]]);
    }
    assert forall|i: int| 0 <= i < m.merged.len() implies holds_run(
        after,
        #[trigger] m.merged[i],
        m.merged_records[i],
    ) by {
        assert(holds_run(before, m.merged[i], m.merged_records[i]));
        if m.group().contains(m.merged[i]) {
            let k = choose|k: int| 0 <= k < m.group().len() && m.group()[k] == m.merged[i];
            assert(m.runs[m.position + k] == m.merged[i]);
        }
        assert(after.runs[m.merged[i]] == before.runs[m.merged[i]]);
    }
}

proof fn lemma_step_agrees_with_files(
    m: SortModel,
    event: SortEvent,
    before: SortFiles,
    after: SortFiles,
)
    requires
        m.is_sound(),
        agrees_with_files(m, before),
        is_performed(m, event, before, after),
    ensures
        agrees_with_files(m.after(event), after),
        after.input == before.input,
{
    let n = m.after(event);
    match (m.step, event) {
        (SortStep::CreateEmptyOutput, SortEvent::Succeeded) => {
            assert(record::records_file(Seq::empty()) =~= Seq::<u8>::empty());
        },
        (SortStep::ReadChunk, SortEvent::Chunk(bytes)) => {
            lemma_chunk_goes_on(before, m.input);
        },
        (SortStep::WriteRun(run), SortEvent::Succeeded) => {
            external_sort::sort_writes_only_new_runs(m, run);
            assert forall|i: int| 0 <= i < n.runs.len() implies holds_run(
                after,
                #[trigger] n.runs[i],
                n.run_records[i],
            ) by {
                if i < m.runs.len() {
                    assert(holds_run(before, m.runs[i], m.run_records[i]));
                    assert(m.runs.contains(m.runs[i]));
                }
            }
        },
        (SortStep::MergeGroup(run), SortEvent::Succeeded) => {
            external_sort::sort_writes_only_new_runs(m, run);
            lemma_merge_is_held(m, run, before, after);
            assert forall|i: int| first_live_run(n) <= i < n.runs.len() implies holds_run(
                after,
                #[trigger] n.runs[i],
                n.run_records[i],
            ) by {
                assert(holds_run(before, m.runs[i], m.run_records[i]));
                assert(m.runs.contains(m.runs[i]));
            }
            assert forall|i: int| 0 <= i < n.merged.len() implies holds_run(
                after,
                #[trigger] n.merged[i],
                n.merged_records[i],
            ) by {
                if i < m.merged.len() {
                    assert(holds_run(before, m.merged[i], m.merged_records[i]));
                    assert(m.merged.contains(m.merged[i]));
                }
            }
        },
        (SortStep::RemoveGroup, SortEvent::Succeeded | SortEvent::Failed) => {
            lemma_removal_keeps_live_runs(m, event, before, after);
            if m.group_end() == m.runs.len() {
                assert forall|i: int| 0 <= i < n.runs.len() implies holds_run(
                    after,
                    #[trigger] n.runs[i],
                    n.run_records[i],
                ) by {
                    assert(holds_run(after, m.merged[i], m.merged_records[i]));
                }
            } else {
                assert forall|i: int| first_live_run(n) <= i < n.runs.len() implies holds_run(
                    after,
                    #[trigger] n.runs[i],
                    n.run_records[i],
                ) by {
                    assert(holds_run(after, m.runs[i], m.run_records[i]));
                }
            }
        },
        (SortStep::Promote(run), SortEvent::Succeeded) => {
            assert(holds_run(before, m.runs[0], m.run_records[0]));
        },
        _ => {},
    }
}

/// A sort that has finished has read records from the beginning of its input on,
/// and leaves an output with exactly the records of [`SortModel::output`]. There
/// may be no more steps than runs can be numbered.
pub proof fn finished_sort_leaves_its_file(
    expected: u64,
    events: Seq<SortEvent>,
    files: Seq<SortFiles>,
)
    requires
        are_performed(expected, events, files),
        events.len() <= u64::MAX,
    ensures
        ({
            let end = after_all(expected, events);
            &&& end.is_sound()
            &&& end.expected == expected
            &&& end.runs.len() <= events.len()
            &&& agrees_with_files(end, files.last())
            &&& files.last().input == files[0].input
            &&& end.step == SortStep::Finished ==> {
                &&& end.input.is_prefix_of(record::records_in_file(files[0].input))
                &&& files.last().output == Some(record::records_file(end.output()))
            }
        }),
    decreases events.len(),
{
    let end = after_all(expected, events);
    if events.len() == 0 {
        external_sort::sort_starts_sound(expected);
    } else {
        let front = events.drop_last();
        let earlier = files.drop_last();
        assert forall|i: int| 0 <= i < front.len() implies is_performed(
            after_all(expected, front.take(i)),
            #[trigger] front[i],
            earlier[i],
            earlier[i + 1],
        ) by {
            assert(front[i] == events[i]);
            assert(front.take(i) =~= events.take(i));
        }
        finished_sort_leaves_its_file(expected, front, earlier);
        let i = events.len() - 1;
        assert(is_performed(
            after_all(expected, events.take(i)),
            events[i],
            files[i],
            files[i + 1],
        ));
        assert(events.take(i) =~= front);
        assert(earlier.last() == files[i]);
        let m = after_all(expected, front);
        assert(end.runs.len() <= m.runs.len() + 1 && end.expected == m.expected);
        external_sort::sort_stays_sound(m, events.last());
        lemma_step_agrees_with_files(m, events.last(), files[i], files[i + 1]);
    }
}

} // verus!
