//! Sorting more records than fit in memory.
//!
//! The input is cut into chunks that fit in memory. Each is sorted and written
//! as a run; then runs are merged, up to [`MAX_MERGE_FANOUT`] at a time and in
//! as many rounds as it takes, until one is left.

use vstd::prelude::*;
use vstd::seq_lib;
use crate::error::ChronoIndexError;
use crate::layout::{EXTERNAL_SORT_CHUNK_RECORDS, MAX_MERGE_FANOUT};
use crate::record;
use crate::record::{decode_mtime_records, encode_mtime_records, MtimeRecord};
use crate::run_merge;
use crate::sort::sort_chronologically;

verus! {

/// A run of sorted records in the scratch directory.
#[derive(Debug, Clone, Copy, PartialEq, Eq, Structural)]
pub enum RunId {
    /// The run made of this chunk of the input.
    Initial(u64),
    /// The run that this group of this merge round was merged into.
    Merged { round: u64, group: u64 },
}

/// What an external sort needs done next.
#[derive(Debug, Clone, Copy, PartialEq, Eq, Structural)]
pub enum SortStep {
    /// Create the output, empty, and make it durable: there is nothing to sort.
    CreateEmptyOutput,
    /// Open the input for reading.
    OpenInput,
    /// Read the next [`EXTERNAL_SORT_CHUNK_RECORDS`] records of the input, or
    /// as many as are left.
    ReadChunk,
    /// Write [`ExternalSort::run_bytes`] as this run and make it durable.
    WriteRun(RunId),
    /// Merge the runs of [`ExternalSort::group`] into this run.
    MergeGroup(RunId),
    /// Remove the runs of [`ExternalSort::group`], which are merged.
    RemoveGroup,
    /// Rename this run to the output.
    Promote(RunId),
    /// Remove the runs of [`ExternalSort::leftovers`]: the sort has failed.
    CleanUp(ChronoIndexError),
    /// Nothing: the output is there.
    Finished,
    /// Nothing: the sort failed.
    Failed(ChronoIndexError),
}

/// What came of a step.
#[derive(Debug)]
pub enum SortEvent {
    Succeeded,
    Failed,
    /// The bytes that were read.
    Chunk(Vec<u8>),
}

/// The state of an external sort as its contract speaks of it.
#[verifier::ext_equal]
pub struct SortModel {
    pub step: SortStep,
    /// How many records the input is said to hold.
    pub expected: u64,
    /// All records that were read from the input.
    pub input: Seq<MtimeRecord>,
    /// The sorted chunk that waits to be written as a run.
    pub chunk: Seq<MtimeRecord>,
    /// The input holds no further record.
    pub exhausted: bool,
    /// The runs of this round, and the records of each.
    pub runs: Seq<RunId>,
    pub run_records: Seq<Seq<MtimeRecord>>,
    /// The runs that this round has merged so far, and the records of each.
    pub merged: Seq<RunId>,
    pub merged_records: Seq<Seq<MtimeRecord>>,
    /// The first run of this round that is not merged yet.
    pub position: nat,
    pub round: u64,
    /// The runs to remove after a failure.
    pub leftovers: Seq<RunId>,
}

impl SortModel {
    /// The state before anything is done. `expected` is the number of records
    /// that the input is said to hold.
    pub open spec fn start(expected: u64) -> SortModel {
        SortModel {
            step: if expected == 0 {
                SortStep::CreateEmptyOutput
            } else {
                SortStep::OpenInput
            },
            expected,
            input: Seq::empty(),
            chunk: Seq::empty(),
            exhausted: false,
            runs: Seq::empty(),
            run_records: Seq::empty(),
            merged: Seq::empty(),
            merged_records: Seq::empty(),
            position: 0,
            round: 0,
            leftovers: Seq::empty(),
        }
    }

    pub open spec fn at(self, step: SortStep) -> SortModel {
        SortModel { step, ..self }
    }

    pub open spec fn failing(self, error: ChronoIndexError, leftovers: Seq<RunId>) -> SortModel {
        SortModel { step: SortStep::CleanUp(error), leftovers, ..self }
    }

    /// Where the group of runs that is merged next ends.
    pub open spec fn group_end(self) -> nat {
        if self.position + MAX_MERGE_FANOUT < self.runs.len() {
            self.position + MAX_MERGE_FANOUT as nat
        } else {
            self.runs.len()
        }
    }

    /// The runs that are merged next.
    pub open spec fn group(self) -> Seq<RunId> {
        self.runs.subrange(self.position as int, self.group_end() as int)
    }

    /// The records of the runs that are merged next.
    pub open spec fn group_records(self) -> Seq<Seq<MtimeRecord>> {
        self.run_records.subrange(self.position as int, self.group_end() as int)
    }

    /// Goes on to merge the next group of runs.
    pub open spec fn with_next_group(self) -> SortModel {
        self.at(
            SortStep::MergeGroup(
                RunId::Merged { round: self.round, group: self.merged.len() as u64 },
            ),
        )
    }

    /// Goes on once the runs of a round are known: one run is the output, and
    /// no run at all is a failure.
    pub open spec fn with_runs_known(self) -> SortModel {
        if self.runs.len() == 0 {
            self.at(SortStep::Failed(ChronoIndexError::BuildIo))
        } else if self.runs.len() == 1 {
            self.at(SortStep::Promote(self.runs[0]))
        } else {
            self.with_next_group()
        }
    }

    /// Goes on once the input is read: the runs count only where it held as
    /// many records as expected.
    pub open spec fn with_input_read(self) -> SortModel {
        if self.input.len() == self.expected {
            self.with_runs_known()
        } else {
            self.failing(ChronoIndexError::BuildIo, self.runs)
        }
    }

    /// Goes on once a group is merged: to the next group, or to the next round
    /// with the merged runs.
    pub open spec fn with_group_merged(self) -> SortModel {
        if self.group_end() < self.runs.len() {
            (SortModel { position: self.group_end(), ..self }).with_next_group()
        } else {
            (SortModel {
                runs: self.merged,
                run_records: self.merged_records,
                merged: Seq::empty(),
                merged_records: Seq::empty(),
                position: 0,
                round: if self.round < u64::MAX {
                    (self.round + 1) as u64
                } else {
                    u64::MAX
                },
                ..self
            }).with_runs_known()
        }
    }

    /// The state after `event`. An event that does not answer the step leaves
    /// the state as it is.
    pub open spec fn after(self, event: SortEvent) -> SortModel {
        match (self.step, event) {
            (SortStep::CreateEmptyOutput, SortEvent::Succeeded) => self.at(SortStep::Finished),
            (SortStep::OpenInput, SortEvent::Succeeded) => self.at(SortStep::ReadChunk),
            (SortStep::ReadChunk, SortEvent::Chunk(bytes)) => {
                let records = record::records_in_file(bytes@);
                if records.len() == 0 {
                    self.with_input_read()
                } else {
                    SortModel {
                        step: SortStep::WriteRun(RunId::Initial(self.runs.len() as u64)),
                        input: self.input + records,
                        chunk: record::chronological(records),
                        exhausted: records.len() < EXTERNAL_SORT_CHUNK_RECORDS,
                        ..self
                    }
                }
            },
            (SortStep::WriteRun(run), SortEvent::Succeeded) => {
                let written = SortModel {
                    runs: self.runs.push(run),
                    run_records: self.run_records.push(self.chunk),
                    chunk: Seq::empty(),
                    ..self
                };
                if self.exhausted {
                    written.with_input_read()
                } else {
                    written.at(SortStep::ReadChunk)
                }
            },
            (SortStep::WriteRun(run), SortEvent::Failed) => self.failing(
                ChronoIndexError::BuildIo,
                self.runs.push(run),
            ),
            (SortStep::MergeGroup(run), SortEvent::Succeeded) => (SortModel {
                step: SortStep::RemoveGroup,
                merged: self.merged.push(run),
                merged_records: self.merged_records.push(
                    record::chronological(self.group_records().flatten()),
                ),
                ..self
            }),
            (SortStep::MergeGroup(run), SortEvent::Failed) => self.failing(
                ChronoIndexError::BuildIo,
                (self.runs + self.merged).push(run),
            ),
            (SortStep::RemoveGroup, SortEvent::Succeeded) => self.with_group_merged(),
            (SortStep::RemoveGroup, SortEvent::Failed) => self.with_group_merged(),
            (SortStep::Promote(_), SortEvent::Succeeded) => self.at(SortStep::Finished),
            (SortStep::Promote(run), SortEvent::Failed) => self.failing(
                ChronoIndexError::RenameIo,
                seq![run],
            ),
            (SortStep::CleanUp(error), SortEvent::Succeeded) => self.at(SortStep::Failed(error)),
            (SortStep::CleanUp(error), SortEvent::Failed) => self.at(SortStep::Failed(error)),
            (SortStep::CreateEmptyOutput, SortEvent::Failed) => self.at(
                SortStep::Failed(ChronoIndexError::BuildIo),
            ),
            (SortStep::OpenInput, SortEvent::Failed) => self.at(
                SortStep::Failed(ChronoIndexError::BuildIo),
            ),
            (SortStep::ReadChunk, SortEvent::Failed) => self.at(
                SortStep::Failed(ChronoIndexError::BuildIo),
            ),
            _ => self,
        }
    }

    /// The records of the output of a sort that has finished.
    pub open spec fn output(self) -> Seq<MtimeRecord> {
        if self.runs.len() == 0 {
            Seq::empty()
        } else {
            self.run_records[0]
        }
    }

    /// The records of the runs that still count: those merged in this round
    /// and those not merged yet.
    pub open spec fn live_records(self) -> Seq<Seq<MtimeRecord>> {
        self.merged_records + self.run_records.skip(
            if self.step == SortStep::RemoveGroup {
                self.group_end() as int
            } else {
                self.position as int
            },
        )
    }

    /// The runs of the current round are named by their place in it.
    pub open spec fn runs_are_named(self) -> bool {
        &&& forall|i: int|
            0 <= i < self.runs.len() ==> #[trigger] self.runs[i] == if self.round == 0 {
                RunId::Initial(i as u64)
            } else {
                RunId::Merged { round: (self.round - 1) as u64, group: i as u64 }
            }
        &&& forall|i: int|
            0 <= i < self.merged.len() ==> #[trigger] self.merged[i] == (RunId::Merged {
                round: self.round,
                group: i as u64,
            })
    }

    /// What holds of an external sort at every step, until it fails.
    pub open spec fn is_sound(self) -> bool {
        &&& self.runs.len() == self.run_records.len()
        &&& self.merged.len() == self.merged_records.len()
        &&& self.position <= self.runs.len()
        &&& self.round + self.runs.len() <= u64::MAX
        &&& self.merged.len() <= self.runs.len()
        &&& self.runs_are_named()
        &&& run_merge::runs_are_sorted(self.run_records)
        &&& run_merge::runs_are_sorted(self.merged_records)
        &&& run_merge::records_of_runs(self.live_records()).add(self.chunk.to_multiset())
            == self.input.to_multiset()
        &&& match self.step {
            SortStep::WriteRun(run) => {
                &&& self.merged.len() == 0 && self.position == 0 && self.round == 0
                &&& run == RunId::Initial(self.runs.len() as u64)
                &&& record::is_chronological(self.chunk)
                &&& self.input.len() > 0
            },
            SortStep::ReadChunk => {
                &&& self.merged.len() == 0 && self.position == 0 && self.round == 0
                &&& self.chunk.len() == 0
                &&& self.runs.len() == 0 ==> self.input.len() == 0
                &&& !self.exhausted
            },
            SortStep::MergeGroup(run) => {
                &&& self.chunk.len() == 0
                &&& self.input.len() == self.expected
                &&& self.runs.len() > 1
                &&& self.position < self.runs.len()
                &&& self.position == self.merged.len() * MAX_MERGE_FANOUT
                &&& run == RunId::Merged { round: self.round, group: self.merged.len() as u64 }
            },
            SortStep::RemoveGroup => {
                &&& self.chunk.len() == 0
                &&& self.input.len() == self.expected
                &&& self.runs.len() > 1
                &&& self.position < self.runs.len()
                &&& self.merged.len() > 0
                &&& self.position == (self.merged.len() - 1) * MAX_MERGE_FANOUT
            },
            SortStep::Promote(run) => {
                &&& self.chunk.len() == 0
                &&& self.input.len() == self.expected
                &&& self.runs.len() == 1
                &&& self.merged.len() == 0
                &&& self.position == 0
                &&& run == self.runs[0]
            },
            SortStep::CreateEmptyOutput | SortStep::OpenInput => {
                &&& self.step == SortStep::CreateEmptyOutput ==> self.expected == 0
                &&& self.merged.len() == 0 && self.position == 0 && self.round == 0
                &&& self.runs.len() == 0
                &&& self.input.len() == 0
                &&& self.chunk.len() == 0
                &&& !self.exhausted
            },
            SortStep::Finished => {
                &&& self.chunk.len() == 0
                &&& self.input.len() == self.expected
                &&& self.runs.len() <= 1
                &&& self.merged.len() == 0
                &&& self.position == 0
                &&& self.runs.len() == 0 ==> self.input.len() == 0
            },
            SortStep::CleanUp(_) | SortStep::Failed(_) => true,
        }
    }
}

proof fn lemma_records_of_runs_concat(a: Seq<Seq<MtimeRecord>>, b: Seq<Seq<MtimeRecord>>)
    ensures
        run_merge::records_of_runs(a + b) == run_merge::records_of_runs(a).add(
            run_merge::records_of_runs(b),
        ),
    decreases b.len(),
{
    if b.len() == 0 {
        assert(a + b =~= a);
        assert(run_merge::records_of_runs(a) =~= run_merge::records_of_runs(a).add(
            run_merge::records_of_runs(b),
        ));
    } else {
        lemma_records_of_runs_concat(a, b.drop_last());
        assert((a + b).drop_last() =~= a + b.drop_last());
        assert(run_merge::records_of_runs(a + b) =~= run_merge::records_of_runs(a).add(
            run_merge::records_of_runs(b),
        ));
    }
}

proof fn lemma_records_of_one_run(run: Seq<MtimeRecord>)
    ensures
        run_merge::records_of_runs(seq![run]) == run.to_multiset(),
{
    reveal_with_fuel(run_merge::records_of_runs, 2);
    assert(seq![run].drop_last() =~= Seq::<Seq<MtimeRecord>>::empty());
    assert(run_merge::records_of_runs(seq![run]) =~= run.to_multiset());
}

proof fn lemma_no_records(records: Seq<MtimeRecord>)
    requires
        records.len() == 0,
    ensures
        records.to_multiset() == vstd::multiset::Multiset::<MtimeRecord>::empty(),
{
    records.to_multiset_ensures();
    seq_lib::to_multiset_len(records);
    assert(records.to_multiset() =~= vstd::multiset::Multiset::empty());
}

/// A sort starts sound.
pub proof fn sort_starts_sound(expected: u64)
    ensures
        SortModel::start(expected).is_sound(),
{
    let m = SortModel::start(expected);
    assert(m.live_records() =~= Seq::empty());
    lemma_no_records(m.chunk);
    assert(run_merge::records_of_runs(m.live_records()).add(m.chunk.to_multiset())
        =~= m.input.to_multiset());
}

proof fn lemma_runs_known_is_sound(m: SortModel)
    requires
        m.chunk.len() == 0,
        m.input.len() == m.expected,
        m.merged.len() == 0,
        m.merged_records.len() == 0,
        m.position == 0,
        m.runs.len() == m.run_records.len(),
        m.round + m.runs.len() <= u64::MAX,
        m.runs_are_named(),
        run_merge::runs_are_sorted(m.run_records),
        run_merge::records_of_runs(m.run_records) == m.input.to_multiset(),
    ensures
        m.with_runs_known().is_sound(),
{
    let n = m.with_runs_known();
    assert(n.live_records() =~= m.run_records);
    lemma_no_records(m.chunk);
    assert(run_merge::records_of_runs(m.run_records).add(m.chunk.to_multiset())
        =~= m.input.to_multiset());
}

/// Whatever comes of a step, a sound sort stays sound.
pub proof fn sort_stays_sound(m: SortModel, event: SortEvent)
    requires
        m.is_sound(),
        m.after(event).runs.len() <= u64::MAX,
    ensures
        m.after(event).is_sound(),
{
    let n = m.after(event);
    match (m.step, event) {
        (SortStep::ReadChunk, SortEvent::Chunk(bytes)) => {
            let records = record::records_in_file(bytes@);
            assert(m.live_records() =~= m.run_records);
            lemma_no_records(m.chunk);
            assert(run_merge::records_of_runs(m.run_records) =~= m.input.to_multiset());
            if records.len() == 0 {
                if m.input.len() == m.expected {
                    lemma_runs_known_is_sound(m);
                } else {
                    assert(n.live_records() =~= m.live_records());
                }
            } else {
                record::lemma_chronological_sorts(records);
                seq_lib::lemma_multiset_commutative(m.input, records);
                assert(n.live_records() =~= m.run_records);
            }
        },
        (SortStep::WriteRun(run), SortEvent::Succeeded) => {
            let written = SortModel {
                runs: m.runs.push(run),
                run_records: m.run_records.push(m.chunk),
                chunk: Seq::empty(),
                ..m
            };
            assert(m.live_records() =~= m.run_records);
            assert(written.run_records =~= m.run_records + seq![m.chunk]);
            lemma_records_of_runs_concat(m.run_records, seq![m.chunk]);
            lemma_records_of_one_run(m.chunk);
            lemma_no_records(Seq::<MtimeRecord>::empty());
            if m.exhausted && m.input.len() == m.expected {
                lemma_runs_known_is_sound(written);
            } else {
                assert(n.live_records() =~= written.run_records);
                assert(run_merge::records_of_runs(n.live_records()).add(n.chunk.to_multiset())
                    =~= n.input.to_multiset());
            }
        },
        (SortStep::MergeGroup(_), SortEvent::Succeeded) => {
            let group = m.group_records();
            let rest = m.run_records.skip(m.group_end() as int);
            let merged = record::chronological(group.flatten());
            record::lemma_chronological_sorts(group.flatten());
            run_merge::lemma_records_of_runs_is_flatten(group);
            lemma_records_of_one_run(merged);
            assert(m.live_records() =~= m.merged_records + (group + rest));
            assert(n.live_records() =~= m.merged_records + (seq![merged] + rest));
            lemma_records_of_runs_concat(m.merged_records, group + rest);
            lemma_records_of_runs_concat(group, rest);
            lemma_records_of_runs_concat(m.merged_records, seq![merged] + rest);
            lemma_records_of_runs_concat(seq![merged], rest);
        },
        (SortStep::RemoveGroup, SortEvent::Succeeded) | (
            SortStep::RemoveGroup,
            SortEvent::Failed,
        ) => {
            if m.group_end() < m.runs.len() {
                assert(n.live_records() =~= m.live_records());
            } else {
                assert(m.live_records() =~= m.merged_records);
                lemma_no_records(m.chunk);
                assert(run_merge::records_of_runs(m.merged_records) =~= m.input.to_multiset());
                lemma_runs_known_is_sound(
                    SortModel {
                        runs: m.merged,
                        run_records: m.merged_records,
                        merged: Seq::empty(),
                        merged_records: Seq::empty(),
                        position: 0,
                        round: (m.round + 1) as u64,
                        ..m
                    },
                );
            }
        },
        _ => {
            assert(n.live_records() =~= m.live_records());
        },
    }
}

/// A finished sort has put exactly the records that it read, in chronological
/// order, into its output.
pub proof fn finished_sort_is_chronological(m: SortModel)
    requires
        m.is_sound(),
        m.step == SortStep::Finished,
    ensures
        m.output() == record::chronological(m.input),
{
    lemma_no_records(m.chunk);
    if m.runs.len() == 0 {
        record::lemma_chronological_sorts(m.input);
        assert(record::chronological(m.input) =~= Seq::empty());
    } else {
        assert(m.live_records() =~= seq![m.output()]);
        lemma_records_of_one_run(m.output());
        assert(m.output().to_multiset() =~= m.input.to_multiset());
        record::lemma_chronological_unique(m.output(), m.input);
    }
}

/// A finished sort has as many records in its output as the input was said to
/// hold: one that is cut short is not passed off as complete.
pub proof fn finished_sort_has_expected_records(m: SortModel)
    requires
        m.is_sound(),
        m.step == SortStep::Finished,
    ensures
        m.output().len() == m.expected,
{
    finished_sort_is_chronological(m);
    record::lemma_chronological_sorts(m.input);
}

/// No run is ever written over another that still counts: the run that a sort
/// writes or merges into is none of those it has.
pub proof fn sort_writes_only_new_runs(m: SortModel, run: RunId)
    requires
        m.is_sound(),
        m.step == SortStep::WriteRun(run) || m.step == SortStep::MergeGroup(run),
    ensures
        !m.runs.contains(run),
        !m.merged.contains(run),
{
}

/// A round of merging leaves one run for every [`MAX_MERGE_FANOUT`] runs, the
/// last group counted even if it is smaller; so every round leaves fewer.
pub proof fn merge_round_shrinks(m: SortModel, event: SortEvent)
    requires
        m.is_sound(),
        m.step == SortStep::RemoveGroup,
        m.group_end() == m.runs.len(),
        event is Succeeded || event is Failed,
    ensures
        m.after(event).runs.len() == (m.runs.len() + MAX_MERGE_FANOUT - 1) / (
        MAX_MERGE_FANOUT as int),
        m.after(event).runs.len() < m.runs.len(),
{
}

/// An external sort in progress.
pub struct ExternalSort {
    step: SortStep,
    /// How many records are still expected; none where there were too many.
    remaining: Option<u64>,
    expected: Ghost<u64>,
    chunk: Vec<MtimeRecord>,
    exhausted: bool,
    runs: Vec<RunId>,
    merged: Vec<RunId>,
    position: usize,
    round: u64,
    leftovers: Vec<RunId>,
    input: Ghost<Seq<MtimeRecord>>,
    run_records: Ghost<Seq<Seq<MtimeRecord>>>,
    merged_records: Ghost<Seq<Seq<MtimeRecord>>>,
}

impl View for ExternalSort {
    type V = SortModel;

    closed spec fn view(&self) -> SortModel {
        SortModel {
            step: self.step,
            expected: self.expected@,
            input: self.input@,
            chunk: self.chunk@,
            exhausted: self.exhausted,
            runs: self.runs@,
            run_records: self.run_records@,
            merged: self.merged@,
            merged_records: self.merged_records@,
            position: self.position as nat,
            round: self.round,
            leftovers: self.leftovers@,
        }
    }
}

/// How many of `expected` records are left after `read`, unless there were more.
pub open spec fn records_remaining(expected: u64, read: nat) -> Option<u64> {
    if read <= expected {
        Some((expected - read) as u64)
    } else {
        None
    }
}

/// `runs` from `start` on, up to `end`.
fn copy_runs(runs: &Vec<RunId>, start: usize, end: usize) -> (copy: Vec<RunId>)
    requires
        start <= end <= runs@.len(),
    ensures
        copy@ == runs@.subrange(start as int, end as int),
{
    let mut copy: Vec<RunId> = Vec::new();
    let mut i: usize = start;
    assert(runs@.subrange(start as int, start as int) =~= Seq::<RunId>::empty());
    while i < end
        invariant
            start <= i <= end <= runs@.len(),
            copy@ == runs@.subrange(start as int, i as int),
        decreases end - i,
    {
        copy.push(runs[i]);
        assert(runs@.subrange(start as int, i + 1) =~= runs@.subrange(start as int, i as int).push(
            runs@[i as int],
        ));
        i = i + 1;
    }
    copy
}

impl ExternalSort {
    #[verifier::type_invariant]
    spec fn holds_invariant(self) -> bool {
        &&& self@.is_sound()
        &&& self.remaining == records_remaining(self.expected@, self.input@.len())
    }

    /// Starts a sort of an input that holds `expected_record_count` records.
    pub fn begin(expected_record_count: u64) -> (sort: ExternalSort)
        ensures
            sort@ == SortModel::start(expected_record_count),
            sort@.is_sound(),
    {
        proof {
            sort_starts_sound(expected_record_count);
        }
        let ghost start = SortModel::start(expected_record_count);
        let step: SortStep = if expected_record_count == 0 {
            SortStep::CreateEmptyOutput
        } else {
            SortStep::OpenInput
        };
        let chunk: Vec<MtimeRecord> = Vec::new();
        let runs: Vec<RunId> = Vec::new();
        let merged: Vec<RunId> = Vec::new();
        let leftovers: Vec<RunId> = Vec::new();
        assert(chunk@ =~= start.chunk && runs@ =~= start.runs && merged@ =~= start.merged
            && leftovers@ =~= start.leftovers);
        ExternalSort {
            step,
            remaining: Some(expected_record_count),
            expected: Ghost(expected_record_count),
            chunk,
            exhausted: false,
            runs,
            merged,
            position: 0,
            round: 0,
            leftovers,
            input: Ghost(start.input),
            run_records: Ghost(start.run_records),
            merged_records: Ghost(start.merged_records),
        }
    }

    /// What the sort needs done next.
    pub fn step(&self) -> (step: SortStep)
        ensures
            step == self@.step,
    {
        self.step
    }

    /// The bytes of the run to write.
    pub fn run_bytes(&self) -> (bytes: Vec<u8>)
        ensures
            bytes@ == record::records_file(self@.chunk),
    {
        encode_mtime_records(&self.chunk)
    }

    /// The runs to merge, or to remove once they are merged.
    pub fn group(&self) -> (group: Vec<RunId>)
        ensures
            group@ == self@.group(),
            group@.len() <= MAX_MERGE_FANOUT,
    {
        proof {
            use_type_invariant(self);
        }
        let end: usize = if self.runs.len() - self.position > MAX_MERGE_FANOUT {
            self.position + MAX_MERGE_FANOUT
        } else {
            self.runs.len()
        };
        copy_runs(&self.runs, self.position, end)
    }

    /// The runs to remove after a failure.
    pub fn leftovers(&self) -> (leftovers: &Vec<RunId>)
        ensures
            leftovers@ == self@.leftovers,
    {
        &self.leftovers
    }
}

/// Takes what came of the step that `sort` asked for, and goes on to the next.
///
/// Every failure, and an input with more or fewer records than expected, ends
/// the sort with [`ChronoIndexError::BuildIo`], but for a failed rename of the
/// output, which ends it with [`ChronoIndexError::RenameIo`].
pub fn external_merge_sort_mtimes(sort: ExternalSort, event: SortEvent) -> (next: ExternalSort)
    ensures
        next@ == sort@.after(event),
        next@.is_sound(),
{
    proof {
        use_type_invariant(&sort);
    }
    let ghost before = sort@;
    let ghost goal = sort@.after(event);
    let ExternalSort {
        step,
        remaining,
        expected,
        chunk,
        exhausted,
        runs,
        merged,
        position,
        round,
        leftovers,
        input,
        run_records,
        merged_records,
    } = sort;
    let mut remaining: Option<u64> = remaining;
    let mut chunk: Vec<MtimeRecord> = chunk;
    let mut exhausted: bool = exhausted;
    let mut runs: Vec<RunId> = runs;
    let mut merged: Vec<RunId> = merged;
    let mut position: usize = position;
    let mut round: u64 = round;
    let mut leftovers: Vec<RunId> = leftovers;
    let mut next_step: SortStep = step;
    let mut next_group: bool = false;
    let mut runs_known: bool = false;
    let mut input_read: bool = false;
    let succeeded: bool = matches!(event, SortEvent::Succeeded);
    let failed: bool = matches!(event, SortEvent::Failed);
    match step {
        SortStep::CreateEmptyOutput => {
            if succeeded {
                next_step = SortStep::Finished;
            } else if failed {
                next_step = SortStep::Failed(ChronoIndexError::BuildIo);
            }
        },
        SortStep::OpenInput => {
            if succeeded {
                next_step = SortStep::ReadChunk;
            } else if failed {
                next_step = SortStep::Failed(ChronoIndexError::BuildIo);
            }
        },
        SortStep::ReadChunk => {
            match event {
                SortEvent::Chunk(bytes) => {
                    let records: Vec<MtimeRecord> = decode_mtime_records(&bytes);
                    if records.len() == 0 {
                        input_read = true;
                    } else {
                        remaining = match remaining {
                            Some(left) => left.checked_sub(records.len() as u64),
                            None => None,
                        };
                        exhausted = records.len() < EXTERNAL_SORT_CHUNK_RECORDS;
                        chunk = sort_chronologically(&records);
                        next_step = SortStep::WriteRun(RunId::Initial(runs.len() as u64));
                    }
                },
                SortEvent::Failed => {
                    next_step = SortStep::Failed(ChronoIndexError::BuildIo);
                },
                SortEvent::Succeeded => {},
            }
        },
        SortStep::WriteRun(run) => {
            if succeeded {
                runs.push(run);
                chunk = Vec::new();
                assert(chunk@ =~= Seq::empty());
                if exhausted {
                    input_read = true;
                } else {
                    next_step = SortStep::ReadChunk;
                }
            } else if failed {
                leftovers = copy_runs(&runs, 0, runs.len());
                leftovers.push(run);
                assert(leftovers@ =~= runs@.push(run));
                next_step = SortStep::CleanUp(ChronoIndexError::BuildIo);
            }
        },
        SortStep::MergeGroup(run) => {
            if succeeded {
                merged.push(run);
                next_step = SortStep::RemoveGroup;
            } else if failed {
                leftovers = copy_runs(&runs, 0, runs.len());
                let mut copy: Vec<RunId> = copy_runs(&merged, 0, merged.len());
                leftovers.append(&mut copy);
                leftovers.push(run);
                assert(leftovers@ =~= (runs@ + merged@).push(run));
                next_step = SortStep::CleanUp(ChronoIndexError::BuildIo);
            }
        },
        SortStep::RemoveGroup => {
            if succeeded || failed {
                if runs.len() - position > MAX_MERGE_FANOUT {
                    position = position + MAX_MERGE_FANOUT;
                    next_group = true;
                } else {
                    runs = merged;
                    merged = Vec::new();
                    assert(merged@ =~= Seq::empty());
                    position = 0;
                    round = round.saturating_add(1);
                    runs_known = true;
                }
            }
        },
        SortStep::Promote(run) => {
            if succeeded {
                next_step = SortStep::Finished;
            } else if failed {
                leftovers = Vec::new();
                leftovers.push(run);
                assert(leftovers@ =~= seq![run]);
                next_step = SortStep::CleanUp(ChronoIndexError::RenameIo);
            }
        },
        SortStep::CleanUp(error) => {
            if succeeded || failed {
                next_step = SortStep::Failed(error);
            }
        },
        SortStep::Finished => {},
        SortStep::Failed(_) => {},
    }
    if input_read {
        if remaining == Some(0u64) {
            runs_known = true;
        } else {
            leftovers = copy_runs(&runs, 0, runs.len());
            assert(leftovers@ =~= runs@);
            next_step = SortStep::CleanUp(ChronoIndexError::BuildIo);
        }
    }
    if runs_known {
        if runs.len() == 0 {
            next_step = SortStep::Failed(ChronoIndexError::BuildIo);
        } else if runs.len() == 1 {
            next_step = SortStep::Promote(runs[0]);
        } else {
            next_group = true;
        }
    }
    if next_group {
        next_step = SortStep::MergeGroup(RunId::Merged { round, group: merged.len() as u64 });
    }
    proof {
        assert(runs@ =~= goal.runs && runs.len() <= u64::MAX);
        sort_stays_sound(before, event);
    }
    ExternalSort {
        step: next_step,
        remaining,
        expected,
        chunk,
        exhausted,
        runs,
        merged,
        position,
        round,
        leftovers,
        input: Ghost(goal.input),
        run_records: Ghost(goal.run_records),
        merged_records: Ghost(goal.merged_records),
    }
}

/// Every complete record of a chunk that is read is taken in, and goes into a run
/// of its own, sorted; a chunk without one ends the input.
pub proof fn chunk_is_taken_in_whole(m: SortModel, bytes: Vec<u8>)
    requires
        m.step is ReadChunk,
    ensures
        ({
            let records = record::records_in_file(bytes@);
            let end = m.after(SortEvent::Chunk(bytes));
            let written = end.after(SortEvent::Succeeded);
            &&& bytes@.len() >= 20 ==> {
                &&& records.len() == bytes@.len() / 20
                &&& end.step == SortStep::WriteRun(RunId::Initial(m.runs.len() as u64))
                &&& end.input == m.input + records
                &&& end.chunk.to_multiset() == records.to_multiset()
                &&& record::is_chronological(end.chunk)
                &&& written.run_records == m.run_records.push(end.chunk)
                &&& written.input == end.input
            }
            &&& bytes@.len() < 20 ==> end.input == m.input && !(end.step is ReadChunk)
        }),
{
    record::lemma_chronological_sorts(record::records_in_file(bytes@));
}

/// A group of runs is merged whole: what it is merged into has exactly the records
/// of its runs, sorted, and of these there are at most 16. Runs that are merged and
/// cannot be removed do not fail a sort.
pub proof fn group_is_merged_whole(m: SortModel, run: RunId)
    requires
        m.is_sound(),
        m.step == SortStep::MergeGroup(run),
    ensures
        ({
            let end = m.after(SortEvent::Succeeded);
            let merged = end.merged_records.last();
            &&& 0 < m.group().len() <= 16
            &&& end.step is RemoveGroup
            &&& end.merged == m.merged.push(run)
            &&& merged.to_multiset() == m.group_records().flatten().to_multiset()
            &&& record::is_chronological(merged)
            &&& end.after(SortEvent::Failed) == end.after(SortEvent::Succeeded)
            &&& end.input == m.input
        }),
{
    record::lemma_chronological_sorts(m.group_records().flatten());
}

/// A sort fails with an I/O error of the build, or with that of the rename of its
/// output, and names the runs that are left for removal: all that it has, and the
/// one that it was writing.
pub proof fn failed_sort_leaves_nothing_behind(m: SortModel)
    ensures
        m.step is CreateEmptyOutput || m.step is OpenInput || m.step is ReadChunk ==> m.after(
            SortEvent::Failed,
        ).step == SortStep::Failed(ChronoIndexError::BuildIo),
        m.step matches SortStep::WriteRun(run) ==> {
            let end = m.after(SortEvent::Failed);
            &&& end.step == SortStep::CleanUp(ChronoIndexError::BuildIo)
            &&& end.leftovers == m.runs.push(run)
        },
        m.step matches SortStep::MergeGroup(run) ==> {
            let end = m.after(SortEvent::Failed);
            &&& end.step == SortStep::CleanUp(ChronoIndexError::BuildIo)
            &&& end.leftovers == (m.runs + m.merged).push(run)
        },
        m.step matches SortStep::Promote(run) ==> {
            let end = m.after(SortEvent::Failed);
            &&& end.step == SortStep::CleanUp(ChronoIndexError::RenameIo)
            &&& end.leftovers == seq![run]
        },
        m.step matches SortStep::CleanUp(error) ==> m.after(SortEvent::Succeeded).step
            == SortStep::Failed(error) && m.after(SortEvent::Failed).step == SortStep::Failed(
            error,
        ),
{
}

/// What calls on a sort hand out for its steps: bytes that hold the records of the
/// chunk, and the runs of the next group, in their order.
pub proof fn sort_hands_out_what_it_says(sort: ExternalSort, bytes: Vec<u8>, group: Vec<RunId>)
    requires
        sort@.is_sound(),
        call_ensures(ExternalSort::run_bytes, (&sort,), bytes),
        call_ensures(ExternalSort::group, (&sort,), group),
    ensures
        record::records_in_file(bytes@) == sort@.chunk,
        group@.len() <= 16,
        forall|i: int|
            0 <= i < group@.len() ==> #[trigger] group@[i] == sort@.runs[sort@.position + i],
        group@.len() < 16 ==> sort@.position + group@.len() == sort@.runs.len(),
{
    record::records_file_round_trips(sort@.chunk);
}

/// Two calls make a run of a chunk: with the bytes of any records, as many as are
/// read at once or fewer, and then with the success of writing them,
/// [`external_merge_sort_mtimes`] leads to a sort that has taken in exactly these
/// records and has one more run, of these, in chronological order.
pub proof fn two_calls_make_a_run(
    sort: ExternalSort,
    records: Seq<MtimeRecord>,
    bytes: Vec<u8>,
    read: ExternalSort,
    next: ExternalSort,
)
    requires
        sort@.step is ReadChunk,
        records.len() > 0,
        bytes@ == record::records_file(records),
        call_ensures(external_merge_sort_mtimes, (sort, SortEvent::Chunk(bytes)), read),
        call_ensures(external_merge_sort_mtimes, (read, SortEvent::Succeeded), next),
    ensures
        next@.input == sort@.input + records,
        next@.run_records.len() == sort@.run_records.len() + 1,
        next@.run_records.last().to_multiset() == records.to_multiset(),
        record::is_chronological(next@.run_records.last()),
{
    record::records_file_round_trips(records);
    chunk_is_taken_in_whole(sort@, bytes);
}

} // verus!
