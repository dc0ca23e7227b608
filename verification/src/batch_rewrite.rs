//! Merging a batch of new records into an existing `mtimes.bin`.
//!
//! New files are expected to be newer than all indexed ones, and then their
//! records are simply appended. Where one is not, the file is rewritten: its
//! records and those of the batch are merged into a staging file, which is
//! then renamed over it.

use vstd::prelude::*;
use vstd::seq_lib;
use crate::error::ChronoIndexError;
use crate::layout::MTIME_RECORD_SIZE;
use crate::record;
use crate::record::MtimeRecord;
use crate::sort::sort_chronologically;

verus! {

/// What a rewrite needs done next.
#[derive(Debug, Clone, Copy, PartialEq, Eq, Structural)]
pub enum RewriteStep {
    /// Open the existing file for reading.
    OpenExisting,
    /// Create the staging file, empty.
    CreateStaging,
    /// Read the next record of the existing file.
    ReadExisting,
    /// Append [`BatchRewrite::record_to_write`] to the staging file.
    WriteMerged,
    /// Make the staging file durable.
    SyncStaging,
    /// Rename the staging file over the existing one.
    PromoteStaging,
    /// Remove the staging file after a failure.
    RemoveStaging(ChronoIndexError),
    /// Nothing: the file holds the merged records.
    Finished,
    /// Nothing: the existing file is as it was.
    Failed(ChronoIndexError),
}

/// What came of a step.
#[derive(Debug, Clone, Copy)]
pub enum RewriteEvent {
    Succeeded,
    Failed,
    /// The bytes of the next existing record.
    Existing([u8; MTIME_RECORD_SIZE]),
    /// The existing file holds no further complete record.
    EndOfExisting,
}

/// The state of a rewrite as its contract speaks of it.
#[verifier::ext_equal]
pub struct RewriteModel {
    pub step: RewriteStep,
    /// The new records, in chronological order.
    pub batch: Seq<MtimeRecord>,
    /// How many of them are written.
    pub position: nat,
    /// The existing record that was read and is not written yet.
    pub head: Option<MtimeRecord>,
    /// All existing records that were read.
    pub consumed: Seq<MtimeRecord>,
    /// All records that were written.
    pub written: Seq<MtimeRecord>,
}

impl RewriteModel {
    /// The state before anything is done. A batch without records is refused.
    pub open spec fn start(batch: Seq<MtimeRecord>) -> RewriteModel {
        RewriteModel {
            step: if batch.len() == 0 {
                RewriteStep::Failed(ChronoIndexError::AppendIo)
            } else {
                RewriteStep::OpenExisting
            },
            batch: record::chronological(batch),
            position: 0,
            head: None,
            consumed: Seq::empty(),
            written: Seq::empty(),
        }
    }

    pub open spec fn at(self, step: RewriteStep) -> RewriteModel {
        RewriteModel { step, ..self }
    }

    /// Whether the next record comes from the batch: where it has one left
    /// that comes before the existing record, or where none of those is left.
    pub open spec fn takes_from_batch(self) -> bool {
        self.position < self.batch.len() && (self.head matches Some(existing)
            ==> self.batch[self.position as int].before(existing))
    }

    /// The record that is written next.
    pub open spec fn next_record(self) -> Option<MtimeRecord> {
        if self.takes_from_batch() {
            Some(self.batch[self.position as int])
        } else {
            self.head
        }
    }

    /// Goes on to write the next record, or to finish where none is left.
    pub open spec fn with_choice(self) -> RewriteModel {
        if self.next_record() is Some {
            self.at(RewriteStep::WriteMerged)
        } else {
            self.at(RewriteStep::SyncStaging)
        }
    }

    /// The state after `event`. An event that does not answer the step leaves
    /// the state as it is.
    pub open spec fn after(self, event: RewriteEvent) -> RewriteModel {
        match (self.step, event) {
            (RewriteStep::OpenExisting, RewriteEvent::Succeeded) => self.at(
                RewriteStep::CreateStaging,
            ),
            (RewriteStep::OpenExisting, RewriteEvent::Failed) => self.at(
                RewriteStep::Failed(ChronoIndexError::AppendIo),
            ),
            (RewriteStep::CreateStaging, RewriteEvent::Succeeded) => self.at(
                RewriteStep::ReadExisting,
            ),
            (RewriteStep::CreateStaging, RewriteEvent::Failed) => self.at(
                RewriteStep::Failed(ChronoIndexError::AppendIo),
            ),
            (RewriteStep::ReadExisting, RewriteEvent::Existing(bytes)) => (RewriteModel {
                head: Some(MtimeRecord::of_bytes(bytes@)),
                consumed: self.consumed.push(MtimeRecord::of_bytes(bytes@)),
                ..self
            }).with_choice(),
            (RewriteStep::ReadExisting, RewriteEvent::EndOfExisting) => self.with_choice(),
            (RewriteStep::WriteMerged, RewriteEvent::Succeeded) => {
                let written = self.written.push(self.next_record()->0);
                if self.takes_from_batch() {
                    (RewriteModel { position: self.position + 1, written, ..self }).with_choice()
                } else {
                    RewriteModel { step: RewriteStep::ReadExisting, head: None, written, ..self }
                }
            },
            (RewriteStep::SyncStaging, RewriteEvent::Succeeded) => self.at(
                RewriteStep::PromoteStaging,
            ),
            (RewriteStep::PromoteStaging, RewriteEvent::Succeeded) => self.at(
                RewriteStep::Finished,
            ),
            (RewriteStep::PromoteStaging, RewriteEvent::Failed) => self.at(
                RewriteStep::RemoveStaging(ChronoIndexError::RenameIo),
            ),
            (
                RewriteStep::ReadExisting | RewriteStep::WriteMerged | RewriteStep::SyncStaging,
                RewriteEvent::Failed,
            ) => self.at(RewriteStep::RemoveStaging(ChronoIndexError::AppendIo)),
            (
                RewriteStep::RemoveStaging(error),
                RewriteEvent::Succeeded | RewriteEvent::Failed,
            ) => self.at(RewriteStep::Failed(error)),
            _ => self,
        }
    }

    /// What holds of a rewrite at every step.
    pub open spec fn is_sound(self) -> bool {
        &&& self.position <= self.batch.len()
        &&& merges_records(self.batch, self.position, self.head, self.consumed, self.written)
        &&& match self.step {
            RewriteStep::OpenExisting | RewriteStep::CreateStaging => {
                &&& self.batch.len() > 0
                &&& self.head is None
                &&& self.consumed.len() == 0
                &&& self.written.len() == 0
            },
            RewriteStep::ReadExisting => {
                &&& self.batch.len() > 0
                &&& self.head is None
                &&& self.consumed.len() == 0 && self.written.len() == 0 || (self.consumed.len() > 0
                    && self.written.len() > 0 && self.written.last() == self.consumed.last())
            },
            RewriteStep::WriteMerged => {
                &&& self.batch.len() > 0
                &&& self.next_record() is Some
            },
            RewriteStep::SyncStaging | RewriteStep::PromoteStaging | RewriteStep::Finished => {
                &&& self.batch.len() > 0
                &&& self.next_record() is None
            },
            RewriteStep::RemoveStaging(_) | RewriteStep::Failed(_) => true,
        }
    }
}

/// The existing records that are written.
pub open spec fn taken_from_existing(
    head: Option<MtimeRecord>,
    consumed: Seq<MtimeRecord>,
) -> Seq<MtimeRecord> {
    if head is Some {
        consumed.drop_last()
    } else {
        consumed
    }
}

/// What was written is what was taken from the existing file and from the
/// batch. Where the existing records are sorted, what was written is sorted
/// and comes after nothing that is still to be written.
pub open spec fn merges_records(
    batch: Seq<MtimeRecord>,
    position: nat,
    head: Option<MtimeRecord>,
    consumed: Seq<MtimeRecord>,
    written: Seq<MtimeRecord>,
) -> bool {
    &&& record::is_chronological(batch)
    &&& head matches Some(existing) ==> consumed.len() > 0 && existing == consumed.last()
    &&& written.to_multiset() == taken_from_existing(head, consumed).to_multiset().add(
        batch.take(position as int).to_multiset(),
    )
    &&& record::is_chronological(consumed) ==> {
        &&& record::is_chronological(written)
        &&& head matches Some(existing) ==> forall|k: int|
            0 <= k < written.len() ==> (#[trigger] written[k]).not_after(existing)
        &&& forall|k: int, l: int|
            0 <= k < written.len() && position <= l < batch.len() ==> (
            #[trigger] written[k]).not_after(#[trigger] batch[l])
    }
}

/// A rewrite starts sound.
pub proof fn rewrite_starts_sound(batch: Seq<MtimeRecord>)
    ensures
        RewriteModel::start(batch).is_sound(),
{
    let m = RewriteModel::start(batch);
    record::lemma_chronological_sorts(batch);
    assert(m.batch.take(0) =~= Seq::<MtimeRecord>::empty());
    Seq::<MtimeRecord>::empty().to_multiset_ensures();
    assert(m.written.to_multiset() =~= m.consumed.to_multiset().add(
        m.batch.take(0).to_multiset(),
    ));
}

/// Whatever comes of a step, a sound rewrite stays sound.
pub proof fn rewrite_stays_sound(m: RewriteModel, event: RewriteEvent)
    requires
        m.is_sound(),
    ensures
        m.after(event).is_sound(),
{
    let n = m.after(event);
    match (m.step, event) {
        (RewriteStep::ReadExisting, RewriteEvent::Existing(bytes)) => {
            let added = MtimeRecord::of_bytes(bytes@);
            assert(n.consumed.drop_last() =~= m.consumed);
            if record::is_chronological(n.consumed) {
                assert forall|i: int, j: int| 0 <= i < j < m.consumed.len() implies (
                #[trigger] m.consumed[i]).not_after(#[trigger] m.consumed[j]) by {
                    assert(n.consumed[i].not_after(n.consumed[j]));
                }
                assert forall|k: int| 0 <= k < m.written.len() implies (
                #[trigger] m.written[k]).not_after(added) by {
                    let last = m.consumed.len() - 1;
                    assert(n.consumed[last].not_after(n.consumed[last + 1]));
                    assert(m.written[k].not_after(m.written.last())) by {
                        if k < m.written.len() - 1 {
                            assert(m.written[k].not_after(m.written[m.written.len() - 1]));
                        }
                    }
                }
            }
        },
        (RewriteStep::WriteMerged, RewriteEvent::Succeeded) => {
            let next = m.next_record()->0;
            seq_lib::to_multiset_build(m.written, next);
            if m.takes_from_batch() {
                let p = m.position as int;
                assert(m.batch.take(p + 1) =~= m.batch.take(p).push(next));
                seq_lib::to_multiset_build(m.batch.take(p), next);
                assert(n.written.to_multiset() =~= taken_from_existing(
                    n.head,
                    n.consumed,
                ).to_multiset().add(n.batch.take(n.position as int).to_multiset()));
            } else {
                let taken = m.consumed.drop_last();
                assert(m.consumed =~= taken.push(next));
                seq_lib::to_multiset_build(taken, next);
                assert(n.written.to_multiset() =~= taken_from_existing(
                    n.head,
                    n.consumed,
                ).to_multiset().add(n.batch.take(n.position as int).to_multiset()));
            }
        },
        _ => {},
    }
}

/// A finished rewrite has written the existing records and those of the batch,
/// each once, and where the existing ones were in chronological order, it has
/// written all of them in chronological order.
pub proof fn finished_rewrite_is_chronological(m: RewriteModel)
    requires
        m.is_sound(),
        m.step == RewriteStep::Finished,
    ensures
        m.written.to_multiset() == (m.consumed + m.batch).to_multiset(),
        m.written.len() > 0,
        record::is_chronological(m.consumed) ==> m.written == record::chronological(
            m.consumed + m.batch,
        ),
{
    assert(m.batch.take(m.position as int) =~= m.batch);
    seq_lib::lemma_multiset_commutative(m.consumed, m.batch);
    seq_lib::to_multiset_len(m.written);
    seq_lib::to_multiset_len(m.consumed + m.batch);
    if record::is_chronological(m.consumed) {
        record::lemma_chronological_unique(m.written, m.consumed + m.batch);
    }
}

/// A rewrite in progress.
pub struct BatchRewrite {
    step: RewriteStep,
    batch: Vec<MtimeRecord>,
    position: usize,
    head: Option<MtimeRecord>,
    newest: Option<MtimeRecord>,
    consumed: Ghost<Seq<MtimeRecord>>,
    written: Ghost<Seq<MtimeRecord>>,
}

impl View for BatchRewrite {
    type V = RewriteModel;

    closed spec fn view(&self) -> RewriteModel {
        RewriteModel {
            step: self.step,
            batch: self.batch@,
            position: self.position as nat,
            head: self.head,
            consumed: self.consumed@,
            written: self.written@,
        }
    }
}

impl BatchRewrite {
    #[verifier::type_invariant]
    spec fn holds_invariant(self) -> bool {
        &&& self@.is_sound()
        &&& self.newest == if self.written@.len() > 0 {
            Some(self.written@.last())
        } else {
            None
        }
    }

    /// Starts a rewrite that merges `new_records_batch` in.
    pub fn begin(new_records_batch: &[MtimeRecord]) -> (rewrite: BatchRewrite)
        ensures
            rewrite@ == RewriteModel::start(new_records_batch@),
            rewrite@.is_sound(),
    {
        proof {
            rewrite_starts_sound(new_records_batch@);
        }
        let ghost start = RewriteModel::start(new_records_batch@);
        let step: RewriteStep = if new_records_batch.len() == 0 {
            RewriteStep::Failed(ChronoIndexError::AppendIo)
        } else {
            RewriteStep::OpenExisting
        };
        BatchRewrite {
            step,
            batch: sort_chronologically(new_records_batch),
            position: 0,
            head: None,
            newest: None,
            consumed: Ghost(start.consumed),
            written: Ghost(start.written),
        }
    }

    /// What the rewrite needs done next.
    pub fn step(&self) -> (step: RewriteStep)
        ensures
            step == self@.step,
    {
        self.step
    }

    /// The record to write where the step is [`RewriteStep::WriteMerged`].
    pub fn record_to_write(&self) -> (next: Option<MtimeRecord>)
        ensures
            next == self@.next_record(),
    {
        if self.position < self.batch.len() {
            let candidate: MtimeRecord = self.batch[self.position];
            match self.head {
                Some(existing) => if candidate.is_strictly_before(existing) {
                    Some(candidate)
                } else {
                    self.head
                },
                None => Some(candidate),
            }
        } else {
            self.head
        }
    }

    /// The modification time of the record that was written last, which is the
    /// newest once the rewrite has finished.
    pub fn newest_mtime(&self) -> (newest: Option<(i64, i32)>)
        ensures
            newest == if self@.written.len() > 0 {
                Some((self@.written.last().mtime_sec, self@.written.last().mtime_nsec))
            } else {
                None
            },
    {
        proof {
            use_type_invariant(self);
        }
        match self.newest {
            Some(record) => Some((record.mtime_sec, record.mtime_nsec)),
            None => None,
        }
    }
}

/// Takes what came of the step that `rewrite` asked for, and goes on to the
/// next.
///
/// A failed rename ends the rewrite with [`ChronoIndexError::RenameIo`], every
/// other failure with [`ChronoIndexError::AppendIo`].
pub fn rewrite_mtimes_bin_with_out_of_order_batch(
    rewrite: BatchRewrite,
    event: RewriteEvent,
) -> (next: BatchRewrite)
    ensures
        next@ == rewrite@.after(event),
        next@.is_sound(),
{
    proof {
        use_type_invariant(&rewrite);
        rewrite_stays_sound(rewrite@, event);
    }
    let ghost goal = rewrite@.after(event);
    let to_write: Option<MtimeRecord> = rewrite.record_to_write();
    let BatchRewrite { step, batch, position, head, newest, consumed: _, written: _ } = rewrite;
    let mut position: usize = position;
    let mut head: Option<MtimeRecord> = head;
    let mut newest: Option<MtimeRecord> = newest;
    let mut choose_next: bool = false;
    let mut next_step: RewriteStep = step;
    match (step, event) {
        (RewriteStep::OpenExisting, RewriteEvent::Succeeded) => {
            next_step = RewriteStep::CreateStaging;
        },
        (RewriteStep::OpenExisting, RewriteEvent::Failed) => {
            next_step = RewriteStep::Failed(ChronoIndexError::AppendIo);
        },
        (RewriteStep::CreateStaging, RewriteEvent::Succeeded) => {
            next_step = RewriteStep::ReadExisting;
        },
        (RewriteStep::CreateStaging, RewriteEvent::Failed) => {
            next_step = RewriteStep::Failed(ChronoIndexError::AppendIo);
        },
        (RewriteStep::ReadExisting, RewriteEvent::Existing(bytes)) => {
            head = Some(MtimeRecord::read_from(&bytes));
            choose_next = true;
        },
        (RewriteStep::ReadExisting, RewriteEvent::EndOfExisting) => {
            choose_next = true;
        },
        (RewriteStep::WriteMerged, RewriteEvent::Succeeded) => {
            let from_batch: bool = position < batch.len() && match head {
                Some(existing) => batch[position].is_strictly_before(existing),
                None => true,
            };
            newest = to_write;
            if from_batch {
                position = position + 1;
                choose_next = true;
            } else {
                head = None;
                next_step = RewriteStep::ReadExisting;
            }
        },
        (RewriteStep::SyncStaging, RewriteEvent::Succeeded) => {
            next_step = RewriteStep::PromoteStaging;
        },
        (RewriteStep::PromoteStaging, RewriteEvent::Succeeded) => {
            next_step = RewriteStep::Finished;
        },
        (RewriteStep::PromoteStaging, RewriteEvent::Failed) => {
            next_step = RewriteStep::RemoveStaging(ChronoIndexError::RenameIo);
        },
        (
            RewriteStep::ReadExisting | RewriteStep::WriteMerged | RewriteStep::SyncStaging,
            RewriteEvent::Failed,
        ) => {
            next_step = RewriteStep::RemoveStaging(ChronoIndexError::AppendIo);
        },
        (
            RewriteStep::RemoveStaging(error),
            RewriteEvent::Succeeded | RewriteEvent::Failed,
        ) => {
            next_step = RewriteStep::Failed(error);
        },
        _ => {},
    }
    if choose_next {
        next_step = if position < batch.len() || head.is_some() {
            RewriteStep::WriteMerged
        } else {
            RewriteStep::SyncStaging
        };
    }
    BatchRewrite {
        step: next_step,
        batch,
        position,
        head,
        newest,
        consumed: Ghost(goal.consumed),
        written: Ghost(goal.written),
    }
}

/// `mtimes.bin` is replaced by the last rename and by nothing else: a rewrite
/// has finished exactly where that rename has succeeded, and it is asked for
/// only after the staging file is complete and durable.
pub proof fn rewrite_replaces_file_last(m: RewriteModel, event: RewriteEvent)
    ensures
        m.after(event).step is Finished && !(m.step is Finished) <==> m.step is PromoteStaging
            && event is Succeeded,
        m.after(event).step is PromoteStaging && !(m.step is PromoteStaging)
            ==> m.step is SyncStaging && event is Succeeded,
{
}

/// An existing record that is read is taken in as it is.
pub proof fn existing_record_is_taken_as_it_is(
    m: RewriteModel,
    existing: MtimeRecord,
    bytes: [u8; MTIME_RECORD_SIZE],
)
    requires
        m.step is ReadExisting,
        bytes@ == existing.bytes(),
    ensures
        ({
            let end = m.after(RewriteEvent::Existing(bytes));
            &&& end.head == Some(existing)
            &&& end.consumed == m.consumed.push(existing)
            &&& end.written == m.written
            &&& end.batch == m.batch
            &&& end.step is WriteMerged
        }),
{
    record::record_round_trips(existing);
}

/// Of the existing record and the next one of the batch the earlier is written;
/// at one time the one of the lower number; and what is left of one side once the
/// other is at its end.
pub proof fn earlier_record_is_written(m: RewriteModel)
    requires
        m.is_sound(),
        m.step is WriteMerged,
    ensures
        ({
            let end = m.after(RewriteEvent::Succeeded);
            let next = end.written.last();
            &&& end.written.drop_last() == m.written
            &&& m.head == Some(next) || m.position < m.batch.len() && next
                == m.batch[m.position as int]
            &&& m.head matches Some(existing) ==> {
                ||| next.mtime_sec < existing.mtime_sec
                ||| next.mtime_sec == existing.mtime_sec && next.mtime_nsec < existing.mtime_nsec
                ||| next.mtime_sec == existing.mtime_sec && next.mtime_nsec == existing.mtime_nsec
                    && next.record_id <= existing.record_id
            }
            &&& m.position < m.batch.len() ==> {
                let new = m.batch[m.position as int];
                ||| next.mtime_sec < new.mtime_sec
                ||| next.mtime_sec == new.mtime_sec && next.mtime_nsec < new.mtime_nsec
                ||| next.mtime_sec == new.mtime_sec && next.mtime_nsec == new.mtime_nsec
                    && next.record_id <= new.record_id
            }
        }),
{
    assert(m.after(RewriteEvent::Succeeded).written.drop_last() =~= m.written);
}

/// A step of a rewrite that fails ends it with an I/O error of the append, or with
/// that of the rename, once the staging file is removed. A batch without records
/// is refused.
pub proof fn failed_rewrite_reports_its_error(m: RewriteModel, batch: Seq<MtimeRecord>)
    ensures
        batch.len() == 0 <==> RewriteModel::start(batch).step is Failed,
        batch.len() == 0 ==> RewriteModel::start(batch).step == RewriteStep::Failed(
            ChronoIndexError::AppendIo,
        ),
        m.step is OpenExisting || m.step is CreateStaging ==> m.after(RewriteEvent::Failed).step
            == RewriteStep::Failed(ChronoIndexError::AppendIo),
        m.step is ReadExisting || m.step is WriteMerged || m.step is SyncStaging ==> m.after(
            RewriteEvent::Failed,
        ).step == RewriteStep::RemoveStaging(ChronoIndexError::AppendIo),
        m.step is PromoteStaging ==> m.after(RewriteEvent::Failed).step
            == RewriteStep::RemoveStaging(ChronoIndexError::RenameIo),
        m.step matches RewriteStep::RemoveStaging(error) ==> m.after(RewriteEvent::Succeeded).step
            == RewriteStep::Failed(error) && m.after(RewriteEvent::Failed).step
            == RewriteStep::Failed(error),
{
    record::lemma_chronological_sorts(batch);
}

/// What a call of [`BatchRewrite::newest_mtime`] returns once the rewrite of a
/// file in chronological order has finished: a time that no record of the file or
/// of the batch is later than, and that one of them has.
pub proof fn newest_mtime_is_latest(rewrite: BatchRewrite, newest: Option<(i64, i32)>, i: int)
    requires
        rewrite@.is_sound(),
        rewrite@.step == RewriteStep::Finished,
        record::is_chronological(rewrite@.consumed),
        call_ensures(BatchRewrite::newest_mtime, (&rewrite,), newest),
        0 <= i < rewrite@.written.len(),
    ensures
        newest matches Some((sec, nsec)) && ({
            let record = rewrite@.written[i];
            ||| record.mtime_sec < sec
            ||| record.mtime_sec == sec && record.mtime_nsec <= nsec
        }),
        exists|k: int|
            0 <= k < rewrite@.written.len() && newest == Some(
                ((#[trigger] rewrite@.written[k]).mtime_sec, rewrite@.written[k].mtime_nsec),
            ),
{
    finished_rewrite_is_chronological(rewrite@);
    let written = rewrite@.written;
    let last = written.len() - 1;
    assert(newest == Some((written[last].mtime_sec, written[last].mtime_nsec)));
    if i < last {
        record::lemma_chronological_sorts(rewrite@.consumed + rewrite@.batch);
        assert(written[i].not_after(written[last]));
    }
}

/// What a call on a rewrite hands out to be written is what it writes.
pub proof fn rewrite_hands_out_what_it_writes(
    rewrite: BatchRewrite,
    record: Option<MtimeRecord>,
    next: BatchRewrite,
)
    requires
        rewrite@.is_sound(),
        rewrite@.step is WriteMerged,
        call_ensures(BatchRewrite::record_to_write, (&rewrite,), record),
        call_ensures(
            rewrite_mtimes_bin_with_out_of_order_batch,
            (rewrite, RewriteEvent::Succeeded),
            next,
        ),
    ensures
        record is Some,
        next@.written == rewrite@.written.push(record->0),
{
}

} // verus!
