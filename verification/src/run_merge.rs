//! Merging sorted runs of records into one.
//!
//! The merge keeps one record per input in memory. It does not read or write:
//! [`RunMerge::step`] says what to do next, and [`merge_runs_into`] takes what
//! came of it.

use vstd::multiset::Multiset;
use vstd::prelude::*;
use vstd::seq_lib;
use crate::error::ChronoIndexError;
use crate::layout::{MAX_MERGE_FANOUT, MTIME_RECORD_SIZE};
use crate::record;
use crate::record::MtimeRecord;

verus! {

/// What a merge needs done next.
#[derive(Debug, Clone, Copy, PartialEq, Eq, Structural)]
pub enum MergeStep {
    /// Read the next record of this input.
    ReadHead(usize),
    /// Create the output file, empty.
    CreateOutput,
    /// Append the head of this input to the output.
    WriteHead(usize),
    /// Make the output durable.
    SyncOutput,
    /// Nothing: the output holds the merged records.
    Finished,
    /// Nothing: the merge failed.
    Failed(ChronoIndexError),
}

/// What came of a step.
#[derive(Debug, Clone, Copy)]
pub enum MergeEvent {
    /// The output was created, written or made durable.
    Succeeded,
    /// The input or output operation failed.
    Failed,
    /// The input held one more record, with these bytes.
    Head([u8; MTIME_RECORD_SIZE]),
    /// The input holds no further complete record.
    EndOfInput,
}

/// The state of a merge as its contract speaks of it.
#[verifier::ext_equal]
pub struct RunMergeModel {
    pub step: MergeStep,
    /// Whether the output exists.
    pub created: bool,
    /// Per input, the record that was read from it and not written yet.
    pub heads: Seq<Option<MtimeRecord>>,
    /// Per input, all records that were read from it.
    pub consumed: Seq<Seq<MtimeRecord>>,
    /// All records that were written.
    pub written: Seq<MtimeRecord>,
}

/// The input whose head comes first; of equal heads that of the first input.
pub open spec fn first_head(heads: Seq<Option<MtimeRecord>>) -> Option<int>
    decreases heads.len(),
{
    if heads.len() == 0 {
        None
    } else {
        let best = first_head(heads.drop_last());
        match heads.last() {
            None => best,
            Some(candidate) => match best {
                None => Some(heads.len() - 1),
                Some(slot) => if candidate.before(heads[slot]->0) {
                    Some(heads.len() - 1)
                } else {
                    best
                },
            },
        }
    }
}

impl RunMergeModel {
    /// The state of a merge of `inputs` inputs before anything was read.
    pub open spec fn start(inputs: nat) -> RunMergeModel {
        RunMergeModel {
            step: if inputs == 0 {
                MergeStep::CreateOutput
            } else {
                MergeStep::ReadHead(0)
            },
            created: false,
            heads: Seq::new(inputs, |i: int| None),
            consumed: Seq::new(inputs, |i: int| Seq::empty()),
            written: Seq::empty(),
        }
    }

    pub open spec fn at(self, step: MergeStep) -> RunMergeModel {
        RunMergeModel { step, ..self }
    }

    /// Goes on to write the head that comes first, or to finish the output
    /// where no head is left.
    pub open spec fn with_choice(self) -> RunMergeModel {
        match first_head(self.heads) {
            Some(slot) => self.at(MergeStep::WriteHead(slot as usize)),
            None => self.at(MergeStep::SyncOutput),
        }
    }

    /// Goes on once input `slot` has been read: to the next input as long as
    /// the output does not exist, then to the choice of a head.
    pub open spec fn with_head_read(self, slot: int) -> RunMergeModel {
        if self.created {
            self.with_choice()
        } else if slot + 1 < self.heads.len() {
            self.at(MergeStep::ReadHead((slot + 1) as usize))
        } else {
            self.at(MergeStep::CreateOutput)
        }
    }

    /// The state after `event`. An event that does not answer the step leaves
    /// the state as it is.
    pub open spec fn after(self, event: MergeEvent) -> RunMergeModel {
        match (self.step, event) {
            (MergeStep::ReadHead(slot), MergeEvent::Head(bytes)) => {
                let record = MtimeRecord::of_bytes(bytes@);
                RunMergeModel {
                    heads: self.heads.update(slot as int, Some(record)),
                    consumed: self.consumed.update(
                        slot as int,
                        self.consumed[slot as int].push(record),
                    ),
                    ..self
                }.with_head_read(slot as int)
            },
            (MergeStep::ReadHead(slot), MergeEvent::EndOfInput) => self.with_head_read(slot as int),
            (MergeStep::CreateOutput, MergeEvent::Succeeded) => (RunMergeModel {
                created: true,
                ..self
            }).with_choice(),
            (MergeStep::WriteHead(slot), MergeEvent::Succeeded) => (RunMergeModel {
                heads: self.heads.update(slot as int, None),
                written: self.written.push(self.heads[slot as int]->0),
                ..self
            }).at(MergeStep::ReadHead(slot)),
            (MergeStep::SyncOutput, MergeEvent::Succeeded) => self.at(MergeStep::Finished),
            (MergeStep::Finished, _) => self,
            (MergeStep::Failed(_), _) => self,
            (_, MergeEvent::Failed) => self.at(MergeStep::Failed(ChronoIndexError::BuildIo)),
            _ => self,
        }
    }

    /// Every input gave its records in chronological order.
    pub open spec fn inputs_sorted(self) -> bool {
        runs_are_sorted(self.consumed)
    }

    /// What holds of a merge at every step.
    pub open spec fn is_sound(self) -> bool {
        &&& keeps_records(self.created, self.heads, self.consumed, self.written)
        &&& match self.step {
            MergeStep::ReadHead(slot) => {
                &&& slot < self.heads.len()
                &&& self.heads[slot as int] is None
                &&& !self.created ==> forall|i: int|
                    slot <= i < self.heads.len() ==> (#[trigger] self.heads[i]) is None
                        && self.consumed[i].len() == 0
                &&& self.created ==> self.written.len() > 0 && self.consumed[slot as int].len() > 0
                    && self.written.last() == self.consumed[slot as int].last()
            },
            MergeStep::WriteHead(slot) => {
                &&& slot < self.heads.len()
                &&& self.created
                &&& first_head(self.heads) == Some(slot as int)
            },
            MergeStep::CreateOutput => !self.created,
            MergeStep::SyncOutput | MergeStep::Finished => {
                &&& self.created
                &&& first_head(self.heads) is None
            },
            MergeStep::Failed(_) => true,
        }
    }
}

/// Every run is in chronological order.
pub open spec fn runs_are_sorted(runs: Seq<Seq<MtimeRecord>>) -> bool {
    forall|i: int| 0 <= i < runs.len() ==> record::is_chronological(#[trigger] runs[i])
}

/// No record is lost or made up: what was read is what was written and what
/// waits as a head. Where the inputs are sorted, what was written is sorted
/// and comes after no head.
pub open spec fn keeps_records(
    created: bool,
    heads: Seq<Option<MtimeRecord>>,
    consumed: Seq<Seq<MtimeRecord>>,
    written: Seq<MtimeRecord>,
) -> bool {
    &&& heads.len() == consumed.len()
    &&& heads.len() <= MAX_MERGE_FANOUT
    &&& forall|i: int|
        0 <= i < heads.len() && (#[trigger] heads[i]) is Some ==> consumed[i].len() > 0
            && heads[i]->0 == consumed[i].last()
    &&& records_of_runs(consumed) == written.to_multiset().add(records_of_heads(heads))
    &&& !created ==> written.len() == 0
    &&& runs_are_sorted(consumed) ==> {
        &&& record::is_chronological(written)
        &&& forall|i: int, k: int|
            0 <= i < heads.len() && heads[i] is Some && 0 <= k < written.len() ==> (
            #[trigger] written[k]).not_after((#[trigger] heads[i])->0)
    }
}

/// All records of `runs`, each as often as it occurs.
pub open spec fn records_of_runs(runs: Seq<Seq<MtimeRecord>>) -> Multiset<MtimeRecord>
    decreases runs.len(),
{
    if runs.len() == 0 {
        Multiset::empty()
    } else {
        records_of_runs(runs.drop_last()).add(runs.last().to_multiset())
    }
}

/// The records among `heads`.
pub open spec fn records_of_heads(heads: Seq<Option<MtimeRecord>>) -> Multiset<MtimeRecord>
    decreases heads.len(),
{
    if heads.len() == 0 {
        Multiset::empty()
    } else {
        match heads.last() {
            Some(head) => records_of_heads(heads.drop_last()).insert(head),
            None => records_of_heads(heads.drop_last()),
        }
    }
}

pub proof fn lemma_records_of_runs_is_flatten(runs: Seq<Seq<MtimeRecord>>)
    ensures
        records_of_runs(runs) == runs.flatten().to_multiset(),
    decreases runs.len(),
{
    if runs.len() == 0 {
        Seq::<MtimeRecord>::empty().to_multiset_ensures();
        assert(runs.flatten() =~= Seq::<MtimeRecord>::empty());
        assert(records_of_runs(runs) =~= Seq::<MtimeRecord>::empty().to_multiset());
    } else {
        lemma_records_of_runs_is_flatten(runs.drop_last());
        assert(runs =~= runs.drop_last().push(runs.last()));
        runs.drop_last().lemma_flatten_push(runs.last());
        seq_lib::lemma_multiset_commutative(runs.drop_last().flatten(), runs.last());
    }
}

pub proof fn lemma_records_of_runs_extended(
    runs: Seq<Seq<MtimeRecord>>,
    slot: int,
    added: MtimeRecord,
)
    requires
        0 <= slot < runs.len(),
    ensures
        records_of_runs(runs.update(slot, runs[slot].push(added))) == records_of_runs(
            runs,
        ).insert(added),
    decreases runs.len(),
{
    let extended = runs.update(slot, runs[slot].push(added));
    if slot == runs.len() - 1 {
        assert(extended.drop_last() =~= runs.drop_last());
        seq_lib::to_multiset_build(runs[slot], added);
        assert(records_of_runs(extended) =~= records_of_runs(runs).insert(added));
    } else {
        lemma_records_of_runs_extended(runs.drop_last(), slot, added);
        assert(extended.drop_last() =~= runs.drop_last().update(slot, runs[slot].push(added)));
        assert(records_of_runs(extended) =~= records_of_runs(runs).insert(added));
    }
}

proof fn lemma_records_of_heads_filled(
    heads: Seq<Option<MtimeRecord>>,
    slot: int,
    added: MtimeRecord,
)
    requires
        0 <= slot < heads.len(),
        heads[slot] is None,
    ensures
        records_of_heads(heads.update(slot, Some(added))) == records_of_heads(heads).insert(added),
    decreases heads.len(),
{
    let filled = heads.update(slot, Some(added));
    if slot == heads.len() - 1 {
        assert(filled.drop_last() =~= heads.drop_last());
    } else {
        lemma_records_of_heads_filled(heads.drop_last(), slot, added);
        assert(filled.drop_last() =~= heads.drop_last().update(slot, Some(added)));
    }
    assert(records_of_heads(filled) =~= records_of_heads(heads).insert(added));
}

/// Where no head comes first, there is none.
pub proof fn lemma_no_heads(heads: Seq<Option<MtimeRecord>>)
    requires
        first_head(heads) is None,
    ensures
        records_of_heads(heads) == Multiset::<MtimeRecord>::empty(),
        forall|i: int| 0 <= i < heads.len() ==> (#[trigger] heads[i]) is None,
    decreases heads.len(),
{
    if heads.len() > 0 {
        lemma_no_heads(heads.drop_last());
        assert forall|i: int| 0 <= i < heads.len() implies (#[trigger] heads[i]) is None by {
            if i < heads.len() - 1 {
                assert(heads[i] == heads.drop_last()[i]);
            }
        }
    }
}

/// The head that is written next comes after no other head.
pub proof fn lemma_first_head_is_least(heads: Seq<Option<MtimeRecord>>)
    ensures
        first_head(heads) matches Some(slot) ==> {
            &&& 0 <= slot < heads.len()
            &&& heads[slot] is Some
            &&& forall|i: int|
                0 <= i < heads.len() && (#[trigger] heads[i]) is Some ==> heads[slot]->0.not_after(
                    heads[i]->0,
                )
        },
    decreases heads.len(),
{
    if heads.len() > 0 {
        lemma_first_head_is_least(heads.drop_last());
        if first_head(heads.drop_last()) is None {
            lemma_no_heads(heads.drop_last());
        }
        if first_head(heads) is Some {
            let slot = first_head(heads)->0;
            assert forall|i: int| 0 <= i < heads.len() && (#[trigger] heads[i]) is Some implies
                heads[slot]->0.not_after(heads[i]->0) by {
                if i < heads.len() - 1 {
                    assert(heads[i] == heads.drop_last()[i]);
                }
            }
        }
    }
}

/// A merge starts sound.
pub proof fn merge_starts_sound(inputs: nat)
    requires
        inputs <= MAX_MERGE_FANOUT,
    ensures
        RunMergeModel::start(inputs).is_sound(),
{
    let m = RunMergeModel::start(inputs);
    assert(records_of_runs(m.consumed) =~= Multiset::empty()) by {
        lemma_empty_runs(m.consumed);
    }
    assert(records_of_heads(m.heads) =~= Multiset::empty()) by {
        lemma_empty_heads(m.heads);
    }
    Seq::<MtimeRecord>::empty().to_multiset_ensures();
    assert(m.written.to_multiset().add(records_of_heads(m.heads)) =~= Multiset::empty());
}

proof fn lemma_empty_runs(runs: Seq<Seq<MtimeRecord>>)
    requires
        forall|i: int| 0 <= i < runs.len() ==> (#[trigger] runs[i]).len() == 0,
    ensures
        records_of_runs(runs) == Multiset::<MtimeRecord>::empty(),
    decreases runs.len(),
{
    if runs.len() > 0 {
        lemma_empty_runs(runs.drop_last());
        assert(runs.last() =~= Seq::<MtimeRecord>::empty());
        Seq::<MtimeRecord>::empty().to_multiset_ensures();
        assert(records_of_runs(runs) =~= Multiset::<MtimeRecord>::empty());
    }
}

proof fn lemma_empty_heads(heads: Seq<Option<MtimeRecord>>)
    requires
        forall|i: int| 0 <= i < heads.len() ==> (#[trigger] heads[i]) is None,
    ensures
        records_of_heads(heads) == Multiset::<MtimeRecord>::empty(),
    decreases heads.len(),
{
    if heads.len() > 0 {
        lemma_empty_heads(heads.drop_last());
    }
}

proof fn lemma_choice_is_sound(m: RunMergeModel)
    requires
        keeps_records(m.created, m.heads, m.consumed, m.written),
        m.created,
    ensures
        m.with_choice().is_sound(),
{
    lemma_first_head_is_least(m.heads);
}

proof fn lemma_head_read_is_sound(m: RunMergeModel, slot: int)
    requires
        keeps_records(m.created, m.heads, m.consumed, m.written),
        0 <= slot < m.heads.len(),
        !m.created ==> forall|i: int|
            slot < i < m.heads.len() ==> (#[trigger] m.heads[i]) is None && m.consumed[i].len()
                == 0,
    ensures
        m.with_head_read(slot).is_sound(),
{
    if m.created {
        lemma_choice_is_sound(m);
    }
}

/// Whatever comes of a step, a sound merge stays sound.
pub proof fn merge_stays_sound(m: RunMergeModel, event: MergeEvent)
    requires
        m.is_sound(),
    ensures
        m.after(event).is_sound(),
{
    match (m.step, event) {
        (MergeStep::ReadHead(slot), MergeEvent::Head(bytes)) => {
            let s = slot as int;
            let added = MtimeRecord::of_bytes(bytes@);
            let read = RunMergeModel {
                heads: m.heads.update(s, Some(added)),
                consumed: m.consumed.update(s, m.consumed[s].push(added)),
                ..m
            };
            lemma_records_of_runs_extended(m.consumed, s, added);
            lemma_records_of_heads_filled(m.heads, s, added);
            assert(records_of_runs(read.consumed) =~= read.written.to_multiset().add(
                records_of_heads(read.heads),
            ));
            if read.inputs_sorted() {
                let longer = read.consumed[s];
                assert forall|i: int| 0 <= i < m.consumed.len() implies record::is_chronological(
                    #[trigger] m.consumed[i],
                ) by {
                    if i == s {
                        assert forall|a: int, b: int|
                            0 <= a < b < m.consumed[s].len() implies (
                        #[trigger] m.consumed[s][a]).not_after(#[trigger] m.consumed[s][b]) by {
                            assert(longer[a].not_after(longer[b]));
                        }
                    } else {
                        assert(read.consumed[i] == m.consumed[i]);
                    }
                }
                assert forall|i: int, k: int|
                    0 <= i < read.heads.len() && read.heads[i] is Some && 0 <= k
                        < read.written.len() implies (#[trigger] read.written[k]).not_after(
                    (#[trigger] read.heads[i])->0,
                ) by {
                    if i == s {
                        let last = m.consumed[s].len() - 1;
                        assert(longer[last].not_after(longer[last + 1]));
                        assert(m.written[k].not_after(m.written.last())) by {
                            if k < m.written.len() - 1 {
                                assert(m.written[k].not_after(m.written[m.written.len() - 1]));
                            }
                        }
                    } else {
                        assert(read.heads[i] == m.heads[i]);
                    }
                }
            }
            lemma_head_read_is_sound(read, s);
        },
        (MergeStep::ReadHead(slot), MergeEvent::EndOfInput) => {
            lemma_head_read_is_sound(m, slot as int);
        },
        (MergeStep::CreateOutput, MergeEvent::Succeeded) => {
            lemma_choice_is_sound(RunMergeModel { created: true, ..m });
        },
        (MergeStep::WriteHead(slot), MergeEvent::Succeeded) => {
            let s = slot as int;
            lemma_first_head_is_least(m.heads);
            let head = m.heads[s]->0;
            let cleared = m.heads.update(s, None);
            lemma_records_of_heads_filled(cleared, s, head);
            assert(cleared.update(s, Some(head)) =~= m.heads);
            seq_lib::to_multiset_build(m.written, head);
            let next = m.after(event);
            assert(records_of_runs(next.consumed) =~= next.written.to_multiset().add(
                records_of_heads(next.heads),
            ));
        },
        _ => {},
    }
}

/// A finished merge has written exactly the records that it read, and where
/// every input gave its records in chronological order, it has written them in
/// chronological order.
pub proof fn finished_merge_is_chronological(m: RunMergeModel)
    requires
        m.is_sound(),
        m.step == MergeStep::Finished,
    ensures
        m.written.to_multiset() == m.consumed.flatten().to_multiset(),
        m.inputs_sorted() ==> m.written == record::chronological(m.consumed.flatten()),
{
    lemma_no_heads(m.heads);
    lemma_records_of_runs_is_flatten(m.consumed);
    assert(m.written.to_multiset().add(Multiset::empty()) =~= m.written.to_multiset());
    if m.inputs_sorted() {
        record::lemma_chronological_unique(m.written, m.consumed.flatten());
    }
}

/// A merge of sorted runs in progress.
pub struct RunMerge {
    step: MergeStep,
    created: bool,
    heads: Vec<Option<MtimeRecord>>,
    consumed: Ghost<Seq<Seq<MtimeRecord>>>,
    written: Ghost<Seq<MtimeRecord>>,
}

impl View for RunMerge {
    type V = RunMergeModel;

    closed spec fn view(&self) -> RunMergeModel {
        RunMergeModel {
            step: self.step,
            created: self.created,
            heads: self.heads@,
            consumed: self.consumed@,
            written: self.written@,
        }
    }
}

impl RunMerge {
    #[verifier::type_invariant]
    spec fn holds_invariant(self) -> bool {
        self@.is_sound()
    }

    /// Starts a merge of `inputs` inputs, which may not be more than
    /// [`MAX_MERGE_FANOUT`].
    pub fn begin(inputs: usize) -> (merge: Result<RunMerge, ChronoIndexError>)
        ensures
            inputs > MAX_MERGE_FANOUT ==> merge == Err::<RunMerge, ChronoIndexError>(
                ChronoIndexError::BuildIo,
            ),
            inputs <= MAX_MERGE_FANOUT ==> (merge matches Ok(m) && m@ == RunMergeModel::start(
                inputs as nat,
            ) && m@.is_sound()),
    {
        if inputs > MAX_MERGE_FANOUT {
            return Err(ChronoIndexError::BuildIo);
        }
        let mut heads: Vec<Option<MtimeRecord>> = Vec::new();
        let mut i: usize = 0;
        while i < inputs
            invariant
                i <= inputs,
                heads@.len() == i,
                forall|k: int| 0 <= k < i ==> (#[trigger] heads@[k]) is None,
            decreases inputs - i,
        {
            heads.push(None);
            i = i + 1;
        }
        let step: MergeStep = if inputs == 0 {
            MergeStep::CreateOutput
        } else {
            MergeStep::ReadHead(0)
        };
        let ghost start = RunMergeModel::start(inputs as nat);
        proof {
            merge_starts_sound(inputs as nat);
            assert(heads@ =~= start.heads);
        }
        Ok(
            RunMerge {
                step,
                created: false,
                heads,
                consumed: Ghost(start.consumed),
                written: Ghost(start.written),
            },
        )
    }

    /// What the merge needs done next.
    pub fn step(&self) -> (step: MergeStep)
        ensures
            step == self@.step,
    {
        self.step
    }

    /// The head of input `slot`: the record to write where the step is
    /// [`MergeStep::WriteHead`] of that input.
    pub fn head(&self, slot: usize) -> (head: Option<MtimeRecord>)
        ensures
            head == if slot < self@.heads.len() {
                self@.heads[slot as int]
            } else {
                None
            },
    {
        if slot < self.heads.len() {
            self.heads[slot]
        } else {
            None
        }
    }
}

/// Computes [`first_head`].
fn find_first_head(heads: &Vec<Option<MtimeRecord>>) -> (slot: Option<usize>)
    ensures
        match slot {
            Some(s) => first_head(heads@) == Some(s as int),
            None => first_head(heads@) is None,
        },
{
    let mut best: Option<usize> = None;
    let mut i: usize = 0;
    assert(heads@.take(0) =~= Seq::<Option<MtimeRecord>>::empty());
    while i < heads.len()
        invariant
            i <= heads.len(),
            match best {
                Some(s) => s < i && heads@[s as int] is Some && first_head(heads@.take(i as int))
                    == Some(s as int),
                None => first_head(heads@.take(i as int)) is None,
            },
        decreases heads.len() - i,
    {
        assert(heads@.take(i + 1).drop_last() =~= heads@.take(i as int));
        if let Some(candidate) = heads[i] {
            match best {
                None => {
                    best = Some(i);
                },
                Some(slot) => {
                    if let Some(leader) = heads[slot] {
                        if candidate.is_strictly_before(leader) {
                            best = Some(i);
                        }
                    }
                },
            }
        }
        i = i + 1;
    }
    assert(heads@.take(i as int) =~= heads@);
    best
}

/// Takes what came of the step that `merge` asked for, and goes on to the next.
///
/// Every failure ends the merge with [`ChronoIndexError::BuildIo`].
pub fn merge_runs_into(merge: RunMerge, event: MergeEvent) -> (next: RunMerge)
    ensures
        next@ == merge@.after(event),
        next@.is_sound(),
{
    proof {
        use_type_invariant(&merge);
        merge_stays_sound(merge@, event);
    }
    let ghost before = merge@;
    let ghost goal = merge@.after(event);
    let RunMerge { step, created, heads, consumed, written } = merge;
    let mut heads: Vec<Option<MtimeRecord>> = heads;
    let mut created: bool = created;
    let mut choose_head: bool = false;
    let mut next_step: MergeStep = step;
    match step {
        MergeStep::ReadHead(slot) => {
            let mut answered: bool = false;
            match event {
                MergeEvent::Head(bytes) => {
                    heads[slot] = Some(MtimeRecord::read_from(&bytes));
                    answered = true;
                },
                MergeEvent::EndOfInput => {
                    answered = true;
                },
                MergeEvent::Failed => {
                    next_step = MergeStep::Failed(ChronoIndexError::BuildIo);
                },
                MergeEvent::Succeeded => {},
            }
            if answered {
                if created {
                    choose_head = true;
                } else if slot + 1 < heads.len() {
                    next_step = MergeStep::ReadHead(slot + 1);
                } else {
                    next_step = MergeStep::CreateOutput;
                }
            }
        },
        MergeStep::CreateOutput => {
            match event {
                MergeEvent::Succeeded => {
                    created = true;
                    choose_head = true;
                },
                MergeEvent::Failed => {
                    next_step = MergeStep::Failed(ChronoIndexError::BuildIo);
                },
                _ => {},
            }
        },
        MergeStep::WriteHead(slot) => {
            match event {
                MergeEvent::Succeeded => {
                    proof {
                        lemma_first_head_is_least(heads@);
                    }
                    heads[slot] = None;
                    next_step = MergeStep::ReadHead(slot);
                },
                MergeEvent::Failed => {
                    next_step = MergeStep::Failed(ChronoIndexError::BuildIo);
                },
                _ => {},
            }
        },
        MergeStep::SyncOutput => {
            match event {
                MergeEvent::Succeeded => {
                    next_step = MergeStep::Finished;
                },
                MergeEvent::Failed => {
                    next_step = MergeStep::Failed(ChronoIndexError::BuildIo);
                },
                _ => {},
            }
        },
        MergeStep::Finished => {},
        MergeStep::Failed(_) => {},
    }
    if choose_head {
        proof {
            lemma_first_head_is_least(heads@);
        }
        next_step = match find_first_head(&heads) {
            Some(slot) => MergeStep::WriteHead(slot),
            None => MergeStep::SyncOutput,
        };
    }
    RunMerge {
        step: next_step,
        created,
        heads,
        consumed: Ghost(goal.consumed),
        written: Ghost(goal.written),
    }
}

/// A record that is read from an input is taken in as it is and becomes the head
/// of that input; the other inputs stay as they are.
pub proof fn head_is_taken_as_it_is(
    m: RunMergeModel,
    slot: usize,
    record: MtimeRecord,
    bytes: [u8; MTIME_RECORD_SIZE],
)
    requires
        m.is_sound(),
        m.step == MergeStep::ReadHead(slot),
        bytes@ == record.bytes(),
    ensures
        ({
            let end = m.after(MergeEvent::Head(bytes));
            &&& end.heads[slot as int] == Some(record)
            &&& end.consumed[slot as int] == m.consumed[slot as int].push(record)
            &&& end.heads.len() == m.heads.len() && end.consumed.len() == m.consumed.len()
            &&& forall|i: int|
                0 <= i < m.heads.len() && i != slot ==> #[trigger] end.heads[i] == m.heads[i]
                    && end.consumed[i] == m.consumed[i]
            &&& end.written == m.written
        }),
{
    record::record_round_trips(record);
}

/// The head that is written is none that another head comes before, and of heads
/// at one time the one of the lower number; its input is read next.
pub proof fn earliest_head_is_written(m: RunMergeModel, slot: usize)
    requires
        m.is_sound(),
        m.step == MergeStep::WriteHead(slot),
    ensures
        ({
            let end = m.after(MergeEvent::Succeeded);
            &&& m.heads[slot as int] is Some
            &&& end.written == m.written.push(m.heads[slot as int]->0)
            &&& end.heads[slot as int] is None
            &&& end.consumed == m.consumed
            &&& end.step == MergeStep::ReadHead(slot)
            &&& forall|i: int|
                0 <= i < m.heads.len() && (#[trigger] m.heads[i]) is Some ==> {
                    let first = m.heads[slot as int]->0;
                    let other = m.heads[i]->0;
                    ||| first.mtime_sec < other.mtime_sec
                    ||| first.mtime_sec == other.mtime_sec && first.mtime_nsec < other.mtime_nsec
                    ||| first.mtime_sec == other.mtime_sec && first.mtime_nsec == other.mtime_nsec
                        && first.record_id <= other.record_id
                }
        }),
{
    lemma_first_head_is_least(m.heads);
}

/// A step of a merge that fails ends it with an I/O error of the build.
pub proof fn failed_step_ends_merge(m: RunMergeModel, event: MergeEvent)
    ensures
        !(m.step is Finished) && !(m.step is Failed) ==> m.after(MergeEvent::Failed).step
            == MergeStep::Failed(ChronoIndexError::BuildIo),
        m.step is Finished || m.step is Failed ==> m.after(event) == m,
{
}

/// A call of [`RunMerge::begin`] is refused exactly for more than 16 inputs.
pub proof fn merge_takes_up_to_16_inputs(
    inputs: usize,
    merge: Result<RunMerge, ChronoIndexError>,
)
    requires
        call_ensures(RunMerge::begin, (inputs,), merge),
    ensures
        merge is Ok <==> inputs <= 16,
        merge is Err ==> merge == Err::<RunMerge, ChronoIndexError>(ChronoIndexError::BuildIo),
        merge matches Ok(begun) ==> {
            &&& begun@.heads.len() == inputs
            &&& begun@.written.len() == 0
            &&& inputs > 0 ==> begun@.step == MergeStep::ReadHead(0)
            &&& inputs == 0 ==> begun@.step is CreateOutput
        },
{
}

/// What a call on a merge hands out to be written is the head that is written.
pub proof fn merge_hands_out_what_it_writes(
    merge: RunMerge,
    slot: usize,
    head: Option<MtimeRecord>,
    next: RunMerge,
)
    requires
        merge@.is_sound(),
        merge@.step == MergeStep::WriteHead(slot),
        call_ensures(RunMerge::head, (&merge, slot), head),
        call_ensures(merge_runs_into, (merge, MergeEvent::Succeeded), next),
    ensures
        head is Some,
        next@.written == merge@.written.push(head->0),
{
    earliest_head_is_written(merge@, slot);
}

} // verus!
