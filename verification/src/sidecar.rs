//! The sidecar `name_hashes.bin`: the hash of every basename of `names.bin`,
//! in the same order.

use vstd::prelude::*;
use vstd::slice::slice_subrange;
use crate::buffer::bytes_equal;
use crate::counting;
use crate::counting::saturating_product;
use crate::error::ChronoIndexError;
use crate::hash;
use crate::hash::fnv1a_64;
use crate::layout::{NAME_HASH_RECORD_SIZE, NAME_RECORD_SIZE};
use crate::little_endian;
use crate::names;
use crate::names::basename_used_length;

verus! {

/// What making the sidecar agree with `names.bin` needs done next.
#[derive(Debug, Clone, Copy, PartialEq, Eq, Structural)]
pub enum SidecarStep {
    /// Find out the size of the sidecar, zero where there is none.
    MeasureSidecar,
    /// Create the sidecar, or cut it down to nothing, and make it durable.
    ClearSidecar,
    /// Open `names.bin` for reading.
    OpenNames,
    /// Create the staging file, empty.
    CreateStaging,
    /// Read the next record of `names.bin`.
    ReadName,
    /// Append [`SidecarCheck::hash_record`] to the staging file.
    WriteHash,
    /// Make the staging file durable.
    SyncStaging,
    /// Rename the staging file to the sidecar.
    PromoteStaging,
    /// Remove the staging file after a failure.
    RemoveStaging(ChronoIndexError),
    /// Nothing: the sidecar has one record per name.
    Finished,
    /// Nothing: the sidecar could not be made to agree.
    Failed(ChronoIndexError),
}

/// What came of a step.
#[derive(Debug, Clone, Copy)]
pub enum SidecarEvent {
    Succeeded,
    Failed,
    /// The size of the sidecar in bytes.
    Size(u64),
    /// The bytes of the next name record.
    Name([u8; NAME_RECORD_SIZE]),
    /// `names.bin` holds no further complete record.
    EndOfNames,
}

/// The state of the check as its contract speaks of it.
#[verifier::ext_equal]
pub struct SidecarModel {
    pub step: SidecarStep,
    /// How many records `names.bin` is said to hold.
    pub expected: u64,
    /// The basenames that were read.
    pub names: Seq<Seq<u8>>,
    /// The hashes that were written.
    pub hashes: Seq<u64>,
}

impl SidecarModel {
    pub open spec fn start(expected: u64) -> SidecarModel {
        SidecarModel {
            step: SidecarStep::MeasureSidecar,
            expected,
            names: Seq::empty(),
            hashes: Seq::empty(),
        }
    }

    pub open spec fn at(self, step: SidecarStep) -> SidecarModel {
        SidecarModel { step, ..self }
    }

    /// The state after `event`. An event that does not answer the step leaves
    /// the state as it is.
    pub open spec fn after(self, event: SidecarEvent) -> SidecarModel {
        match (self.step, event) {
            (SidecarStep::MeasureSidecar, SidecarEvent::Size(size)) => if self.expected == 0 {
                self.at(SidecarStep::ClearSidecar)
            } else if size == counting::saturated(
                (self.expected * NAME_HASH_RECORD_SIZE) as nat,
            ) {
                self.at(SidecarStep::Finished)
            } else {
                self.at(SidecarStep::OpenNames)
            },
            (SidecarStep::ClearSidecar, SidecarEvent::Succeeded) => self.at(SidecarStep::Finished),
            (SidecarStep::OpenNames, SidecarEvent::Succeeded) => self.at(
                SidecarStep::CreateStaging,
            ),
            (SidecarStep::CreateStaging, SidecarEvent::Succeeded) => self.at(
                SidecarStep::ReadName,
            ),
            (SidecarStep::ReadName, SidecarEvent::Name(record)) => SidecarModel {
                step: SidecarStep::WriteHash,
                names: self.names.push(names::basename_of(record@)),
                ..self
            },
            (SidecarStep::ReadName, SidecarEvent::EndOfNames) => if counting::saturated(
                self.hashes.len(),
            ) == self.expected {
                self.at(SidecarStep::SyncStaging)
            } else {
                self.at(SidecarStep::RemoveStaging(ChronoIndexError::AppendIo))
            },
            (SidecarStep::WriteHash, SidecarEvent::Succeeded) => {
                let written = SidecarModel {
                    hashes: self.hashes.push(hash::fnv1a(self.names.last())),
                    ..self
                };
                if counting::saturated(written.hashes.len()) > self.expected {
                    written.at(SidecarStep::RemoveStaging(ChronoIndexError::AppendIo))
                } else {
                    written.at(SidecarStep::ReadName)
                }
            },
            (SidecarStep::SyncStaging, SidecarEvent::Succeeded) => self.at(
                SidecarStep::PromoteStaging,
            ),
            (SidecarStep::PromoteStaging, SidecarEvent::Succeeded) => self.at(
                SidecarStep::Finished,
            ),
            (SidecarStep::PromoteStaging, SidecarEvent::Failed) => self.at(
                SidecarStep::RemoveStaging(ChronoIndexError::RenameIo),
            ),
            (
                SidecarStep::MeasureSidecar | SidecarStep::ClearSidecar | SidecarStep::OpenNames
                | SidecarStep::CreateStaging,
                SidecarEvent::Failed,
            ) => self.at(SidecarStep::Failed(ChronoIndexError::AppendIo)),
            (
                SidecarStep::ReadName | SidecarStep::WriteHash | SidecarStep::SyncStaging,
                SidecarEvent::Failed,
            ) => self.at(SidecarStep::RemoveStaging(ChronoIndexError::AppendIo)),
            (
                SidecarStep::RemoveStaging(error),
                SidecarEvent::Succeeded | SidecarEvent::Failed,
            ) => self.at(SidecarStep::Failed(error)),
            _ => self,
        }
    }

    /// What holds of the check at every step: a hash that was written is that
    /// of the basename at the same place, and no more of them are kept than
    /// expected.
    pub open spec fn is_sound(self) -> bool {
        &&& self.hashes.len() <= self.names.len()
        &&& forall|i: int|
            0 <= i < self.hashes.len() ==> #[trigger] self.hashes[i] == hash::fnv1a(self.names[i])
        &&& match self.step {
            SidecarStep::WriteHash => self.names.len() == self.hashes.len() + 1
                && counting::saturated(self.hashes.len()) <= self.expected,
            SidecarStep::ReadName => self.names.len() == self.hashes.len() && counting::saturated(
                self.hashes.len(),
            ) <= self.expected,
            SidecarStep::SyncStaging | SidecarStep::PromoteStaging => self.names.len()
                == self.hashes.len() && counting::saturated(self.hashes.len()) == self.expected,
            SidecarStep::MeasureSidecar | SidecarStep::ClearSidecar | SidecarStep::OpenNames
            | SidecarStep::CreateStaging => self.names.len() == 0 && self.hashes.len() == 0,
            SidecarStep::Finished => self.names.len() == self.hashes.len() && (self.names.len() == 0
                || counting::saturated(self.hashes.len()) == self.expected),
            SidecarStep::RemoveStaging(_) | SidecarStep::Failed(_) => true,
        }
    }
}

/// Whatever comes of a step, a sound check stays sound.
pub proof fn sidecar_check_stays_sound(m: SidecarModel, event: SidecarEvent)
    requires
        m.is_sound(),
    ensures
        m.after(event).is_sound(),
{
}

/// A sidecar is put in place only where it holds, for every basename of
/// `names.bin`, the hash of that basename at the same place, and exactly as
/// many as expected.
pub proof fn promoted_sidecar_agrees_with_names(m: SidecarModel)
    requires
        m.is_sound(),
        m.step == SidecarStep::PromoteStaging,
        m.names.len() <= u64::MAX,
    ensures
        m.hashes == name_hashes(m.names),
        m.hashes.len() == m.expected,
{
    assert(m.hashes =~= name_hashes(m.names));
}

/// A check of the sidecar in progress.
pub struct SidecarCheck {
    step: SidecarStep,
    expected: u64,
    records_written: u64,
    pending_hash: u64,
    names: Ghost<Seq<Seq<u8>>>,
    hashes: Ghost<Seq<u64>>,
}

impl View for SidecarCheck {
    type V = SidecarModel;

    closed spec fn view(&self) -> SidecarModel {
        SidecarModel {
            step: self.step,
            expected: self.expected,
            names: self.names@,
            hashes: self.hashes@,
        }
    }
}

/// The on-disk form of a name hash.
pub fn encode_name_hash(name_hash: u64) -> (record: [u8; NAME_HASH_RECORD_SIZE])
    ensures
        record@ == little_endian::le_bytes(name_hash as nat, NAME_HASH_RECORD_SIZE as nat),
{
    let mut record: [u8; NAME_HASH_RECORD_SIZE] = [0u8; NAME_HASH_RECORD_SIZE];
    little_endian::put_le(&mut record, 0, NAME_HASH_RECORD_SIZE, name_hash);
    proof {
        little_endian::lemma_le_bytes_len(name_hash as nat, NAME_HASH_RECORD_SIZE as nat);
        assert(record@ =~= little_endian::le_bytes(name_hash as nat, NAME_HASH_RECORD_SIZE as nat));
    }
    record
}

impl SidecarCheck {
    #[verifier::type_invariant]
    spec fn holds_invariant(self) -> bool {
        &&& self@.is_sound()
        &&& self.records_written == counting::saturated(self.hashes@.len())
        &&& self.step == SidecarStep::WriteHash ==> self.pending_hash == hash::fnv1a(
            self.names@.last(),
        )
    }

    /// Starts a check against a `names.bin` of `expected_record_count` records.
    pub fn begin(expected_record_count: u64) -> (check: SidecarCheck)
        ensures
            check@ == SidecarModel::start(expected_record_count),
            check@.is_sound(),
    {
        SidecarCheck {
            step: SidecarStep::MeasureSidecar,
            expected: expected_record_count,
            records_written: 0,
            pending_hash: 0,
            names: Ghost(Seq::empty()),
            hashes: Ghost(Seq::empty()),
        }
    }

    /// What the check needs done next.
    pub fn step(&self) -> (step: SidecarStep)
        ensures
            step == self@.step,
    {
        self.step
    }

    /// The hash record to write where the step is [`SidecarStep::WriteHash`].
    pub fn hash_record(&self) -> (record: [u8; NAME_HASH_RECORD_SIZE])
        ensures
            self@.step == SidecarStep::WriteHash ==> record@ == little_endian::le_bytes(
                hash::fnv1a(self@.names.last()) as nat,
                NAME_HASH_RECORD_SIZE as nat,
            ),
    {
        proof {
            use_type_invariant(self);
        }
        encode_name_hash(self.pending_hash)
    }
}

/// Takes what came of the step that `check` asked for, and goes on to the next.
///
/// A sidecar of the expected size is trusted. Any other one is built anew from
/// `names.bin`, which must hold exactly the expected number of records.
pub fn ensure_name_hashes_sidecar_consistent(check: SidecarCheck, event: SidecarEvent) -> (next:
    SidecarCheck)
    ensures
        next@ == check@.after(event),
        next@.is_sound(),
{
    proof {
        use_type_invariant(&check);
        sidecar_check_stays_sound(check@, event);
    }
    let ghost goal = check@.after(event);
    let SidecarCheck { step, expected, records_written, pending_hash, names: _, hashes: _ } = check;
    let mut records_written: u64 = records_written;
    let mut pending_hash: u64 = pending_hash;
    let next_step: SidecarStep = match (step, event) {
        (SidecarStep::MeasureSidecar, SidecarEvent::Size(size)) => if expected == 0 {
            SidecarStep::ClearSidecar
        } else if size == saturating_product(expected, NAME_HASH_RECORD_SIZE as u64) {
            SidecarStep::Finished
        } else {
            SidecarStep::OpenNames
        },
        (SidecarStep::ClearSidecar, SidecarEvent::Succeeded) => SidecarStep::Finished,
        (SidecarStep::OpenNames, SidecarEvent::Succeeded) => SidecarStep::CreateStaging,
        (SidecarStep::CreateStaging, SidecarEvent::Succeeded) => SidecarStep::ReadName,
        (SidecarStep::ReadName, SidecarEvent::Name(record)) => {
            let used: usize = basename_used_length(&record);
            pending_hash = fnv1a_64(slice_subrange(&record, 0, used));
            SidecarStep::WriteHash
        },
        (SidecarStep::ReadName, SidecarEvent::EndOfNames) => if records_written == expected {
            SidecarStep::SyncStaging
        } else {
            SidecarStep::RemoveStaging(ChronoIndexError::AppendIo)
        },
        (SidecarStep::WriteHash, SidecarEvent::Succeeded) => {
            records_written = records_written.saturating_add(1);
            if records_written > expected {
                SidecarStep::RemoveStaging(ChronoIndexError::AppendIo)
            } else {
                SidecarStep::ReadName
            }
        },
        (SidecarStep::SyncStaging, SidecarEvent::Succeeded) => SidecarStep::PromoteStaging,
        (SidecarStep::PromoteStaging, SidecarEvent::Succeeded) => SidecarStep::Finished,
        (SidecarStep::PromoteStaging, SidecarEvent::Failed) => SidecarStep::RemoveStaging(
            ChronoIndexError::RenameIo,
        ),
        (
            SidecarStep::MeasureSidecar | SidecarStep::ClearSidecar | SidecarStep::OpenNames
            | SidecarStep::CreateStaging,
            SidecarEvent::Failed,
        ) => SidecarStep::Failed(ChronoIndexError::AppendIo),
        (
            SidecarStep::ReadName | SidecarStep::WriteHash | SidecarStep::SyncStaging,
            SidecarEvent::Failed,
        ) => SidecarStep::RemoveStaging(ChronoIndexError::AppendIo),
        (
            SidecarStep::RemoveStaging(error),
            SidecarEvent::Succeeded | SidecarEvent::Failed,
        ) => SidecarStep::Failed(error),
        _ => step,
    };
    SidecarCheck {
        step: next_step,
        expected,
        records_written,
        pending_hash,
        names: Ghost(goal.names),
        hashes: Ghost(goal.hashes),
    }
}

/// The bytes of a sidecar's record at place `i`.
pub open spec fn hash_record_at(sidecar: Seq<u8>, i: int) -> Seq<u8> {
    sidecar.subrange(
        i * NAME_HASH_RECORD_SIZE,
        i * NAME_HASH_RECORD_SIZE + NAME_HASH_RECORD_SIZE,
    )
}

/// One of the complete records of `sidecar` is `name_hash`.
pub open spec fn holds_name_hash(sidecar: Seq<u8>, name_hash: u64) -> bool {
    exists|i: int|
        0 <= i < sidecar.len() / (NAME_HASH_RECORD_SIZE as nat) && #[trigger] hash_record_at(
            sidecar,
            i,
        ) == little_endian::le_bytes(name_hash as nat, NAME_HASH_RECORD_SIZE as nat)
}

/// Whether `name_hash` is one of the complete records of `sidecar`, which may
/// be the whole sidecar or a piece of it that starts at a record.
pub fn name_hash_is_present_in_sidecar(sidecar: &[u8], target_basename_hash: u64) -> (present: bool)
    ensures
        present == holds_name_hash(sidecar@, target_basename_hash),
{
    let target: [u8; NAME_HASH_RECORD_SIZE] = encode_name_hash(target_basename_hash);
    let count: usize = sidecar.len() / NAME_HASH_RECORD_SIZE;
    let mut i: usize = 0;
    while i < count
        invariant
            i <= count,
            count == sidecar.len() / NAME_HASH_RECORD_SIZE,
            target@ == little_endian::le_bytes(
                target_basename_hash as nat,
                NAME_HASH_RECORD_SIZE as nat,
            ),
            forall|k: int| 0 <= k < i ==> #[trigger] hash_record_at(sidecar@, k) != target@,
        decreases count - i,
    {
        let start: usize = i * NAME_HASH_RECORD_SIZE;
        if bytes_equal(slice_subrange(sidecar, start, start + NAME_HASH_RECORD_SIZE), &target) {
            assert(hash_record_at(sidecar@, i as int) == target@);
            return true;
        }
        i = i + 1;
    }
    false
}

/// A search through the pieces of a sidecar, cut where a record starts, finds
/// what a search through the whole finds.
pub proof fn search_by_pieces_is_search_of_whole(a: Seq<u8>, b: Seq<u8>, name_hash: u64)
    requires
        a.len() % (NAME_HASH_RECORD_SIZE as nat) == 0,
    ensures
        holds_name_hash(a + b, name_hash) <==> holds_name_hash(a, name_hash) || holds_name_hash(
            b,
            name_hash,
        ),
{
    let whole = a + b;
    let n = a.len() / (NAME_HASH_RECORD_SIZE as nat);
    let target = little_endian::le_bytes(name_hash as nat, NAME_HASH_RECORD_SIZE as nat);
    if holds_name_hash(whole, name_hash) {
        let i = choose|i: int|
            0 <= i < whole.len() / (NAME_HASH_RECORD_SIZE as nat) && #[trigger] hash_record_at(
                whole,
                i,
            ) == target;
        if i < n {
            assert(hash_record_at(a, i) =~= hash_record_at(whole, i));
        } else {
            assert(hash_record_at(b, i - n) =~= hash_record_at(whole, i));
        }
    }
    if holds_name_hash(a, name_hash) {
        let i = choose|i: int|
            0 <= i < a.len() / (NAME_HASH_RECORD_SIZE as nat) && #[trigger] hash_record_at(a, i)
                == target;
        assert(hash_record_at(whole, i) =~= hash_record_at(a, i));
    }
    if holds_name_hash(b, name_hash) {
        let i = choose|i: int|
            0 <= i < b.len() / (NAME_HASH_RECORD_SIZE as nat) && #[trigger] hash_record_at(b, i)
                == target;
        assert(hash_record_at(whole, i + n) =~= hash_record_at(b, i));
    }
}

/// The hashes of `names`, as a sidecar that agrees with them holds them.
pub open spec fn name_hashes(names: Seq<Seq<u8>>) -> Seq<u64> {
    Seq::new(names.len(), |i: int| hash::fnv1a(names[i]))
}

/// The contents of a sidecar that holds `hashes`.
pub open spec fn hashes_file(hashes: Seq<u64>) -> Seq<u8> {
    Seq::new(
        hashes.len() * NAME_HASH_RECORD_SIZE as nat,
        |k: int|
            little_endian::le_bytes(
                hashes[k / NAME_HASH_RECORD_SIZE as int] as nat,
                NAME_HASH_RECORD_SIZE as nat,
            )[k % NAME_HASH_RECORD_SIZE as int],
    )
}

/// Appending the record of one more name hash to the sidecar gives the file of
/// all of the hashes.
pub proof fn appended_hash_extends_file(hashes: Seq<u64>, name_hash: u64)
    ensures
        hashes_file(hashes.push(name_hash)) == hashes_file(hashes) + little_endian::le_bytes(
            name_hash as nat,
            NAME_HASH_RECORD_SIZE as nat,
        ),
{
    let added = little_endian::le_bytes(name_hash as nat, NAME_HASH_RECORD_SIZE as nat);
    little_endian::lemma_le_bytes_len(name_hash as nat, NAME_HASH_RECORD_SIZE as nat);
    let whole = hashes_file(hashes.push(name_hash));
    let parts = hashes_file(hashes) + added;
    assert forall|k: int| 0 <= k < whole.len() implies whole[k] == parts[k] by {
        if k >= hashes.len() * NAME_HASH_RECORD_SIZE {
            assert(k / NAME_HASH_RECORD_SIZE as int == hashes.len());
            assert(k % NAME_HASH_RECORD_SIZE as int == k - hashes.len() * NAME_HASH_RECORD_SIZE);
        } else {
            assert(k / (NAME_HASH_RECORD_SIZE as int) < hashes.len());
        }
    }
    assert(whole =~= parts);
}

/// A search through a sidecar finds exactly the hashes that it holds.
pub proof fn search_finds_what_sidecar_holds(hashes: Seq<u64>, name_hash: u64)
    ensures
        holds_name_hash(hashes_file(hashes), name_hash) <==> hashes.contains(name_hash),
{
    let file = hashes_file(hashes);
    let width = NAME_HASH_RECORD_SIZE as nat;
    let target = little_endian::le_bytes(name_hash as nat, width);
    assert(file.len() / width == hashes.len());
    assert forall|i: int| 0 <= i < hashes.len() implies #[trigger] hash_record_at(file, i)
        == little_endian::le_bytes(hashes[i] as nat, width) by {
        little_endian::lemma_le_bytes_len(hashes[i] as nat, width);
        let slot = hash_record_at(file, i);
        assert forall|k: int| 0 <= k < NAME_HASH_RECORD_SIZE implies slot[k]
            == little_endian::le_bytes(hashes[i] as nat, width)[k] by {
            assert((i * NAME_HASH_RECORD_SIZE + k) / NAME_HASH_RECORD_SIZE as int == i);
            assert((i * NAME_HASH_RECORD_SIZE + k) % NAME_HASH_RECORD_SIZE as int == k);
        }
        assert(slot =~= little_endian::le_bytes(hashes[i] as nat, width));
    }
    little_endian::lemma_le_capacities();
    little_endian::lemma_le_value_of_bytes(name_hash as nat, width);
    if holds_name_hash(file, name_hash) {
        let i = choose|i: int|
            0 <= i < file.len() / width && #[trigger] hash_record_at(file, i) == target;
        little_endian::lemma_le_value_of_bytes(hashes[i] as nat, width);
        assert(hashes[i] == name_hash);
    }
    if hashes.contains(name_hash) {
        let i = choose|i: int| 0 <= i < hashes.len() && hashes[i] == name_hash;
        assert(hash_record_at(file, i) == target);
    }
}

/// A basename that is indexed is found in a sidecar that agrees with
/// `names.bin`.
pub proof fn indexed_name_is_known(names: Seq<Seq<u8>>, i: int)
    requires
        0 <= i < names.len(),
    ensures
        holds_name_hash(hashes_file(name_hashes(names)), hash::fnv1a(names[i])),
{
    assert(name_hashes(names)[i] == hash::fnv1a(names[i]));
    search_finds_what_sidecar_holds(name_hashes(names), hash::fnv1a(names[i]));
}

/// A sidecar holds the hash of every name at the place of the name.
pub proof fn sidecar_holds_hash_of_each_name(names: Seq<Seq<u8>>, i: int)
    requires
        0 <= i < names.len(),
    ensures
        hashes_file(name_hashes(names)).len() == names.len() * 8,
        little_endian::le_value(
            hashes_file(name_hashes(names)).subrange(i * 8, i * 8 + 8),
        ) == hash::fnv1a(names[i]) as nat,
{
    let hashes = name_hashes(names);
    let slot = hashes_file(hashes).subrange(i * 8, i * 8 + 8);
    let written = little_endian::le_bytes(hashes[i] as nat, 8);
    little_endian::lemma_le_bytes_len(hashes[i] as nat, 8);
    little_endian::lemma_le_capacities();
    little_endian::lemma_le_value_of_bytes(hashes[i] as nat, 8);
    assert forall|k: int| 0 <= k < 8 implies slot[k] == written[k] by {
        assert((i * 8 + k) / 8 == i);
        assert((i * 8 + k) % 8 == k);
    }
    assert(slot =~= written);
}

/// A sidecar is kept exactly where it has 8 bytes for every name; for an index
/// without names it is emptied, and otherwise it is built anew.
pub proof fn sidecar_is_kept_by_its_size(m: SidecarModel, size: u64)
    requires
        m.step is MeasureSidecar,
        m.expected * 8 <= u64::MAX,
    ensures
        ({
            let end = m.after(SidecarEvent::Size(size));
            &&& m.expected == 0 <==> end.step is ClearSidecar
            &&& m.expected > 0 && size == m.expected * 8 <==> end.step is Finished
            &&& m.expected > 0 && size != m.expected * 8 <==> end.step is OpenNames
        }),
{
}

/// While the sidecar is built anew, the name that is read from a record is hashed
/// as it was stored, whatever it is, and its hash written.
pub proof fn stored_name_is_hashed_whole(
    m: SidecarModel,
    name: Seq<u8>,
    record: [u8; NAME_RECORD_SIZE],
)
    requires
        m.step is ReadName,
        m.is_sound(),
        name.len() <= 64,
        forall|i: int| 0 <= i < name.len() ==> #[trigger] name[i] != 0,
        record@ == names::name_record(name),
    ensures
        ({
            let read = m.after(SidecarEvent::Name(record));
            let end = read.after(SidecarEvent::Succeeded);
            &&& read.step is WriteHash
            &&& end.names == m.names.push(name)
            &&& end.hashes == m.hashes.push(hash::fnv1a(name))
            &&& m.hashes.len() < m.expected ==> end.step is ReadName
            &&& m.hashes.len() == m.expected && m.expected < u64::MAX ==> end.step
                == SidecarStep::RemoveStaging(ChronoIndexError::AppendIo)
        }),
{
    names::name_record_round_trips(name);
}

/// The sidecar that was built is put in place only where it has a hash for every
/// name that was expected; and a failure ends the check with an I/O error of the
/// append, or with that of the rename.
pub proof fn rebuilt_sidecar_is_complete_or_removed(m: SidecarModel, event: SidecarEvent)
    requires
        m.hashes.len() <= u64::MAX,
    ensures
        m.step is ReadName ==> {
            &&& m.hashes.len() == m.expected <==> m.after(SidecarEvent::EndOfNames).step
                is SyncStaging
            &&& m.hashes.len() != m.expected <==> m.after(SidecarEvent::EndOfNames).step
                == SidecarStep::RemoveStaging(ChronoIndexError::AppendIo)
        },
        m.step is SyncStaging ==> m.after(SidecarEvent::Succeeded).step is PromoteStaging,
        m.step is PromoteStaging ==> m.after(SidecarEvent::Succeeded).step is Finished && m.after(
            SidecarEvent::Failed,
        ).step == SidecarStep::RemoveStaging(ChronoIndexError::RenameIo),
        m.step is ReadName || m.step is WriteHash || m.step is SyncStaging ==> m.after(
            SidecarEvent::Failed,
        ).step == SidecarStep::RemoveStaging(ChronoIndexError::AppendIo),
        m.step is MeasureSidecar || m.step is ClearSidecar || m.step is OpenNames || m.step
            is CreateStaging ==> m.after(SidecarEvent::Failed).step == SidecarStep::Failed(
            ChronoIndexError::AppendIo,
        ),
        m.step matches SidecarStep::RemoveStaging(error) ==> m.after(SidecarEvent::Succeeded).step
            == SidecarStep::Failed(error) && m.after(SidecarEvent::Failed).step
            == SidecarStep::Failed(error),
        m.step is Finished || m.step is Failed ==> m.after(event) == m,
{
}

/// What a call of [`name_hash_is_present_in_sidecar`] returns for a sidecar of
/// these names: whether the hash is that of one of them.
pub proof fn search_finds_hashes_of_names(
    names: Seq<Seq<u8>>,
    sidecar: &[u8],
    target: u64,
    present: bool,
)
    requires
        sidecar@ == hashes_file(name_hashes(names)),
        call_ensures(name_hash_is_present_in_sidecar, (sidecar, target), present),
    ensures
        present <==> exists|i: int|
            0 <= i < names.len() && hash::fnv1a(#[trigger] names[i]) == target,
{
    let hashes = name_hashes(names);
    search_finds_what_sidecar_holds(hashes, target);
    if present {
        let i = choose|i: int| 0 <= i < hashes.len() && hashes[i] == target;
        assert(hash::fnv1a(names[i]) == target);
    }
    if exists|i: int| 0 <= i < names.len() && hash::fnv1a(#[trigger] names[i]) == target {
        let i = choose|i: int| 0 <= i < names.len() && hash::fnv1a(#[trigger] names[i]) == target;
        assert(hashes[i] == target);
    }
}

/// Two calls hash a name: with the record of any name of up to 64 bytes without a
/// zero byte, and then with the success of writing the hash that is handed out,
/// [`ensure_name_hashes_sidecar_consistent`] leads to a check that has written the
/// hash of that name.
pub proof fn two_calls_hash_a_name(
    check: SidecarCheck,
    name: Seq<u8>,
    record: [u8; NAME_RECORD_SIZE],
    read: SidecarCheck,
    written: [u8; NAME_HASH_RECORD_SIZE],
    next: SidecarCheck,
)
    requires
        check@.step is ReadName,
        check@.is_sound(),
        name.len() <= 64,
        forall|i: int| 0 <= i < name.len() ==> #[trigger] name[i] != 0,
        record@ == names::name_record(name),
        call_ensures(
            ensure_name_hashes_sidecar_consistent,
            (check, SidecarEvent::Name(record)),
            read,
        ),
        call_ensures(SidecarCheck::hash_record, (&read,), written),
        call_ensures(ensure_name_hashes_sidecar_consistent, (read, SidecarEvent::Succeeded), next),
    ensures
        little_endian::le_value(written@) == hash::fnv1a(name),
        next@.names == check@.names.push(name),
        next@.hashes == check@.hashes.push(hash::fnv1a(name)),
{
    stored_name_is_hashed_whole(check@, name, record);
    little_endian::written_number_is_read_back(hash::fnv1a(name), 8);
}

} // verus!
