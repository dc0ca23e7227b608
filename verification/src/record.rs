//! The records of `mtimes.bin` and their chronological order.

use vstd::prelude::*;
use vstd::relations;
use vstd::seq_lib;
use vstd::slice::slice_subrange;
use crate::buffer::put_bytes;
use crate::layout::MTIME_RECORD_SIZE;
use crate::little_endian;

verus! {

/// One record of `mtimes.bin`.
///
/// Records are ordered by `(mtime_sec, mtime_nsec, record_id)`. The record id
/// breaks ties, so that the order is total and sorting is deterministic.
#[derive(Debug, Clone, Copy, PartialEq, Eq, Structural)]
pub struct MtimeRecord {
    pub mtime_sec: i64,
    pub mtime_nsec: i32,
    /// Position of the file's basename in `names.bin`.
    pub record_id: u64,
}

impl MtimeRecord {
    /// The record as it stands on disk.
    pub open spec fn bytes(self) -> Seq<u8> {
        little_endian::le_bytes(little_endian::twos_complement_64(self.mtime_sec), 8)
            + little_endian::le_bytes(little_endian::twos_complement_32(self.mtime_nsec), 4)
            + little_endian::le_bytes(self.record_id as nat, 8)
    }

    /// The record that `bytes` stand for.
    pub open spec fn of_bytes(bytes: Seq<u8>) -> MtimeRecord {
        MtimeRecord {
            mtime_sec: little_endian::signed_64(little_endian::le_value(bytes.subrange(0, 8))),
            mtime_nsec: little_endian::signed_32(little_endian::le_value(bytes.subrange(8, 12))),
            record_id: little_endian::le_value(bytes.subrange(12, 20)) as u64,
        }
    }

    /// `self` comes before `other` in the chronological order.
    pub open spec fn before(self, other: MtimeRecord) -> bool {
        ||| self.mtime_sec < other.mtime_sec
        ||| self.mtime_sec == other.mtime_sec && self.mtime_nsec < other.mtime_nsec
        ||| self.mtime_sec == other.mtime_sec && self.mtime_nsec == other.mtime_nsec
            && self.record_id < other.record_id
    }

    /// `self` does not come after `other`.
    pub open spec fn not_after(self, other: MtimeRecord) -> bool {
        self == other || self.before(other)
    }

    /// The modification time alone is not later than that of `other`.
    pub open spec fn mtime_not_after(self, other: MtimeRecord) -> bool {
        ||| self.mtime_sec < other.mtime_sec
        ||| self.mtime_sec == other.mtime_sec && self.mtime_nsec <= other.mtime_nsec
    }

    /// Writes the record in its on-disk form.
    pub fn write_into(self, output_buffer: &mut [u8; MTIME_RECORD_SIZE])
        ensures
            final(output_buffer)@ == self.bytes(),
    {
        let sec: u64 = little_endian::to_twos_complement_64(self.mtime_sec);
        let nsec: u32 = little_endian::to_twos_complement_32(self.mtime_nsec);
        little_endian::put_le(output_buffer, 0, 8, sec);
        little_endian::put_le(output_buffer, 8, 4, nsec as u64);
        little_endian::put_le(output_buffer, 12, 8, self.record_id);
        proof {
            little_endian::lemma_le_bytes_len(sec as nat, 8);
            little_endian::lemma_le_bytes_len(nsec as nat, 4);
            little_endian::lemma_le_bytes_len(self.record_id as nat, 8);
            assert(output_buffer@ =~= self.bytes());
        }
    }

    /// Reads a record from its on-disk form.
    pub fn read_from(input_buffer: &[u8; MTIME_RECORD_SIZE]) -> (record: Self)
        ensures
            record == MtimeRecord::of_bytes(input_buffer@),
    {
        proof {
            little_endian::lemma_le_capacities();
        }
        let sec: u64 = little_endian::get_le(input_buffer, 0, 8);
        let nsec: u64 = little_endian::get_le(input_buffer, 8, 4);
        let record_id: u64 = little_endian::get_le(input_buffer, 12, 8);
        MtimeRecord {
            mtime_sec: little_endian::from_twos_complement_64(sec),
            mtime_nsec: little_endian::from_twos_complement_32(nsec as u32),
            record_id,
        }
    }

    /// Whether `self` comes strictly before `other` in the chronological order.
    pub fn is_strictly_before(self, other: MtimeRecord) -> (r: bool)
        ensures
            r == self.before(other),
    {
        if self.mtime_sec != other.mtime_sec {
            return self.mtime_sec < other.mtime_sec;
        }
        if self.mtime_nsec != other.mtime_nsec {
            return self.mtime_nsec < other.mtime_nsec;
        }
        self.record_id < other.record_id
    }
}

pub proof fn lemma_record_bytes_len(record: MtimeRecord)
    ensures
        record.bytes().len() == MTIME_RECORD_SIZE,
{
    little_endian::lemma_le_bytes_len(
        little_endian::twos_complement_64(record.mtime_sec),
        8,
    );
    little_endian::lemma_le_bytes_len(
        little_endian::twos_complement_32(record.mtime_nsec),
        4,
    );
    little_endian::lemma_le_bytes_len(record.record_id as nat, 8);
}

/// Reading a record back from the bytes it was written as gives the record.
pub proof fn record_round_trips(record: MtimeRecord)
    ensures
        record.bytes().len() == MTIME_RECORD_SIZE,
        MtimeRecord::of_bytes(record.bytes()) == record,
{
    let sec = little_endian::twos_complement_64(record.mtime_sec);
    let nsec = little_endian::twos_complement_32(record.mtime_nsec);
    let id = record.record_id as nat;
    lemma_record_bytes_len(record);
    little_endian::lemma_le_bytes_len(sec, 8);
    little_endian::lemma_le_bytes_len(nsec, 4);
    little_endian::lemma_le_bytes_len(id, 8);
    little_endian::lemma_le_capacities();
    little_endian::lemma_le_value_of_bytes(sec, 8);
    little_endian::lemma_le_value_of_bytes(nsec, 4);
    little_endian::lemma_le_value_of_bytes(id, 8);
    assert(record.bytes().subrange(0, 8) =~= little_endian::le_bytes(sec, 8));
    assert(record.bytes().subrange(8, 12) =~= little_endian::le_bytes(nsec, 4));
    assert(record.bytes().subrange(12, 20) =~= little_endian::le_bytes(id, 8));
}

/// Every record-sized byte string is the on-disk form of the record read from it.
pub proof fn record_bytes_round_trip(bytes: Seq<u8>)
    requires
        bytes.len() == MTIME_RECORD_SIZE,
    ensures
        MtimeRecord::of_bytes(bytes).bytes() == bytes,
{
    let sec = bytes.subrange(0, 8);
    let nsec = bytes.subrange(8, 12);
    let id = bytes.subrange(12, 20);
    little_endian::lemma_le_capacities();
    little_endian::lemma_le_value_bound(sec);
    little_endian::lemma_le_value_bound(nsec);
    little_endian::lemma_le_value_bound(id);
    little_endian::lemma_le_bytes_of_value(sec);
    little_endian::lemma_le_bytes_of_value(nsec);
    little_endian::lemma_le_bytes_of_value(id);
    assert(MtimeRecord::of_bytes(bytes).bytes() =~= bytes);
}

/// The chronological order is a strict total order: nothing comes before
/// itself, the order is transitive, and of two different records exactly one
/// comes before the other.
pub proof fn chronological_order_is_total(a: MtimeRecord, b: MtimeRecord, c: MtimeRecord)
    ensures
        !a.before(a),
        a.before(b) && b.before(c) ==> a.before(c),
        a != b ==> (a.before(b) <==> !b.before(a)),
{
}

/// The order by which chronological sequences are sorted.
pub open spec fn chronological_order() -> spec_fn(MtimeRecord, MtimeRecord) -> bool {
    |a: MtimeRecord, b: MtimeRecord| a.not_after(b)
}

/// No record comes before one that stands further left.
pub open spec fn is_chronological(records: Seq<MtimeRecord>) -> bool {
    forall|i: int, j: int|
        0 <= i < j < records.len() ==> (#[trigger] records[i]).not_after(#[trigger] records[j])
}

/// The records of `records`, each as often as it occurs there, in
/// chronological order.
pub open spec fn chronological(records: Seq<MtimeRecord>) -> Seq<MtimeRecord> {
    records.sort_by(chronological_order())
}

proof fn lemma_chronological_order_is_total_ordering()
    ensures
        relations::total_ordering(chronological_order()),
{
    let leq = chronological_order();
    assert forall|x: MtimeRecord, y: MtimeRecord, z: MtimeRecord|
        #[trigger] leq(x, y) && #[trigger] leq(y, z) implies leq(x, z) by {}
}

/// Sorting keeps every record and puts them in order.
pub proof fn lemma_chronological_sorts(records: Seq<MtimeRecord>)
    ensures
        is_chronological(chronological(records)),
        chronological(records).to_multiset() == records.to_multiset(),
        chronological(records).len() == records.len(),
{
    lemma_chronological_order_is_total_ordering();
    records.lemma_sort_by_ensures(chronological_order());
    let sorted = chronological(records);
    assert forall|i: int, j: int| 0 <= i < j < sorted.len() implies (#[trigger] sorted[i]).not_after(
        #[trigger] sorted[j],
    ) by {
        assert(chronological_order()(sorted[i], sorted[j]));
    }
    seq_lib::to_multiset_len(records);
    seq_lib::to_multiset_len(sorted);
}

/// A sequence that is in order and holds the same records is the sorted one.
pub proof fn lemma_chronological_unique(sorted: Seq<MtimeRecord>, records: Seq<MtimeRecord>)
    requires
        is_chronological(sorted),
        sorted.to_multiset() == records.to_multiset(),
    ensures
        sorted == chronological(records),
{
    lemma_chronological_order_is_total_ordering();
    lemma_chronological_sorts(records);
    let leq = chronological_order();
    assert(relations::sorted_by(sorted, leq));
    assert(relations::sorted_by(chronological(records), leq)) by {
        records.lemma_sort_by_ensures(leq);
    }
    seq_lib::lemma_sorted_unique(sorted, chronological(records), leq);
}

/// The contents of a file that holds `records`, one after the other.
pub open spec fn records_file(records: Seq<MtimeRecord>) -> Seq<u8> {
    Seq::new(
        records.len() * MTIME_RECORD_SIZE as nat,
        |k: int| records[k / MTIME_RECORD_SIZE as int].bytes()[k % MTIME_RECORD_SIZE as int],
    )
}

/// The complete records at the start of a file; a partial one at its end is
/// left out.
pub open spec fn records_in_file(file: Seq<u8>) -> Seq<MtimeRecord> {
    Seq::new(
        file.len() / MTIME_RECORD_SIZE as nat,
        |i: int|
            MtimeRecord::of_bytes(
                file.subrange(i * MTIME_RECORD_SIZE, i * MTIME_RECORD_SIZE + MTIME_RECORD_SIZE),
            ),
    )
}

/// The bytes of the record at position `i` of a file of records.
pub proof fn lemma_records_file_at(records: Seq<MtimeRecord>, i: int)
    requires
        0 <= i < records.len(),
    ensures
        records_file(records).len() == records.len() * MTIME_RECORD_SIZE,
        i * MTIME_RECORD_SIZE + MTIME_RECORD_SIZE <= records_file(records).len(),
        records_file(records).subrange(
            i * MTIME_RECORD_SIZE,
            i * MTIME_RECORD_SIZE + MTIME_RECORD_SIZE,
        ) == records[i].bytes(),
{
    lemma_record_bytes_len(records[i]);
    let slot = records_file(records).subrange(
        i * MTIME_RECORD_SIZE,
        i * MTIME_RECORD_SIZE + MTIME_RECORD_SIZE,
    );
    assert forall|k: int| 0 <= k < MTIME_RECORD_SIZE implies slot[k] == records[i].bytes()[k] by {
        assert((i * MTIME_RECORD_SIZE + k) / MTIME_RECORD_SIZE as int == i);
        assert((i * MTIME_RECORD_SIZE + k) % MTIME_RECORD_SIZE as int == k);
    }
    assert(slot =~= records[i].bytes());
}

/// A file of records holds the records it was written from.
pub proof fn records_file_round_trips(records: Seq<MtimeRecord>)
    ensures
        records_in_file(records_file(records)) == records,
{
    let back = records_in_file(records_file(records));
    assert(back.len() == records.len());
    assert forall|i: int| 0 <= i < records.len() implies back[i] == records[i] by {
        lemma_records_file_at(records, i);
        record_round_trips(records[i]);
    }
    assert(back =~= records);
}

/// Writing one file of records after another is writing all the records.
pub proof fn lemma_records_file_concat(a: Seq<MtimeRecord>, b: Seq<MtimeRecord>)
    ensures
        records_file(a + b) == records_file(a) + records_file(b),
{
    let whole = records_file(a + b);
    let parts = records_file(a) + records_file(b);
    assert(whole.len() == parts.len());
    assert forall|k: int| 0 <= k < whole.len() implies whole[k] == parts[k] by {
        let i = k / MTIME_RECORD_SIZE as int;
        if k >= a.len() * MTIME_RECORD_SIZE {
            let shifted = k - a.len() * MTIME_RECORD_SIZE;
            assert(shifted / MTIME_RECORD_SIZE as int == i - a.len());
            assert(shifted % MTIME_RECORD_SIZE as int == k % MTIME_RECORD_SIZE as int);
        }
    }
    assert(whole =~= parts);
}

/// Appending one more record to a file of records gives the file of all of them.
pub proof fn appended_record_extends_file(records: Seq<MtimeRecord>, added: MtimeRecord)
    ensures
        records_file(records.push(added)) == records_file(records) + added.bytes(),
{
    let one = seq![added];
    lemma_record_bytes_len(added);
    assert(records_file(one) =~= added.bytes());
    lemma_records_file_concat(records, one);
    assert(records.push(added) =~= records + one);
}

/// A file of records that is read in pieces, cut where a record starts, gives
/// the records of the whole.
pub proof fn records_of_pieces_are_records_of_whole(a: Seq<u8>, b: Seq<u8>)
    requires
        a.len() % (MTIME_RECORD_SIZE as nat) == 0,
    ensures
        records_in_file(a + b) == records_in_file(a) + records_in_file(b),
{
    let whole = records_in_file(a + b);
    let parts = records_in_file(a) + records_in_file(b);
    let n = a.len() / (MTIME_RECORD_SIZE as nat);
    assert(whole.len() == parts.len());
    assert forall|i: int| 0 <= i < whole.len() implies whole[i] == parts[i] by {
        let start = i * MTIME_RECORD_SIZE;
        if i < n {
            assert((a + b).subrange(start, start + MTIME_RECORD_SIZE) =~= a.subrange(
                start,
                start + MTIME_RECORD_SIZE,
            ));
        } else {
            let shifted = (i - n) * MTIME_RECORD_SIZE;
            assert(shifted == start - a.len());
            assert((a + b).subrange(start, start + MTIME_RECORD_SIZE) =~= b.subrange(
                shifted,
                shifted + MTIME_RECORD_SIZE,
            ));
        }
    }
    assert(whole =~= parts);
}

/// The bytes of a file that holds `records`.
pub fn encode_mtime_records(records: &[MtimeRecord]) -> (file: Vec<u8>)
    ensures
        file@ == records_file(records@),
{
    let mut file: Vec<u8> = Vec::new();
    let mut buffer: [u8; MTIME_RECORD_SIZE] = [0u8; MTIME_RECORD_SIZE];
    let mut i: usize = 0;
    assert(records@.take(0) =~= Seq::<MtimeRecord>::empty());
    assert(file@ =~= records_file(Seq::empty()));
    while i < records.len()
        invariant
            i <= records.len(),
            file@ == records_file(records@.take(i as int)),
        decreases records.len() - i,
    {
        records[i].write_into(&mut buffer);
        file.extend_from_slice(&buffer);
        proof {
            let one = seq![records@[i as int]];
            lemma_record_bytes_len(records@[i as int]);
            assert(records_file(one) =~= records@[i as int].bytes());
            lemma_records_file_concat(records@.take(i as int), one);
            assert(records@.take(i + 1) =~= records@.take(i as int) + one);
        }
        i = i + 1;
    }
    assert(records@.take(i as int) =~= records@);
    file
}

/// The complete records at the start of `file`.
pub fn decode_mtime_records(file: &[u8]) -> (records: Vec<MtimeRecord>)
    ensures
        records@ == records_in_file(file@),
{
    let mut records: Vec<MtimeRecord> = Vec::new();
    let mut buffer: [u8; MTIME_RECORD_SIZE] = [0u8; MTIME_RECORD_SIZE];
    let count: usize = file.len() / MTIME_RECORD_SIZE;
    let mut i: usize = 0;
    while i < count
        invariant
            i <= count,
            count == file.len() / MTIME_RECORD_SIZE,
            records@ == records_in_file(file@).take(i as int),
        decreases count - i,
    {
        let start: usize = i * MTIME_RECORD_SIZE;
        put_bytes(&mut buffer, 0, slice_subrange(file, start, start + MTIME_RECORD_SIZE));
        assert(buffer@ =~= file@.subrange(start as int, start + MTIME_RECORD_SIZE));
        records.push(MtimeRecord::read_from(&buffer));
        assert(records@ =~= records_in_file(file@).take(i + 1));
        i = i + 1;
    }
    records
}

/// Where a record on disk holds what: the seconds in the first eight bytes, the
/// nanoseconds in the next four, each modulo its width, and the record id in the
/// last eight.
pub proof fn record_has_documented_layout(record: MtimeRecord)
    ensures
        record.bytes().len() == 20,
        little_endian::le_value(record.bytes().subrange(0, 8)) as int == (record.mtime_sec as int)
            % 0x1_0000_0000_0000_0000int,
        little_endian::le_value(record.bytes().subrange(8, 12)) as int == (
        record.mtime_nsec as int) % 0x1_0000_0000int,
        little_endian::le_value(record.bytes().subrange(12, 20)) == record.record_id as nat,
{
    let sec = little_endian::twos_complement_64(record.mtime_sec);
    let nsec = little_endian::twos_complement_32(record.mtime_nsec);
    let id = record.record_id as nat;
    little_endian::twos_complement_is_the_number_modulo_its_width(
        record.mtime_sec,
        record.mtime_nsec,
    );
    lemma_record_bytes_len(record);
    little_endian::lemma_le_bytes_len(sec, 8);
    little_endian::lemma_le_bytes_len(nsec, 4);
    little_endian::lemma_le_bytes_len(id, 8);
    little_endian::lemma_le_capacities();
    little_endian::lemma_le_value_of_bytes(sec, 8);
    little_endian::lemma_le_value_of_bytes(nsec, 4);
    little_endian::lemma_le_value_of_bytes(id, 8);
    assert(record.bytes().subrange(0, 8) =~= little_endian::le_bytes(sec, 8));
    assert(record.bytes().subrange(8, 12) =~= little_endian::le_bytes(nsec, 4));
    assert(record.bytes().subrange(12, 20) =~= little_endian::le_bytes(id, 8));
}

/// Of two records the one with fewer seconds comes first; of two with the same
/// seconds the one with fewer nanoseconds; and of two with the same time the one
/// with the lower id.
pub proof fn earlier_time_comes_first(a: MtimeRecord, b: MtimeRecord)
    ensures
        a.mtime_sec < b.mtime_sec ==> a.before(b) && !b.before(a),
        a.mtime_sec == b.mtime_sec && a.mtime_nsec < b.mtime_nsec ==> a.before(b) && !b.before(a),
        a.mtime_sec == b.mtime_sec && a.mtime_nsec == b.mtime_nsec && a.record_id < b.record_id
            ==> a.before(b) && !b.before(a),
        a.mtime_sec == b.mtime_sec && a.mtime_nsec == b.mtime_nsec && a.record_id == b.record_id
            ==> !a.before(b) && a.not_after(b),
        a.mtime_sec < b.mtime_sec ==> a.mtime_not_after(b) && !b.mtime_not_after(a),
        a.mtime_sec == b.mtime_sec ==> (a.mtime_not_after(b) <==> a.mtime_nsec <= b.mtime_nsec),
{
}

/// Sorting keeps every record as often as it occurs, and no record stands behind
/// one with a later time, or with the same time and a higher id.
pub proof fn sorted_records_ascend_in_time(records: Seq<MtimeRecord>, i: int, j: int)
    requires
        0 <= i < j < records.len(),
    ensures
        ({
            let sorted = chronological(records);
            let a = sorted[i];
            let b = sorted[j];
            &&& sorted.len() == records.len()
            &&& sorted.to_multiset() == records.to_multiset()
            &&& a.mtime_sec <= b.mtime_sec
            &&& a.mtime_sec == b.mtime_sec ==> a.mtime_nsec <= b.mtime_nsec
            &&& a.mtime_sec == b.mtime_sec && a.mtime_nsec == b.mtime_nsec ==> a.record_id
                <= b.record_id
        }),
{
    lemma_chronological_sorts(records);
    assert(chronological(records)[i].not_after(chronological(records)[j]));
}

/// A file of records is their on-disk forms, one behind the other, and is read
/// back as those records; a partial record at its end changes nothing.
pub proof fn records_file_is_read_back(records: Seq<MtimeRecord>, partial: Seq<u8>)
    requires
        partial.len() < 20,
    ensures
        records_file(records).len() == records.len() * 20,
        records_in_file(records_file(records) + partial) == records,
        forall|i: int|
            0 <= i < records.len() ==> (#[trigger] records[i]).bytes() == records_file(
                records,
            ).subrange(i * 20, i * 20 + 20),
{
    let file = records_file(records) + partial;
    let back = records_in_file(file);
    assert forall|i: int| 0 <= i < records.len() implies (#[trigger] records[i]).bytes()
        == records_file(records).subrange(i * 20, i * 20 + 20) by {
        lemma_records_file_at(records, i);
    }
    assert(back.len() == records.len());
    assert forall|i: int| 0 <= i < records.len() implies back[i] == records[i] by {
        lemma_records_file_at(records, i);
        record_round_trips(records[i]);
        assert(file.subrange(i * 20, i * 20 + 20) =~= records_file(records).subrange(
            i * 20,
            i * 20 + 20,
        ));
    }
    assert(back =~= records);
}

/// What calls of [`encode_mtime_records`] and [`decode_mtime_records`] return: the
/// records that were encoded, twenty bytes for each, are decoded again.
pub proof fn encoded_records_are_decoded(
    records: &[MtimeRecord],
    bytes: Vec<u8>,
    encoded: &[u8],
    decoded: Vec<MtimeRecord>,
)
    requires
        call_ensures(encode_mtime_records, (records,), bytes),
        encoded@ == bytes@,
        call_ensures(decode_mtime_records, (encoded,), decoded),
    ensures
        bytes@.len() == 20 * records@.len(),
        decoded@ == records@,
{
    records_file_round_trips(records@);
}

} // verus!
