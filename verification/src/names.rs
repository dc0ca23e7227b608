//! The records of `names.bin`.

use vstd::prelude::*;
use crate::buffer::put_bytes;
use crate::layout::{MAX_BASENAME_LEN, NAME_RECORD_SIZE};

verus! {

/// The record that holds `basename`: its bytes, filled up with zeros.
pub open spec fn name_record(basename: Seq<u8>) -> Seq<u8> {
    basename + Seq::new((NAME_RECORD_SIZE - basename.len()) as nat, |i: int| 0u8)
}

/// How many bytes of a name record stand before its first zero.
pub open spec fn used_length(record: Seq<u8>) -> nat
    decreases record.len(),
{
    if record.len() == 0 || record[0] == 0 {
        0
    } else {
        1 + used_length(record.drop_first())
    }
}

/// The basename that a name record holds.
pub open spec fn basename_of(record: Seq<u8>) -> Seq<u8> {
    record.take(used_length(record) as int)
}

/// A basename that a record can hold and give back: short enough, and without
/// a zero byte. Names in a POSIX directory hold none.
pub open spec fn is_storable(basename: Seq<u8>) -> bool {
    &&& basename.len() <= MAX_BASENAME_LEN
    &&& forall|i: int| 0 <= i < basename.len() ==> #[trigger] basename[i] != 0
}

pub proof fn lemma_used_length(record: Seq<u8>, n: nat)
    requires
        n <= record.len(),
        forall|i: int| 0 <= i < n ==> #[trigger] record[i] != 0,
        n < record.len() ==> record[n as int] == 0,
    ensures
        used_length(record) == n,
    decreases n,
{
    if n > 0 {
        let tail = record.drop_first();
        assert forall|i: int| 0 <= i < n - 1 implies #[trigger] tail[i] != 0 by {
            assert(tail[i] == record[i + 1]);
        }
        lemma_used_length(tail, (n - 1) as nat);
    }
}

/// A basename that fits its record and holds no zero byte comes back as it was
/// stored.
pub proof fn name_record_round_trips(basename: Seq<u8>)
    requires
        is_storable(basename),
    ensures
        name_record(basename).len() == NAME_RECORD_SIZE,
        basename_of(name_record(basename)) == basename,
{
    let record = name_record(basename);
    assert forall|i: int| 0 <= i < basename.len() implies #[trigger] record[i] != 0 by {
        assert(record[i] == basename[i]);
    }
    lemma_used_length(record, basename.len());
    assert(basename_of(record) =~= basename);
}

/// The name record for a basename; none where it does not fit.
pub fn pack_basename_record(basename_bytes: &[u8]) -> (packed: Option<[u8; NAME_RECORD_SIZE]>)
    ensures
        basename_bytes@.len() > MAX_BASENAME_LEN ==> packed is None,
        basename_bytes@.len() <= MAX_BASENAME_LEN ==> (packed matches Some(record) && record@
            == name_record(basename_bytes@)),
{
    if basename_bytes.len() > MAX_BASENAME_LEN {
        return None;
    }
    let mut record_buffer: [u8; NAME_RECORD_SIZE] = [0u8; NAME_RECORD_SIZE];
    put_bytes(&mut record_buffer, 0, basename_bytes);
    assert(record_buffer@ =~= name_record(basename_bytes@));
    Some(record_buffer)
}

/// How many bytes of a name record its basename takes up.
pub fn basename_used_length(name_record: &[u8; NAME_RECORD_SIZE]) -> (used: usize)
    ensures
        used == used_length(name_record@),
        used <= NAME_RECORD_SIZE,
        forall|i: int| 0 <= i < used ==> #[trigger] name_record@[i] != 0,
        used < NAME_RECORD_SIZE ==> name_record@[used as int] == 0,
{
    let mut used: usize = 0;
    while used < NAME_RECORD_SIZE && name_record[used] != 0
        invariant
            used <= NAME_RECORD_SIZE,
            forall|i: int| 0 <= i < used ==> #[trigger] name_record@[i] != 0,
        decreases NAME_RECORD_SIZE - used,
    {
        used = used + 1;
    }
    proof {
        lemma_used_length(name_record@, used as nat);
    }
    used
}

/// The contents of a `names.bin` that holds `names`, in this order.
pub open spec fn names_file(names: Seq<Seq<u8>>) -> Seq<u8> {
    Seq::new(
        names.len() * NAME_RECORD_SIZE as nat,
        |k: int| name_record(names[k / NAME_RECORD_SIZE as int])[k % NAME_RECORD_SIZE as int],
    )
}

/// The bytes of the record at position `i` of `names.bin`.
pub proof fn lemma_names_file_at(names: Seq<Seq<u8>>, i: int)
    requires
        0 <= i < names.len(),
        names[i].len() <= MAX_BASENAME_LEN,
    ensures
        names_file(names).len() == names.len() * NAME_RECORD_SIZE,
        i * NAME_RECORD_SIZE + NAME_RECORD_SIZE <= names_file(names).len(),
        names_file(names).subrange(i * NAME_RECORD_SIZE, i * NAME_RECORD_SIZE + NAME_RECORD_SIZE)
            == name_record(names[i]),
{
    let slot = names_file(names).subrange(
        i * NAME_RECORD_SIZE,
        i * NAME_RECORD_SIZE + NAME_RECORD_SIZE,
    );
    assert forall|k: int| 0 <= k < NAME_RECORD_SIZE implies slot[k] == name_record(names[i])[k] by {
        assert((i * NAME_RECORD_SIZE + k) / NAME_RECORD_SIZE as int == i);
        assert((i * NAME_RECORD_SIZE + k) % NAME_RECORD_SIZE as int == k);
    }
    assert(slot =~= name_record(names[i]));
}

/// Appending the record of one more name to `names.bin` gives the file of all of
/// the names.
pub proof fn appended_name_extends_file(names: Seq<Seq<u8>>, name: Seq<u8>)
    requires
        name.len() <= MAX_BASENAME_LEN,
    ensures
        names_file(names.push(name)) == names_file(names) + name_record(name),
{
    let whole = names_file(names.push(name));
    let parts = names_file(names) + name_record(name);
    assert(whole.len() == parts.len());
    assert forall|k: int| 0 <= k < whole.len() implies whole[k] == parts[k] by {
        if k >= names.len() * NAME_RECORD_SIZE {
            let shifted = k - names.len() * NAME_RECORD_SIZE;
            assert(k / NAME_RECORD_SIZE as int == names.len());
            assert(k % NAME_RECORD_SIZE as int == shifted);
        } else {
            assert(k / (NAME_RECORD_SIZE as int) < names.len());
        }
    }
    assert(whole =~= parts);
}

/// A name record is the name itself, byte for byte, and zeros behind it.
pub proof fn name_record_is_name_and_zeros(basename: Seq<u8>, i: int)
    requires
        basename.len() <= 64,
        0 <= i < 64,
    ensures
        name_record(basename).len() == 64,
        name_record(basename)[i] == if i < basename.len() {
            basename[i]
        } else {
            0
        },
{
}

/// The name in a record is all that stands before the first zero, or the whole
/// record where there is none.
pub proof fn name_ends_at_first_zero(record: Seq<u8>)
    ensures
        basename_of(record).len() <= record.len(),
        forall|i: int|
            0 <= i < basename_of(record).len() ==> basename_of(record)[i] == record[i]
                && record[i] != 0,
        basename_of(record).len() < record.len() ==> record[basename_of(record).len() as int] == 0,
    decreases record.len(),
{
    lemma_used_length_stops_at_zero(record);
}

proof fn lemma_used_length_stops_at_zero(record: Seq<u8>)
    ensures
        used_length(record) <= record.len(),
        forall|i: int| 0 <= i < used_length(record) ==> record[i] != 0,
        used_length(record) < record.len() ==> record[used_length(record) as int] == 0,
    decreases record.len(),
{
    if record.len() > 0 && record[0] != 0 {
        let tail = record.drop_first();
        lemma_used_length_stops_at_zero(tail);
        assert forall|i: int| 0 <= i < used_length(record) implies record[i] != 0 by {
            if i > 0 {
                assert(record[i] == tail[i - 1]);
            }
        }
        if used_length(record) < record.len() {
            assert(record[used_length(record) as int] == tail[used_length(tail) as int]);
        }
    }
}

/// Every name of up to 64 bytes without a zero among them comes back from its
/// record as it was, and so do all names from `names.bin`, each at its place.
pub proof fn every_posix_name_comes_back(names: Seq<Seq<u8>>, i: int)
    requires
        0 <= i < names.len(),
        names[i].len() <= 64,
        forall|k: int| 0 <= k < names[i].len() ==> #[trigger] names[i][k] != 0,
    ensures
        basename_of(name_record(names[i])) == names[i],
        names_file(names).len() == names.len() * 64,
        basename_of(names_file(names).subrange(i * 64, i * 64 + 64)) == names[i],
{
    name_record_round_trips(names[i]);
    lemma_names_file_at(names, i);
}

/// What calls that pack and read back a name return: a name of up to 64 bytes
/// without a zero byte is packed and read back whole, and a longer one is not
/// packed.
pub proof fn packed_name_is_read_back(
    basename: &[u8],
    packed: Option<[u8; NAME_RECORD_SIZE]>,
    used: usize,
)
    requires
        call_ensures(pack_basename_record, (basename,), packed),
        packed matches Some(record) ==> call_ensures(basename_used_length, (&record,), used),
    ensures
        packed is Some <==> basename@.len() <= 64,
        packed is Some && (forall|i: int|
            0 <= i < basename@.len() ==> #[trigger] basename@[i] != 0) ==> {
            &&& used == basename@.len()
            &&& forall|i: int| 0 <= i < used ==> (packed->0)@[i] == #[trigger] basename@[i]
        },
{
    if packed is Some && (forall|i: int|
        0 <= i < basename@.len() ==> #[trigger] basename@[i] != 0) {
        name_record_round_trips(basename@);
    }
}

} // verus!
