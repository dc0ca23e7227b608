//! Reading an index: the path of the file at a chronological position, and the
//! hash of the sequence up to one.
//!
//! The functions here are given ways to read `mtimes.bin` and `names.bin` at an
//! offset. Each call of one may fail, and each contract says what follows from
//! what the calls gave.

use vstd::prelude::*;
use vstd::slice::slice_subrange;
use crate::buffer::put_bytes;
use crate::counting;
use crate::counting::saturating_product;
use crate::error::ChronoIndexError;
use crate::hash;
use crate::hash::{feed_bytes, FNV1A_64_OFFSET_BASIS};
use crate::header::ChronoIndexHeader;
use crate::layout::{MAX_FULL_PATH_LEN, MTIME_RECORD_SIZE, NAME_RECORD_SIZE};
use crate::little_endian;
use crate::names;
use crate::names::basename_used_length;
use crate::record;
use crate::record::MtimeRecord;

verus! {

/// The separator between the parts of a path.
pub const PATH_SEPARATOR: u8 = 0x2f;

/// The byte that ends each position in what the sequence hash is taken of.
pub const RECORD_SEPARATOR_BYTE: u8 = 0xff;

/// The file at a chronological position.
#[derive(Debug, Clone, Copy, PartialEq, Eq, Structural)]
pub struct ChronoLookupResult {
    /// How many bytes of the caller's buffer hold the path.
    pub path_byte_length: usize,
    /// The modification time of the file.
    pub looked_up_file_mtime_sec: i64,
    pub looked_up_file_mtime_nsec: i32,
}

/// The path of `basename` in the directory `parent`. The separator is not
/// doubled where the parent ends with one.
pub open spec fn joined_path(parent: Seq<u8>, basename: Seq<u8>) -> Seq<u8> {
    if parent.last() == PATH_SEPARATOR {
        parent + basename
    } else {
        parent.push(PATH_SEPARATOR) + basename
    }
}

/// Why a path cannot be put together, where it cannot.
pub open spec fn path_error(parent: Seq<u8>, basename: Seq<u8>) -> Option<ChronoIndexError> {
    if parent.len() == 0 {
        Some(ChronoIndexError::ParentPathInvalid)
    } else if joined_path(parent, basename).len() > MAX_FULL_PATH_LEN {
        Some(ChronoIndexError::LookupIo)
    } else {
        None
    }
}

/// Puts the path of `basename_bytes` in the directory `parent_path_bytes` at
/// the start of the buffer and returns its length. The buffer is left as it is
/// on an error.
pub fn assemble_absolute_path_into_buffer(
    parent_path_bytes: &[u8],
    basename_bytes: &[u8],
    out_path_buffer: &mut [u8; MAX_FULL_PATH_LEN],
) -> (length: Result<usize, ChronoIndexError>)
    ensures
        match path_error(parent_path_bytes@, basename_bytes@) {
            Some(error) => {
                &&& length == Err::<usize, ChronoIndexError>(error)
                &&& final(out_path_buffer)@ == old(out_path_buffer)@
            },
            None => {
                &&& length == Ok::<usize, ChronoIndexError>(
                    joined_path(parent_path_bytes@, basename_bytes@).len() as usize,
                )
                &&& final(out_path_buffer)@ == old(out_path_buffer)@.update_subrange_with(
                    0,
                    joined_path(parent_path_bytes@, basename_bytes@),
                )
            },
        },
        length matches Ok(total) ==> {
            let name_at = total - basename_bytes@.len();
            &&& name_at == parent_path_bytes@.len() || name_at == parent_path_bytes@.len() + 1
            &&& forall|i: int|
                0 <= i < parent_path_bytes@.len() ==> final(out_path_buffer)@[i]
                    == #[trigger] parent_path_bytes@[i]
            &&& final(out_path_buffer)@[name_at - 1] == 0x2f
            &&& forall|i: int|
                0 <= i < basename_bytes@.len() ==> final(out_path_buffer)@[name_at + i]
                    == #[trigger] basename_bytes@[i]
        },
{
    if parent_path_bytes.len() == 0 {
        return Err(ChronoIndexError::ParentPathInvalid);
    }
    let parent_ends_with_separator: bool = parent_path_bytes[parent_path_bytes.len() - 1]
        == PATH_SEPARATOR;
    let separator_byte_count: usize = if parent_ends_with_separator {
        0
    } else {
        1
    };
    let total_length: usize = parent_path_bytes.len().saturating_add(
        separator_byte_count,
    ).saturating_add(basename_bytes.len());
    if total_length > MAX_FULL_PATH_LEN {
        return Err(ChronoIndexError::LookupIo);
    }
    let ghost before = out_path_buffer@;
    let mut write_position: usize = parent_path_bytes.len();
    put_bytes(out_path_buffer, 0, parent_path_bytes);
    if !parent_ends_with_separator {
        out_path_buffer[write_position] = PATH_SEPARATOR;
        write_position = write_position + 1;
    }
    put_bytes(out_path_buffer, write_position, basename_bytes);
    assert(out_path_buffer@ =~= before.update_subrange_with(
        0,
        joined_path(parent_path_bytes@, basename_bytes@),
    ));
    Ok(write_position + basename_bytes.len())
}

/// The offset of the record at `position` of `mtimes.bin`.
pub open spec fn mtime_offset(position: u64) -> u64 {
    counting::saturated((position * MTIME_RECORD_SIZE) as nat)
}

/// The offset of the record with this id of `names.bin`.
pub open spec fn name_offset(record_id: u64) -> u64 {
    counting::saturated((record_id * NAME_RECORD_SIZE) as nat)
}

/// What a lookup gives for a modification time record and a name record, and
/// what it makes of the buffer.
pub open spec fn is_lookup_of(
    header: ChronoIndexHeader,
    record: MtimeRecord,
    name_record: Seq<u8>,
    before: Seq<u8>,
    after: Seq<u8>,
    result: Result<Option<ChronoLookupResult>, ChronoIndexError>,
) -> bool {
    let basename = names::basename_of(name_record);
    match path_error(header.parent(), basename) {
        Some(error) => {
            &&& result == Err::<Option<ChronoLookupResult>, ChronoIndexError>(error)
            &&& after == before
        },
        None => {
            &&& result == Ok::<Option<ChronoLookupResult>, ChronoIndexError>(
                Some(
                    ChronoLookupResult {
                        path_byte_length: joined_path(header.parent(), basename).len() as usize,
                        looked_up_file_mtime_sec: record.mtime_sec,
                        looked_up_file_mtime_nsec: record.mtime_nsec,
                    },
                ),
            )
            &&& after == before.update_subrange_with(0, joined_path(header.parent(), basename))
        },
    }
}

/// A lookup gave `result` and left the buffer as it was.
pub open spec fn leaves_buffer(
    before: Seq<u8>,
    after: Seq<u8>,
    result: Result<Option<ChronoLookupResult>, ChronoIndexError>,
    expected: Result<Option<ChronoLookupResult>, ChronoIndexError>,
) -> bool {
    result == expected && after == before
}

/// What a lookup gives for a modification time record with its id in range,
/// and what it makes of the buffer, where reading the name record gave
/// `name_read`.
pub open spec fn is_lookup_of_name(
    header: ChronoIndexHeader,
    record: MtimeRecord,
    name_read: Option<[u8; NAME_RECORD_SIZE]>,
    before: Seq<u8>,
    after: Seq<u8>,
    result: Result<Option<ChronoLookupResult>, ChronoIndexError>,
) -> bool {
    match name_read {
        None => leaves_buffer(before, after, result, Err(ChronoIndexError::LookupIo)),
        Some(name) => is_lookup_of(header, record, name@, before, after, result),
    }
}

/// What a lookup at `position` gives, and what it makes of the buffer.
pub open spec fn is_lookup<M, N>(
    committed: Result<Option<ChronoIndexHeader>, ChronoIndexError>,
    position: u64,
    read_mtimes_at: M,
    read_names_at: N,
    before: Seq<u8>,
    after: Seq<u8>,
    result: Result<Option<ChronoLookupResult>, ChronoIndexError>,
) -> bool where
    M: Fn(u64) -> Option<[u8; MTIME_RECORD_SIZE]>,
    N: Fn(u64) -> Option<[u8; NAME_RECORD_SIZE]>,
 {
    match committed {
        Err(error) => leaves_buffer(before, after, result, Err(error)),
        Ok(None) => leaves_buffer(before, after, result, Err(ChronoIndexError::LookupIo)),
        Ok(Some(header)) => if position >= header.file_count {
            leaves_buffer(before, after, result, Ok(None))
        } else {
            exists|mtime_read: Option<[u8; MTIME_RECORD_SIZE]>| #[trigger]
                call_ensures(read_mtimes_at, (mtime_offset(position),), mtime_read)
                    && match mtime_read {
                    None => leaves_buffer(before, after, result, Err(ChronoIndexError::LookupIo)),
                    Some(bytes) => {
                        let record = MtimeRecord::of_bytes(bytes@);
                        if record.record_id >= header.file_count {
                            leaves_buffer(before, after, result, Err(ChronoIndexError::LookupIo))
                        } else {
                            exists|name_read: Option<[u8; NAME_RECORD_SIZE]>| #[trigger]
                                call_ensures(
                                    read_names_at,
                                    (name_offset(record.record_id),),
                                    name_read,
                                ) && is_lookup_of_name(
                                    header,
                                    record,
                                    name_read,
                                    before,
                                    after,
                                    result,
                                )
                        }
                    },
                }
        },
    }
}

/// Finds the file at a chronological position, zero being that of the oldest
/// file, and puts its absolute path at the start of the buffer.
///
/// `committed` is what reading the header gave. A position at or past the
/// number of files gives none. An index that does not exist, a record that
/// cannot be read and a record id out of range give
/// [`ChronoIndexError::LookupIo`].
pub fn lookup_abs_file_path_at_mtime_chronological_index<M, N>(
    committed: Result<Option<ChronoIndexHeader>, ChronoIndexError>,
    chronological_position: u64,
    read_mtimes_at: M,
    read_names_at: N,
    out_path_buffer: &mut [u8; MAX_FULL_PATH_LEN],
) -> (result: Result<Option<ChronoLookupResult>, ChronoIndexError>) where
    M: Fn(u64) -> Option<[u8; MTIME_RECORD_SIZE]>,
    N: Fn(u64) -> Option<[u8; NAME_RECORD_SIZE]>,

    requires
        forall|offset: u64| #[trigger] call_requires(read_mtimes_at, (offset,)),
        forall|offset: u64| #[trigger] call_requires(read_names_at, (offset,)),
    ensures
        is_lookup(
            committed,
            chronological_position,
            read_mtimes_at,
            read_names_at,
            old(out_path_buffer)@,
            final(out_path_buffer)@,
            result,
        ),
        committed matches Ok(Some(header)) ==> (result matches Ok(Some(found)) ==> {
            &&& chronological_position < header.file_count
            &&& header.parent().len() <= found.path_byte_length <= 4096
            &&& forall|i: int|
                0 <= i < header.parent().len() ==> final(out_path_buffer)@[i]
                    == #[trigger] header.parent()[i]
            &&& forall|i: int|
                found.path_byte_length <= i < 4096 ==> #[trigger] final(out_path_buffer)@[i]
                    == old(out_path_buffer)@[i]
        }),
        !(result matches Ok(Some(_))) ==> final(out_path_buffer)@ == old(out_path_buffer)@,
{
    let header: ChronoIndexHeader = match committed {
        Ok(Some(header)) => header,
        Ok(None) => return Err(ChronoIndexError::LookupIo),
        Err(error) => return Err(error),
    };
    if chronological_position >= header.file_count {
        return Ok(None);
    }
    let mtime_read: Option<[u8; MTIME_RECORD_SIZE]> = read_mtimes_at(
        saturating_product(chronological_position, MTIME_RECORD_SIZE as u64),
    );
    assert(call_ensures(read_mtimes_at, (mtime_offset(chronological_position),), mtime_read));
    let mtime_record: MtimeRecord = match mtime_read {
        Some(bytes) => MtimeRecord::read_from(&bytes),
        None => return Err(ChronoIndexError::LookupIo),
    };
    if mtime_record.record_id >= header.file_count {
        return Err(ChronoIndexError::LookupIo);
    }
    let name_read: Option<[u8; NAME_RECORD_SIZE]> = read_names_at(
        saturating_product(mtime_record.record_id, NAME_RECORD_SIZE as u64),
    );
    assert(call_ensures(read_names_at, (name_offset(mtime_record.record_id),), name_read));
    let name_record: [u8; NAME_RECORD_SIZE] = match name_read {
        Some(bytes) => bytes,
        None => return Err(ChronoIndexError::LookupIo),
    };
    let basename_used_len: usize = basename_used_length(&name_record);
    match assemble_absolute_path_into_buffer(
        header.parent_path_slice(),
        slice_subrange(&name_record, 0, basename_used_len),
        out_path_buffer,
    ) {
        Ok(path_byte_length) => Ok(
            Some(
                ChronoLookupResult {
                    path_byte_length,
                    looked_up_file_mtime_sec: mtime_record.mtime_sec,
                    looked_up_file_mtime_nsec: mtime_record.mtime_nsec,
                },
            ),
        ),
        Err(error) => Err(error),
    }
}

/// The number of files in the index, which is where valid positions end. It is
/// zero where there is no index yet.
pub fn count_committed_files(
    committed: Result<Option<ChronoIndexHeader>, ChronoIndexError>,
) -> (count: Result<u64, ChronoIndexError>)
    ensures
        count == match committed {
            Ok(Some(header)) => Ok::<u64, ChronoIndexError>(header.file_count),
            Ok(None) => Ok::<u64, ChronoIndexError>(0),
            Err(error) => Err::<u64, ChronoIndexError>(error),
        },
{
    match committed {
        Ok(Some(header)) => Ok(header.file_count),
        Ok(None) => Ok(0),
        Err(error) => Err(error),
    }
}

/// What the sequence hash takes in of a position: seconds, nanoseconds and
/// basename, then a separator.
pub open spec fn position_bytes(record: MtimeRecord, basename: Seq<u8>) -> Seq<u8> {
    (record.bytes().take(12) + basename).push(RECORD_SEPARATOR_BYTE)
}

/// What the sequence hash takes in of the positions of `records`, whose
/// basenames are `basenames`.
pub open spec fn sequence_bytes(records: Seq<MtimeRecord>, basenames: Seq<Seq<u8>>) -> Seq<u8>
    decreases records.len(),
{
    if records.len() == 0 {
        Seq::empty()
    } else {
        sequence_bytes(records.drop_last(), basenames.drop_last()) + position_bytes(
            records.last(),
            basenames.last(),
        )
    }
}

/// The hash of a chronological sequence. Unlike the signal hash it depends on
/// the order.
pub open spec fn sequence_hash(records: Seq<MtimeRecord>, basenames: Seq<Seq<u8>>) -> u64 {
    hash::fnv1a(sequence_bytes(records, basenames))
}

/// What reading one position gave: its modification time record, and its name
/// record where the former could be read and its record id is in range.
pub struct PositionRead {
    pub mtime: Option<[u8; MTIME_RECORD_SIZE]>,
    pub name: Option<[u8; NAME_RECORD_SIZE]>,
}

impl PositionRead {
    pub open spec fn record(self) -> MtimeRecord {
        MtimeRecord::of_bytes((self.mtime->0)@)
    }

    pub open spec fn basename(self) -> Seq<u8> {
        names::basename_of((self.name->0)@)
    }

    /// The record id refers to one of `file_count` names.
    pub open spec fn refers_to_name(self, file_count: u64) -> bool {
        self.mtime is Some && self.record().record_id < file_count
    }

    pub open spec fn is_complete(self, file_count: u64) -> bool {
        self.refers_to_name(file_count) && self.name is Some
    }
}

/// The modification time records among `reads`.
pub open spec fn records_read(reads: Seq<PositionRead>) -> Seq<MtimeRecord> {
    Seq::new(reads.len(), |p: int| reads[p].record())
}

/// The basenames among `reads`.
pub open spec fn basenames_read(reads: Seq<PositionRead>) -> Seq<Seq<u8>> {
    Seq::new(reads.len(), |p: int| reads[p].basename())
}

/// `reads` are what calls of the two functions gave for the positions from zero
/// on.
pub open spec fn were_read<M, N>(
    reads: Seq<PositionRead>,
    file_count: u64,
    read_mtimes_at: M,
    read_names_at: N,
) -> bool where
    M: Fn(u64) -> Option<[u8; MTIME_RECORD_SIZE]>,
    N: Fn(u64) -> Option<[u8; NAME_RECORD_SIZE]>,
 {
    forall|p: int|
        0 <= p < reads.len() ==> {
            &&& call_ensures(
                read_mtimes_at,
                (mtime_offset(p as u64),),
                (#[trigger] reads[p]).mtime,
            )
            &&& reads[p].refers_to_name(file_count) ==> call_ensures(
                read_names_at,
                (name_offset(reads[p].record().record_id),),
                reads[p].name,
            )
        }
}

/// `result` is the hash of positions zero to `up_to_position` of an index with
/// `file_count` files, where `reads` are what reading them gave: the hash of
/// what they hold where all could be read, and an error after the first that
/// could not.
pub open spec fn is_hash_of_reads(
    reads: Seq<PositionRead>,
    file_count: u64,
    up_to_position: u64,
    result: Result<u64, ChronoIndexError>,
) -> bool {
    &&& 0 < reads.len() <= up_to_position + 1
    &&& forall|p: int|
        0 <= p < reads.len() - 1 ==> (#[trigger] reads[p]).is_complete(file_count)
    &&& match result {
        Ok(value) => {
            &&& reads.len() == up_to_position + 1
            &&& reads.last().is_complete(file_count)
            &&& value == sequence_hash(records_read(reads), basenames_read(reads))
        },
        Err(error) => {
            &&& error == ChronoIndexError::LookupIo
            &&& !reads.last().is_complete(file_count)
        },
    }
}

/// What the hash of an index up to a position comes to. Whatever stands in the
/// way gives [`ChronoIndexError::LookupIo`].
pub open spec fn is_sequence_hash<M, N>(
    committed: Result<Option<ChronoIndexHeader>, ChronoIndexError>,
    up_to_position: u64,
    read_mtimes_at: M,
    read_names_at: N,
    result: Result<u64, ChronoIndexError>,
) -> bool where
    M: Fn(u64) -> Option<[u8; MTIME_RECORD_SIZE]>,
    N: Fn(u64) -> Option<[u8; NAME_RECORD_SIZE]>,
 {
    match committed {
        Ok(Some(header)) => if up_to_position >= header.file_count {
            result == Err::<u64, ChronoIndexError>(ChronoIndexError::LookupIo)
        } else {
            exists|reads: Seq<PositionRead>| #[trigger]
                is_hash_of_reads(reads, header.file_count, up_to_position, result) && were_read(
                    reads,
                    header.file_count,
                    read_mtimes_at,
                    read_names_at,
                )
        },
        _ => result == Err::<u64, ChronoIndexError>(ChronoIndexError::LookupIo),
    }
}

/// Feeds one position to a running sequence hash.
fn feed_position(
    state: u64,
    mtime_bytes: &[u8; MTIME_RECORD_SIZE],
    name_record: &[u8; NAME_RECORD_SIZE],
) -> (hash: u64)
    ensures
        hash == hash::fnv1a_feed(
            state,
            position_bytes(
                MtimeRecord::of_bytes(mtime_bytes@),
                names::basename_of(name_record@),
            ),
        ),
{
    let separator: [u8; 1] = [RECORD_SEPARATOR_BYTE];
    let used: usize = basename_used_length(name_record);
    let basename: &[u8] = slice_subrange(name_record, 0, used);
    let after_mtime: u64 = feed_bytes(state, slice_subrange(mtime_bytes, 0, 12));
    let after_name: u64 = feed_bytes(after_mtime, basename);
    let fed: u64 = feed_bytes(after_name, &separator);
    proof {
        record::record_bytes_round_trip(mtime_bytes@);
        let record = MtimeRecord::of_bytes(mtime_bytes@);
        let mtime = record.bytes().take(12);
        assert(mtime_bytes@.subrange(0, 12) =~= mtime);
        assert(name_record@.subrange(0, used as int) =~= names::basename_of(name_record@));
        hash::lemma_fnv1a_feed_concat(state, mtime, basename@);
        hash::lemma_fnv1a_feed_concat(state, mtime + basename@, separator@);
        assert(position_bytes(record, basename@) =~= (mtime + basename@) + separator@);
    }
    fed
}

/// The hash of the files at positions zero to `up_to_position`, the latter
/// counted, by modification time and basename. The same index gives the same
/// hash.
///
/// `committed` is what reading the header gave. Whatever stands in the way of
/// the hash, a position out of range too, gives
/// [`ChronoIndexError::LookupIo`].
pub fn chrono_sort_hash_to_n<M, N>(
    committed: Result<Option<ChronoIndexHeader>, ChronoIndexError>,
    up_to_position: u64,
    read_mtimes_at: M,
    read_names_at: N,
) -> (result: Result<u64, ChronoIndexError>) where
    M: Fn(u64) -> Option<[u8; MTIME_RECORD_SIZE]>,
    N: Fn(u64) -> Option<[u8; NAME_RECORD_SIZE]>,

    requires
        forall|offset: u64| #[trigger] call_requires(read_mtimes_at, (offset,)),
        forall|offset: u64| #[trigger] call_requires(read_names_at, (offset,)),
    ensures
        is_sequence_hash(committed, up_to_position, read_mtimes_at, read_names_at, result),
{
    let header: ChronoIndexHeader = match committed {
        Ok(Some(header)) => header,
        _ => return Err(ChronoIndexError::LookupIo),
    };
    if header.file_count == 0 || up_to_position >= header.file_count {
        return Err(ChronoIndexError::LookupIo);
    }
    let mut running_hash: u64 = FNV1A_64_OFFSET_BASIS;
    let record_count_to_hash: u64 = up_to_position + 1;
    let mut positions_processed: u64 = 0;
    let ghost mut reads: Seq<PositionRead> = Seq::empty();
    while positions_processed < record_count_to_hash
        invariant
            positions_processed <= record_count_to_hash,
            record_count_to_hash == up_to_position + 1,
            forall|offset: u64| #[trigger] call_requires(read_mtimes_at, (offset,)),
            forall|offset: u64| #[trigger] call_requires(read_names_at, (offset,)),
            reads.len() == positions_processed,
            were_read(reads, header.file_count, read_mtimes_at, read_names_at),
            forall|p: int|
                0 <= p < reads.len() ==> (#[trigger] reads[p]).is_complete(header.file_count),
            running_hash == sequence_hash(records_read(reads), basenames_read(reads)),
            committed == Ok::<Option<ChronoIndexHeader>, ChronoIndexError>(Some(header)),
            up_to_position < header.file_count,
        decreases record_count_to_hash - positions_processed,
    {
        let mtime_read: Option<[u8; MTIME_RECORD_SIZE]> = read_mtimes_at(
            saturating_product(positions_processed, MTIME_RECORD_SIZE as u64),
        );
        let ghost missing: Option<[u8; NAME_RECORD_SIZE]> = None;
        let mtime_bytes: [u8; MTIME_RECORD_SIZE] = match mtime_read {
            Some(bytes) => bytes,
            None => {
                let ghost tried = reads.push(PositionRead { mtime: mtime_read, name: missing });
                assert(is_hash_of_reads(
                    tried,
                    header.file_count,
                    up_to_position,
                    Err(ChronoIndexError::LookupIo),
                ));
                return Err(ChronoIndexError::LookupIo);
            },
        };
        let mtime_record: MtimeRecord = MtimeRecord::read_from(&mtime_bytes);
        if mtime_record.record_id >= header.file_count {
            let ghost tried = reads.push(PositionRead { mtime: mtime_read, name: missing });
            assert(is_hash_of_reads(
                tried,
                header.file_count,
                up_to_position,
                Err(ChronoIndexError::LookupIo),
            ));
            return Err(ChronoIndexError::LookupIo);
        }
        let name_read: Option<[u8; NAME_RECORD_SIZE]> = read_names_at(
            saturating_product(mtime_record.record_id, NAME_RECORD_SIZE as u64),
        );
        let ghost read = PositionRead { mtime: mtime_read, name: name_read };
        let ghost longer = reads.push(read);
        let name_record: [u8; NAME_RECORD_SIZE] = match name_read {
            Some(bytes) => bytes,
            None => {
                assert(is_hash_of_reads(
                    longer,
                    header.file_count,
                    up_to_position,
                    Err(ChronoIndexError::LookupIo),
                ));
                return Err(ChronoIndexError::LookupIo);
            },
        };
        running_hash = feed_position(running_hash, &mtime_bytes, &name_record);
        proof {
            assert(records_read(longer).drop_last() =~= records_read(reads));
            assert(basenames_read(longer).drop_last() =~= basenames_read(reads));
            hash::lemma_fnv1a_feed_concat(
                FNV1A_64_OFFSET_BASIS,
                sequence_bytes(records_read(reads), basenames_read(reads)),
                position_bytes(read.record(), read.basename()),
            );
            reads = longer;
        }
        positions_processed = positions_processed + 1;
    }
    assert(is_hash_of_reads(reads, header.file_count, up_to_position, Ok(running_hash)));
    Ok(running_hash)
}

/// What a check of the hash of an index up to a position comes to.
pub open spec fn is_hash_check<M, N>(
    committed: Result<Option<ChronoIndexHeader>, ChronoIndexError>,
    up_to_position: u64,
    previous_hash: u64,
    read_mtimes_at: M,
    read_names_at: N,
    unchanged: Result<bool, ChronoIndexError>,
) -> bool where
    M: Fn(u64) -> Option<[u8; MTIME_RECORD_SIZE]>,
    N: Fn(u64) -> Option<[u8; NAME_RECORD_SIZE]>,
 {
    exists|current: Result<u64, ChronoIndexError>| #[trigger]
        is_sequence_hash(committed, up_to_position, read_mtimes_at, read_names_at, current)
            && unchanged == match current {
            Ok(value) => Ok::<bool, ChronoIndexError>(value == previous_hash),
            Err(error) => Err::<bool, ChronoIndexError>(error),
        }
}

/// Whether the files at positions zero to `up_to_position` are those that
/// `previous_hash` was taken of, in the same order.
///
/// Whatever stands in the way of the hash gives
/// [`ChronoIndexError::LookupIo`].
pub fn check_chronosort_hash_to_n<M, N>(
    committed: Result<Option<ChronoIndexHeader>, ChronoIndexError>,
    up_to_position: u64,
    previous_hash: u64,
    read_mtimes_at: M,
    read_names_at: N,
) -> (unchanged: Result<bool, ChronoIndexError>) where
    M: Fn(u64) -> Option<[u8; MTIME_RECORD_SIZE]>,
    N: Fn(u64) -> Option<[u8; NAME_RECORD_SIZE]>,

    requires
        forall|offset: u64| #[trigger] call_requires(read_mtimes_at, (offset,)),
        forall|offset: u64| #[trigger] call_requires(read_names_at, (offset,)),
    ensures
        is_hash_check(
            committed,
            up_to_position,
            previous_hash,
            read_mtimes_at,
            read_names_at,
            unchanged,
        ),
{
    let ghost read_mtimes = read_mtimes_at;
    let ghost read_names = read_names_at;
    let ghost header = committed;
    let current: Result<u64, ChronoIndexError> = chrono_sort_hash_to_n(
        committed,
        up_to_position,
        read_mtimes_at,
        read_names_at,
    );
    assert(is_sequence_hash(header, up_to_position, read_mtimes, read_names, current));
    match current {
        Ok(current_hash) => Ok(current_hash == previous_hash),
        Err(error) => Err(error),
    }
}

/// Two groups of positions, one after the other.
pub proof fn lemma_sequence_bytes_concat(
    a: Seq<MtimeRecord>,
    a_names: Seq<Seq<u8>>,
    b: Seq<MtimeRecord>,
    b_names: Seq<Seq<u8>>,
)
    requires
        a.len() == a_names.len(),
        b.len() == b_names.len(),
    ensures
        sequence_bytes(a + b, a_names + b_names) == sequence_bytes(a, a_names) + sequence_bytes(
            b,
            b_names,
        ),
    decreases b.len(),
{
    if b.len() == 0 {
        assert(a + b =~= a && a_names + b_names =~= a_names);
        assert(sequence_bytes(a, a_names) =~= sequence_bytes(a, a_names) + sequence_bytes(
            b,
            b_names,
        ));
    } else {
        lemma_sequence_bytes_concat(a, a_names, b.drop_last(), b_names.drop_last());
        assert((a + b).drop_last() =~= a + b.drop_last());
        assert((a_names + b_names).drop_last() =~= a_names + b_names.drop_last());
        assert(sequence_bytes(a + b, a_names + b_names) =~= sequence_bytes(a, a_names)
            + sequence_bytes(b, b_names));
    }
}

/// A basename that does not hold the separator byte, as no UTF-8 text does.
pub open spec fn holds_no_separator(basename: Seq<u8>) -> bool {
    forall|i: int| 0 <= i < basename.len() ==> #[trigger] basename[i] != RECORD_SEPARATOR_BYTE
}

/// What the sequence hash takes in tells sequences apart: where no basename
/// holds the separator byte, two sequences of which it takes in the same have
/// the same length, and the same modification times and basenames at every
/// position.
pub proof fn sequence_bytes_tell_sequences_apart(
    a: Seq<MtimeRecord>,
    a_names: Seq<Seq<u8>>,
    b: Seq<MtimeRecord>,
    b_names: Seq<Seq<u8>>,
)
    requires
        a.len() == a_names.len(),
        b.len() == b_names.len(),
        forall|i: int| 0 <= i < a.len() ==> holds_no_separator(#[trigger] a_names[i]),
        forall|i: int| 0 <= i < b.len() ==> holds_no_separator(#[trigger] b_names[i]),
        sequence_bytes(a, a_names) == sequence_bytes(b, b_names),
    ensures
        a_names == b_names,
        a.len() == b.len(),
        forall|i: int|
            0 <= i < a.len() ==> (#[trigger] a[i]).mtime_sec == b[i].mtime_sec && a[i].mtime_nsec
                == b[i].mtime_nsec,
    decreases a.len(),
{
    let whole = sequence_bytes(a, a_names);
    if a.len() == 0 {
        if b.len() > 0 {
            assert(sequence_bytes(b, b_names).len() > 0);
        }
        assert(a_names =~= b_names);
    } else if b.len() == 0 {
        assert(sequence_bytes(a, a_names).len() > 0);
    } else {
        let x = position_bytes(a[0], a_names[0]);
        let y = position_bytes(b[0], b_names[0]);
        let ra = sequence_bytes(a.drop_first(), a_names.drop_first());
        let rb = sequence_bytes(b.drop_first(), b_names.drop_first());
        lemma_split_first(a, a_names);
        lemma_split_first(b, b_names);
        assert(whole == x + ra && whole == y + rb);
        record::lemma_record_bytes_len(a[0]);
        record::lemma_record_bytes_len(b[0]);
        let n = a_names[0].len() as int;
        let m = b_names[0].len() as int;
        if n < m {
            assert(whole[12 + n] == x[12 + n] && x[12 + n] == RECORD_SEPARATOR_BYTE);
            assert(whole[12 + n] == y[12 + n] && y[12 + n] == b_names[0][n]);
        }
        if m < n {
            assert(whole[12 + m] == y[12 + m] && y[12 + m] == RECORD_SEPARATOR_BYTE);
            assert(whole[12 + m] == x[12 + m] && x[12 + m] == a_names[0][m]);
        }
        assert(x =~= whole.take(13 + n));
        assert(y =~= whole.take(13 + n));
        assert(ra =~= whole.skip(13 + n));
        assert(rb =~= whole.skip(13 + n));
        assert(a_names[0] =~= x.subrange(12, 12 + n));
        assert(b_names[0] =~= y.subrange(12, 12 + n));
        assert(a[0].bytes().take(12) =~= x.take(12));
        assert(b[0].bytes().take(12) =~= y.take(12));
        lemma_mtime_from_bytes(a[0], b[0]);
        assert forall|i: int| 0 <= i < a.len() - 1 implies holds_no_separator(
            #[trigger] a_names.drop_first()[i],
        ) by {
            assert(a_names.drop_first()[i] == a_names[i + 1]);
        }
        assert forall|i: int| 0 <= i < b.len() - 1 implies holds_no_separator(
            #[trigger] b_names.drop_first()[i],
        ) by {
            assert(b_names.drop_first()[i] == b_names[i + 1]);
        }
        sequence_bytes_tell_sequences_apart(
            a.drop_first(),
            a_names.drop_first(),
            b.drop_first(),
            b_names.drop_first(),
        );
        assert(a_names =~= seq![a_names[0]] + a_names.drop_first());
        assert(b_names =~= seq![b_names[0]] + b_names.drop_first());
        assert forall|i: int| 0 <= i < a.len() implies (#[trigger] a[i]).mtime_sec == b[i].mtime_sec
            && a[i].mtime_nsec == b[i].mtime_nsec by {
            if i > 0 {
                assert(a[i] == a.drop_first()[i - 1]);
                assert(b[i] == b.drop_first()[i - 1]);
            }
        }
    }
}

/// The sequence hash depends on nothing but the modification times and the
/// basenames, not on the record ids: it stays the same where an index is built
/// anew and every position has the same file. So where the hash has changed, so
/// has the sequence.
pub proof fn sequence_hash_is_of_times_and_names(
    a: Seq<MtimeRecord>,
    b: Seq<MtimeRecord>,
    basenames: Seq<Seq<u8>>,
)
    requires
        a.len() == b.len(),
        a.len() == basenames.len(),
        forall|i: int|
            0 <= i < a.len() ==> (#[trigger] a[i]).mtime_sec == b[i].mtime_sec && a[i].mtime_nsec
                == b[i].mtime_nsec,
    ensures
        sequence_bytes(a, basenames) == sequence_bytes(b, basenames),
        sequence_hash(a, basenames) == sequence_hash(b, basenames),
    decreases a.len(),
{
    if a.len() > 0 {
        let front = a.drop_last();
        assert forall|i: int| 0 <= i < front.len() implies (#[trigger] front[i]).mtime_sec
            == b.drop_last()[i].mtime_sec && front[i].mtime_nsec == b.drop_last()[i].mtime_nsec by {
            assert(front[i] == a[i]);
        }
        sequence_hash_is_of_times_and_names(front, b.drop_last(), basenames.drop_last());
        assert(a.last() == a[a.len() - 1]);
        little_endian::lemma_le_bytes_len(
            little_endian::twos_complement_64(a.last().mtime_sec),
            8,
        );
        little_endian::lemma_le_bytes_len(
            little_endian::twos_complement_32(a.last().mtime_nsec),
            4,
        );
        record::lemma_record_bytes_len(a.last());
        record::lemma_record_bytes_len(b.last());
        assert(a.last().bytes().take(12) =~= b.last().bytes().take(12));
    }
}

proof fn lemma_split_first(a: Seq<MtimeRecord>, names: Seq<Seq<u8>>)
    requires
        a.len() == names.len(),
        a.len() > 0,
    ensures
        sequence_bytes(a, names) == position_bytes(a[0], names[0]) + sequence_bytes(
            a.drop_first(),
            names.drop_first(),
        ),
{
    lemma_sequence_bytes_concat(seq![a[0]], seq![names[0]], a.drop_first(), names.drop_first());
    assert(a =~= seq![a[0]] + a.drop_first());
    assert(names =~= seq![names[0]] + names.drop_first());
    reveal_with_fuel(sequence_bytes, 2);
    assert(sequence_bytes(seq![a[0]], seq![names[0]]) =~= position_bytes(a[0], names[0]));
}

/// The first twelve bytes of a record hold its modification time.
proof fn lemma_mtime_from_bytes(a: MtimeRecord, b: MtimeRecord)
    requires
        a.bytes().take(12) == b.bytes().take(12),
    ensures
        a.mtime_sec == b.mtime_sec,
        a.mtime_nsec == b.mtime_nsec,
{
    record::record_round_trips(a);
    record::record_round_trips(b);
    assert(a.bytes().subrange(0, 8) =~= a.bytes().take(12).subrange(0, 8));
    assert(b.bytes().subrange(0, 8) =~= b.bytes().take(12).subrange(0, 8));
    assert(a.bytes().subrange(8, 12) =~= a.bytes().take(12).subrange(8, 12));
    assert(b.bytes().subrange(8, 12) =~= b.bytes().take(12).subrange(8, 12));
}

/// A path is put together of all of the parent, a separator and all of the
/// basename: it is as long as the two, and one byte longer where the parent does
/// not end with a separator; it starts with the parent, ends with the basename,
/// and has a separator directly before that. There is no path without a parent,
/// and none of more than 4096 bytes.
pub proof fn path_is_parent_separator_and_basename(parent: Seq<u8>, basename: Seq<u8>)
    ensures
        parent.len() > 0 ==> {
            let path = joined_path(parent, basename);
            let name_at = path.len() - basename.len();
            &&& path.len() == parent.len() + basename.len() + if parent[parent.len() - 1] == 0x2f {
                0int
            } else {
                1int
            }
            &&& forall|i: int| 0 <= i < parent.len() ==> path[i] == #[trigger] parent[i]
            &&& forall|i: int|
                0 <= i < basename.len() ==> path[name_at + i] == #[trigger] basename[i]
            &&& path[name_at - 1] == 0x2f
            &&& path_error(parent, basename) == if path.len() > 4096 {
                Some(ChronoIndexError::LookupIo)
            } else {
                None
            }
        },
        parent.len() == 0 ==> path_error(parent, basename) == Some(
            ChronoIndexError::ParentPathInvalid,
        ),
{
}

/// Files of one directory with different names have different paths.
pub proof fn different_names_have_different_paths(parent: Seq<u8>, a: Seq<u8>, b: Seq<u8>)
    requires
        parent.len() > 0,
        joined_path(parent, a) == joined_path(parent, b),
    ensures
        a == b,
{
    let path = joined_path(parent, a);
    let name_at = path.len() - a.len();
    assert(a =~= path.skip(name_at));
    assert(b =~= path.skip(name_at));
}

/// The state of the hash after one more position: the seconds in eight bytes, the
/// nanoseconds in four, the whole basename, and one byte that ends them.
pub open spec fn fed_position(state: u64, sec: i64, nsec: i32, basename: Seq<u8>) -> u64 {
    let sec_bytes = little_endian::le_bytes(((sec as int) % 0x1_0000_0000_0000_0000int) as nat, 8);
    let nsec_bytes = little_endian::le_bytes(((nsec as int) % 0x1_0000_0000int) as nat, 4);
    let after_time = hash::fnv1a_feed(hash::fnv1a_feed(state, sec_bytes), nsec_bytes);
    hash::fnv1a_feed(hash::fnv1a_feed(after_time, basename), seq![0xffu8])
}

/// What the hash takes in of a position is the seconds in eight bytes, the
/// nanoseconds in four, all of the basename, and the byte 0xff.
pub proof fn position_is_hashed_whole(state: u64, record: MtimeRecord, basename: Seq<u8>)
    ensures
        position_bytes(record, basename).len() == 13 + basename.len(),
        little_endian::le_value(position_bytes(record, basename).subrange(0, 8)) as int == (
        record.mtime_sec as int) % 0x1_0000_0000_0000_0000int,
        little_endian::le_value(position_bytes(record, basename).subrange(8, 12)) as int == (
        record.mtime_nsec as int) % 0x1_0000_0000int,
        position_bytes(record, basename).subrange(12, 12 + basename.len() as int) == basename,
        position_bytes(record, basename)[12 + basename.len() as int] == 0xff,
        hash::fnv1a_feed(state, position_bytes(record, basename)) == fed_position(
            state,
            record.mtime_sec,
            record.mtime_nsec,
            basename,
        ),
{
    let all = position_bytes(record, basename);
    record::record_has_documented_layout(record);
    let sec = record.bytes().subrange(0, 8);
    let nsec = record.bytes().subrange(8, 12);
    assert(all.subrange(0, 8) =~= sec);
    assert(all.subrange(8, 12) =~= nsec);
    assert(all.subrange(12, 12 + basename.len() as int) =~= basename);
    little_endian::lemma_le_bytes_of_value(sec);
    little_endian::lemma_le_bytes_of_value(nsec);
    hash::lemma_fnv1a_feed_concat(state, sec, nsec);
    hash::lemma_fnv1a_feed_concat(state, sec + nsec, basename);
    hash::lemma_fnv1a_feed_concat(state, sec + nsec + basename, seq![0xffu8]);
    assert(all =~= sec + nsec + basename + seq![0xffu8]);
}

/// The hash of a sequence goes on from the hash of all but its last position, at
/// any length, and starts from the offset basis: no position is left out.
pub proof fn sequence_hash_goes_on_with_every_position(
    records: Seq<MtimeRecord>,
    basenames: Seq<Seq<u8>>,
    record: MtimeRecord,
    basename: Seq<u8>,
)
    requires
        records.len() == basenames.len(),
    ensures
        sequence_hash(Seq::empty(), Seq::empty()) == 0xcbf2_9ce4_8422_2325,
        sequence_hash(records.push(record), basenames.push(basename)) == fed_position(
            sequence_hash(records, basenames),
            record.mtime_sec,
            record.mtime_nsec,
            basename,
        ),
{
    let before = sequence_bytes(records, basenames);
    assert(records.push(record).drop_last() =~= records);
    assert(basenames.push(basename).drop_last() =~= basenames);
    hash::lemma_fnv1a_feed_concat(
        FNV1A_64_OFFSET_BASIS,
        before,
        position_bytes(record, basename),
    );
    position_is_hashed_whole(hash::fnv1a(before), record, basename);
}

/// A difference in the state is not lost by the positions that follow.
pub proof fn difference_outlives_later_positions(
    a: Seq<MtimeRecord>,
    a_names: Seq<Seq<u8>>,
    b: Seq<MtimeRecord>,
    b_names: Seq<Seq<u8>>,
    more: Seq<MtimeRecord>,
    more_names: Seq<Seq<u8>>,
)
    requires
        a.len() == a_names.len(),
        b.len() == b_names.len(),
        more.len() == more_names.len(),
    ensures
        sequence_hash(a + more, a_names + more_names) == sequence_hash(
            b + more,
            b_names + more_names,
        ) <==> sequence_hash(a, a_names) == sequence_hash(b, b_names),
{
    let rest = sequence_bytes(more, more_names);
    lemma_sequence_bytes_concat(a, a_names, more, more_names);
    lemma_sequence_bytes_concat(b, b_names, more, more_names);
    let x = sequence_bytes(a, a_names);
    let y = sequence_bytes(b, b_names);
    hash::lemma_fnv1a_feed_concat(FNV1A_64_OFFSET_BASIS, x, rest);
    hash::lemma_fnv1a_feed_concat(FNV1A_64_OFFSET_BASIS, y, rest);
    if hash::fnv1a(x) != hash::fnv1a(y) {
        hash::different_states_stay_different(hash::fnv1a(x), hash::fnv1a(y), rest);
    }
}

/// Another file at whatever position is noticed: where two sequences differ at
/// one position only, and there in one byte of the name, or in the time so that
/// the hash goes on differently, their hashes differ, however many positions
/// follow.
pub proof fn other_file_at_one_position_changes_hash(
    records: Seq<MtimeRecord>,
    basenames: Seq<Seq<u8>>,
    position: int,
    record: MtimeRecord,
    basename: Seq<u8>,
)
    requires
        records.len() == basenames.len(),
        0 <= position < records.len(),
    ensures
        ({
            let before = sequence_hash(records.take(position), basenames.take(position));
            let old_one = records[position];
            let changed = sequence_hash(
                records.update(position, record),
                basenames.update(position, basename),
            ) != sequence_hash(records, basenames);
            &&& changed <==> fed_position(
                before,
                record.mtime_sec,
                record.mtime_nsec,
                basename,
            ) != fed_position(
                before,
                old_one.mtime_sec,
                old_one.mtime_nsec,
                basenames[position],
            )
            &&& record.mtime_sec == old_one.mtime_sec && record.mtime_nsec == old_one.mtime_nsec
                && differ_in_one_byte(basename, basenames[position]) ==> changed
        }),
{
    let front = records.take(position);
    let front_names = basenames.take(position);
    let back = records.skip(position + 1);
    let back_names = basenames.skip(position + 1);
    let a = front.push(record);
    let a_names = front_names.push(basename);
    let b = front.push(records[position]);
    let b_names = front_names.push(basenames[position]);
    assert(records.update(position, record) =~= a + back);
    assert(basenames.update(position, basename) =~= a_names + back_names);
    assert(records =~= b + back);
    assert(basenames =~= b_names + back_names);
    difference_outlives_later_positions(a, a_names, b, b_names, back, back_names);
    sequence_hash_goes_on_with_every_position(front, front_names, record, basename);
    sequence_hash_goes_on_with_every_position(
        front,
        front_names,
        records[position],
        basenames[position],
    );
    let old_one = records[position];
    if record.mtime_sec == old_one.mtime_sec && record.mtime_nsec == old_one.mtime_nsec
        && differ_in_one_byte(basename, basenames[position]) {
        lemma_names_are_fed_differently(
            sequence_hash(front, front_names),
            record.mtime_sec,
            record.mtime_nsec,
            basename,
            basenames[position],
        );
    }
}

/// Two byte strings of one length differ in exactly one byte.
pub open spec fn differ_in_one_byte(a: Seq<u8>, b: Seq<u8>) -> bool {
    &&& a.len() == b.len()
    &&& exists|place: int|
        {
            &&& 0 <= place < a.len()
            &&& #[trigger] a[place] != b[place]
            &&& forall|i: int| 0 <= i < a.len() && i != place ==> a[i] == b[i]
        }
}

proof fn lemma_names_are_fed_differently(
    state: u64,
    sec: i64,
    nsec: i32,
    a: Seq<u8>,
    b: Seq<u8>,
)
    requires
        differ_in_one_byte(a, b),
    ensures
        fed_position(state, sec, nsec, a) != fed_position(state, sec, nsec, b),
{
    let sec_bytes = little_endian::le_bytes(((sec as int) % 0x1_0000_0000_0000_0000int) as nat, 8);
    let nsec_bytes = little_endian::le_bytes(((nsec as int) % 0x1_0000_0000int) as nat, 4);
    let after_time = hash::fnv1a_feed(hash::fnv1a_feed(state, sec_bytes), nsec_bytes);
    let place = choose|place: int|
        {
            &&& 0 <= place < a.len()
            &&& #[trigger] a[place] != b[place]
            &&& forall|i: int| 0 <= i < a.len() && i != place ==> a[i] == b[i]
        };
    hash::strings_that_differ_in_one_byte_hash_differently(after_time, a, b, place);
    hash::different_states_stay_different(
        hash::fnv1a_feed(after_time, a),
        hash::fnv1a_feed(after_time, b),
        seq![0xffu8],
    );
}

/// The records of an index are found at twenty times their position, and the
/// names at sixty-four times their number.
pub proof fn records_are_found_by_multiplying(position: u64)
    ensures
        position * 20 <= u64::MAX ==> mtime_offset(position) == position * 20,
        position * 64 <= u64::MAX ==> name_offset(position) == position * 64,
{
}

/// A lookup that cannot read a record of its index fails and leaves the buffer
/// alone; so does one whose record refers to no name, and one without an index.
/// What reading the header has failed with, it fails with too.
pub proof fn lookup_without_its_records_fails<M, N>(
    committed: Result<Option<ChronoIndexHeader>, ChronoIndexError>,
    position: u64,
    read_mtimes_at: M,
    read_names_at: N,
    before: Seq<u8>,
    after: Seq<u8>,
    result: Result<Option<ChronoLookupResult>, ChronoIndexError>,
) where
    M: Fn(u64) -> Option<[u8; MTIME_RECORD_SIZE]>,
    N: Fn(u64) -> Option<[u8; NAME_RECORD_SIZE]>,

    requires
        is_lookup(committed, position, read_mtimes_at, read_names_at, before, after, result),
    ensures
        committed matches Err(error) ==> result == Err::<
            Option<ChronoLookupResult>,
            ChronoIndexError,
        >(error) && after == before,
        committed matches Ok(None) ==> result == Err::<
            Option<ChronoLookupResult>,
            ChronoIndexError,
        >(ChronoIndexError::LookupIo) && after == before,
        committed matches Ok(Some(header)) ==> {
            let fails = result == Err::<Option<ChronoLookupResult>, ChronoIndexError>(
                ChronoIndexError::LookupIo,
            ) && after == before;
            let offset = mtime_offset(position);
            &&& position >= header.file_count ==> result == Ok::<
                Option<ChronoLookupResult>,
                ChronoIndexError,
            >(None) && after == before
            &&& position < header.file_count && (forall|read: Option<[u8; MTIME_RECORD_SIZE]>|
             #[trigger]
                call_ensures(read_mtimes_at, (offset,), read) ==> read is None) ==> fails
            &&& position < header.file_count && (forall|read: Option<[u8; MTIME_RECORD_SIZE]>|
             #[trigger]
                call_ensures(read_mtimes_at, (offset,), read) && read is Some
                    ==> MtimeRecord::of_bytes((read->0)@).record_id >= header.file_count) ==> fails
            &&& position < header.file_count && (forall|
                at: u64,
                read: Option<[u8; NAME_RECORD_SIZE]>,
            | #[trigger]
                call_ensures(read_names_at, (at,), read) ==> read is None) ==> fails
        },
{
}

/// A hash, and a check of one, is not given without a header, beyond the last
/// position, where a record cannot be read, and where one refers to no name: all
/// of these fail alike.
pub proof fn hash_without_its_records_fails<M, N>(
    committed: Result<Option<ChronoIndexHeader>, ChronoIndexError>,
    up_to_position: u64,
    previous_hash: u64,
    read_mtimes_at: M,
    read_names_at: N,
    result: Result<u64, ChronoIndexError>,
    unchanged: Result<bool, ChronoIndexError>,
) where
    M: Fn(u64) -> Option<[u8; MTIME_RECORD_SIZE]>,
    N: Fn(u64) -> Option<[u8; NAME_RECORD_SIZE]>,

    requires
        is_sequence_hash(committed, up_to_position, read_mtimes_at, read_names_at, result),
        is_hash_check(
            committed,
            up_to_position,
            previous_hash,
            read_mtimes_at,
            read_names_at,
            unchanged,
        ),
    ensures
        result is Err ==> result == Err::<u64, ChronoIndexError>(ChronoIndexError::LookupIo),
        unchanged is Err ==> unchanged == Err::<bool, ChronoIndexError>(
            ChronoIndexError::LookupIo,
        ),
        !(committed matches Ok(Some(header)) && up_to_position < header.file_count) ==> result
            is Err && unchanged is Err,
        (forall|at: u64, read: Option<[u8; MTIME_RECORD_SIZE]>| #[trigger]
            call_ensures(read_mtimes_at, (at,), read) ==> read is None) ==> result is Err
            && unchanged is Err,
        (forall|at: u64, read: Option<[u8; NAME_RECORD_SIZE]>| #[trigger]
            call_ensures(read_names_at, (at,), read) ==> read is None) ==> result is Err
            && unchanged is Err,
        committed matches Ok(Some(header)) ==> (forall|
            at: u64,
            read: Option<[u8; MTIME_RECORD_SIZE]>,
        | #[trigger]
            call_ensures(read_mtimes_at, (at,), read) && read is Some ==> MtimeRecord::of_bytes(
                (read->0)@,
            ).record_id >= header.file_count) ==> result is Err && unchanged is Err,
{
}

/// What a call of [`count_committed_files`] returns: the number of files of the
/// header, zero without an index, and otherwise what reading the header has
/// failed with.
pub proof fn committed_files_are_counted(
    committed: Result<Option<ChronoIndexHeader>, ChronoIndexError>,
    count: Result<u64, ChronoIndexError>,
)
    requires
        call_ensures(count_committed_files, (committed,), count),
    ensures
        committed is Err <==> count is Err,
        committed matches Err(error) ==> count == Err::<u64, ChronoIndexError>(error),
        committed matches Ok(Some(header)) ==> count == Ok::<u64, ChronoIndexError>(
            header.file_count,
        ),
        committed matches Ok(None) ==> count == Ok::<u64, ChronoIndexError>(0),
{
}

} // verus!
