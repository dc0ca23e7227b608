//! The header of an index.

use vstd::prelude::*;
use vstd::slice::slice_subrange;
use crate::buffer::{bytes_equal, put_bytes};
use crate::error::ChronoIndexError;
use crate::layout::{HEADER_MAGIC, HEADER_SIZE, HEADER_VERSION, MAX_PARENT_PATH_LEN};
use crate::little_endian;

verus! {

/// What `header.bin` holds.
pub struct ChronoIndexHeader {
    /// Number of indexed files, which is the number of records in both
    /// `names.bin` and `mtimes.bin`.
    pub file_count: u64,
    /// Exclusive or of the hashes of all indexed basenames.
    pub signal_hash: u64,
    /// Modification time of the newest indexed file.
    pub last_mtime_sec: i64,
    pub last_mtime_nsec: i32,
    /// How often a batch held files older than the newest indexed one.
    pub invariant_breach_count: u64,
    /// How many bytes of `parent_path` are in use.
    pub parent_path_len: u16,
    /// Absolute path of the indexed directory, filled up with zeros.
    pub parent_path: [u8; MAX_PARENT_PATH_LEN],
}

/// `n` zero bytes.
pub open spec fn zeros(n: nat) -> Seq<u8> {
    Seq::new(n, |i: int| 0u8)
}

impl ChronoIndexHeader {
    /// The path of the indexed directory, without the zeros behind it.
    pub open spec fn parent(self) -> Seq<u8> {
        self.parent_path@.take(
            if self.parent_path_len <= MAX_PARENT_PATH_LEN {
                self.parent_path_len as int
            } else {
                MAX_PARENT_PATH_LEN as int
            },
        )
    }

    /// The header as it stands on disk.
    pub open spec fn bytes(self) -> Seq<u8> {
        HEADER_MAGIC@ + little_endian::le_bytes(HEADER_VERSION as nat, 4) + little_endian::le_bytes(
            self.file_count as nat,
            8,
        ) + little_endian::le_bytes(self.signal_hash as nat, 8) + little_endian::le_bytes(
            little_endian::twos_complement_64(self.last_mtime_sec),
            8,
        ) + little_endian::le_bytes(little_endian::twos_complement_32(self.last_mtime_nsec), 4)
            + little_endian::le_bytes(self.invariant_breach_count as nat, 8)
            + little_endian::le_bytes(self.parent_path_len as nat, 2) + zeros(2)
            + self.parent_path@ + zeros(12)
    }

    /// The number in `width` bytes from `offset` on.
    pub open spec fn field(bytes: Seq<u8>, offset: int, width: int) -> nat {
        little_endian::le_value(bytes.subrange(offset, offset + width))
    }

    /// `self` holds what the fields of `bytes` say.
    pub open spec fn is_read_from(self, bytes: Seq<u8>) -> bool {
        &&& self.file_count == Self::field(bytes, 12, 8)
        &&& self.signal_hash == Self::field(bytes, 20, 8)
        &&& self.last_mtime_sec == little_endian::signed_64(Self::field(bytes, 28, 8))
        &&& self.last_mtime_nsec == little_endian::signed_32(Self::field(bytes, 36, 4))
        &&& self.invariant_breach_count == Self::field(bytes, 40, 8)
        &&& self.parent_path_len == Self::field(bytes, 48, 2)
        &&& self.parent_path@ == bytes.subrange(52, 52 + MAX_PARENT_PATH_LEN)
    }

    /// The error that reading a header from `bytes` gives, where it gives one.
    pub open spec fn structural_error(bytes: Seq<u8>) -> Option<ChronoIndexError> {
        if bytes.subrange(0, 8) != HEADER_MAGIC@ {
            Some(ChronoIndexError::HeaderBadMagic)
        } else if Self::field(bytes, 8, 4) != HEADER_VERSION {
            Some(ChronoIndexError::HeaderBadVersion)
        } else if Self::field(bytes, 48, 2) > MAX_PARENT_PATH_LEN {
            Some(ChronoIndexError::HeaderBadSize)
        } else {
            None
        }
    }

    /// The error that a header for the directory `parent` gives, where it
    /// gives one.
    pub open spec fn parent_error(parent: Seq<u8>) -> Option<ChronoIndexError> {
        if parent.len() == 0 {
            Some(ChronoIndexError::ParentPathInvalid)
        } else if parent.len() > MAX_PARENT_PATH_LEN {
            Some(ChronoIndexError::ParentPathTooLong)
        } else {
            None
        }
    }

    /// The header of an index over `parent` that holds no file yet.
    pub open spec fn is_fresh(self, parent: Seq<u8>) -> bool {
        &&& self.file_count == 0
        &&& self.signal_hash == 0
        &&& self.last_mtime_sec == i64::MIN
        &&& self.last_mtime_nsec == 0
        &&& self.invariant_breach_count == 0
        &&& self.parent_path_len == parent.len()
        &&& self.parent_path@ == parent + zeros((MAX_PARENT_PATH_LEN - parent.len()) as nat)
    }

    /// A header for a directory that has not been indexed yet.
    ///
    /// Its newest modification time is the earliest there is, so that no file
    /// that is appended later is older.
    pub fn new_for_parent(parent_path_bytes: &[u8]) -> (header: Result<Self, ChronoIndexError>)
        ensures
            match Self::parent_error(parent_path_bytes@) {
                Some(error) => header == Err::<Self, ChronoIndexError>(error),
                None => header matches Ok(h) && h.is_fresh(parent_path_bytes@) && h.parent()
                    == parent_path_bytes@,
            },
    {
        if parent_path_bytes.len() == 0 {
            return Err(ChronoIndexError::ParentPathInvalid);
        }
        if parent_path_bytes.len() > MAX_PARENT_PATH_LEN {
            return Err(ChronoIndexError::ParentPathTooLong);
        }
        let mut parent_path: [u8; MAX_PARENT_PATH_LEN] = [0u8; MAX_PARENT_PATH_LEN];
        put_bytes(&mut parent_path, 0, parent_path_bytes);
        assert(parent_path@ =~= parent_path_bytes@ + zeros(
            (MAX_PARENT_PATH_LEN - parent_path_bytes@.len()) as nat,
        ));
        assert(parent_path@.take(parent_path_bytes@.len() as int) =~= parent_path_bytes@);
        Ok(
            ChronoIndexHeader {
                file_count: 0,
                signal_hash: 0,
                last_mtime_sec: i64::MIN,
                last_mtime_nsec: 0,
                invariant_breach_count: 0,
                parent_path_len: parent_path_bytes.len() as u16,
                parent_path,
            },
        )
    }

    /// The part of `parent_path` that is in use.
    pub fn parent_path_slice(&self) -> (path: &[u8])
        ensures
            path@ == self.parent(),
    {
        let mut usable_length: usize = self.parent_path_len as usize;
        if usable_length > MAX_PARENT_PATH_LEN {
            usable_length = MAX_PARENT_PATH_LEN;
        }
        slice_subrange(&self.parent_path, 0, usable_length)
    }

    /// Writes the header in its on-disk form.
    pub fn serialize_into(&self, output_buffer: &mut [u8; HEADER_SIZE])
        ensures
            final(output_buffer)@ == self.bytes(),
    {
        let sec: u64 = little_endian::to_twos_complement_64(self.last_mtime_sec);
        let nsec: u32 = little_endian::to_twos_complement_32(self.last_mtime_nsec);
        let blank: [u8; HEADER_SIZE] = [0u8; HEADER_SIZE];
        put_bytes(output_buffer, 0, &blank);
        assert(output_buffer@ =~= zeros(HEADER_SIZE as nat));
        put_bytes(output_buffer, 0, &HEADER_MAGIC);
        little_endian::put_le(output_buffer, 8, 4, HEADER_VERSION as u64);
        little_endian::put_le(output_buffer, 12, 8, self.file_count);
        little_endian::put_le(output_buffer, 20, 8, self.signal_hash);
        little_endian::put_le(output_buffer, 28, 8, sec);
        little_endian::put_le(output_buffer, 36, 4, nsec as u64);
        little_endian::put_le(output_buffer, 40, 8, self.invariant_breach_count);
        little_endian::put_le(output_buffer, 48, 2, self.parent_path_len as u64);
        put_bytes(output_buffer, 52, &self.parent_path);
        proof {
            lemma_field_lengths(*self);
            assert(output_buffer@ =~= self.bytes());
        }
    }

    /// Reads a header from its on-disk form.
    ///
    /// The magic bytes are looked at first, then the version, then the length
    /// of the parent path.
    pub fn deserialize_from(input_buffer: &[u8; HEADER_SIZE]) -> (header: Result<
        Self,
        ChronoIndexError,
    >)
        ensures
            match Self::structural_error(input_buffer@) {
                Some(error) => header == Err::<Self, ChronoIndexError>(error),
                None => header matches Ok(h) && h.is_read_from(input_buffer@),
            },
    {
        if !bytes_equal(slice_subrange(input_buffer, 0, 8), &HEADER_MAGIC) {
            return Err(ChronoIndexError::HeaderBadMagic);
        }
        proof {
            little_endian::lemma_le_capacities();
        }
        let on_disk_version: u64 = little_endian::get_le(input_buffer, 8, 4);
        if on_disk_version != HEADER_VERSION as u64 {
            return Err(ChronoIndexError::HeaderBadVersion);
        }
        let file_count: u64 = little_endian::get_le(input_buffer, 12, 8);
        let signal_hash: u64 = little_endian::get_le(input_buffer, 20, 8);
        let sec: u64 = little_endian::get_le(input_buffer, 28, 8);
        let nsec: u64 = little_endian::get_le(input_buffer, 36, 4);
        let invariant_breach_count: u64 = little_endian::get_le(input_buffer, 40, 8);
        let parent_path_len: u64 = little_endian::get_le(input_buffer, 48, 2);
        if parent_path_len > MAX_PARENT_PATH_LEN as u64 {
            return Err(ChronoIndexError::HeaderBadSize);
        }
        let mut parent_path: [u8; MAX_PARENT_PATH_LEN] = [0u8; MAX_PARENT_PATH_LEN];
        put_bytes(
            &mut parent_path,
            0,
            slice_subrange(input_buffer, 52, 52 + MAX_PARENT_PATH_LEN),
        );
        assert(parent_path@ =~= input_buffer@.subrange(52, 52 + MAX_PARENT_PATH_LEN));
        Ok(
            ChronoIndexHeader {
                file_count,
                signal_hash,
                last_mtime_sec: little_endian::from_twos_complement_64(sec),
                last_mtime_nsec: little_endian::from_twos_complement_32(nsec as u32),
                invariant_breach_count,
                parent_path_len: parent_path_len as u16,
                parent_path,
            },
        )
    }
}

impl Clone for ChronoIndexHeader {
    fn clone(&self) -> (copy: Self)
        ensures
            copy == *self,
    {
        ChronoIndexHeader {
            file_count: self.file_count,
            signal_hash: self.signal_hash,
            last_mtime_sec: self.last_mtime_sec,
            last_mtime_nsec: self.last_mtime_nsec,
            invariant_breach_count: self.invariant_breach_count,
            parent_path_len: self.parent_path_len,
            parent_path: self.parent_path,
        }
    }
}

/// The bytes of a directory path that an index can be built over.
pub fn posix_path_to_bytes(raw_bytes: &[u8]) -> (path: Result<&[u8], ChronoIndexError>)
    ensures
        match ChronoIndexHeader::parent_error(raw_bytes@) {
            Some(error) => path == Err::<&[u8], ChronoIndexError>(error),
            None => path == Ok::<&[u8], ChronoIndexError>(raw_bytes),
        },
{
    if raw_bytes.len() == 0 {
        return Err(ChronoIndexError::ParentPathInvalid);
    }
    if raw_bytes.len() > MAX_PARENT_PATH_LEN {
        return Err(ChronoIndexError::ParentPathTooLong);
    }
    Ok(raw_bytes)
}

proof fn lemma_field_lengths(header: ChronoIndexHeader)
    ensures
        little_endian::le_bytes(HEADER_VERSION as nat, 4).len() == 4,
        little_endian::le_bytes(header.file_count as nat, 8).len() == 8,
        little_endian::le_bytes(header.signal_hash as nat, 8).len() == 8,
        little_endian::le_bytes(
            little_endian::twos_complement_64(header.last_mtime_sec),
            8,
        ).len() == 8,
        little_endian::le_bytes(
            little_endian::twos_complement_32(header.last_mtime_nsec),
            4,
        ).len() == 4,
        little_endian::le_bytes(header.invariant_breach_count as nat, 8).len() == 8,
        little_endian::le_bytes(header.parent_path_len as nat, 2).len() == 2,
{
    little_endian::lemma_le_bytes_len(HEADER_VERSION as nat, 4);
    little_endian::lemma_le_bytes_len(header.file_count as nat, 8);
    little_endian::lemma_le_bytes_len(header.signal_hash as nat, 8);
    little_endian::lemma_le_bytes_len(little_endian::twos_complement_64(header.last_mtime_sec), 8);
    little_endian::lemma_le_bytes_len(little_endian::twos_complement_32(header.last_mtime_nsec), 4);
    little_endian::lemma_le_bytes_len(header.invariant_breach_count as nat, 8);
    little_endian::lemma_le_bytes_len(header.parent_path_len as nat, 2);
}

/// A header that is written and read back is the same header. The length of
/// its parent path must be in range: no header with another one is ever built.
pub proof fn header_round_trips(header: ChronoIndexHeader)
    requires
        header.parent_path_len <= MAX_PARENT_PATH_LEN,
    ensures
        header.bytes().len() == HEADER_SIZE,
        ChronoIndexHeader::structural_error(header.bytes()) is None,
        header.is_read_from(header.bytes()),
        forall|other: ChronoIndexHeader| #[trigger]
            other.is_read_from(header.bytes()) ==> other == header,
{
    let b = header.bytes();
    lemma_field_lengths(header);
    little_endian::lemma_le_capacities();
    let sec = little_endian::twos_complement_64(header.last_mtime_sec);
    let nsec = little_endian::twos_complement_32(header.last_mtime_nsec);
    little_endian::lemma_le_value_of_bytes(HEADER_VERSION as nat, 4);
    little_endian::lemma_le_value_of_bytes(header.file_count as nat, 8);
    little_endian::lemma_le_value_of_bytes(header.signal_hash as nat, 8);
    little_endian::lemma_le_value_of_bytes(sec, 8);
    little_endian::lemma_le_value_of_bytes(nsec, 4);
    little_endian::lemma_le_value_of_bytes(header.invariant_breach_count as nat, 8);
    little_endian::lemma_le_value_of_bytes(header.parent_path_len as nat, 2);
    assert(b.subrange(0, 8) =~= HEADER_MAGIC@);
    assert(b.subrange(8, 12) =~= little_endian::le_bytes(HEADER_VERSION as nat, 4));
    assert(b.subrange(12, 20) =~= little_endian::le_bytes(header.file_count as nat, 8));
    assert(b.subrange(20, 28) =~= little_endian::le_bytes(header.signal_hash as nat, 8));
    assert(b.subrange(28, 36) =~= little_endian::le_bytes(sec, 8));
    assert(b.subrange(36, 40) =~= little_endian::le_bytes(nsec, 4));
    assert(b.subrange(40, 48) =~= little_endian::le_bytes(
        header.invariant_breach_count as nat,
        8,
    ));
    assert(b.subrange(48, 50) =~= little_endian::le_bytes(header.parent_path_len as nat, 2));
    assert(b.subrange(52, 52 + MAX_PARENT_PATH_LEN) =~= header.parent_path@);
    assert forall|other: ChronoIndexHeader| #[trigger] other.is_read_from(b) implies other
        == header by {
        assert(other.parent_path =~= header.parent_path);
    }
}

/// The paths that an index can be built over are those of one to 4096 bytes; an
/// empty one is invalid, and a longer one too long.
pub proof fn parent_path_has_up_to_4096_bytes(parent: Seq<u8>)
    ensures
        ChronoIndexHeader::parent_error(parent) is None <==> 1 <= parent.len() <= 4096,
        parent.len() == 0 ==> ChronoIndexHeader::parent_error(parent) == Some(
            ChronoIndexError::ParentPathInvalid,
        ),
        parent.len() > 4096 ==> ChronoIndexHeader::parent_error(parent) == Some(
            ChronoIndexError::ParentPathTooLong,
        ),
{
}

/// Where `header.bin` holds what, all numbers little-endian.
pub proof fn header_has_documented_layout(header: ChronoIndexHeader)
    requires
        header.parent_path_len <= 4096,
    ensures
        ({
            let b = header.bytes();
            &&& b.len() == 4160
            &&& b.subrange(0, 8) == seq![0x43u8, 0x48, 0x52, 0x49, 0x44, 0x58, 0x30, 0x31]
            &&& little_endian::le_value(b.subrange(8, 12)) == 1
            &&& little_endian::le_value(b.subrange(12, 20)) == header.file_count as nat
            &&& little_endian::le_value(b.subrange(20, 28)) == header.signal_hash as nat
            &&& little_endian::le_value(b.subrange(28, 36)) as int == (
            header.last_mtime_sec as int) % 0x1_0000_0000_0000_0000int
            &&& little_endian::le_value(b.subrange(36, 40)) as int == (
            header.last_mtime_nsec as int) % 0x1_0000_0000int
            &&& little_endian::le_value(b.subrange(40, 48)) == header.invariant_breach_count as nat
            &&& little_endian::le_value(b.subrange(48, 50)) == header.parent_path_len as nat
            &&& b.subrange(52, 4148) == header.parent_path@
            &&& forall|i: int| 50 <= i < 52 || 4148 <= i < 4160 ==> b[i] == 0
        }),
{
    header_round_trips(header);
    let b = header.bytes();
    lemma_field_lengths(header);
    little_endian::lemma_le_capacities();
    let sec = little_endian::twos_complement_64(header.last_mtime_sec);
    let nsec = little_endian::twos_complement_32(header.last_mtime_nsec);
    little_endian::twos_complement_is_the_number_modulo_its_width(
        header.last_mtime_sec,
        header.last_mtime_nsec,
    );
    little_endian::lemma_le_value_of_bytes(HEADER_VERSION as nat, 4);
    little_endian::lemma_le_value_of_bytes(header.file_count as nat, 8);
    little_endian::lemma_le_value_of_bytes(header.signal_hash as nat, 8);
    little_endian::lemma_le_value_of_bytes(sec, 8);
    little_endian::lemma_le_value_of_bytes(nsec, 4);
    little_endian::lemma_le_value_of_bytes(header.invariant_breach_count as nat, 8);
    little_endian::lemma_le_value_of_bytes(header.parent_path_len as nat, 2);
    assert(b.subrange(0, 8) =~= seq![0x43u8, 0x48, 0x52, 0x49, 0x44, 0x58, 0x30, 0x31]);
    assert(b.subrange(8, 12) =~= little_endian::le_bytes(HEADER_VERSION as nat, 4));
    assert(b.subrange(12, 20) =~= little_endian::le_bytes(header.file_count as nat, 8));
    assert(b.subrange(20, 28) =~= little_endian::le_bytes(header.signal_hash as nat, 8));
    assert(b.subrange(28, 36) =~= little_endian::le_bytes(sec, 8));
    assert(b.subrange(36, 40) =~= little_endian::le_bytes(nsec, 4));
    assert(b.subrange(40, 48) =~= little_endian::le_bytes(
        header.invariant_breach_count as nat,
        8,
    ));
    assert(b.subrange(48, 50) =~= little_endian::le_bytes(header.parent_path_len as nat, 2));
    assert(b.subrange(52, 4148) =~= header.parent_path@);
}

/// Bytes are refused as a header for a wrong byte among the first eight, else for
/// a version other than one, else for a path length over 4096, and for nothing
/// else.
pub proof fn header_is_refused_for_magic_version_or_length(bytes: Seq<u8>)
    requires
        bytes.len() == 4160,
    ensures
        ({
            let magic = seq![0x43u8, 0x48, 0x52, 0x49, 0x44, 0x58, 0x30, 0x31];
            let has_magic = forall|i: int| 0 <= i < 8 ==> bytes[i] == #[trigger] magic[i];
            let version = little_endian::le_value(bytes.subrange(8, 12));
            let path_len = little_endian::le_value(bytes.subrange(48, 50));
            let error = ChronoIndexHeader::structural_error(bytes);
            &&& !has_magic ==> error == Some(ChronoIndexError::HeaderBadMagic)
            &&& has_magic && version != 1 ==> error == Some(ChronoIndexError::HeaderBadVersion)
            &&& has_magic && version == 1 && path_len > 4096 ==> error == Some(
                ChronoIndexError::HeaderBadSize,
            )
            &&& has_magic && version == 1 && path_len <= 4096 ==> error is None
        }),
{
    let magic = seq![0x43u8, 0x48, 0x52, 0x49, 0x44, 0x58, 0x30, 0x31];
    assert(HEADER_MAGIC@ =~= magic);
    let has_magic = forall|i: int| 0 <= i < 8 ==> bytes[i] == #[trigger] magic[i];
    if has_magic {
        assert(bytes.subrange(0, 8) =~= magic);
    } else {
        let i = choose|i: int| 0 <= i < 8 && bytes[i] != #[trigger] magic[i];
        assert(bytes.subrange(0, 8)[i] == bytes[i]);
    }
}

/// The path that a header holds is the path that it was made for, whole.
pub proof fn fresh_header_holds_whole_path(header: ChronoIndexHeader, parent: Seq<u8>)
    requires
        header.is_fresh(parent),
        1 <= parent.len() <= 4096,
    ensures
        header.parent().len() == parent.len(),
        forall|i: int| 0 <= i < parent.len() ==> header.parent()[i] == #[trigger] parent[i],
        header.file_count == 0,
        header.signal_hash == 0,
        header.invariant_breach_count == 0,
{
}

} // verus!
