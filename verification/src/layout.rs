//! Sizes, names and limits of the files that make up an index.

use vstd::prelude::*;

verus! {

/// Magic bytes at the start of `header.bin`: `CHRIDX01` in ASCII.
pub const HEADER_MAGIC: [u8; 8] = [0x43, 0x48, 0x52, 0x49, 0x44, 0x58, 0x30, 0x31];

/// Version of the on-disk format.
pub const HEADER_VERSION: u32 = 1;

/// Longest basename, in bytes, that a name record can hold.
pub const MAX_BASENAME_LEN: usize = 64;

/// Longest parent path, in bytes, that the header can hold.
pub const MAX_PARENT_PATH_LEN: usize = 4096;

/// Size of one record of `names.bin`.
pub const NAME_RECORD_SIZE: usize = 64;

/// Size of one record of `mtimes.bin`: seconds (8), nanoseconds (4), record id (8).
pub const MTIME_RECORD_SIZE: usize = 20;

/// Size of `header.bin`.
///
/// All numbers are little-endian.
///
/// ```text
///   offset  size  field
///        0     8  magic
///        8     4  version
///       12     8  file_count
///       20     8  signal_hash
///       28     8  last_mtime_sec
///       36     4  last_mtime_nsec
///       40     8  invariant_breach_count
///       48     2  parent_path_len
///       50     2  zero
///       52  4096  parent_path
///     4148    12  zero
/// ```
pub const HEADER_SIZE: usize = 4160;

/// Longest absolute path, in bytes, that a lookup can return.
pub const MAX_FULL_PATH_LEN: usize = 4096;

/// Size of one record of `name_hashes.bin`.
pub const NAME_HASH_RECORD_SIZE: usize = 8;

/// How many records one initial run of the external sort holds at most.
pub const EXTERNAL_SORT_CHUNK_RECORDS: usize = 4096;

/// How many runs one merge reads at most.
pub const MAX_MERGE_FANOUT: usize = 16;

/// How many new records an append gathers before it flushes them.
pub const APPEND_BATCH_RECORDS: usize = 256;

/// The directory, below the caller's temporary root, that holds an index.
pub const INDEX_SUBDIRNAME: &'static str = "chrono_index";

/// The directory, below that of the index, for the files of a cold build.
pub const SCRATCH_DIRNAME: &'static str = "scratch";

pub const HEADER_FILENAME: &'static str = "header.bin";

pub const NAMES_FILENAME: &'static str = "names.bin";

pub const MTIMES_FILENAME: &'static str = "mtimes.bin";

pub const NAME_HASHES_FILENAME: &'static str = "name_hashes.bin";

/// The files beside the ones above in which their successors are staged.
pub const STAGED_HEADER_FILENAME: &'static str = "header.bin.tmp";

pub const STAGED_NAMES_FILENAME: &'static str = "names.bin.tmp";

pub const STAGED_MTIMES_FILENAME: &'static str = "mtimes.bin.tmp";

pub const STAGED_NAME_HASHES_FILENAME: &'static str = "name_hashes.bin.tmp";

/// The name under which what `names.bin` held is kept while a new index is put
/// in its place.
pub const SET_ASIDE_NAMES_FILENAME: &'static str = "names.bin.old";

/// The name under which what `mtimes.bin` held is kept.
pub const SET_ASIDE_MTIMES_FILENAME: &'static str = "mtimes.bin.old";

/// The scratch file that a cold build sorts.
pub const SCRATCH_UNSORTED_MTIMES_FILENAME: &'static str = "mtimes_unsorted.bin";

} // verus!
