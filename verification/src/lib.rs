//! A chronological index over the regular files of one directory.
//!
//! The index answers which file is at a position in the order of modification
//! times, and whether the sequence of files up to a position is still the one
//! that it was. It lives in a directory of its own and consists of
//!
//! - `names.bin`, the basenames in the order in which they were taken in,
//! - `mtimes.bin`, the modification times in chronological order, each with the
//!   number of its basename,
//! - `name_hashes.bin`, a sidecar with the hash of every basename,
//! - `header.bin`, which counts the files and is written last: it commits what
//!   the others hold.
//!
//! The library performs no input or output. What takes more than one operation
//! on files is a state that says which step comes next and a function that
//! takes what came of it: [`cold_build`], with [`scan`], [`external_sort`] and
//! [`run_merge`]; [`append`], with [`sidecar`] and [`batch_rewrite`];
//! [`header_file`]; and [`update`], which decides between them. Looking up a
//! position and hashing a sequence, in [`lookup`], read through functions that
//! the caller supplies.
//!
//! What a scan and an append take in of what the directory gave is proved in
//! [`scan_events`] and [`append_events`], what performing the steps does to the
//! contents of files in [`scan_files`], [`merge_files`], [`sort_files`],
//! [`rewrite_files`], [`append_files`] and [`build_files`], and what follows for the
//! index as a whole in [`stored_index`], [`lifecycle`] and [`updated_index`].

pub mod append;
pub mod append_events;
pub mod append_files;
pub mod batch_rewrite;
pub mod buffer;
pub mod build_files;
pub mod cold_build;
pub mod counting;
pub mod demo;
pub mod directories;
pub mod entry;
pub mod error;
pub mod external_sort;
pub mod hash;
pub mod header;
pub mod header_file;
pub mod layout;
pub mod lifecycle;
pub mod little_endian;
pub mod lookup;
pub mod merge_files;
pub mod names;
pub mod paths;
pub mod record;
pub mod rewrite_files;
pub mod run_merge;
pub mod scan;
pub mod scan_events;
pub mod scan_files;
pub mod sidecar;
pub mod sort;
pub mod sort_files;
pub mod stored_index;
pub mod text;
pub mod update;
pub mod updated_index;
