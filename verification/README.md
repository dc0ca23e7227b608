# chrono_sort

A chronological index over the regular files of one directory: which file is at
a position in the order of modification times, and whether the sequence of files
up to a position is still the one that it was.

- `src/` is the library, verified with Verus. It performs no input or output:
  builds, appends and updates are states that say what to do next and functions
  that take what came of it; lookups and hashes read through functions that the
  caller supplies.
- `tests/` runs the library, whole builds and updates on an index held in memory.
- `app/` performs the steps on files and holds a demonstration program.

The format of the files and the limits are in `src/layout.rs`, `src/header.rs`,
`src/record.rs` and `src/names.rs`. What performing the steps does to files, byte
for byte, is proved in `src/scan_files.rs`, `src/merge_files.rs`,
`src/sort_files.rs`, `src/rewrite_files.rs`, `src/append_files.rs` and
`src/build_files.rs`. What is proved of the index as a whole is there and in
`src/stored_index.rs`, `src/lifecycle.rs` and `src/updated_index.rs`: that a build
leaves an index of the files that it has seen, or, where it fails, the index that
was there before, unless an old data file could not be kept or put back; that an
append extends an index and commits a header that is true also after a failure,
that what it leaves without a header is noticed by the next update, and that a
second append over the same directory changes nothing; that an update leaves an
index that agrees with the directory, also where the one before it has failed;
that a lookup finds the file at its position; and that a hash of earlier positions
stays the same where newer files are appended.
