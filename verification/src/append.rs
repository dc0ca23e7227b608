//! Appending new files to an index.
//!
//! The directory is listed once. A file whose basename is not in the sidecar is
//! new: its name and name hash are appended at once, its modification time is
//! gathered in a batch. A full batch is flushed to `mtimes.bin`, and so is what
//! is left at the end. The header is written last and commits the append.
//!
//! Where a step fails, what is complete is flushed, the files are cut to the
//! records that belong together, and a header that counts those is written, so
//! that the index holds a part of the new files.

use vstd::prelude::*;
use crate::buffer::bytes_equal;
use crate::counting;
use crate::entry;
use crate::entry::{
    extract_mtime_seconds_and_nanos, DirectoryEntry, EntryFate, EntryView, FileFact, Observed,
};
use crate::error::ChronoIndexError;
use crate::hash;
use crate::hash::fnv1a_64;
use crate::header::{posix_path_to_bytes, ChronoIndexHeader};
use crate::layout::{
    APPEND_BATCH_RECORDS, MAX_BASENAME_LEN, MTIME_RECORD_SIZE, NAME_HASH_RECORD_SIZE,
    NAME_RECORD_SIZE,
};
use crate::little_endian;
use crate::names;
use crate::names::pack_basename_record;
use crate::record;
use crate::record::{encode_mtime_records, MtimeRecord};
use crate::sidecar::encode_name_hash;
use crate::sort::sort_chronologically;

verus! {

/// What an append did with the entries of the directory.
#[derive(Debug, Clone, Copy, PartialEq, Eq, Structural)]
pub struct AppendSummary {
    /// New files taken into the index.
    pub files_appended: u64,
    /// Entries skipped because their basename is too long.
    pub entries_skipped_overlong_name: u64,
    /// Entries skipped because they could not be read or examined.
    pub entries_skipped_stat_failed: u64,
    /// Entries skipped because they are not regular files.
    pub entries_skipped_non_regular: u64,
    /// New files that were older than the newest indexed file at the time
    /// their batch was flushed, so that `mtimes.bin` had to be rewritten.
    pub invariant_breaches_this_call: u64,
}

/// What an append needs done next.
#[derive(Debug, Clone, Copy, PartialEq, Eq, Structural)]
pub enum AppendStep {
    /// Make the sidecar agree with `names.bin`.
    EnsureSidecar,
    /// Open the directory for listing.
    OpenDirectory,
    /// Take the next entry from the directory.
    NextEntry,
    /// Search the sidecar for this name hash.
    SearchSidecar(u64),
    /// Examine the file of the entry for its modification time.
    StatEntry,
    /// Append [`AppendSession::name_record`] to `names.bin`.
    AppendName,
    /// Append [`AppendSession::hash_record`] to the sidecar.
    AppendHash,
    /// Append [`AppendSession::batch_bytes`] to `mtimes.bin` and make it
    /// durable.
    AppendMtimes,
    /// Rewrite `mtimes.bin` with [`AppendSession::batch`] merged in.
    RewriteMtimes,
    /// Make the sidecar and `names.bin` durable.
    SyncFiles,
    /// Cut `names.bin`, the sidecar and `mtimes.bin` to
    /// [`AppendSession::trimmed_sizes`], and make them durable.
    TrimFiles,
    /// Write [`AppendSession::header`] atomically.
    WriteHeader,
    /// Nothing: the append is committed.
    Finished,
    /// Nothing: the append failed.
    Failed(ChronoIndexError),
}

/// The sizes in bytes to which [`AppendStep::TrimFiles`] cuts the files; none
/// where a size is more than 64 bits can tell.
#[derive(Debug, Clone, Copy, PartialEq, Eq, Structural)]
pub struct TrimmedSizes {
    pub names: Option<u64>,
    pub name_hashes: Option<u64>,
    pub mtimes: Option<u64>,
}

/// The size of a file of `count` records, as far as 64 bits go.
pub open spec fn trimmed_size(count: u64, record_size: usize) -> Option<u64> {
    if count * record_size <= u64::MAX {
        Some((count * record_size) as u64)
    } else {
        None
    }
}

/// What came of a step.
#[derive(Debug)]
pub enum AppendEvent {
    Succeeded,
    /// Opening, searching, examining, appending or cutting failed.
    Failed,
    /// Making the sidecar agree, the rewrite or the writing of the header
    /// failed.
    FailedWith(ChronoIndexError),
    /// The directory gave one more entry.
    Entry(DirectoryEntry),
    /// The directory holds no further entry.
    EndOfDirectory,
    /// Whether the sidecar holds the name hash.
    Known(bool),
    /// The modification time of the examined file.
    Stat { mtime_sec: i64, mtime_nsec: i64 },
    /// `mtimes.bin` was rewritten; its newest record has this modification
    /// time.
    Rewritten { newest_sec: i64, newest_nsec: i32 },
}

/// Why a batch is flushed, and so what follows.
#[derive(Debug, Clone, Copy, PartialEq, Eq, Structural)]
pub enum FlushPurpose {
    /// The batch is full: go on with the directory.
    Full,
    /// The directory is at its end: commit.
    Final,
    /// Something failed: commit what is complete, then fail.
    Fail(ChronoIndexError),
}

/// A batch that was flushed.
pub struct Flush {
    /// Its records, in chronological order.
    pub records: Seq<MtimeRecord>,
    /// Whether `mtimes.bin` was rewritten; otherwise they were appended.
    pub rewritten: bool,
}

/// The state of an append as its contract speaks of it.
#[verifier::ext_equal]
pub struct AppendModel {
    pub step: AppendStep,
    /// The header to commit.
    pub header: ChronoIndexHeader,
    pub summary: AppendSummary,
    /// The file that is being taken in.
    pub pending: FileFact,
    /// The records and the basenames of the files taken in since the last
    /// flush.
    pub batch: Seq<MtimeRecord>,
    pub batch_names: Seq<Seq<u8>>,
    pub purpose: FlushPurpose,
    /// The basenames whose records `names.bin` has gained.
    pub names_written: Seq<Seq<u8>>,
    /// The hashes that the sidecar has gained.
    pub hashes_written: Seq<u64>,
    /// The batches that were flushed.
    pub flushes: Seq<Flush>,
    /// The files that were taken in, but for those given up after a failure.
    pub files_taken: Seq<FileFact>,
    /// The basenames that the sidecar knew.
    pub known: Seq<Seq<u8>>,
    /// The entries that are dealt with, but for those the sidecar knew.
    pub seen: Seq<Observed>,
}

/// One more, as far as 64 bits go.
pub open spec fn bumped(n: u64) -> u64 {
    counting::saturated((n + 1) as nat)
}

/// How many of `records` have a modification time before the given one.
pub open spec fn older_than(records: Seq<MtimeRecord>, sec: i64, nsec: i32) -> nat
    decreases records.len(),
{
    if records.len() == 0 {
        0
    } else {
        let last = records.last();
        older_than(records.drop_last(), sec, nsec) + if last.mtime_sec < sec || (last.mtime_sec
            == sec && last.mtime_nsec < nsec) {
            1nat
        } else {
            0nat
        }
    }
}

/// Whether a batch in chronological order can be appended to `mtimes.bin` as it
/// is: its first record is not older than the newest indexed file, or the
/// index held no file before.
pub open spec fn can_append(header: ChronoIndexHeader, batch: Seq<MtimeRecord>) -> bool {
    let first = batch[0];
    ||| first.mtime_sec > header.last_mtime_sec
    ||| first.mtime_sec == header.last_mtime_sec && first.mtime_nsec >= header.last_mtime_nsec
    ||| header.file_count == batch.len()
}

impl AppendModel {
    /// The state of an append to an index with this header.
    pub open spec fn start(header: ChronoIndexHeader) -> AppendModel {
        AppendModel {
            step: AppendStep::EnsureSidecar,
            header,
            summary: AppendSummary {
                files_appended: 0,
                entries_skipped_overlong_name: 0,
                entries_skipped_stat_failed: 0,
                entries_skipped_non_regular: 0,
                invariant_breaches_this_call: 0,
            },
            pending: FileFact { basename: Seq::empty(), mtime_sec: 0, mtime_nsec: 0 },
            batch: Seq::empty(),
            batch_names: Seq::empty(),
            purpose: FlushPurpose::Full,
            names_written: Seq::empty(),
            hashes_written: Seq::empty(),
            flushes: Seq::empty(),
            files_taken: Seq::empty(),
            known: Seq::empty(),
            seen: Seq::empty(),
        }
    }

    pub open spec fn at(self, step: AppendStep) -> AppendModel {
        AppendModel { step, ..self }
    }

    /// Goes on to the next entry, with one more skipped as unreadable.
    pub open spec fn skipping_unreadable(self, entry: EntryView) -> AppendModel {
        AppendModel {
            step: AppendStep::NextEntry,
            summary: AppendSummary {
                entries_skipped_stat_failed: bumped(self.summary.entries_skipped_stat_failed),
                ..self.summary
            },
            seen: self.seen.push(Observed { entry, stat: None }),
            ..self
        }
    }

    /// Goes on to flush the batch: to append it where that keeps
    /// `mtimes.bin` in order, and else to rewrite the file.
    pub open spec fn flushing(self, purpose: FlushPurpose) -> AppendModel {
        let sorted = record::chronological(self.batch);
        AppendModel {
            step: if can_append(self.header, sorted) {
                AppendStep::AppendMtimes
            } else {
                AppendStep::RewriteMtimes
            },
            batch: sorted,
            purpose,
            ..self
        }
    }

    /// Goes on to flush what the batch holds, if anything, and then as the
    /// purpose says.
    pub open spec fn ending(self, purpose: FlushPurpose) -> AppendModel {
        if self.batch.len() == 0 {
            (AppendModel { purpose, ..self }).with_purpose_served()
        } else {
            self.flushing(purpose)
        }
    }

    /// Goes on once nothing is left to flush.
    pub open spec fn with_purpose_served(self) -> AppendModel {
        match self.purpose {
            FlushPurpose::Full => self.at(AppendStep::NextEntry),
            FlushPurpose::Final => self.at(AppendStep::SyncFiles),
            FlushPurpose::Fail(_) => self.at(AppendStep::TrimFiles),
        }
    }

    /// Goes on once the batch is in `mtimes.bin`, whose newest record now has
    /// the given modification time. A rewrite is counted, and so are the files
    /// of the batch that made it necessary.
    pub open spec fn flushed(self, rewritten: bool, sec: i64, nsec: i32) -> AppendModel {
        (AppendModel {
            header: ChronoIndexHeader {
                last_mtime_sec: sec,
                last_mtime_nsec: nsec,
                signal_hash: self.header.signal_hash ^ hash::signal_hash(self.batch_names),
                invariant_breach_count: if rewritten {
                    bumped(self.header.invariant_breach_count)
                } else {
                    self.header.invariant_breach_count
                },
                ..self.header
            },
            summary: AppendSummary {
                files_appended: counting::saturated(
                    self.summary.files_appended as nat + self.batch.len(),
                ),
                invariant_breaches_this_call: if rewritten {
                    counting::saturated(
                        self.summary.invariant_breaches_this_call as nat + older_than(
                            self.batch,
                            self.header.last_mtime_sec,
                            self.header.last_mtime_nsec,
                        ),
                    )
                } else {
                    self.summary.invariant_breaches_this_call
                },
                ..self.summary
            },
            flushes: self.flushes.push(Flush { records: self.batch, rewritten }),
            batch: Seq::empty(),
            batch_names: Seq::empty(),
            ..self
        }).with_purpose_served()
    }

    /// Goes on once a flush has failed: the files of the batch are given up.
    /// The first error is the one that counts.
    pub open spec fn flush_failed(self, error: ChronoIndexError) -> AppendModel {
        AppendModel {
            step: AppendStep::TrimFiles,
            purpose: match self.purpose {
                FlushPurpose::Fail(first) => FlushPurpose::Fail(first),
                _ => FlushPurpose::Fail(error),
            },
            header: ChronoIndexHeader {
                file_count: (self.header.file_count - self.batch.len()) as u64,
                ..self.header
            },
            files_taken: self.files_taken.take(self.files_taken.len() - self.batch.len()),
            batch: Seq::empty(),
            batch_names: Seq::empty(),
            ..self
        }
    }

    /// Goes on once the header is written, or once it is known that it cannot
    /// be.
    pub open spec fn over(self, otherwise: AppendStep) -> AppendModel {
        match self.purpose {
            FlushPurpose::Fail(first) => self.at(AppendStep::Failed(first)),
            _ => self.at(otherwise),
        }
    }

    /// Goes on once the name and the name hash of the pending file are
    /// appended: the file is part of the index and of the batch.
    pub open spec fn taken_in(self) -> AppendModel {
        let taken = AppendModel {
            hashes_written: self.hashes_written.push(hash::fnv1a(self.pending.basename)),
            batch: self.batch.push(
                MtimeRecord {
                    mtime_sec: self.pending.mtime_sec,
                    mtime_nsec: self.pending.mtime_nsec,
                    record_id: self.header.file_count,
                },
            ),
            batch_names: self.batch_names.push(self.pending.basename),
            files_taken: self.files_taken.push(self.pending),
            seen: self.seen.push(
                Observed {
                    entry: EntryView::Regular(self.pending.basename),
                    stat: Some((self.pending.mtime_sec, self.pending.mtime_nsec as i64)),
                },
            ),
            header: ChronoIndexHeader { file_count: bumped(self.header.file_count), ..self.header },
            ..self
        };
        if taken.batch.len() >= APPEND_BATCH_RECORDS {
            taken.flushing(FlushPurpose::Full)
        } else {
            taken.at(AppendStep::NextEntry)
        }
    }

    /// The state after `event`. An event that does not answer the step leaves
    /// the state as it is.
    pub open spec fn after(self, event: AppendEvent) -> AppendModel {
        match (self.step, event) {
            (AppendStep::EnsureSidecar, AppendEvent::Succeeded) => self.at(
                AppendStep::OpenDirectory,
            ),
            (AppendStep::EnsureSidecar, AppendEvent::FailedWith(error)) => self.at(
                AppendStep::Failed(error),
            ),
            (AppendStep::OpenDirectory, AppendEvent::Succeeded) => self.at(AppendStep::NextEntry),
            (AppendStep::OpenDirectory, AppendEvent::Failed) => self.at(
                AppendStep::Failed(ChronoIndexError::AppendIo),
            ),
            (AppendStep::NextEntry, AppendEvent::Entry(found)) => match found@ {
                EntryView::Unreadable => self.skipping_unreadable(EntryView::Unreadable),
                EntryView::NotRegular => AppendModel {
                    summary: AppendSummary {
                        entries_skipped_non_regular: bumped(
                            self.summary.entries_skipped_non_regular,
                        ),
                        ..self.summary
                    },
                    seen: self.seen.push(Observed { entry: EntryView::NotRegular, stat: None }),
                    ..self
                },
                EntryView::Regular(basename) => if basename.len() > MAX_BASENAME_LEN {
                    AppendModel {
                        summary: AppendSummary {
                            entries_skipped_overlong_name: bumped(
                                self.summary.entries_skipped_overlong_name,
                            ),
                            ..self.summary
                        },
                        seen: self.seen.push(
                            Observed { entry: EntryView::Regular(basename), stat: None },
                        ),
                        ..self
                    }
                } else {
                    AppendModel {
                        step: AppendStep::SearchSidecar(hash::fnv1a(basename)),
                        pending: FileFact { basename, mtime_sec: 0, mtime_nsec: 0 },
                        ..self
                    }
                },
            },
            (AppendStep::NextEntry, AppendEvent::EndOfDirectory) => self.ending(
                FlushPurpose::Final,
            ),
            (AppendStep::SearchSidecar(_), AppendEvent::Known(known)) => if known {
                AppendModel {
                    step: AppendStep::NextEntry,
                    known: self.known.push(self.pending.basename),
                    ..self
                }
            } else {
                self.at(AppendStep::StatEntry)
            },
            (AppendStep::SearchSidecar(_), AppendEvent::Failed) => self.ending(
                FlushPurpose::Fail(ChronoIndexError::AppendIo),
            ),
            (AppendStep::StatEntry, AppendEvent::Failed) => self.skipping_unreadable(
                EntryView::Regular(self.pending.basename),
            ),
            (AppendStep::StatEntry, AppendEvent::Stat { mtime_sec, mtime_nsec }) => AppendModel {
                step: AppendStep::AppendName,
                pending: FileFact {
                    basename: self.pending.basename,
                    mtime_sec,
                    mtime_nsec: entry::clamped_nanos(mtime_nsec),
                },
                ..self
            },
            (AppendStep::AppendName, AppendEvent::Succeeded) => AppendModel {
                step: AppendStep::AppendHash,
                names_written: self.names_written.push(self.pending.basename),
                ..self
            },
            (AppendStep::AppendName, AppendEvent::Failed) => self.ending(
                FlushPurpose::Fail(ChronoIndexError::AppendIo),
            ),
            (AppendStep::AppendHash, AppendEvent::Succeeded) => self.taken_in(),
            (AppendStep::AppendHash, AppendEvent::Failed) => self.ending(
                FlushPurpose::Fail(ChronoIndexError::AppendIo),
            ),
            (AppendStep::AppendMtimes, AppendEvent::Succeeded) => self.flushed(
                false,
                self.batch.last().mtime_sec,
                self.batch.last().mtime_nsec,
            ),
            (AppendStep::AppendMtimes, AppendEvent::Failed) => self.flush_failed(
                ChronoIndexError::AppendIo,
            ),
            (AppendStep::RewriteMtimes, AppendEvent::Rewritten { newest_sec, newest_nsec }) => {
                self.flushed(true, newest_sec, newest_nsec)
            },
            (AppendStep::RewriteMtimes, AppendEvent::FailedWith(error)) => self.flush_failed(error),
            (AppendStep::SyncFiles, AppendEvent::Succeeded | AppendEvent::Failed) => self.at(
                AppendStep::WriteHeader,
            ),
            (AppendStep::TrimFiles, AppendEvent::Succeeded) => AppendModel {
                step: AppendStep::WriteHeader,
                names_written: self.names_written.take(self.files_taken.len() as int),
                hashes_written: self.hashes_written.take(self.files_taken.len() as int),
                ..self
            },
            (AppendStep::TrimFiles, AppendEvent::Failed) => self.over(
                AppendStep::Failed(ChronoIndexError::AppendIo),
            ),
            (AppendStep::WriteHeader, AppendEvent::Succeeded) => self.over(AppendStep::Finished),
            (AppendStep::WriteHeader, AppendEvent::FailedWith(error)) => self.over(
                AppendStep::Failed(error),
            ),
            _ => self,
        }
    }

    /// The summary counts the files that are in `mtimes.bin`, and the skipped
    /// entries by their reasons.
    pub open spec fn counts_what_was_seen(self) -> bool {
        &&& self.batch.len() <= self.files_taken.len()
        &&& self.summary.files_appended == counting::saturated(
            (self.files_taken.len() - self.batch.len()) as nat,
        )
        &&& self.summary.entries_skipped_overlong_name == counting::saturated(
            entry::overlongs(self.seen),
        )
        &&& self.summary.entries_skipped_stat_failed == counting::saturated(
            entry::stat_failures(self.seen),
        )
        &&& self.summary.entries_skipped_non_regular == counting::saturated(
            entry::non_regulars(self.seen),
        )
    }

    /// What holds of an append at every step.
    pub open spec fn is_sound(self) -> bool {
        &&& self.pending.basename.len() <= MAX_BASENAME_LEN
        &&& 0 <= self.pending.mtime_nsec < 1_000_000_000
        &&& self.files_taken.is_prefix_of(entry::indexed_files(self.seen))
        &&& !(self.purpose is Fail) ==> self.files_taken == entry::indexed_files(self.seen)
        &&& self.counts_what_was_seen()
        &&& self.files_taken.len() <= self.names_written.len()
        &&& self.files_taken.len() <= self.hashes_written.len()
        &&& self.step is AppendHash ==> self.files_taken.len() < self.names_written.len()
        &&& forall|i: int|
            0 <= i < self.known.len() ==> (#[trigger] self.known[i]).len() <= MAX_BASENAME_LEN
        &&& self.batch.len() == self.batch_names.len()
        &&& self.batch.len() <= APPEND_BATCH_RECORDS
        &&& self.batch.len() <= self.header.file_count
        &&& match self.step {
            AppendStep::AppendMtimes => {
                &&& self.batch.len() > 0
                &&& record::is_chronological(self.batch)
                &&& can_append(self.header, self.batch)
            },
            AppendStep::RewriteMtimes => {
                &&& self.batch.len() > 0
                &&& record::is_chronological(self.batch)
            },
            AppendStep::SearchSidecar(name_hash) => {
                &&& self.batch.len() < APPEND_BATCH_RECORDS
                &&& name_hash == hash::fnv1a(self.pending.basename)
                &&& !(self.purpose is Fail)
            },
            AppendStep::NextEntry | AppendStep::StatEntry | AppendStep::AppendName
            | AppendStep::AppendHash => {
                &&& self.batch.len() < APPEND_BATCH_RECORDS
                &&& !(self.purpose is Fail)
            },
            AppendStep::SyncFiles | AppendStep::Finished | AppendStep::EnsureSidecar
            | AppendStep::OpenDirectory => self.batch.len() == 0 && !(self.purpose is Fail),
            AppendStep::TrimFiles => self.batch.len() == 0 && self.purpose is Fail,
            AppendStep::WriteHeader | AppendStep::Failed(_) => self.batch.len() == 0,
        }
    }
}

/// Whatever comes of a step, a sound append stays sound: the batch never grows
/// beyond its limit, nothing is committed that is not flushed, and the files
/// taken in are those that the directory listed, the sidecar did not know and
/// could be examined.
pub proof fn append_stays_sound(m: AppendModel, event: AppendEvent)
    requires
        m.is_sound(),
    ensures
        m.after(event).is_sound(),
{
    let n = m.after(event);
    match (m.step, event) {
        (AppendStep::NextEntry, AppendEvent::Entry(found)) => {
            if !(n.step is SearchSidecar) {
                entry::lemma_seen_push(m.seen, n.seen.last());
            }
        },
        (AppendStep::StatEntry, AppendEvent::Failed) => {
            entry::lemma_seen_push(m.seen, n.seen.last());
        },
        (AppendStep::AppendHash, AppendEvent::Succeeded) => {
            lemma_taken_in_sound(m);
        },
        (AppendStep::NextEntry, AppendEvent::EndOfDirectory) => {
            record::lemma_chronological_sorts(m.batch);
        },
        (AppendStep::SearchSidecar(_), AppendEvent::Failed) => {
            record::lemma_chronological_sorts(m.batch);
        },
        (AppendStep::AppendName, AppendEvent::Failed) => {
            record::lemma_chronological_sorts(m.batch);
        },
        (AppendStep::AppendHash, AppendEvent::Failed) => {
            record::lemma_chronological_sorts(m.batch);
        },
        _ => {},
    }
}

proof fn lemma_taken_in_sound(m: AppendModel)
    requires
        m.is_sound(),
        m.step is AppendHash,
    ensures
        m.taken_in().is_sound(),
{
    let n = m.taken_in();
    let pushed = m.batch.push(
        MtimeRecord {
            mtime_sec: m.pending.mtime_sec,
            mtime_nsec: m.pending.mtime_nsec,
            record_id: m.header.file_count,
        },
    );
    record::lemma_chronological_sorts(pushed);
    entry::lemma_seen_push(m.seen, n.seen.last());
    assert(n.seen.last().fate() == EntryFate::Indexed(m.pending));
}

/// An append starts sound.
pub proof fn append_starts_sound(header: ChronoIndexHeader)
    ensures
        AppendModel::start(header).is_sound(),
{
}

/// An append in progress.
pub struct AppendSession {
    step: AppendStep,
    header: ChronoIndexHeader,
    summary: AppendSummary,
    pending_name: Vec<u8>,
    pending_sec: i64,
    pending_nsec: i32,
    batch: Vec<MtimeRecord>,
    batch_signal_xor: u64,
    purpose: FlushPurpose,
    batch_names: Ghost<Seq<Seq<u8>>>,
    names_written: Ghost<Seq<Seq<u8>>>,
    hashes_written: Ghost<Seq<u64>>,
    flushes: Ghost<Seq<Flush>>,
    files_taken: Ghost<Seq<FileFact>>,
    known: Ghost<Seq<Seq<u8>>>,
    seen: Ghost<Seq<Observed>>,
}

impl View for AppendSession {
    type V = AppendModel;

    closed spec fn view(&self) -> AppendModel {
        AppendModel {
            step: self.step,
            header: self.header,
            summary: self.summary,
            pending: FileFact {
                basename: self.pending_name@,
                mtime_sec: self.pending_sec,
                mtime_nsec: self.pending_nsec,
            },
            batch: self.batch@,
            batch_names: self.batch_names@,
            purpose: self.purpose,
            names_written: self.names_written@,
            hashes_written: self.hashes_written@,
            flushes: self.flushes@,
            files_taken: self.files_taken@,
            known: self.known@,
            seen: self.seen@,
        }
    }
}

impl AppendSession {
    #[verifier::type_invariant]
    spec fn holds_invariant(self) -> bool {
        &&& self@.is_sound()
        &&& self.batch_signal_xor == hash::signal_hash(self.batch_names@)
    }

    /// Starts an append to the index with this header, over the directory with
    /// this path. It must be the directory that was indexed.
    pub fn begin(parent_directory: &[u8], current_header: &ChronoIndexHeader) -> (session: Result<
        AppendSession,
        ChronoIndexError,
    >)
        ensures
            match ChronoIndexHeader::parent_error(parent_directory@) {
                Some(error) => session == Err::<AppendSession, ChronoIndexError>(error),
                None => if parent_directory@ != current_header.parent() {
                    session == Err::<AppendSession, ChronoIndexError>(
                        ChronoIndexError::ParentPathInvalid,
                    )
                } else {
                    session matches Ok(s) && s@ == AppendModel::start(*current_header)
                        && s@.is_sound()
                },
            },
    {
        match posix_path_to_bytes(parent_directory) {
            Ok(path) => {
                if !bytes_equal(path, current_header.parent_path_slice()) {
                    return Err(ChronoIndexError::ParentPathInvalid);
                }
            },
            Err(error) => {
                return Err(error);
            },
        }
        let ghost start = AppendModel::start(*current_header);
        let pending_name: Vec<u8> = Vec::new();
        let batch: Vec<MtimeRecord> = Vec::new();
        assert(pending_name@ =~= start.pending.basename && batch@ =~= start.batch);
        Ok(
            AppendSession {
                step: AppendStep::EnsureSidecar,
                header: current_header.clone(),
                summary: AppendSummary {
                    files_appended: 0,
                    entries_skipped_overlong_name: 0,
                    entries_skipped_stat_failed: 0,
                    entries_skipped_non_regular: 0,
                    invariant_breaches_this_call: 0,
                },
                pending_name,
                pending_sec: 0,
                pending_nsec: 0,
                batch,
                batch_signal_xor: 0,
                purpose: FlushPurpose::Full,
                batch_names: Ghost(start.batch_names),
                names_written: Ghost(start.names_written),
                hashes_written: Ghost(start.hashes_written),
                flushes: Ghost(start.flushes),
                files_taken: Ghost(start.files_taken),
                known: Ghost(start.known),
                seen: Ghost(start.seen),
            },
        )
    }

    /// What the append needs done next.
    pub fn step(&self) -> (step: AppendStep)
        ensures
            step == self@.step,
    {
        self.step
    }

    /// The name record to append.
    pub fn name_record(&self) -> (record: [u8; NAME_RECORD_SIZE])
        ensures
            record@ == names::name_record(self@.pending.basename),
    {
        proof {
            use_type_invariant(self);
        }
        match pack_basename_record(&self.pending_name) {
            Some(record) => record,
            None => [0u8; NAME_RECORD_SIZE],
        }
    }

    /// The name hash to append.
    pub fn hash_record(&self) -> (record: [u8; NAME_HASH_RECORD_SIZE])
        ensures
            record@ == little_endian::le_bytes(
                hash::fnv1a(self@.pending.basename) as nat,
                NAME_HASH_RECORD_SIZE as nat,
            ),
    {
        encode_name_hash(fnv1a_64(&self.pending_name))
    }

    /// The records to merge in.
    pub fn batch(&self) -> (batch: &Vec<MtimeRecord>)
        ensures
            batch@ == self@.batch,
    {
        &self.batch
    }

    /// The records to append, in their on-disk form.
    pub fn batch_bytes(&self) -> (bytes: Vec<u8>)
        ensures
            bytes@ == record::records_file(self@.batch),
    {
        encode_mtime_records(&self.batch)
    }

    /// The header to write.
    pub fn header(&self) -> (header: &ChronoIndexHeader)
        ensures
            *header == self@.header,
    {
        &self.header
    }

    /// The sizes to cut the files to: as many records as the header counts
    /// files.
    pub fn trimmed_sizes(&self) -> (sizes: TrimmedSizes)
        ensures
            sizes == (TrimmedSizes {
                names: trimmed_size(self@.header.file_count, NAME_RECORD_SIZE),
                name_hashes: trimmed_size(self@.header.file_count, NAME_HASH_RECORD_SIZE),
                mtimes: trimmed_size(self@.header.file_count, MTIME_RECORD_SIZE),
            }),
    {
        let count: u64 = self.header.file_count;
        TrimmedSizes {
            names: count.checked_mul(NAME_RECORD_SIZE as u64),
            name_hashes: count.checked_mul(NAME_HASH_RECORD_SIZE as u64),
            mtimes: count.checked_mul(MTIME_RECORD_SIZE as u64),
        }
    }

    /// What became of the entries so far.
    pub fn summary(&self) -> (summary: AppendSummary)
        ensures
            summary == self@.summary,
    {
        self.summary
    }
}

/// Computes [`older_than`].
fn count_older(records: &Vec<MtimeRecord>, sec: i64, nsec: i32) -> (count: u64)
    requires
        records@.len() <= u64::MAX,
    ensures
        count == older_than(records@, sec, nsec),
{
    let mut count: u64 = 0;
    let mut i: usize = 0;
    assert(records@.take(0) =~= Seq::<MtimeRecord>::empty());
    while i < records.len()
        invariant
            i <= records.len(),
            records@.len() <= u64::MAX,
            count <= i,
            count == older_than(records@.take(i as int), sec, nsec),
        decreases records.len() - i,
    {
        assert(records@.take(i + 1).drop_last() =~= records@.take(i as int));
        let record: MtimeRecord = records[i];
        if record.mtime_sec < sec || (record.mtime_sec == sec && record.mtime_nsec < nsec) {
            count = count + 1;
        }
        i = i + 1;
    }
    assert(records@.take(i as int) =~= records@);
    count
}

/// Sorts a batch and decides how it gets into `mtimes.bin`.
fn plan_flush(batch: &Vec<MtimeRecord>, header: &ChronoIndexHeader) -> (plan: (
    AppendStep,
    Vec<MtimeRecord>,
))
    requires
        0 < batch@.len() <= APPEND_BATCH_RECORDS,
    ensures
        forall|m: AppendModel, purpose: FlushPurpose|
            m.batch == batch@ && m.header == *header ==> #[trigger] m.flushing(purpose) == (
            AppendModel { step: plan.0, batch: plan.1@, purpose, ..m }),
{
    let sorted: Vec<MtimeRecord> = sort_chronologically(batch);
    proof {
        record::lemma_chronological_sorts(batch@);
    }
    let first: MtimeRecord = sorted[0];
    let append: bool = first.mtime_sec > header.last_mtime_sec || (first.mtime_sec
        == header.last_mtime_sec && first.mtime_nsec >= header.last_mtime_nsec)
        || header.file_count == sorted.len() as u64;
    if append {
        (AppendStep::AppendMtimes, sorted)
    } else {
        (AppendStep::RewriteMtimes, sorted)
    }
}

/// What follows once nothing is left to flush.
fn step_after_flush(purpose: FlushPurpose) -> (step: AppendStep)
    ensures
        forall|m: AppendModel|
            m.purpose == purpose ==> #[trigger] m.with_purpose_served() == m.at(step),
{
    match purpose {
        FlushPurpose::Full => AppendStep::NextEntry,
        FlushPurpose::Final => AppendStep::SyncFiles,
        FlushPurpose::Fail(_) => AppendStep::TrimFiles,
    }
}

/// How an append ends.
fn step_when_over(purpose: FlushPurpose, otherwise: AppendStep) -> (step: AppendStep)
    ensures
        forall|m: AppendModel|
            m.purpose == purpose ==> #[trigger] m.over(otherwise) == m.at(step),
{
    match purpose {
        FlushPurpose::Fail(first) => AppendStep::Failed(first),
        _ => otherwise,
    }
}

/// Takes what came of the step that `session` asked for, and goes on to the
/// next.
///
/// An entry that cannot be read, is no regular file, has too long a name or
/// cannot be examined is counted and skipped, and one whose name hash is known
/// is skipped. Any other failure ends the append; where files were taken in
/// before, those that are complete are committed first.
pub fn incremental_append_new_files(session: AppendSession, event: AppendEvent) -> (next:
    AppendSession)
    ensures
        next@ == session@.after(event),
        next@.is_sound(),
{
    proof {
        use_type_invariant(&session);
        append_stays_sound(session@, event);
    }
    let ghost before = session@;
    let ghost goal = session@.after(event);
    let AppendSession {
        step,
        header,
        summary,
        pending_name,
        pending_sec,
        pending_nsec,
        batch,
        batch_signal_xor,
        purpose,
        batch_names: _,
        names_written: _,
        hashes_written: _,
        flushes: _,
        files_taken: _,
        known: _,
        seen: _,
    } = session;
    let mut header: ChronoIndexHeader = header;
    let mut summary: AppendSummary = summary;
    let mut pending_name: Vec<u8> = pending_name;
    let mut pending_sec: i64 = pending_sec;
    let mut pending_nsec: i32 = pending_nsec;
    let mut batch: Vec<MtimeRecord> = batch;
    let mut batch_signal_xor: u64 = batch_signal_xor;
    let mut purpose: FlushPurpose = purpose;
    let mut next_step: AppendStep = step;
    // The purpose for which what the batch holds is to be flushed.
    let mut ending: Option<FlushPurpose> = None;
    // The newest modification time once the batch is in `mtimes.bin`.
    let mut flushed: Option<(i64, i32)> = None;
    let mut rewritten: bool = false;
    let mut flush_failed: Option<ChronoIndexError> = None;
    match (step, event) {
        (AppendStep::EnsureSidecar, AppendEvent::Succeeded) => {
            next_step = AppendStep::OpenDirectory;
        },
        (AppendStep::EnsureSidecar, AppendEvent::FailedWith(error)) => {
            next_step = AppendStep::Failed(error);
        },
        (AppendStep::OpenDirectory, AppendEvent::Succeeded) => {
            next_step = AppendStep::NextEntry;
        },
        (AppendStep::OpenDirectory, AppendEvent::Failed) => {
            next_step = AppendStep::Failed(ChronoIndexError::AppendIo);
        },
        (AppendStep::NextEntry, AppendEvent::Entry(found)) => {
            match found {
                DirectoryEntry::Unreadable => {
                    summary.entries_skipped_stat_failed =
                    summary.entries_skipped_stat_failed.saturating_add(1);
                },
                DirectoryEntry::NotRegular => {
                    summary.entries_skipped_non_regular =
                    summary.entries_skipped_non_regular.saturating_add(1);
                },
                DirectoryEntry::Regular(basename) => {
                    if basename.len() > MAX_BASENAME_LEN {
                        summary.entries_skipped_overlong_name =
                        summary.entries_skipped_overlong_name.saturating_add(1);
                    } else {
                        next_step = AppendStep::SearchSidecar(fnv1a_64(&basename));
                        pending_name = basename;
                        pending_sec = 0;
                        pending_nsec = 0;
                    }
                },
            }
        },
        (AppendStep::NextEntry, AppendEvent::EndOfDirectory) => {
            ending = Some(FlushPurpose::Final);
        },
        (AppendStep::SearchSidecar(_), AppendEvent::Known(known)) => {
            next_step = if known {
                AppendStep::NextEntry
            } else {
                AppendStep::StatEntry
            };
        },
        (AppendStep::SearchSidecar(_), AppendEvent::Failed) => {
            ending = Some(FlushPurpose::Fail(ChronoIndexError::AppendIo));
        },
        (AppendStep::StatEntry, AppendEvent::Failed) => {
            summary.entries_skipped_stat_failed =
            summary.entries_skipped_stat_failed.saturating_add(1);
            next_step = AppendStep::NextEntry;
        },
        (AppendStep::StatEntry, AppendEvent::Stat { mtime_sec, mtime_nsec }) => {
            let recorded: (i64, i32) = extract_mtime_seconds_and_nanos(mtime_sec, mtime_nsec);
            pending_sec = recorded.0;
            pending_nsec = recorded.1;
            next_step = AppendStep::AppendName;
        },
        (AppendStep::AppendName, AppendEvent::Succeeded) => {
            next_step = AppendStep::AppendHash;
        },
        (AppendStep::AppendName, AppendEvent::Failed) => {
            ending = Some(FlushPurpose::Fail(ChronoIndexError::AppendIo));
        },
        (AppendStep::AppendHash, AppendEvent::Succeeded) => {
            batch.push(
                MtimeRecord {
                    mtime_sec: pending_sec,
                    mtime_nsec: pending_nsec,
                    record_id: header.file_count,
                },
            );
            batch_signal_xor = batch_signal_xor ^ fnv1a_64(&pending_name);
            assert(before.batch_names.push(before.pending.basename).drop_last()
                =~= before.batch_names);
            header.file_count = header.file_count.saturating_add(1);
            if batch.len() >= APPEND_BATCH_RECORDS {
                ending = Some(FlushPurpose::Full);
            } else {
                next_step = AppendStep::NextEntry;
            }
        },
        (AppendStep::AppendHash, AppendEvent::Failed) => {
            ending = Some(FlushPurpose::Fail(ChronoIndexError::AppendIo));
        },
        (AppendStep::AppendMtimes, AppendEvent::Succeeded) => {
            let newest: MtimeRecord = batch[batch.len() - 1];
            flushed = Some((newest.mtime_sec, newest.mtime_nsec));
        },
        (AppendStep::AppendMtimes, AppendEvent::Failed) => {
            flush_failed = Some(ChronoIndexError::AppendIo);
        },
        (AppendStep::RewriteMtimes, AppendEvent::Rewritten { newest_sec, newest_nsec }) => {
            flushed = Some((newest_sec, newest_nsec));
            rewritten = true;
        },
        (AppendStep::RewriteMtimes, AppendEvent::FailedWith(error)) => {
            flush_failed = Some(error);
        },
        (AppendStep::SyncFiles, AppendEvent::Succeeded | AppendEvent::Failed) => {
            next_step = AppendStep::WriteHeader;
        },
        (AppendStep::TrimFiles, AppendEvent::Succeeded) => {
            next_step = AppendStep::WriteHeader;
        },
        (AppendStep::TrimFiles, AppendEvent::Failed) => {
            next_step = step_when_over(purpose, AppendStep::Failed(ChronoIndexError::AppendIo));
        },
        (AppendStep::WriteHeader, AppendEvent::Succeeded) => {
            next_step = step_when_over(purpose, AppendStep::Finished);
        },
        (AppendStep::WriteHeader, AppendEvent::FailedWith(error)) => {
            next_step = step_when_over(purpose, AppendStep::Failed(error));
        },
        _ => {},
    }
    if let Some(reason) = ending {
        purpose = reason;
        if batch.len() == 0 {
            next_step = step_after_flush(reason);
        } else {
            let plan: (AppendStep, Vec<MtimeRecord>) = plan_flush(&batch, &header);
            next_step = plan.0;
            batch = plan.1;
        }
    }
    if let Some(newest) = flushed {
        if rewritten {
            let older: u64 = count_older(&batch, header.last_mtime_sec, header.last_mtime_nsec);
            summary.invariant_breaches_this_call =
            summary.invariant_breaches_this_call.saturating_add(older);
            header.invariant_breach_count = header.invariant_breach_count.saturating_add(1);
        }
        header.last_mtime_sec = newest.0;
        header.last_mtime_nsec = newest.1;
        header.signal_hash = header.signal_hash ^ batch_signal_xor;
        summary.files_appended = summary.files_appended.saturating_add(batch.len() as u64);
        batch = Vec::new();
        assert(batch@ =~= Seq::empty());
        batch_signal_xor = 0;
        next_step = step_after_flush(purpose);
    }
    if let Some(error) = flush_failed {
        header.file_count = header.file_count - batch.len() as u64;
        batch = Vec::new();
        assert(batch@ =~= Seq::empty());
        batch_signal_xor = 0;
        if let FlushPurpose::Full | FlushPurpose::Final = purpose {
            purpose = FlushPurpose::Fail(error);
        }
        next_step = AppendStep::TrimFiles;
    }
    AppendSession {
        step: next_step,
        header,
        summary,
        pending_name,
        pending_sec,
        pending_nsec,
        batch,
        batch_signal_xor,
        purpose,
        batch_names: Ghost(goal.batch_names),
        names_written: Ghost(goal.names_written),
        hashes_written: Ghost(goal.hashes_written),
        flushes: Ghost(goal.flushes),
        files_taken: Ghost(goal.files_taken),
        known: Ghost(goal.known),
        seen: Ghost(goal.seen),
    }
}

/// In the course of an append, the number of files whose records are in
/// `mtimes.bin` never shrinks.
pub proof fn append_never_shrinks_index(m: AppendModel, event: AppendEvent)
    requires
        m.is_sound(),
        m.header.file_count < u64::MAX,
    ensures
        m.after(event).header.file_count - m.after(event).batch.len() >= m.header.file_count
            - m.batch.len(),
{
    record::lemma_chronological_sorts(m.batch);
    record::lemma_chronological_sorts(
        m.batch.push(
            MtimeRecord {
                mtime_sec: m.pending.mtime_sec,
                mtime_nsec: m.pending.mtime_nsec,
                record_id: m.header.file_count,
            },
        ),
    );
}

/// An entry that the sidecar knows adds nothing to the index.
pub proof fn known_entry_changes_nothing(m: AppendModel)
    requires
        m.step is SearchSidecar,
    ensures
        ({
            let n = m.after(AppendEvent::Known(true));
            n == AppendModel { known: n.known, ..m.at(AppendStep::NextEntry) }
        }),
{
}

/// The header is written last: only where no record waits to be flushed, and
/// only a written header finishes an append.
pub proof fn append_commits_last(m: AppendModel, event: AppendEvent)
    requires
        m.is_sound(),
    ensures
        m.after(event).step is WriteHeader ==> m.after(event).batch.len() == 0,
        m.after(event).step is Finished && !(m.step is Finished) ==> m.step is WriteHeader
            && event is Succeeded,
{
    append_stays_sound(m, event);
}

/// A file appended to an index that holds none is not older than what its
/// header says, and newer unless it has the earliest time there is.
pub proof fn fresh_header_is_older_than_any_file(
    header: ChronoIndexHeader,
    parent: Seq<u8>,
    batch: Seq<MtimeRecord>,
)
    requires
        header.is_fresh(parent),
        batch.len() > 0,
        batch[0].mtime_nsec >= 0,
    ensures
        can_append(header, batch),
        batch[0].mtime_sec > i64::MIN || batch[0].mtime_nsec > 0 ==> (batch[0].mtime_sec
            > header.last_mtime_sec || (batch[0].mtime_sec == header.last_mtime_sec
            && batch[0].mtime_nsec > header.last_mtime_nsec)),
{
}

} // verus!
