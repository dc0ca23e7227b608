//! Streaming a directory into a fresh `names.bin` and an unsorted file of
//! modification times.

use vstd::prelude::*;
use crate::counting;
use crate::entry;
use crate::entry::{
    extract_mtime_seconds_and_nanos, DirectoryEntry, EntryFate, EntryView, FileFact, Observed,
};
use crate::error::ChronoIndexError;
use crate::hash;
use crate::hash::fnv1a_64;
use crate::layout::{MAX_BASENAME_LEN, MTIME_RECORD_SIZE, NAME_RECORD_SIZE};
use crate::names;
use crate::names::pack_basename_record;
use crate::record::MtimeRecord;

verus! {

/// What a cold build did with the entries of the directory.
#[derive(Debug, Clone, Copy, PartialEq, Eq, Structural)]
pub struct ColdBuildSummary {
    /// Files taken into the index.
    pub files_indexed: u64,
    /// Entries skipped because their basename is too long.
    pub entries_skipped_overlong_name: u64,
    /// Entries skipped because they could not be read or examined.
    pub entries_skipped_stat_failed: u64,
    /// Entries skipped because they are not regular files.
    pub entries_skipped_non_regular: u64,
}

/// What a scan needs done next.
#[derive(Debug, Clone, Copy, PartialEq, Eq, Structural)]
pub enum ScanStep {
    /// Create the staged names file, empty.
    CreateNames,
    /// Create the unsorted scratch file, empty.
    CreateScratch,
    /// Open the directory for listing.
    OpenDirectory,
    /// Take the next entry from the directory.
    NextEntry,
    /// Examine the file of that entry for its modification time.
    StatEntry,
    /// Append [`DirectoryScan::name_record`] to the staged names file.
    WriteName,
    /// Append [`DirectoryScan::mtime_record`] to the scratch file.
    WriteMtime,
    /// Make the staged names file durable.
    SyncNames,
    /// Make the scratch file durable.
    SyncScratch,
    /// Nothing: both files are there.
    Finished,
    /// Nothing: the scan failed.
    Failed(ChronoIndexError),
}

/// What came of a step.
#[derive(Debug)]
pub enum ScanEvent {
    Succeeded,
    Failed,
    /// The directory gave one more entry.
    Entry(DirectoryEntry),
    /// The directory holds no further entry.
    EndOfDirectory,
    /// The modification time of the examined file.
    Stat { mtime_sec: i64, mtime_nsec: i64 },
}

/// The state of a scan as its contract speaks of it.
#[verifier::ext_equal]
pub struct ScanModel {
    pub step: ScanStep,
    /// The file that is being taken in.
    pub pending: FileFact,
    /// The entries that are dealt with.
    pub seen: Seq<Observed>,
    /// The basenames whose records were appended to the staged names file.
    pub names_written: Seq<Seq<u8>>,
    /// The records that were appended to the scratch file.
    pub records_written: Seq<MtimeRecord>,
}

impl ScanModel {
    pub open spec fn start() -> ScanModel {
        ScanModel {
            step: ScanStep::CreateNames,
            pending: FileFact { basename: Seq::empty(), mtime_sec: 0, mtime_nsec: 0 },
            seen: Seq::empty(),
            names_written: Seq::empty(),
            records_written: Seq::empty(),
        }
    }

    pub open spec fn at(self, step: ScanStep) -> ScanModel {
        ScanModel { step, ..self }
    }

    /// Goes on to the next entry, with one more dealt with.
    pub open spec fn having_seen(self, observed: Observed) -> ScanModel {
        ScanModel { step: ScanStep::NextEntry, seen: self.seen.push(observed), ..self }
    }

    /// The record that the pending file gets.
    pub open spec fn pending_record(self) -> MtimeRecord {
        MtimeRecord {
            mtime_sec: self.pending.mtime_sec,
            mtime_nsec: self.pending.mtime_nsec,
            record_id: counting::saturated(entry::indexed_files(self.seen).len()),
        }
    }

    /// The state after `event`. An event that does not answer the step leaves
    /// the state as it is.
    pub open spec fn after(self, event: ScanEvent) -> ScanModel {
        match (self.step, event) {
            (ScanStep::CreateNames, ScanEvent::Succeeded) => self.at(ScanStep::CreateScratch),
            (ScanStep::CreateScratch, ScanEvent::Succeeded) => self.at(ScanStep::OpenDirectory),
            (ScanStep::OpenDirectory, ScanEvent::Succeeded) => self.at(ScanStep::NextEntry),
            (ScanStep::NextEntry, ScanEvent::Entry(found)) => match found@ {
                EntryView::Regular(basename) if basename.len() <= MAX_BASENAME_LEN => ScanModel {
                    step: ScanStep::StatEntry,
                    pending: FileFact { basename, mtime_sec: 0, mtime_nsec: 0 },
                    ..self
                },
                skipped => self.having_seen(Observed { entry: skipped, stat: None }),
            },
            (ScanStep::NextEntry, ScanEvent::EndOfDirectory) => self.at(ScanStep::SyncNames),
            (ScanStep::StatEntry, ScanEvent::Failed) => self.having_seen(
                Observed { entry: EntryView::Regular(self.pending.basename), stat: None },
            ),
            (ScanStep::StatEntry, ScanEvent::Stat { mtime_sec, mtime_nsec }) => ScanModel {
                step: ScanStep::WriteName,
                pending: FileFact {
                    basename: self.pending.basename,
                    mtime_sec,
                    mtime_nsec: entry::clamped_nanos(mtime_nsec),
                },
                ..self
            },
            (ScanStep::WriteName, ScanEvent::Succeeded) => ScanModel {
                step: ScanStep::WriteMtime,
                names_written: self.names_written.push(self.pending.basename),
                ..self
            },
            (ScanStep::WriteMtime, ScanEvent::Succeeded) => (ScanModel {
                records_written: self.records_written.push(self.pending_record()),
                ..self
            }).having_seen(
                Observed {
                    entry: EntryView::Regular(self.pending.basename),
                    stat: Some((self.pending.mtime_sec, self.pending.mtime_nsec as i64)),
                },
            ),
            (ScanStep::SyncNames, ScanEvent::Succeeded) => self.at(ScanStep::SyncScratch),
            (ScanStep::SyncScratch, ScanEvent::Succeeded) => self.at(ScanStep::Finished),
            (ScanStep::NextEntry, _) => self,
            (ScanStep::Finished, _) => self,
            (ScanStep::Failed(_), _) => self,
            (_, ScanEvent::Failed) => self.at(ScanStep::Failed(ChronoIndexError::BuildIo)),
            _ => self,
        }
    }

    /// The files that the scan has taken into the index.
    pub open spec fn files(self) -> Seq<FileFact> {
        entry::indexed_files(self.seen)
    }

    /// What holds of a scan at every step.
    pub open spec fn is_sound(self) -> bool {
        &&& self.pending.basename.len() <= MAX_BASENAME_LEN
        &&& 0 <= self.pending.mtime_nsec < 1_000_000_000
        &&& self.records_written == entry::file_records(self.files(), 0)
        &&& self.names_written == if self.names_ahead() {
            entry::basenames(self.files()).push(self.pending.basename)
        } else {
            entry::basenames(self.files())
        }
    }

    /// The name of the pending file was written, but not yet its record. After
    /// a failure this can stay so.
    pub open spec fn names_ahead(self) -> bool {
        self.step == ScanStep::WriteMtime || (self.step is Failed && self.names_written.len()
            > self.files().len())
    }

    /// The summary of the entries dealt with so far.
    pub open spec fn summary(self) -> ColdBuildSummary {
        ColdBuildSummary {
            files_indexed: counting::saturated(entry::indexed_files(self.seen).len()),
            entries_skipped_overlong_name: counting::saturated(entry::overlongs(self.seen)),
            entries_skipped_stat_failed: counting::saturated(entry::stat_failures(self.seen)),
            entries_skipped_non_regular: counting::saturated(entry::non_regulars(self.seen)),
        }
    }
}

proof fn lemma_pending_is_indexed(m: ScanModel)
    requires
        m.is_sound(),
    ensures
        (Observed {
            entry: EntryView::Regular(m.pending.basename),
            stat: Some((m.pending.mtime_sec, m.pending.mtime_nsec as i64)),
        }).fate() == EntryFate::Indexed(m.pending),
{
}

/// A scan starts sound.
pub proof fn scan_starts_sound()
    ensures
        ScanModel::start().is_sound(),
{
    let m = ScanModel::start();
    assert(m.records_written =~= entry::file_records(m.files(), 0));
    assert(m.names_written =~= entry::basenames(m.files()));
}

/// Whatever comes of a step, a sound scan stays sound: the names and records
/// it has written are those of the files it has indexed, numbered from zero.
pub proof fn scan_stays_sound(m: ScanModel, event: ScanEvent)
    requires
        m.is_sound(),
    ensures
        m.after(event).is_sound(),
{
    let n = m.after(event);
    match (m.step, event) {
        (ScanStep::WriteMtime, ScanEvent::Succeeded) => {
            lemma_pending_is_indexed(m);
            entry::lemma_seen_push(m.seen, n.seen.last());
            entry::lemma_basenames_push(m.files(), m.pending);
            assert(n.records_written =~= entry::file_records(n.files(), 0));
        },
        (ScanStep::NextEntry, ScanEvent::Entry(found)) => {
            if n.step == ScanStep::NextEntry {
                entry::lemma_seen_push(m.seen, n.seen.last());
            }
        },
        (ScanStep::StatEntry, ScanEvent::Failed) => {
            entry::lemma_seen_push(m.seen, n.seen.last());
        },
        _ => {},
    }
}

/// A scan of a directory in progress.
pub struct DirectoryScan {
    step: ScanStep,
    pending_name: Vec<u8>,
    pending_sec: i64,
    pending_nsec: i32,
    summary: ColdBuildSummary,
    next_record_id: u64,
    signal_hash: u64,
    seen: Ghost<Seq<Observed>>,
    names_written: Ghost<Seq<Seq<u8>>>,
    records_written: Ghost<Seq<MtimeRecord>>,
}

impl View for DirectoryScan {
    type V = ScanModel;

    closed spec fn view(&self) -> ScanModel {
        ScanModel {
            step: self.step,
            pending: FileFact {
                basename: self.pending_name@,
                mtime_sec: self.pending_sec,
                mtime_nsec: self.pending_nsec,
            },
            seen: self.seen@,
            names_written: self.names_written@,
            records_written: self.records_written@,
        }
    }
}

impl DirectoryScan {
    #[verifier::type_invariant]
    spec fn holds_invariant(self) -> bool {
        &&& self@.is_sound()
        &&& self.summary == self@.summary()
        &&& self.next_record_id == counting::saturated(self@.files().len())
        &&& self.signal_hash == hash::signal_hash(entry::basenames(self@.files()))
    }

    pub fn begin() -> (scan: DirectoryScan)
        ensures
            scan@ == ScanModel::start(),
            scan@.is_sound(),
    {
        proof {
            scan_starts_sound();
        }
        let ghost start = ScanModel::start();
        let pending_name: Vec<u8> = Vec::new();
        assert(pending_name@ =~= start.pending.basename);
        DirectoryScan {
            step: ScanStep::CreateNames,
            pending_name,
            pending_sec: 0,
            pending_nsec: 0,
            summary: ColdBuildSummary {
                files_indexed: 0,
                entries_skipped_overlong_name: 0,
                entries_skipped_stat_failed: 0,
                entries_skipped_non_regular: 0,
            },
            next_record_id: 0,
            signal_hash: 0,
            seen: Ghost(start.seen),
            names_written: Ghost(start.names_written),
            records_written: Ghost(start.records_written),
        }
    }

    /// What the scan needs done next.
    pub fn step(&self) -> (step: ScanStep)
        ensures
            step == self@.step,
    {
        self.step
    }

    /// The name record to write.
    pub fn name_record(&self) -> (record: [u8; NAME_RECORD_SIZE])
        ensures
            record@ == names::name_record(self@.pending.basename),
    {
        proof {
            use_type_invariant(self);
        }
        match pack_basename_record(&self.pending_name) {
            Some(record) => record,
            None => [0u8; NAME_RECORD_SIZE],
        }
    }

    /// The modification time record to write.
    pub fn mtime_record(&self) -> (record: [u8; MTIME_RECORD_SIZE])
        ensures
            record@ == self@.pending_record().bytes(),
    {
        proof {
            use_type_invariant(self);
        }
        let mut buffer: [u8; MTIME_RECORD_SIZE] = [0u8; MTIME_RECORD_SIZE];
        let record: MtimeRecord = MtimeRecord {
            mtime_sec: self.pending_sec,
            mtime_nsec: self.pending_nsec,
            record_id: self.next_record_id,
        };
        record.write_into(&mut buffer);
        buffer
    }

    /// What became of the entries so far.
    pub fn summary(&self) -> (summary: ColdBuildSummary)
        ensures
            summary == self@.summary(),
    {
        proof {
            use_type_invariant(self);
        }
        self.summary
    }

    /// The signal hash of the files indexed so far.
    pub fn signal_hash(&self) -> (signal: u64)
        ensures
            signal == hash::signal_hash(entry::basenames(self@.files())),
    {
        proof {
            use_type_invariant(self);
        }
        self.signal_hash
    }
}

/// Takes what came of the step that `scan` asked for, and goes on to the next.
///
/// An entry that cannot be read, is no regular file, has too long a name or
/// cannot be examined is counted and skipped. Any other failure ends the scan
/// with [`ChronoIndexError::BuildIo`].
pub fn phase1_stream_directory_into_files(scan: DirectoryScan, event: ScanEvent) -> (next:
    DirectoryScan)
    ensures
        next@ == scan@.after(event),
        next@.is_sound(),
{
    proof {
        use_type_invariant(&scan);
        scan_stays_sound(scan@, event);
    }
    let ghost before = scan@;
    let ghost goal = scan@.after(event);
    let DirectoryScan {
        step,
        pending_name,
        pending_sec,
        pending_nsec,
        summary,
        next_record_id,
        signal_hash,
        seen: _,
        names_written: _,
        records_written: _,
    } = scan;
    let mut pending_name: Vec<u8> = pending_name;
    let mut pending_sec: i64 = pending_sec;
    let mut pending_nsec: i32 = pending_nsec;
    let mut summary: ColdBuildSummary = summary;
    let mut next_record_id: u64 = next_record_id;
    let mut signal_hash: u64 = signal_hash;
    let mut next_step: ScanStep = step;
    let succeeded: bool = matches!(event, ScanEvent::Succeeded);
    let failed: bool = matches!(event, ScanEvent::Failed);
    match step {
        ScanStep::CreateNames => {
            if succeeded {
                next_step = ScanStep::CreateScratch;
            }
        },
        ScanStep::CreateScratch => {
            if succeeded {
                next_step = ScanStep::OpenDirectory;
            }
        },
        ScanStep::OpenDirectory => {
            if succeeded {
                next_step = ScanStep::NextEntry;
            }
        },
        ScanStep::NextEntry => {
            match event {
                ScanEvent::Entry(found) => {
                    match found {
                        DirectoryEntry::Unreadable => {
                            proof {
                                entry::lemma_seen_push(before.seen, goal.seen.last());
                            }
                            summary.entries_skipped_stat_failed =
                            summary.entries_skipped_stat_failed.saturating_add(1);
                        },
                        DirectoryEntry::NotRegular => {
                            proof {
                                entry::lemma_seen_push(before.seen, goal.seen.last());
                            }
                            summary.entries_skipped_non_regular =
                            summary.entries_skipped_non_regular.saturating_add(1);
                        },
                        DirectoryEntry::Regular(basename) => {
                            if basename.len() > MAX_BASENAME_LEN {
                                proof {
                                    entry::lemma_seen_push(before.seen, goal.seen.last());
                                }
                                summary.entries_skipped_overlong_name =
                                summary.entries_skipped_overlong_name.saturating_add(1);
                            } else {
                                pending_name = basename;
                                pending_sec = 0;
                                pending_nsec = 0;
                                next_step = ScanStep::StatEntry;
                            }
                        },
                    }
                },
                ScanEvent::EndOfDirectory => {
                    next_step = ScanStep::SyncNames;
                },
                _ => {},
            }
        },
        ScanStep::StatEntry => {
            match event {
                ScanEvent::Failed => {
                    proof {
                        entry::lemma_seen_push(before.seen, goal.seen.last());
                    }
                    summary.entries_skipped_stat_failed =
                    summary.entries_skipped_stat_failed.saturating_add(1);
                    next_step = ScanStep::NextEntry;
                },
                ScanEvent::Stat { mtime_sec, mtime_nsec } => {
                    let recorded: (i64, i32) = extract_mtime_seconds_and_nanos(
                        mtime_sec,
                        mtime_nsec,
                    );
                    pending_sec = recorded.0;
                    pending_nsec = recorded.1;
                    next_step = ScanStep::WriteName;
                },
                _ => {},
            }
        },
        ScanStep::WriteName => {
            if succeeded {
                next_step = ScanStep::WriteMtime;
            }
        },
        ScanStep::WriteMtime => {
            if succeeded {
                proof {
                    lemma_pending_is_indexed(before);
                    entry::lemma_seen_push(before.seen, goal.seen.last());
                    entry::lemma_basenames_push(before.files(), before.pending);
                }
                signal_hash = signal_hash ^ fnv1a_64(&pending_name);
                next_record_id = next_record_id.saturating_add(1);
                summary.files_indexed = summary.files_indexed.saturating_add(1);
                next_step = ScanStep::NextEntry;
            }
        },
        ScanStep::SyncNames => {
            if succeeded {
                next_step = ScanStep::SyncScratch;
            }
        },
        ScanStep::SyncScratch => {
            if succeeded {
                next_step = ScanStep::Finished;
            }
        },
        ScanStep::Finished => {},
        ScanStep::Failed(_) => {},
    }
    if failed {
        match step {
            ScanStep::NextEntry | ScanStep::StatEntry | ScanStep::Finished | ScanStep::Failed(
                _,
            ) => {},
            _ => {
                next_step = ScanStep::Failed(ChronoIndexError::BuildIo);
            },
        }
    }
    DirectoryScan {
        step: next_step,
        pending_name,
        pending_sec,
        pending_nsec,
        summary,
        next_record_id,
        signal_hash,
        seen: Ghost(goal.seen),
        names_written: Ghost(goal.names_written),
        records_written: Ghost(goal.records_written),
    }
}

} // verus!
