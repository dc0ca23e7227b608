//! Bringing an index up to date with its directory.

use vstd::prelude::*;
use crate::append::AppendSummary;
use crate::buffer::bytes_equal;
use crate::counting;
use crate::counting::saturating_product;
use crate::error::ChronoIndexError;
use crate::header::{posix_path_to_bytes, ChronoIndexHeader};
use crate::layout::{MTIME_RECORD_SIZE, NAME_RECORD_SIZE};
use crate::scan::ColdBuildSummary;

verus! {

/// What an update came to.
#[derive(Debug, Clone, Copy, PartialEq, Eq, Structural)]
pub enum UpdateOutcome {
    /// There was no index; it was built.
    ColdBuildCompleted,
    /// There was an index that could not be used; it was built anew.
    RebuiltDueToInconsistency,
    /// The index agreed with the directory; nothing was written.
    NoChangesDetected,
    /// The directory had grown; the new files were appended.
    IncrementalAppendCompleted,
}

/// What an update did.
#[derive(Debug, Clone, Copy, PartialEq, Eq, Structural)]
pub struct UpdateSummary {
    pub outcome: UpdateOutcome,
    /// How many files the index holds after the update.
    pub final_file_count: u64,
    /// The summary of the cold build, zero throughout where none ran.
    pub cold_build_summary: ColdBuildSummary,
    /// The summary of the append, zero throughout where none ran to its end.
    pub append_summary: AppendSummary,
}

/// What an update needs done next.
#[derive(Debug, Clone, Copy, PartialEq, Eq, Structural)]
pub enum UpdateStep {
    /// Create the index directory where it does not exist.
    EnsureIndexDirectory,
    /// Read the header.
    ReadHeader,
    /// Find out the sizes of `names.bin` and `mtimes.bin`.
    MeasureDataFiles,
    /// Find out what the directory holds now.
    ProbeDirectory,
    /// Append the new files to the index with the committed header.
    Append,
    /// Read the header that the append has committed.
    ReadHeaderAfterAppend,
    /// Build the index from nothing; the update then has this outcome.
    ColdBuild(UpdateOutcome),
    /// Read the header that the build has committed.
    ReadHeaderAfterBuild(UpdateOutcome),
    /// Nothing: the index is up to date.
    Finished(UpdateSummary),
    /// Nothing: the update failed.
    Failed(ChronoIndexError),
}

/// What came of a step.
pub enum UpdateEvent {
    Succeeded,
    /// Creating the directory or listing it failed.
    Failed,
    /// The append or the cold build failed.
    FailedWith(ChronoIndexError),
    /// What reading the header gave.
    Header(Result<Option<ChronoIndexHeader>, ChronoIndexError>),
    /// The sizes in bytes of the data files that could be measured.
    Sizes { names: Option<u64>, mtimes: Option<u64> },
    /// What the directory holds now.
    Probed { live_file_count: u64, live_signal_hash: u64 },
    /// The append has committed a header.
    Appended(AppendSummary),
    /// The cold build has committed a header.
    Built(ColdBuildSummary),
}

/// An update in progress.
pub struct UpdateRun {
    pub step: UpdateStep,
    /// The path of the directory to index.
    pub parent_directory: Vec<u8>,
    /// The committed header, once it was read.
    pub committed: Option<ChronoIndexHeader>,
    pub live_file_count: u64,
    pub live_signal_hash: u64,
    pub cold_build_summary: ColdBuildSummary,
    pub append_summary: AppendSummary,
}

/// The size of a file of `count` records.
pub open spec fn expected_size(count: u64, record_size: usize) -> u64 {
    counting::saturated((count * record_size) as nat)
}

/// Both data files are there and have the size that the header's number of
/// files asks for.
pub open spec fn sizes_match(
    names_size: Option<u64>,
    mtimes_size: Option<u64>,
    header: ChronoIndexHeader,
) -> bool {
    &&& names_size == Some(expected_size(header.file_count, NAME_RECORD_SIZE))
    &&& mtimes_size == Some(expected_size(header.file_count, MTIME_RECORD_SIZE))
}

/// Whether both data files agree with the header's number of files.
pub fn data_files_match_header_count(
    names_size: Option<u64>,
    mtimes_size: Option<u64>,
    header: &ChronoIndexHeader,
) -> (matching: bool)
    ensures
        matching == sizes_match(names_size, mtimes_size, *header),
{
    let names_size_matches: bool = match names_size {
        Some(size) => size == saturating_product(header.file_count, NAME_RECORD_SIZE as u64),
        None => false,
    };
    let mtimes_size_matches: bool = match mtimes_size {
        Some(size) => size == saturating_product(header.file_count, MTIME_RECORD_SIZE as u64),
        None => false,
    };
    names_size_matches && mtimes_size_matches
}

impl UpdateRun {
    pub open spec fn at(self, step: UpdateStep) -> UpdateRun {
        UpdateRun { step, ..self }
    }

    pub open spec fn rebuilding(self) -> UpdateRun {
        self.at(UpdateStep::ColdBuild(UpdateOutcome::RebuiltDueToInconsistency))
    }

    pub open spec fn finished(self, outcome: UpdateOutcome, final_file_count: u64) -> UpdateRun {
        self.at(
            UpdateStep::Finished(
                UpdateSummary {
                    outcome,
                    final_file_count,
                    cold_build_summary: self.cold_build_summary,
                    append_summary: self.append_summary,
                },
            ),
        )
    }

    /// Goes on once the sizes of the data files are known.
    pub open spec fn measured(self, names: Option<u64>, mtimes: Option<u64>) -> UpdateRun {
        match self.committed {
            None => self.rebuilding(),
            Some(header) => if !sizes_match(names, mtimes, header) {
                self.rebuilding()
            } else {
                match ChronoIndexHeader::parent_error(self.parent_directory@) {
                    Some(error) => self.at(UpdateStep::Failed(error)),
                    None => if self.parent_directory@ != header.parent() {
                        self.rebuilding()
                    } else {
                        self.at(UpdateStep::ProbeDirectory)
                    },
                }
            },
        }
    }

    /// Goes on once it is known what the directory holds: nothing is to be
    /// done where the index agrees with it, new files are appended where it
    /// holds more of them, and anything else needs a new index.
    pub open spec fn probed(self, count: u64, signal: u64) -> UpdateRun {
        let run = UpdateRun { live_file_count: count, live_signal_hash: signal, ..self };
        match self.committed {
            None => run.rebuilding(),
            Some(header) => if count == header.file_count && signal == header.signal_hash {
                run.finished(UpdateOutcome::NoChangesDetected, header.file_count)
            } else if count <= header.file_count {
                run.rebuilding()
            } else {
                run.at(UpdateStep::Append)
            },
        }
    }

    /// Goes on once the header that the append has committed was read: it must
    /// agree with what the directory holds.
    pub open spec fn append_verified(
        self,
        read: Result<Option<ChronoIndexHeader>, ChronoIndexError>,
    ) -> UpdateRun {
        match read {
            Ok(Some(header)) => if header.signal_hash == self.live_signal_hash && header.file_count
                == self.live_file_count {
                self.finished(UpdateOutcome::IncrementalAppendCompleted, header.file_count)
            } else {
                self.rebuilding()
            },
            _ => self.rebuilding(),
        }
    }

    /// The state after `event`. An event that does not answer the step leaves
    /// the state as it is.
    pub open spec fn after(self, event: UpdateEvent) -> UpdateRun {
        match (self.step, event) {
            (UpdateStep::EnsureIndexDirectory, UpdateEvent::Succeeded) => self.at(
                UpdateStep::ReadHeader,
            ),
            (UpdateStep::EnsureIndexDirectory, UpdateEvent::Failed) => self.at(
                UpdateStep::Failed(ChronoIndexError::IndexDirIo),
            ),
            (UpdateStep::ReadHeader, UpdateEvent::Header(read)) => match read {
                Ok(Some(header)) => UpdateRun {
                    step: UpdateStep::MeasureDataFiles,
                    committed: Some(header),
                    ..self
                },
                Ok(None) => self.at(UpdateStep::ColdBuild(UpdateOutcome::ColdBuildCompleted)),
                Err(_) => self.rebuilding(),
            },
            (UpdateStep::MeasureDataFiles, UpdateEvent::Sizes { names, mtimes }) => self.measured(
                names,
                mtimes,
            ),
            (
                UpdateStep::ProbeDirectory,
                UpdateEvent::Probed { live_file_count, live_signal_hash },
            ) => self.probed(live_file_count, live_signal_hash),
            (UpdateStep::ProbeDirectory, UpdateEvent::Failed) => self.at(
                UpdateStep::Failed(ChronoIndexError::BuildIo),
            ),
            (UpdateStep::Append, UpdateEvent::Appended(summary)) => UpdateRun {
                step: UpdateStep::ReadHeaderAfterAppend,
                append_summary: summary,
                ..self
            },
            (UpdateStep::Append, UpdateEvent::FailedWith(_)) => self.rebuilding(),
            (UpdateStep::ReadHeaderAfterAppend, UpdateEvent::Header(read)) => self.append_verified(
                read,
            ),
            (UpdateStep::ColdBuild(outcome), UpdateEvent::Built(summary)) => UpdateRun {
                step: UpdateStep::ReadHeaderAfterBuild(outcome),
                cold_build_summary: summary,
                ..self
            },
            (UpdateStep::ColdBuild(_), UpdateEvent::FailedWith(error)) => self.at(
                UpdateStep::Failed(error),
            ),
            (UpdateStep::ReadHeaderAfterBuild(outcome), UpdateEvent::Header(read)) => match read {
                Ok(Some(header)) => self.finished(outcome, header.file_count),
                Ok(None) => self.at(UpdateStep::Failed(ChronoIndexError::BuildIo)),
                Err(error) => self.at(UpdateStep::Failed(error)),
            },
            _ => self,
        }
    }

    /// What holds of an update at every step: it knows the committed header
    /// while it works with it, and a build has an outcome of its own.
    pub open spec fn is_sound(self) -> bool {
        match self.step {
            UpdateStep::MeasureDataFiles | UpdateStep::ProbeDirectory | UpdateStep::Append
            | UpdateStep::ReadHeaderAfterAppend => self.committed is Some,
            UpdateStep::ColdBuild(outcome) | UpdateStep::ReadHeaderAfterBuild(outcome) => {
                outcome is ColdBuildCompleted || outcome is RebuiltDueToInconsistency
            },
            _ => true,
        }
    }

    /// Starts an update of an index over the directory with this path.
    pub fn begin(parent_directory: Vec<u8>) -> (run: UpdateRun)
        ensures
            run.step == UpdateStep::EnsureIndexDirectory,
            run.parent_directory == parent_directory,
            run.committed is None,
            run.live_file_count == 0,
            run.live_signal_hash == 0,
            run.cold_build_summary == no_cold_build(),
            run.append_summary == no_append(),
            run.is_sound(),
    {
        UpdateRun {
            step: UpdateStep::EnsureIndexDirectory,
            parent_directory,
            committed: None,
            live_file_count: 0,
            live_signal_hash: 0,
            cold_build_summary: ColdBuildSummary {
                files_indexed: 0,
                entries_skipped_overlong_name: 0,
                entries_skipped_stat_failed: 0,
                entries_skipped_non_regular: 0,
            },
            append_summary: AppendSummary {
                files_appended: 0,
                entries_skipped_overlong_name: 0,
                entries_skipped_stat_failed: 0,
                entries_skipped_non_regular: 0,
                invariant_breaches_this_call: 0,
            },
        }
    }
}

/// The summary where no cold build ran.
pub open spec fn no_cold_build() -> ColdBuildSummary {
    ColdBuildSummary {
        files_indexed: 0,
        entries_skipped_overlong_name: 0,
        entries_skipped_stat_failed: 0,
        entries_skipped_non_regular: 0,
    }
}

/// The summary where no append ran.
pub open spec fn no_append() -> AppendSummary {
    AppendSummary {
        files_appended: 0,
        entries_skipped_overlong_name: 0,
        entries_skipped_stat_failed: 0,
        entries_skipped_non_regular: 0,
        invariant_breaches_this_call: 0,
    }
}

/// Takes what came of the step that `run` asked for, and goes on to the next.
///
/// Whatever is wrong with an existing index leads to a new one rather than to
/// an error.
pub fn create_or_update_chrono_index(run: UpdateRun, event: UpdateEvent) -> (next: UpdateRun)
    ensures
        next == run.after(event),
        run.is_sound() ==> next.is_sound(),
{
    let UpdateRun {
        step,
        parent_directory,
        committed,
        live_file_count,
        live_signal_hash,
        cold_build_summary,
        append_summary,
    } = run;
    let mut committed: Option<ChronoIndexHeader> = committed;
    let mut live_file_count: u64 = live_file_count;
    let mut live_signal_hash: u64 = live_signal_hash;
    let mut cold_build_summary: ColdBuildSummary = cold_build_summary;
    let mut append_summary: AppendSummary = append_summary;
    let rebuild: UpdateStep = UpdateStep::ColdBuild(UpdateOutcome::RebuiltDueToInconsistency);
    let mut next_step: UpdateStep = step;
    // The outcome of the update and the number of files, once it is finished.
    let mut finished: Option<(UpdateOutcome, u64)> = None;
    match (step, event) {
        (UpdateStep::EnsureIndexDirectory, UpdateEvent::Succeeded) => {
            next_step = UpdateStep::ReadHeader;
        },
        (UpdateStep::EnsureIndexDirectory, UpdateEvent::Failed) => {
            next_step = UpdateStep::Failed(ChronoIndexError::IndexDirIo);
        },
        (UpdateStep::ReadHeader, UpdateEvent::Header(read)) => {
            match read {
                Ok(Some(header)) => {
                    committed = Some(header);
                    next_step = UpdateStep::MeasureDataFiles;
                },
                Ok(None) => {
                    next_step = UpdateStep::ColdBuild(UpdateOutcome::ColdBuildCompleted);
                },
                Err(_) => {
                    next_step = rebuild;
                },
            }
        },
        (UpdateStep::MeasureDataFiles, UpdateEvent::Sizes { names, mtimes }) => {
            next_step = rebuild;
            if let Some(header) = &committed {
                if data_files_match_header_count(names, mtimes, header) {
                    match posix_path_to_bytes(&parent_directory) {
                        Ok(path) => {
                            if bytes_equal(path, header.parent_path_slice()) {
                                next_step = UpdateStep::ProbeDirectory;
                            }
                        },
                        Err(error) => {
                            next_step = UpdateStep::Failed(error);
                        },
                    }
                }
            }
        },
        (
            UpdateStep::ProbeDirectory,
            UpdateEvent::Probed { live_file_count: count, live_signal_hash: signal },
        ) => {
            live_file_count = count;
            live_signal_hash = signal;
            next_step = rebuild;
            if let Some(header) = &committed {
                if count == header.file_count && signal == header.signal_hash {
                    finished = Some((UpdateOutcome::NoChangesDetected, header.file_count));
                } else if count > header.file_count {
                    next_step = UpdateStep::Append;
                }
            }
        },
        (UpdateStep::ProbeDirectory, UpdateEvent::Failed) => {
            next_step = UpdateStep::Failed(ChronoIndexError::BuildIo);
        },
        (UpdateStep::Append, UpdateEvent::Appended(summary)) => {
            append_summary = summary;
            next_step = UpdateStep::ReadHeaderAfterAppend;
        },
        (UpdateStep::Append, UpdateEvent::FailedWith(_)) => {
            next_step = rebuild;
        },
        (UpdateStep::ReadHeaderAfterAppend, UpdateEvent::Header(read)) => {
            next_step = rebuild;
            if let Ok(Some(header)) = &read {
                if header.signal_hash == live_signal_hash && header.file_count == live_file_count {
                    finished = Some((UpdateOutcome::IncrementalAppendCompleted, header.file_count));
                }
            }
        },
        (UpdateStep::ColdBuild(outcome), UpdateEvent::Built(summary)) => {
            cold_build_summary = summary;
            next_step = UpdateStep::ReadHeaderAfterBuild(outcome);
        },
        (UpdateStep::ColdBuild(_), UpdateEvent::FailedWith(error)) => {
            next_step = UpdateStep::Failed(error);
        },
        (UpdateStep::ReadHeaderAfterBuild(outcome), UpdateEvent::Header(read)) => {
            match read {
                Ok(Some(header)) => {
                    finished = Some((outcome, header.file_count));
                },
                Ok(None) => {
                    next_step = UpdateStep::Failed(ChronoIndexError::BuildIo);
                },
                Err(error) => {
                    next_step = UpdateStep::Failed(error);
                },
            }
        },
        _ => {},
    }
    if let Some(end) = finished {
        next_step = UpdateStep::Finished(
            UpdateSummary {
                outcome: end.0,
                final_file_count: end.1,
                cold_build_summary,
                append_summary,
            },
        );
    }
    UpdateRun {
        step: next_step,
        parent_directory,
        committed,
        live_file_count,
        live_signal_hash,
        cold_build_summary,
        append_summary,
    }
}

/// An index that agrees with its directory is left alone: an update that finds
/// a usable header over the same directory, data files of the right sizes, and
/// the same number of files and the same signal hash, is finished without
/// anything being written.
pub proof fn update_of_unchanged_directory_does_nothing(
    run: UpdateRun,
    header: ChronoIndexHeader,
    names: Option<u64>,
    mtimes: Option<u64>,
)
    requires
        run.step == UpdateStep::ReadHeader,
        ChronoIndexHeader::parent_error(run.parent_directory@) is None,
        run.parent_directory@ == header.parent(),
        sizes_match(names, mtimes, header),
    ensures
        ({
            let read = run.after(UpdateEvent::Header(Ok(Some(header))));
            let measured = read.after(UpdateEvent::Sizes { names, mtimes });
            let probed = measured.after(
                UpdateEvent::Probed {
                    live_file_count: header.file_count,
                    live_signal_hash: header.signal_hash,
                },
            );
            probed.step == UpdateStep::Finished(
                UpdateSummary {
                    outcome: UpdateOutcome::NoChangesDetected,
                    final_file_count: header.file_count,
                    cold_build_summary: run.cold_build_summary,
                    append_summary: run.append_summary,
                },
            )
        }),
{
}

/// An update says that nothing changed, or that files were appended, only where
/// the header that was read last agrees with what the directory holds.
pub proof fn update_finishes_only_in_agreement(
    run: UpdateRun,
    event: UpdateEvent,
    summary: UpdateSummary,
)
    requires
        run.is_sound(),
        !(run.step is Finished),
        run.after(event).step == UpdateStep::Finished(summary),
    ensures
        match summary.outcome {
            UpdateOutcome::NoChangesDetected => {
                &&& run.committed matches Some(header)
                &&& event matches UpdateEvent::Probed { live_file_count, live_signal_hash }
                &&& live_file_count == header.file_count
                &&& live_signal_hash == header.signal_hash
                &&& summary.final_file_count == live_file_count
            },
            UpdateOutcome::IncrementalAppendCompleted => {
                &&& event matches UpdateEvent::Header(Ok(Some(header)))
                &&& header.file_count == run.live_file_count
                &&& header.signal_hash == run.live_signal_hash
                &&& summary.final_file_count == run.live_file_count
            },
            UpdateOutcome::ColdBuildCompleted | UpdateOutcome::RebuiltDueToInconsistency => {
                &&& run.step == UpdateStep::ReadHeaderAfterBuild(summary.outcome)
                &&& event matches UpdateEvent::Header(Ok(Some(header)))
                &&& summary.final_file_count == header.file_count
            },
        },
{
}

/// Whatever is wrong with an index leads to a cold build, not to an error: a
/// header that cannot be used, data files that do not fit it, another
/// directory, a directory with fewer files or with other names, a failed
/// append, and an append that does not lead to what the directory holds.
pub proof fn inconsistency_leads_to_rebuild(
    run: UpdateRun,
    header: ChronoIndexHeader,
    other: ChronoIndexHeader,
    error: ChronoIndexError,
    names: Option<u64>,
    mtimes: Option<u64>,
    count: u64,
    signal: u64,
)
    requires
        run.committed == Some(header),
        ChronoIndexHeader::parent_error(run.parent_directory@) is None,
    ensures
        ({
            let rebuild = UpdateStep::ColdBuild(UpdateOutcome::RebuiltDueToInconsistency);
            let reading = run.at(UpdateStep::ReadHeader);
            let measuring = run.at(UpdateStep::MeasureDataFiles);
            let probing = run.at(UpdateStep::ProbeDirectory);
            let appending = run.at(UpdateStep::Append);
            let verifying = run.at(UpdateStep::ReadHeaderAfterAppend);
            &&& reading.after(UpdateEvent::Header(Err(error))).step == rebuild
            &&& !sizes_match(names, mtimes, header) ==> measuring.after(
                UpdateEvent::Sizes { names, mtimes },
            ).step == rebuild
            &&& run.parent_directory@ != header.parent() ==> measuring.after(
                UpdateEvent::Sizes { names, mtimes },
            ).step == rebuild
            &&& count < header.file_count || (count == header.file_count && signal
                != header.signal_hash) ==> probing.after(
                UpdateEvent::Probed { live_file_count: count, live_signal_hash: signal },
            ).step == rebuild
            &&& appending.after(UpdateEvent::FailedWith(error)).step == rebuild
            &&& other.file_count != run.live_file_count || other.signal_hash
                != run.live_signal_hash ==> verifying.after(
                UpdateEvent::Header(Ok(Some(other))),
            ).step == rebuild
            &&& verifying.after(UpdateEvent::Header(Ok(None))).step == rebuild
            &&& verifying.after(UpdateEvent::Header(Err(error))).step == rebuild
        }),
{
}

/// Data files agree with a header exactly where both are there, `names.bin` with
/// 64 bytes and `mtimes.bin` with 20 bytes for every file that the header counts.
pub proof fn data_files_agree_by_their_record_sizes(
    names: Option<u64>,
    mtimes: Option<u64>,
    header: ChronoIndexHeader,
)
    requires
        header.file_count * 64 <= u64::MAX,
    ensures
        sizes_match(names, mtimes, header) <==> {
            &&& names matches Some(names_size) && names_size == header.file_count * 64
            &&& mtimes matches Some(mtimes_size) && mtimes_size == header.file_count * 20
        },
{
}

/// A directory that holds more files than the header counts is appended to,
/// whatever the names are; with as many or fewer files, nothing is appended.
pub proof fn only_grown_directory_is_appended_to(run: UpdateRun, count: u64, signal: u64)
    requires
        run.step is ProbeDirectory,
        run.committed is Some,
    ensures
        ({
            let end = run.after(
                UpdateEvent::Probed { live_file_count: count, live_signal_hash: signal },
            );
            &&& end.step is Append <==> count > run.committed->0.file_count
            &&& end.live_file_count == count
            &&& end.live_signal_hash == signal
            &&& end.committed == run.committed
        }),
{
}

/// The summary of an update tells its outcome, how many files the header counts
/// that was read last, and what the append and the build have reported.
pub proof fn update_reports_what_was_done(
    run: UpdateRun,
    header: ChronoIndexHeader,
    appended: AppendSummary,
    built: ColdBuildSummary,
)
    ensures
        run.step is Append && header.file_count == run.live_file_count && header.signal_hash
            == run.live_signal_hash ==> run.after(UpdateEvent::Appended(appended)).after(
            UpdateEvent::Header(Ok(Some(header))),
        ).step == UpdateStep::Finished(
            UpdateSummary {
                outcome: UpdateOutcome::IncrementalAppendCompleted,
                final_file_count: header.file_count,
                cold_build_summary: run.cold_build_summary,
                append_summary: appended,
            },
        ),
        run.step matches UpdateStep::ColdBuild(outcome) ==> run.after(
            UpdateEvent::Built(built),
        ).after(UpdateEvent::Header(Ok(Some(header)))).step == UpdateStep::Finished(
            UpdateSummary {
                outcome,
                final_file_count: header.file_count,
                cold_build_summary: built,
                append_summary: run.append_summary,
            },
        ),
{
}

/// What an update fails with, and that nothing else fails it: an index directory
/// that cannot be created, a parent path that no header can hold, a directory
/// that cannot be listed, a build that fails, and a header that cannot be read
/// after it. Without a header there is no index, and it is built.
pub proof fn update_fails_for_these_reasons(run: UpdateRun, event: UpdateEvent)
    requires
        !(run.step is Failed),
        run.committed is Some,
    ensures
        run.step is ReadHeader ==> run.after(UpdateEvent::Header(Ok(None))).step
            == UpdateStep::ColdBuild(UpdateOutcome::ColdBuildCompleted),
        run.step is EnsureIndexDirectory ==> run.after(UpdateEvent::Succeeded).step is ReadHeader
            && run.after(UpdateEvent::Failed).step == UpdateStep::Failed(
            ChronoIndexError::IndexDirIo,
        ),
        run.after(event).step matches UpdateStep::Failed(error) ==> {
            ||| run.step is EnsureIndexDirectory && event is Failed && error is IndexDirIo
            ||| run.step is MeasureDataFiles && event is Sizes && ({
                ||| run.parent_directory@.len() == 0 && error is ParentPathInvalid
                ||| run.parent_directory@.len() > 4096 && error is ParentPathTooLong
            })
            ||| run.step is ProbeDirectory && event is Failed && error is BuildIo
            ||| run.step is ColdBuild && event == UpdateEvent::FailedWith(error)
            ||| run.step is ReadHeaderAfterBuild && error is BuildIo && event
                == UpdateEvent::Header(Ok(None))
            ||| run.step is ReadHeaderAfterBuild && event == UpdateEvent::Header(Err(error))
        },
        run.step is ProbeDirectory && event is Failed ==> run.after(event).step is Failed,
        run.step is ColdBuild && event is FailedWith ==> run.after(event).step is Failed,
        run.step is ReadHeaderAfterBuild ==> (event matches UpdateEvent::Header(read) && !(
        read matches Ok(Some(_))) ==> run.after(event).step is Failed),
{
}

/// Three calls of [`create_or_update_chrono_index`] decide what is done with an
/// index over the same directory with data files of the right sizes: nothing where
/// it holds as many files with the same signal hash, an append where it holds more
/// files, and a new build otherwise.
pub proof fn three_calls_decide_an_update(
    run: UpdateRun,
    header: ChronoIndexHeader,
    count: u64,
    signal: u64,
    read: UpdateRun,
    measured: UpdateRun,
    end: UpdateRun,
)
    requires
        run.step is ReadHeader,
        0 < run.parent_directory@.len() <= 4096,
        run.parent_directory@ == header.parent(),
        header.file_count * 64 <= u64::MAX,
        call_ensures(
            create_or_update_chrono_index,
            (run, UpdateEvent::Header(Ok(Some(header)))),
            read,
        ),
        call_ensures(
            create_or_update_chrono_index,
            (
                read,
                UpdateEvent::Sizes {
                    names: Some((header.file_count * 64) as u64),
                    mtimes: Some((header.file_count * 20) as u64),
                },
            ),
            measured,
        ),
        call_ensures(
            create_or_update_chrono_index,
            (measured, UpdateEvent::Probed { live_file_count: count, live_signal_hash: signal }),
            end,
        ),
    ensures
        end.step is Finished <==> count == header.file_count && signal == header.signal_hash,
        end.step is Append <==> count > header.file_count,
        count < header.file_count || count == header.file_count && signal != header.signal_hash
            <==> end.step == UpdateStep::ColdBuild(UpdateOutcome::RebuiltDueToInconsistency),
        end.step matches UpdateStep::Finished(summary) ==> summary.outcome is NoChangesDetected
            && summary.final_file_count == count,
{
}

} // verus!
