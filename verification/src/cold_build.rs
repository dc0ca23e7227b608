//! Building an index from nothing.
//!
//! The data files are written beside the old ones. When they are complete, the
//! old ones are kept under a second name and the new ones renamed over them; the
//! header is written last of all and commits the build. Where anything fails
//! before that, the old data files are renamed back, so that a build that fails
//! leaves the index that was there before. A data file that cannot be kept does
//! not stop a build; it only cannot be put back then.

use vstd::prelude::*;
use crate::counting;
use crate::counting::saturating_product;
use crate::error::ChronoIndexError;
use crate::header::ChronoIndexHeader;
use crate::layout::MTIME_RECORD_SIZE;
use crate::record;
use crate::record::MtimeRecord;
use crate::scan::ColdBuildSummary;

verus! {

/// Why a build has failed, and which of its staged files are left.
#[derive(Debug, Clone, Copy, PartialEq, Eq, Structural)]
pub struct BuildFailure {
    pub error: ChronoIndexError,
    pub staged_names: bool,
    pub staged_mtimes: bool,
}

/// What became of a data file that a build is about to replace.
#[derive(Debug, Clone, Copy, PartialEq, Eq, Structural)]
pub enum OldFile {
    /// There was no such file.
    Absent,
    /// What it held is kept under its set-aside name.
    Kept,
    /// It could not be kept, and so it cannot be put back.
    NotKept,
}

/// What a cold build needs done next.
#[derive(Debug, Clone, Copy, PartialEq, Eq)]
pub enum ColdBuildStep {
    /// Create the index directory where it does not exist.
    EnsureIndexDirectory,
    /// Create the scratch directory where it does not exist.
    EnsureScratchDirectory,
    /// Stream the directory into a staged names file and a scratch file.
    ScanDirectory,
    /// Sort the scratch file into a staged file of modification times.
    SortMtimes,
    /// Read the record at this offset of the staged modification times.
    ReadNewest(u64),
    /// Keep what `names.bin` holds, if it is there, under its set-aside name
    /// too. The file itself stays in place.
    SetAsideNames,
    /// Keep what `mtimes.bin` holds, if it is there, under its set-aside name
    /// too. The file itself stays in place.
    SetAsideMtimes,
    /// Rename the staged names file into place.
    PromoteNames,
    /// Rename the staged modification times into place.
    PromoteMtimes,
    /// Write the header atomically.
    WriteHeader,
    /// Put `mtimes.bin` back as it was before the build: rename the set-aside
    /// file over it where it existed, and else remove it.
    RestoreMtimes { existed: bool, failure: BuildFailure },
    /// Put `names.bin` back as it was before the build: rename the set-aside
    /// file over it where it existed, and else remove it.
    RestoreNames { existed: bool, failure: BuildFailure },
    /// Remove the scratch directory, the staged files that are named, and the
    /// files that were set aside where those are named.
    CleanUp {
        staged_names: bool,
        staged_mtimes: bool,
        set_aside: bool,
        outcome: Result<(), ChronoIndexError>,
    },
    /// Nothing: the index is committed.
    Finished,
    /// Nothing: the build failed.
    Failed(ChronoIndexError),
}

/// What came of a step.
#[derive(Debug, Clone, Copy)]
pub enum ColdBuildEvent {
    Succeeded,
    /// Creating a directory, reading, setting aside, renaming or putting back
    /// failed.
    Failed,
    /// There was no file to set aside.
    Absent,
    /// The scan, the sort or the writing of the header failed.
    FailedWith(ChronoIndexError),
    /// The scan succeeded.
    Scanned { summary: ColdBuildSummary, signal_hash: u64 },
    /// The bytes of the newest record.
    Newest([u8; MTIME_RECORD_SIZE]),
}

/// A cold build in progress.
pub struct ColdBuild {
    pub step: ColdBuildStep,
    /// The header that the build will commit, or why there can be none.
    pub header: Result<ChronoIndexHeader, ChronoIndexError>,
    pub summary: ColdBuildSummary,
    /// What became of the old `names.bin`, once it was set aside.
    pub old_names: OldFile,
    /// What became of the old `mtimes.bin`, once it was set aside.
    pub old_mtimes: OldFile,
    /// Whether a data file could not be put back after a failure.
    pub restore_failed: bool,
}

/// The header of an index over the files that a scan has found.
pub open spec fn scanned_header(
    fresh: ChronoIndexHeader,
    summary: ColdBuildSummary,
    signal_hash: u64,
) -> ChronoIndexHeader {
    ChronoIndexHeader { file_count: summary.files_indexed, signal_hash, ..fresh }
}

/// `header` with the modification time of the newest file.
pub open spec fn with_newest(header: ChronoIndexHeader, newest: MtimeRecord) -> ChronoIndexHeader {
    ChronoIndexHeader {
        last_mtime_sec: newest.mtime_sec,
        last_mtime_nsec: newest.mtime_nsec,
        ..header
    }
}

/// The offset of the last of `count` records.
pub open spec fn newest_offset(count: u64) -> u64
    recommends
        count > 0,
{
    counting::saturated(((count - 1) * MTIME_RECORD_SIZE) as nat)
}

/// What became of a data file whose setting aside came to `event`.
pub open spec fn old_file_after(event: ColdBuildEvent) -> OldFile {
    match event {
        ColdBuildEvent::Succeeded => OldFile::Kept,
        ColdBuildEvent::Absent => OldFile::Absent,
        _ => OldFile::NotKept,
    }
}

impl ColdBuild {
    pub open spec fn at(self, step: ColdBuildStep) -> ColdBuild {
        ColdBuild { step, ..self }
    }

    pub open spec fn cleaning_up(
        self,
        staged_names: bool,
        staged_mtimes: bool,
        set_aside: bool,
        error: ChronoIndexError,
    ) -> ColdBuild {
        self.at(
            ColdBuildStep::CleanUp { staged_names, staged_mtimes, set_aside, outcome: Err(error) },
        )
    }

    /// Goes on to put the old `names.bin` back, where that can be done.
    pub open spec fn restoring_names(self, failure: BuildFailure) -> ColdBuild {
        match self.old_names {
            OldFile::NotKept => (ColdBuild { restore_failed: true, ..self }).cleaning_up(
                failure.staged_names,
                failure.staged_mtimes,
                false,
                failure.error,
            ),
            old => self.at(
                ColdBuildStep::RestoreNames { existed: old == OldFile::Kept, failure },
            ),
        }
    }

    /// Goes on to put the old `mtimes.bin` back, where that can be done, and
    /// then the old `names.bin`.
    pub open spec fn restoring(self, failure: BuildFailure) -> ColdBuild {
        match self.old_mtimes {
            OldFile::NotKept => (ColdBuild { restore_failed: true, ..self }).restoring_names(
                failure,
            ),
            old => self.at(
                ColdBuildStep::RestoreMtimes { existed: old == OldFile::Kept, failure },
            ),
        }
    }

    /// The state after `event`. An event that does not answer the step leaves
    /// the state as it is.
    pub open spec fn after(self, event: ColdBuildEvent) -> ColdBuild {
        match (self.step, event) {
            (ColdBuildStep::EnsureIndexDirectory, ColdBuildEvent::Succeeded) => self.at(
                ColdBuildStep::EnsureScratchDirectory,
            ),
            (ColdBuildStep::EnsureIndexDirectory, ColdBuildEvent::Failed) => self.at(
                ColdBuildStep::Failed(ChronoIndexError::IndexDirIo),
            ),
            (ColdBuildStep::EnsureScratchDirectory, ColdBuildEvent::Succeeded) => match self.header {
                Ok(_) => self.at(ColdBuildStep::ScanDirectory),
                Err(error) => self.cleaning_up(false, false, false, error),
            },
            (ColdBuildStep::EnsureScratchDirectory, ColdBuildEvent::Failed) => self.at(
                ColdBuildStep::Failed(ChronoIndexError::BuildIo),
            ),
            (
                ColdBuildStep::ScanDirectory,
                ColdBuildEvent::Scanned { summary, signal_hash },
            ) => ColdBuild {
                step: ColdBuildStep::SortMtimes,
                header: match self.header {
                    Ok(fresh) => Ok(scanned_header(fresh, summary, signal_hash)),
                    Err(error) => Err(error),
                },
                summary,
                ..self
            },
            (ColdBuildStep::ScanDirectory, ColdBuildEvent::FailedWith(error)) => self.cleaning_up(
                true,
                false,
                false,
                error,
            ),
            (ColdBuildStep::SortMtimes, ColdBuildEvent::Succeeded) => if self.summary.files_indexed
                > 0 {
                self.at(ColdBuildStep::ReadNewest(newest_offset(self.summary.files_indexed)))
            } else {
                self.at(ColdBuildStep::SetAsideNames)
            },
            (ColdBuildStep::SortMtimes, ColdBuildEvent::FailedWith(error)) => self.cleaning_up(
                true,
                true,
                false,
                error,
            ),
            (ColdBuildStep::ReadNewest(_), ColdBuildEvent::Newest(bytes)) => ColdBuild {
                step: ColdBuildStep::SetAsideNames,
                header: match self.header {
                    Ok(header) => Ok(with_newest(header, MtimeRecord::of_bytes(bytes@))),
                    Err(error) => Err(error),
                },
                ..self
            },
            (ColdBuildStep::ReadNewest(_), ColdBuildEvent::Failed) => self.cleaning_up(
                true,
                true,
                false,
                ChronoIndexError::BuildIo,
            ),
            (
                ColdBuildStep::SetAsideNames,
                ColdBuildEvent::Succeeded | ColdBuildEvent::Absent | ColdBuildEvent::Failed,
            ) => ColdBuild {
                step: ColdBuildStep::SetAsideMtimes,
                old_names: old_file_after(event),
                ..self
            },
            (
                ColdBuildStep::SetAsideMtimes,
                ColdBuildEvent::Succeeded | ColdBuildEvent::Absent | ColdBuildEvent::Failed,
            ) => ColdBuild {
                step: ColdBuildStep::PromoteNames,
                old_mtimes: old_file_after(event),
                ..self
            },
            (ColdBuildStep::PromoteNames, ColdBuildEvent::Succeeded) => self.at(
                ColdBuildStep::PromoteMtimes,
            ),
            (ColdBuildStep::PromoteNames, ColdBuildEvent::Failed) => self.cleaning_up(
                true,
                true,
                true,
                ChronoIndexError::RenameIo,
            ),
            (ColdBuildStep::PromoteMtimes, ColdBuildEvent::Succeeded) => self.at(
                ColdBuildStep::WriteHeader,
            ),
            (ColdBuildStep::PromoteMtimes, ColdBuildEvent::Failed) => self.restoring_names(
                BuildFailure {
                    error: ChronoIndexError::RenameIo,
                    staged_names: false,
                    staged_mtimes: true,
                },
            ),
            (ColdBuildStep::WriteHeader, ColdBuildEvent::Succeeded) => self.at(
                ColdBuildStep::CleanUp {
                    staged_names: false,
                    staged_mtimes: false,
                    set_aside: true,
                    outcome: Ok(()),
                },
            ),
            (ColdBuildStep::WriteHeader, ColdBuildEvent::FailedWith(error)) => self.restoring(
                BuildFailure { error, staged_names: false, staged_mtimes: false },
            ),
            (
                ColdBuildStep::RestoreMtimes { existed: _, failure },
                ColdBuildEvent::Succeeded | ColdBuildEvent::Failed,
            ) => (ColdBuild {
                restore_failed: self.restore_failed || event is Failed,
                ..self
            }).restoring_names(failure),
            (
                ColdBuildStep::RestoreNames { existed: _, failure },
                ColdBuildEvent::Succeeded | ColdBuildEvent::Failed,
            ) => (ColdBuild {
                restore_failed: self.restore_failed || event is Failed,
                ..self
            }).cleaning_up(
                failure.staged_names,
                failure.staged_mtimes,
                !(self.restore_failed || event is Failed),
                failure.error,
            ),
            (
                ColdBuildStep::CleanUp { staged_names: _, staged_mtimes: _, set_aside: _, outcome },
                ColdBuildEvent::Succeeded | ColdBuildEvent::Failed,
            ) => match outcome {
                Ok(_) => self.at(ColdBuildStep::Finished),
                Err(error) => self.at(ColdBuildStep::Failed(error)),
            },
            _ => self,
        }
    }

    /// Starts a build of an index over the directory with this path.
    ///
    /// A path that no header can hold fails the build once the directories
    /// are there.
    pub fn begin(parent_directory: &[u8]) -> (build: ColdBuild)
        ensures
            build.step == ColdBuildStep::EnsureIndexDirectory,
            build.summary == (ColdBuildSummary {
                files_indexed: 0,
                entries_skipped_overlong_name: 0,
                entries_skipped_stat_failed: 0,
                entries_skipped_non_regular: 0,
            }),
            match ChronoIndexHeader::parent_error(parent_directory@) {
                Some(error) => build.header == Err::<ChronoIndexHeader, ChronoIndexError>(error),
                None => build.header matches Ok(header) && header.is_fresh(parent_directory@)
                    && header.parent() == parent_directory@,
            },
            build.old_names == OldFile::Absent,
            build.old_mtimes == OldFile::Absent,
            !build.restore_failed,
    {
        ColdBuild {
            step: ColdBuildStep::EnsureIndexDirectory,
            header: ChronoIndexHeader::new_for_parent(parent_directory),
            summary: ColdBuildSummary {
                files_indexed: 0,
                entries_skipped_overlong_name: 0,
                entries_skipped_stat_failed: 0,
                entries_skipped_non_regular: 0,
            },
            old_names: OldFile::Absent,
            old_mtimes: OldFile::Absent,
            restore_failed: false,
        }
    }
}

/// The step that removes what a failed build has left.
fn clean_up_step(failure: BuildFailure, set_aside: bool) -> (step: ColdBuildStep)
    ensures
        step == (ColdBuildStep::CleanUp {
            staged_names: failure.staged_names,
            staged_mtimes: failure.staged_mtimes,
            set_aside,
            outcome: Err(failure.error),
        }),
{
    ColdBuildStep::CleanUp {
        staged_names: failure.staged_names,
        staged_mtimes: failure.staged_mtimes,
        set_aside,
        outcome: Err(failure.error),
    }
}

/// The step that puts the old `names.bin` back; none where it was not kept.
fn restore_names_step(old_names: OldFile, failure: BuildFailure) -> (step: Option<ColdBuildStep>)
    ensures
        step == match old_names {
            OldFile::NotKept => None::<ColdBuildStep>,
            old => Some(ColdBuildStep::RestoreNames { existed: old == OldFile::Kept, failure }),
        },
{
    match old_names {
        OldFile::NotKept => None,
        OldFile::Kept => Some(ColdBuildStep::RestoreNames { existed: true, failure }),
        OldFile::Absent => Some(ColdBuildStep::RestoreNames { existed: false, failure }),
    }
}

/// Takes what came of the step that `build` asked for, and goes on to the next.
pub fn cold_build_index(build: ColdBuild, event: ColdBuildEvent) -> (next: ColdBuild)
    ensures
        next == build.after(event),
{
    let ColdBuild { step, header, summary, old_names, old_mtimes, restore_failed } = build;
    let mut header: Result<ChronoIndexHeader, ChronoIndexError> = header;
    let mut summary: ColdBuildSummary = summary;
    let mut old_names: OldFile = old_names;
    let mut old_mtimes: OldFile = old_mtimes;
    let mut restore_failed: bool = restore_failed;
    // The failure after which `names.bin` is to be put back.
    let mut restore_names: Option<BuildFailure> = None;
    let mut next_step: ColdBuildStep = match (step, event) {
        (
            ColdBuildStep::EnsureIndexDirectory,
            ColdBuildEvent::Succeeded,
        ) => ColdBuildStep::EnsureScratchDirectory,
        (ColdBuildStep::EnsureIndexDirectory, ColdBuildEvent::Failed) => ColdBuildStep::Failed(
            ChronoIndexError::IndexDirIo,
        ),
        (ColdBuildStep::EnsureScratchDirectory, ColdBuildEvent::Succeeded) => match &header {
            Ok(_) => ColdBuildStep::ScanDirectory,
            Err(error) => clean_up_step(
                BuildFailure { error: *error, staged_names: false, staged_mtimes: false },
                false,
            ),
        },
        (ColdBuildStep::EnsureScratchDirectory, ColdBuildEvent::Failed) => ColdBuildStep::Failed(
            ChronoIndexError::BuildIo,
        ),
        (
            ColdBuildStep::ScanDirectory,
            ColdBuildEvent::Scanned { summary: scanned, signal_hash },
        ) => {
            header = match header {
                Ok(fresh) => Ok(
                    ChronoIndexHeader { file_count: scanned.files_indexed, signal_hash, ..fresh },
                ),
                Err(error) => Err(error),
            };
            summary = scanned;
            ColdBuildStep::SortMtimes
        },
        (ColdBuildStep::ScanDirectory, ColdBuildEvent::FailedWith(error)) => clean_up_step(
            BuildFailure { error, staged_names: true, staged_mtimes: false },
            false,
        ),
        (ColdBuildStep::SortMtimes, ColdBuildEvent::Succeeded) => if summary.files_indexed > 0 {
            ColdBuildStep::ReadNewest(
                saturating_product(summary.files_indexed - 1, MTIME_RECORD_SIZE as u64),
            )
        } else {
            ColdBuildStep::SetAsideNames
        },
        (ColdBuildStep::SortMtimes, ColdBuildEvent::FailedWith(error)) => clean_up_step(
            BuildFailure { error, staged_names: true, staged_mtimes: true },
            false,
        ),
        (ColdBuildStep::ReadNewest(_), ColdBuildEvent::Newest(bytes)) => {
            let newest: MtimeRecord = MtimeRecord::read_from(&bytes);
            header = match header {
                Ok(scanned) => Ok(
                    ChronoIndexHeader {
                        last_mtime_sec: newest.mtime_sec,
                        last_mtime_nsec: newest.mtime_nsec,
                        ..scanned
                    },
                ),
                Err(error) => Err(error),
            };
            ColdBuildStep::SetAsideNames
        },
        (ColdBuildStep::ReadNewest(_), ColdBuildEvent::Failed) => clean_up_step(
            BuildFailure {
                error: ChronoIndexError::BuildIo,
                staged_names: true,
                staged_mtimes: true,
            },
            false,
        ),
        (ColdBuildStep::SetAsideNames, ColdBuildEvent::Succeeded) => {
            old_names = OldFile::Kept;
            ColdBuildStep::SetAsideMtimes
        },
        (ColdBuildStep::SetAsideNames, ColdBuildEvent::Absent) => {
            old_names = OldFile::Absent;
            ColdBuildStep::SetAsideMtimes
        },
        (ColdBuildStep::SetAsideNames, ColdBuildEvent::Failed) => {
            old_names = OldFile::NotKept;
            ColdBuildStep::SetAsideMtimes
        },
        (ColdBuildStep::SetAsideMtimes, ColdBuildEvent::Succeeded) => {
            old_mtimes = OldFile::Kept;
            ColdBuildStep::PromoteNames
        },
        (ColdBuildStep::SetAsideMtimes, ColdBuildEvent::Absent) => {
            old_mtimes = OldFile::Absent;
            ColdBuildStep::PromoteNames
        },
        (ColdBuildStep::SetAsideMtimes, ColdBuildEvent::Failed) => {
            old_mtimes = OldFile::NotKept;
            ColdBuildStep::PromoteNames
        },
        (
            ColdBuildStep::PromoteNames,
            ColdBuildEvent::Succeeded,
        ) => ColdBuildStep::PromoteMtimes,
        (ColdBuildStep::PromoteNames, ColdBuildEvent::Failed) => clean_up_step(
            BuildFailure {
                error: ChronoIndexError::RenameIo,
                staged_names: true,
                staged_mtimes: true,
            },
            true,
        ),
        (ColdBuildStep::PromoteMtimes, ColdBuildEvent::Succeeded) => ColdBuildStep::WriteHeader,
        (ColdBuildStep::PromoteMtimes, ColdBuildEvent::Failed) => {
            restore_names = Some(
                BuildFailure {
                    error: ChronoIndexError::RenameIo,
                    staged_names: false,
                    staged_mtimes: true,
                },
            );
            step
        },
        (ColdBuildStep::WriteHeader, ColdBuildEvent::Succeeded) => ColdBuildStep::CleanUp {
            staged_names: false,
            staged_mtimes: false,
            set_aside: true,
            outcome: Ok(()),
        },
        (ColdBuildStep::WriteHeader, ColdBuildEvent::FailedWith(error)) => {
            let failure: BuildFailure = BuildFailure {
                error,
                staged_names: false,
                staged_mtimes: false,
            };
            match old_mtimes {
                OldFile::Kept => ColdBuildStep::RestoreMtimes { existed: true, failure },
                OldFile::Absent => ColdBuildStep::RestoreMtimes { existed: false, failure },
                OldFile::NotKept => {
                    restore_failed = true;
                    restore_names = Some(failure);
                    step
                },
            }
        },
        (ColdBuildStep::RestoreMtimes { existed: _, failure }, ColdBuildEvent::Succeeded) => {
            restore_names = Some(failure);
            step
        },
        (ColdBuildStep::RestoreMtimes { existed: _, failure }, ColdBuildEvent::Failed) => {
            restore_failed = true;
            restore_names = Some(failure);
            step
        },
        (ColdBuildStep::RestoreNames { existed: _, failure }, ColdBuildEvent::Succeeded) => {
            clean_up_step(failure, !restore_failed)
        },
        (ColdBuildStep::RestoreNames { existed: _, failure }, ColdBuildEvent::Failed) => {
            restore_failed = true;
            clean_up_step(failure, false)
        },
        (
            ColdBuildStep::CleanUp { staged_names: _, staged_mtimes: _, set_aside: _, outcome },
            ColdBuildEvent::Succeeded | ColdBuildEvent::Failed,
        ) => match outcome {
            Ok(_) => ColdBuildStep::Finished,
            Err(error) => ColdBuildStep::Failed(error),
        },
        _ => step,
    };
    if let Some(failure) = restore_names {
        next_step = match restore_names_step(old_names, failure) {
            Some(restore) => restore,
            None => {
                restore_failed = true;
                clean_up_step(failure, false)
            },
        };
    }
    ColdBuild { step: next_step, header, summary, old_names, old_mtimes, restore_failed }
}

/// The header is written last: only after both data files are renamed into
/// place, first the names, and only a written header finishes a build.
pub proof fn cold_build_commits_last(build: ColdBuild, event: ColdBuildEvent)
    ensures
        build.after(event).step is PromoteMtimes && !(build.step is PromoteMtimes)
            ==> build.step is PromoteNames && event is Succeeded,
        build.after(event).step is WriteHeader && !(build.step is WriteHeader)
            ==> build.step is PromoteMtimes && event is Succeeded,
        build.after(event).step matches ColdBuildStep::CleanUp { outcome: Ok(_), .. } && !(
        build.step is CleanUp) ==> build.step is WriteHeader && event is Succeeded,
        build.after(event).step is Finished && !(build.step is Finished) ==> (
        build.step matches ColdBuildStep::CleanUp { outcome: Ok(_), .. }),
{
}

/// A build that has failed, or that cleans up after a failure, writes no header
/// and renames nothing any more.
pub proof fn failed_build_stays_failed(
    build: ColdBuild,
    event: ColdBuildEvent,
    error: ChronoIndexError,
)
    requires
        build.step == ColdBuildStep::Failed(error) || (
        build.step matches ColdBuildStep::CleanUp { outcome, .. } && outcome == Err::<
            (),
            ChronoIndexError,
        >(error)),
    ensures
        build.after(event).step == ColdBuildStep::Failed(error) || build.after(event).step
            == build.step,
{
}

/// A build whose every step succeeds, whether there were old data files or not
/// and whether they could be kept or not, commits a header with the number of files and the signal hash that the scan
/// found, with the modification time of the newest record where there is one,
/// and with the parent path that it began with.
pub proof fn successful_build_commits_scanned_header(
    build: ColdBuild,
    fresh: ChronoIndexHeader,
    summary: ColdBuildSummary,
    signal_hash: u64,
    newest: [u8; MTIME_RECORD_SIZE],
    names_aside: ColdBuildEvent,
    mtimes_aside: ColdBuildEvent,
)
    requires
        names_aside is Succeeded || names_aside is Absent || names_aside is Failed,
        mtimes_aside is Succeeded || mtimes_aside is Absent || mtimes_aside is Failed,
        build.step is EnsureIndexDirectory,
        build.header == Ok::<ChronoIndexHeader, ChronoIndexError>(fresh),
    ensures
        ({
            let succeeded = ColdBuildEvent::Succeeded;
            let scanned = build.after(succeeded).after(succeeded).after(
                ColdBuildEvent::Scanned { summary, signal_hash },
            );
            let sorted = scanned.after(succeeded);
            let ready = if summary.files_indexed > 0 {
                sorted.after(ColdBuildEvent::Newest(newest))
            } else {
                sorted
            };
            let committing = ready.after(names_aside).after(mtimes_aside).after(succeeded).after(
                succeeded,
            );
            let committed = committing.after(succeeded).after(succeeded);
            let header = scanned_header(fresh, summary, signal_hash);
            &&& summary.files_indexed > 0 ==> sorted.step == ColdBuildStep::ReadNewest(
                newest_offset(summary.files_indexed),
            )
            &&& committing.step is WriteHeader
            &&& committing.header == Ok::<ChronoIndexHeader, ChronoIndexError>(
                if summary.files_indexed > 0 {
                    with_newest(header, MtimeRecord::of_bytes(newest@))
                } else {
                    header
                },
            )
            &&& committed.step is Finished
            &&& committed.summary == summary
        }),
{
}

/// The header that a build commits counts the files that the scan has taken in and
/// holds their signal hash, and the time of the last record, which is read at
/// twenty bytes before the end; all else of it is as in a fresh header.
pub proof fn build_header_tells_scan_and_newest(
    build: ColdBuild,
    summary: ColdBuildSummary,
    signal_hash: u64,
    newest: MtimeRecord,
    bytes: [u8; MTIME_RECORD_SIZE],
)
    requires
        build.step is ScanDirectory,
        build.header is Ok,
        0 < summary.files_indexed,
        summary.files_indexed * 20 <= u64::MAX,
        bytes@ == newest.bytes(),
    ensures
        ({
            let scanned = build.after(ColdBuildEvent::Scanned { summary, signal_hash });
            let sorted = scanned.after(ColdBuildEvent::Succeeded);
            let end = sorted.after(ColdBuildEvent::Newest(bytes));
            let fresh = build.header->Ok_0;
            &&& scanned.step is SortMtimes
            &&& sorted.step == ColdBuildStep::ReadNewest((summary.files_indexed * 20 - 20) as u64)
            &&& end.step is SetAsideNames
            &&& end.summary == summary
            &&& end.header == Ok::<ChronoIndexHeader, ChronoIndexError>(
                ChronoIndexHeader {
                    file_count: summary.files_indexed,
                    signal_hash,
                    last_mtime_sec: newest.mtime_sec,
                    last_mtime_nsec: newest.mtime_nsec,
                    ..fresh
                },
            )
        }),
{
    record::record_round_trips(newest);
}

/// What a build fails with: the error of the scan, of the sort or of writing the
/// header as they reported it, that of a rename, and otherwise an I/O error of the
/// build, or of the index directory. Nothing that goes wrong later changes it.
pub proof fn build_fails_with_first_error(build: ColdBuild, error: ChronoIndexError)
    ensures
        build.step is EnsureIndexDirectory ==> build.after(ColdBuildEvent::Failed).step
            == ColdBuildStep::Failed(ChronoIndexError::IndexDirIo),
        build.step is EnsureScratchDirectory ==> build.after(ColdBuildEvent::Failed).step
            == ColdBuildStep::Failed(ChronoIndexError::BuildIo),
        build.step is EnsureScratchDirectory && build.header == Err::<
            ChronoIndexHeader,
            ChronoIndexError,
        >(error) ==> will_fail_with(build.after(ColdBuildEvent::Succeeded), error),
        build.step is ScanDirectory || build.step is SortMtimes || build.step is WriteHeader
            ==> will_fail_with(build.after(ColdBuildEvent::FailedWith(error)), error),
        build.step is ReadNewest ==> will_fail_with(
            build.after(ColdBuildEvent::Failed),
            ChronoIndexError::BuildIo,
        ),
        build.step is PromoteNames || build.step is PromoteMtimes ==> will_fail_with(
            build.after(ColdBuildEvent::Failed),
            ChronoIndexError::RenameIo,
        ),
        will_fail_with(build, error) ==> {
            &&& will_fail_with(build.after(ColdBuildEvent::Succeeded), error)
            &&& will_fail_with(build.after(ColdBuildEvent::Failed), error)
        },
{
}

/// `build` has failed with `error`, or is cleaning up before it does.
pub open spec fn will_fail_with(build: ColdBuild, error: ChronoIndexError) -> bool {
    match build.step {
        ColdBuildStep::RestoreMtimes { existed: _, failure } => failure.error == error,
        ColdBuildStep::RestoreNames { existed: _, failure } => failure.error == error,
        ColdBuildStep::CleanUp { staged_names: _, staged_mtimes: _, set_aside: _, outcome } => {
            outcome == Err::<(), ChronoIndexError>(error)
        },
        ColdBuildStep::Failed(last) => last == error,
        _ => false,
    }
}

/// Three calls make the header of a build: with what the scan reports, with the
/// success of the sort and with the bytes of the newest record,
/// [`cold_build_index`] leads to a build whose header counts the files, holds
/// their signal hash and the time of that record.
pub proof fn three_calls_make_the_header(
    build: ColdBuild,
    summary: ColdBuildSummary,
    signal_hash: u64,
    newest: MtimeRecord,
    bytes: [u8; MTIME_RECORD_SIZE],
    scanned: ColdBuild,
    sorted: ColdBuild,
    end: ColdBuild,
)
    requires
        build.step is ScanDirectory,
        build.header is Ok,
        0 < summary.files_indexed,
        summary.files_indexed * 20 <= u64::MAX,
        bytes@ == newest.bytes(),
        call_ensures(
            cold_build_index,
            (build, ColdBuildEvent::Scanned { summary, signal_hash }),
            scanned,
        ),
        call_ensures(cold_build_index, (scanned, ColdBuildEvent::Succeeded), sorted),
        call_ensures(cold_build_index, (sorted, ColdBuildEvent::Newest(bytes)), end),
    ensures
        end.header matches Ok(header) && header.file_count == summary.files_indexed
            && header.signal_hash == signal_hash && header.last_mtime_sec == newest.mtime_sec
            && header.last_mtime_nsec == newest.mtime_nsec && header.parent()
            == build.header->Ok_0.parent(),
        end.summary == summary,
{
    build_header_tells_scan_and_newest(build, summary, signal_hash, newest, bytes);
}

} // verus!
