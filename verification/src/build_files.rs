//! What a cold build does to the files of an index.
//!
//! The steps of a build are performed on files with given contents. A build
//! that fails leaves the header and the data files as they were before it; one
//! that finishes leaves those that it has made.

use vstd::prelude::*;
use crate::cold_build;
use crate::cold_build::{ColdBuild, ColdBuildEvent, ColdBuildStep, OldFile};
use crate::entry;
use crate::error::ChronoIndexError;
use crate::external_sort;
use crate::external_sort::{SortEvent, SortModel, SortStep};
use crate::hash;
use crate::header::ChronoIndexHeader;
use crate::layout::MTIME_RECORD_SIZE;
use crate::names;
use crate::record;
use crate::scan::{ScanEvent, ScanModel, ScanStep};
use crate::scan_files;
use crate::scan_files::ScanFiles;
use crate::sort_files;
use crate::sort_files::SortFiles;
use crate::stored_index;

verus! {

/// What the files hold that readers of an index look at; none where there is no
/// such file.
pub struct IndexContents {
    pub header: Option<Seq<u8>>,
    pub names: Option<Seq<u8>>,
    pub mtimes: Option<Seq<u8>>,
}

/// The size in bytes of a file, as far as 64 bits go; none where there is no such
/// file.
pub open spec fn measured_size(file: Option<Seq<u8>>) -> Option<u64> {
    match file {
        Some(bytes) => if bytes.len() <= u64::MAX {
            Some(bytes.len() as u64)
        } else {
            None
        },
        None => None,
    }
}

/// What the files hold that a cold build works with.
pub struct BuildFiles {
    /// `header.bin`, `names.bin` and `mtimes.bin`.
    pub index: IndexContents,
    /// The unsorted scratch file.
    pub scratch: Option<Seq<u8>>,
    /// The staged data files.
    pub staged_names: Option<Seq<u8>>,
    pub staged_mtimes: Option<Seq<u8>>,
    /// What is kept of the old data files.
    pub old_names: Option<Seq<u8>>,
    pub old_mtimes: Option<Seq<u8>>,
}

impl BuildFiles {
    pub open spec fn with_names(self, names: Option<Seq<u8>>) -> BuildFiles {
        BuildFiles { index: IndexContents { names, ..self.index }, ..self }
    }

    pub open spec fn with_mtimes(self, mtimes: Option<Seq<u8>>) -> BuildFiles {
        BuildFiles { index: IndexContents { mtimes, ..self.index }, ..self }
    }

    pub open spec fn with_header(self, header: Option<Seq<u8>>) -> BuildFiles {
        BuildFiles { index: IndexContents { header, ..self.index }, ..self }
    }
}

/// A scan that has come to its end.
pub open spec fn is_finished_scan(scan: ScanModel) -> bool {
    scan.is_sound() && scan.step == ScanStep::Finished
}

/// A sort that has come to its end.
pub open spec fn is_finished_sort(sort: SortModel) -> bool {
    sort.is_sound() && sort.step == SortStep::Finished
}

/// Performing the step that `build` asks for, with `event` coming of it, turns
/// files that hold `before` into ones that hold `after`.
///
/// A rename that fails changes nothing. The scan comes to `scan` and leaves the
/// names and the records that it has written, as [`crate::scan_files`] shows; the
/// sort comes to `sort`, reads what the scan has left, and leaves its output, as
/// [`crate::sort_files`] shows. What they leave in their own files after a
/// failure is left open. Reading, setting aside and cleaning up leave the files
/// of the index alone. The header is written atomically, as
/// [`crate::header_file`] shows: it is the new one, or, where that fails, the old
/// one.
pub open spec fn is_performed(
    build: ColdBuild,
    event: ColdBuildEvent,
    scan: ScanModel,
    sort: SortModel,
    before: BuildFiles,
    after: BuildFiles,
) -> bool {
    match (build.step, event) {
        (ColdBuildStep::ScanDirectory, ColdBuildEvent::Scanned { summary, signal_hash }) => {
            &&& is_finished_scan(scan)
            &&& summary == scan.summary()
            &&& signal_hash == hash::signal_hash(entry::basenames(scan.files()))
            &&& after == (BuildFiles {
                scratch: Some(record::records_file(scan.records_written)),
                staged_names: Some(names::names_file(scan.names_written)),
                ..before
            })
        },
        (ColdBuildStep::ScanDirectory, _) => after == (BuildFiles {
            scratch: after.scratch,
            staged_names: after.staged_names,
            ..before
        }),
        (ColdBuildStep::SortMtimes, ColdBuildEvent::Succeeded) => {
            &&& is_finished_sort(sort)
            &&& sort.expected == build.summary.files_indexed
            &&& before.scratch is Some
            &&& sort.input.is_prefix_of(record::records_in_file(before.scratch->0))
            &&& after == (BuildFiles {
                staged_mtimes: Some(record::records_file(sort.output())),
                ..before
            })
        },
        (ColdBuildStep::SortMtimes, ColdBuildEvent::FailedWith(_)) => after == (BuildFiles {
            staged_mtimes: after.staged_mtimes,
            ..before
        }),
        (ColdBuildStep::ReadNewest(offset), ColdBuildEvent::Newest(bytes)) => {
            &&& before.staged_mtimes is Some
            &&& offset + MTIME_RECORD_SIZE <= before.staged_mtimes->0.len()
            &&& bytes@ == before.staged_mtimes->0.subrange(
                offset as int,
                offset + MTIME_RECORD_SIZE,
            )
            &&& after == before
        },
        (ColdBuildStep::SetAsideNames, ColdBuildEvent::Succeeded) => {
            &&& before.index.names is Some
            &&& after == (BuildFiles { old_names: before.index.names, ..before })
        },
        (ColdBuildStep::SetAsideNames, ColdBuildEvent::Absent) => {
            &&& before.index.names is None
            &&& after == before
        },
        (ColdBuildStep::SetAsideMtimes, ColdBuildEvent::Succeeded) => {
            &&& before.index.mtimes is Some
            &&& after == (BuildFiles { old_mtimes: before.index.mtimes, ..before })
        },
        (ColdBuildStep::SetAsideMtimes, ColdBuildEvent::Absent) => {
            &&& before.index.mtimes is None
            &&& after == before
        },
        (ColdBuildStep::PromoteNames, ColdBuildEvent::Succeeded) => {
            &&& before.staged_names is Some
            &&& after == (BuildFiles { staged_names: None, ..before }).with_names(
                before.staged_names,
            )
        },
        (ColdBuildStep::PromoteMtimes, ColdBuildEvent::Succeeded) => {
            &&& before.staged_mtimes is Some
            &&& after == (BuildFiles { staged_mtimes: None, ..before }).with_mtimes(
                before.staged_mtimes,
            )
        },
        (ColdBuildStep::WriteHeader, ColdBuildEvent::Succeeded) => {
            &&& build.header matches Ok(header)
            &&& after == before.with_header(Some(header.bytes()))
        },
        (ColdBuildStep::RestoreMtimes { existed, failure: _ }, ColdBuildEvent::Succeeded) => {
            if existed {
                &&& before.old_mtimes is Some
                &&& after == (BuildFiles { old_mtimes: None, ..before }).with_mtimes(
                    before.old_mtimes,
                )
            } else {
                after == before.with_mtimes(None)
            }
        },
        (ColdBuildStep::RestoreNames { existed, failure: _ }, ColdBuildEvent::Succeeded) => {
            if existed {
                &&& before.old_names is Some
                &&& after == (BuildFiles { old_names: None, ..before }).with_names(before.old_names)
            } else {
                after == before.with_names(None)
            }
        },
        (ColdBuildStep::SetAsideNames, ColdBuildEvent::Failed) => after == (BuildFiles {
            old_names: after.old_names,
            ..before
        }),
        (ColdBuildStep::SetAsideMtimes, ColdBuildEvent::Failed) => after == (BuildFiles {
            old_mtimes: after.old_mtimes,
            ..before
        }),
        (ColdBuildStep::CleanUp { .. }, _) => after.index == before.index,
        _ => after == before,
    }
}

/// The state of a build after all of `events`.
pub open spec fn after_all(build: ColdBuild, events: Seq<ColdBuildEvent>) -> ColdBuild
    decreases events.len(),
{
    if events.len() == 0 {
        build
    } else {
        after_all(build, events.drop_last()).after(events.last())
    }
}

/// `files` are what the files hold at the start of a build and after each of
/// `events`; the scan comes to `scan` and the sort to `sort`.
pub open spec fn are_performed(
    build: ColdBuild,
    events: Seq<ColdBuildEvent>,
    scan: ScanModel,
    sort: SortModel,
    files: Seq<BuildFiles>,
) -> bool {
    &&& files.len() == events.len() + 1
    &&& forall|i: int|
        0 <= i < events.len() ==> is_performed(
            after_all(build, events.take(i)),
            #[trigger] events[i],
            scan,
            sort,
            files[i],
            files[i + 1],
        )
}

/// What is known of an old data file that held `previous` is true; where it is
/// kept, `kept` is what it held.
pub open spec fn is_known(
    old_file: OldFile,
    kept: Option<Seq<u8>>,
    previous: Option<Seq<u8>>,
) -> bool {
    match old_file {
        OldFile::Absent => previous is None,
        OldFile::Kept => previous is Some && kept == previous,
        OldFile::NotKept => true,
    }
}

/// Until the header is written, the index that was there before the build is
/// still there or can be put back, as far as its data files could be kept.
pub open spec fn keeps_previous(
    build: ColdBuild,
    files: BuildFiles,
    previous: IndexContents,
) -> bool {
    let names_known = is_known(build.old_names, files.old_names, previous.names);
    let mtimes_known = is_known(build.old_mtimes, files.old_mtimes, previous.mtimes);
    match build.step {
        ColdBuildStep::EnsureIndexDirectory | ColdBuildStep::EnsureScratchDirectory
        | ColdBuildStep::ScanDirectory | ColdBuildStep::SortMtimes | ColdBuildStep::ReadNewest(_)
        | ColdBuildStep::SetAsideNames => files.index == previous,
        ColdBuildStep::SetAsideMtimes => files.index == previous && names_known,
        ColdBuildStep::PromoteNames => files.index == previous && names_known && mtimes_known,
        ColdBuildStep::PromoteMtimes => {
            &&& files.index.header == previous.header
            &&& files.index.mtimes == previous.mtimes
            &&& names_known
            &&& mtimes_known
        },
        ColdBuildStep::WriteHeader => {
            &&& files.index.header == previous.header
            &&& names_known
            &&& mtimes_known
        },
        ColdBuildStep::RestoreMtimes { existed, failure: _ } => {
            &&& files.index.header == previous.header
            &&& names_known
            &&& mtimes_known
            &&& existed == (build.old_mtimes == OldFile::Kept)
            &&& build.old_mtimes != OldFile::NotKept
        },
        ColdBuildStep::RestoreNames { existed, failure: _ } => {
            &&& files.index.header == previous.header
            &&& names_known
            &&& !build.restore_failed ==> files.index.mtimes == previous.mtimes
            &&& existed == (build.old_names == OldFile::Kept)
            &&& build.old_names != OldFile::NotKept
        },
        ColdBuildStep::CleanUp { outcome: Err(_), .. } | ColdBuildStep::Failed(_) => {
            !build.restore_failed ==> files.index == previous
        },
        ColdBuildStep::CleanUp { outcome: Ok(_), .. } | ColdBuildStep::Finished => true,
    }
}

proof fn lemma_step_keeps_previous(
    build: ColdBuild,
    event: ColdBuildEvent,
    scan: ScanModel,
    sort: SortModel,
    before: BuildFiles,
    after: BuildFiles,
    previous: IndexContents,
)
    requires
        keeps_previous(build, before, previous),
        is_performed(build, event, scan, sort, before, after),
    ensures
        keeps_previous(build.after(event), after, previous),
{
}

/// [`is_performed`], for proofs that only pass it on.
#[verifier::opaque]
spec fn is_one_step(
    build: ColdBuild,
    event: ColdBuildEvent,
    scan: ScanModel,
    sort: SortModel,
    before: BuildFiles,
    after: BuildFiles,
) -> bool {
    is_performed(build, event, scan, sort, before, after)
}

/// [`after_all`], for proofs that take one step at a time.
#[verifier::opaque]
spec fn state_after(build: ColdBuild, events: Seq<ColdBuildEvent>) -> ColdBuild {
    after_all(build, events)
}

/// [`keeps_previous`], for proofs that only pass it on.
#[verifier::opaque]
spec fn still_keeps_previous(
    build: ColdBuild,
    files: BuildFiles,
    previous: IndexContents,
) -> bool {
    keeps_previous(build, files, previous)
}

/// `files` are what the files hold at the start of a build and after each of
/// `events`, step by step.
spec fn are_steps(
    build: ColdBuild,
    events: Seq<ColdBuildEvent>,
    scan: ScanModel,
    sort: SortModel,
    files: Seq<BuildFiles>,
) -> bool {
    &&& files.len() == events.len() + 1
    &&& forall|i: int|
        0 <= i < events.len() ==> is_one_step(
            state_after(build, events.take(i)),
            #[trigger] events[i],
            scan,
            sort,
            files[i],
            files[i + 1],
        )
}

proof fn lemma_performed_in_steps(
    build: ColdBuild,
    events: Seq<ColdBuildEvent>,
    scan: ScanModel,
    sort: SortModel,
    files: Seq<BuildFiles>,
)
    requires
        are_performed(build, events, scan, sort, files),
    ensures
        are_steps(build, events, scan, sort, files),
{
    reveal(is_one_step);
    reveal(state_after);
}

/// The last step of a build, and what comes before it.
proof fn lemma_last_step(
    build: ColdBuild,
    events: Seq<ColdBuildEvent>,
    scan: ScanModel,
    sort: SortModel,
    files: Seq<BuildFiles>,
)
    requires
        are_steps(build, events, scan, sort, files),
        events.len() > 0,
    ensures
        are_steps(build, events.drop_last(), scan, sort, files.drop_last()),
        files.drop_last().last() == files[events.len() - 1],
        files.drop_last()[0] == files[0],
        is_one_step(
            state_after(build, events.drop_last()),
            events.last(),
            scan,
            sort,
            files[events.len() - 1],
            files.last(),
        ),
        state_after(build, events) == state_after(build, events.drop_last()).after(events.last()),
{
    let front = events.drop_last();
    let earlier = files.drop_last();
    assert forall|i: int| 0 <= i < front.len() implies is_one_step(
        state_after(build, front.take(i)),
        #[trigger] front[i],
        scan,
        sort,
        earlier[i],
        earlier[i + 1],
    ) by {
        assert(front[i] == events[i]);
        assert(front.take(i) =~= events.take(i));
    }
    let i = events.len() - 1;
    assert(is_one_step(
        state_after(build, events.take(i)),
        events[i],
        scan,
        sort,
        files[i],
        files[i + 1],
    ));
    assert(events.take(i) =~= front);
    reveal(state_after);
}

proof fn lemma_previous_is_kept(
    build: ColdBuild,
    events: Seq<ColdBuildEvent>,
    scan: ScanModel,
    sort: SortModel,
    files: Seq<BuildFiles>,
)
    requires
        build.step is EnsureIndexDirectory,
        are_steps(build, events, scan, sort, files),
    ensures
        still_keeps_previous(state_after(build, events), files.last(), files[0].index),
    decreases events.len(),
{
    if events.len() == 0 {
        reveal(state_after);
        reveal(still_keeps_previous);
    } else {
        let front = events.drop_last();
        lemma_last_step(build, events, scan, sort, files);
        lemma_previous_is_kept(build, front, scan, sort, files.drop_last());
        lemma_step_still_keeps_previous(
            state_after(build, front),
            events.last(),
            scan,
            sort,
            files[events.len() - 1],
            files.last(),
            files[0].index,
        );
    }
}

proof fn lemma_step_still_keeps_previous(
    build: ColdBuild,
    event: ColdBuildEvent,
    scan: ScanModel,
    sort: SortModel,
    before: BuildFiles,
    after: BuildFiles,
    previous: IndexContents,
)
    requires
        still_keeps_previous(build, before, previous),
        is_one_step(build, event, scan, sort, before, after),
    ensures
        still_keeps_previous(build.after(event), after, previous),
{
    reveal(still_keeps_previous);
    reveal(is_one_step);
    lemma_step_keeps_previous(build, event, scan, sort, before, after, previous);
}

/// A build that fails, at whatever step, leaves the index that was there before
/// it: `header.bin`, `names.bin` and `mtimes.bin` hold what they held, or are
/// absent as they were, unless a data file could not be kept or put back.
pub proof fn failed_build_leaves_previous_index(
    build: ColdBuild,
    events: Seq<ColdBuildEvent>,
    scan: ScanModel,
    sort: SortModel,
    files: Seq<BuildFiles>,
)
    requires
        build.step is EnsureIndexDirectory,
        are_performed(build, events, scan, sort, files),
    ensures
        ({
            let end = after_all(build, events);
            &&& keeps_previous(end, files.last(), files[0].index)
            &&& end.step is Failed && !end.restore_failed ==> files.last().index == files[0].index
        }),
{
    lemma_performed_in_steps(build, events, scan, sort, files);
    lemma_previous_is_kept(build, events, scan, sort, files);
    reveal(state_after);
    reveal(still_keeps_previous);
}

/// The files of an index are replaced atomically: no step of a build takes one
/// away, but for the step that puts back the state in which there was none.
pub proof fn build_takes_no_file_away(
    build: ColdBuild,
    event: ColdBuildEvent,
    scan: ScanModel,
    sort: SortModel,
    before: BuildFiles,
    after: BuildFiles,
)
    requires
        is_performed(build, event, scan, sort, before, after),
    ensures
        before.index.header is Some ==> after.index.header is Some,
        before.index.names is Some && !(build.step matches ColdBuildStep::RestoreNames {
            existed: false,
            ..
        }) ==> after.index.names is Some,
        before.index.mtimes is Some && !(build.step matches ColdBuildStep::RestoreMtimes {
            existed: false,
            ..
        }) ==> after.index.mtimes is Some,
{
}

/// A build says that a data file could not be put back only where that has
/// failed, or where the file could not be kept in the first place and a rename
/// or the writing of the header has failed since.
pub proof fn restore_fails_only_where_putting_back_fails(build: ColdBuild, event: ColdBuildEvent)
    requires
        !build.restore_failed,
        build.after(event).restore_failed,
    ensures
        ({
            ||| (build.step is RestoreMtimes || build.step is RestoreNames) && event is Failed
            ||| build.old_mtimes == OldFile::NotKept && build.step is WriteHeader
                && event is FailedWith
            ||| build.old_names == OldFile::NotKept && build.step is PromoteMtimes
                && event is Failed
            ||| build.old_names == OldFile::NotKept && build.step is WriteHeader
                && event is FailedWith
            ||| build.old_names == OldFile::NotKept && build.step is RestoreMtimes
        }),
{
}

/// A build that has lost nothing of the old data files.
pub open spec fn has_lost_nothing(build: ColdBuild) -> bool {
    &&& !build.restore_failed
    &&& build.old_names != OldFile::NotKept
    &&& build.old_mtimes != OldFile::NotKept
}

/// A build in which no data file fails to be set aside or put back loses nothing,
/// whatever else fails in it; so one that fails leaves the index that was there
/// before.
pub proof fn build_loses_nothing(build: ColdBuild, event: ColdBuildEvent)
    requires
        has_lost_nothing(build),
        build.step is SetAsideNames || build.step is SetAsideMtimes || build.step is RestoreMtimes
            || build.step is RestoreNames ==> !(event is Failed),
    ensures
        has_lost_nothing(build.after(event)),
{
}

/// A failure to keep an old data file does not stop a build.
pub proof fn build_goes_on_without_kept_file(build: ColdBuild)
    ensures
        build.step is SetAsideNames ==> build.after(ColdBuildEvent::Failed).step is SetAsideMtimes,
        build.step is SetAsideMtimes ==> build.after(ColdBuildEvent::Failed).step is PromoteNames,
{
}

/// What the files of an index hold once this header is written over these data
/// files.
pub open spec fn committed_contents(
    header: ChronoIndexHeader,
    names: Seq<u8>,
    mtimes: Seq<u8>,
) -> IndexContents {
    IndexContents { header: Some(header.bytes()), names: Some(names), mtimes: Some(mtimes) }
}

/// While a build puts its data files in place, they are staged or in place.
pub open spec fn carries_new(
    build: ColdBuild,
    files: BuildFiles,
    header: ChronoIndexHeader,
    names: Seq<u8>,
    mtimes: Seq<u8>,
) -> bool {
    &&& build.header == Ok::<ChronoIndexHeader, ChronoIndexError>(header)
    &&& match build.step {
        ColdBuildStep::SetAsideNames | ColdBuildStep::SetAsideMtimes
        | ColdBuildStep::PromoteNames => {
            &&& files.staged_names == Some(names)
            &&& files.staged_mtimes == Some(mtimes)
        },
        ColdBuildStep::PromoteMtimes => {
            &&& files.index.names == Some(names)
            &&& files.staged_mtimes == Some(mtimes)
        },
        ColdBuildStep::WriteHeader => {
            &&& files.index.names == Some(names)
            &&& files.index.mtimes == Some(mtimes)
        },
        ColdBuildStep::CleanUp { outcome: Ok(_), .. } | ColdBuildStep::Finished => {
            files.index == committed_contents(header, names, mtimes)
        },
        ColdBuildStep::RestoreMtimes { .. } | ColdBuildStep::RestoreNames { .. }
        | ColdBuildStep::CleanUp { outcome: Err(_), .. } | ColdBuildStep::Failed(_) => true,
        _ => false,
    }
}

proof fn lemma_step_carries_new(
    build: ColdBuild,
    event: ColdBuildEvent,
    scan: ScanModel,
    sort: SortModel,
    before: BuildFiles,
    after: BuildFiles,
    header: ChronoIndexHeader,
    names: Seq<u8>,
    mtimes: Seq<u8>,
)
    requires
        carries_new(build, before, header, names, mtimes),
        is_performed(build, event, scan, sort, before, after),
    ensures
        carries_new(build.after(event), after, header, names, mtimes),
{
}

/// The header that a build commits which comes to this scan and this sort.
pub open spec fn built_header(
    fresh: ChronoIndexHeader,
    scan: ScanModel,
    sort: SortModel,
) -> ChronoIndexHeader {
    let scanned = cold_build::scanned_header(
        fresh,
        scan.summary(),
        hash::signal_hash(entry::basenames(scan.files())),
    );
    if scan.summary().files_indexed > 0 {
        cold_build::with_newest(scanned, sort.output().last())
    } else {
        scanned
    }
}

/// What holds at every step of a build that began with the header `fresh`: its
/// header and its files are made of what the scan and the sort have come to.
pub open spec fn is_made_of(
    build: ColdBuild,
    files: BuildFiles,
    fresh: ChronoIndexHeader,
    scan: ScanModel,
    sort: SortModel,
) -> bool {
    let scanned = cold_build::scanned_header(
        fresh,
        scan.summary(),
        hash::signal_hash(entry::basenames(scan.files())),
    );
    let has_scanned = {
        &&& is_finished_scan(scan)
        &&& build.summary == scan.summary()
        &&& files.staged_names == Some(names::names_file(scan.names_written))
    };
    let has_sorted = {
        &&& is_finished_sort(sort)
        &&& sort.expected == scan.summary().files_indexed
        &&& sort.input.is_prefix_of(scan.records_written)
    };
    match build.step {
        ColdBuildStep::EnsureIndexDirectory | ColdBuildStep::EnsureScratchDirectory
        | ColdBuildStep::ScanDirectory => {
            build.header == Ok::<ChronoIndexHeader, ChronoIndexError>(fresh)
        },
        ColdBuildStep::SortMtimes => {
            &&& has_scanned
            &&& build.header == Ok::<ChronoIndexHeader, ChronoIndexError>(scanned)
            &&& files.scratch == Some(record::records_file(scan.records_written))
        },
        ColdBuildStep::ReadNewest(offset) => {
            &&& has_scanned && has_sorted
            &&& build.header == Ok::<ChronoIndexHeader, ChronoIndexError>(scanned)
            &&& files.staged_mtimes == Some(record::records_file(sort.output()))
            &&& scan.summary().files_indexed > 0
            &&& offset == cold_build::newest_offset(scan.summary().files_indexed)
        },
        ColdBuildStep::CleanUp { outcome: Err(_), .. } | ColdBuildStep::Failed(_) => true,
        _ => {
            &&& is_finished_scan(scan) && has_sorted
            &&& build.summary == scan.summary()
            &&& carries_new(
                build,
                files,
                built_header(fresh, scan, sort),
                names::names_file(scan.names_written),
                record::records_file(sort.output()),
            )
        },
    }
}

proof fn lemma_sort_reads_all(scan: ScanModel, sort: SortModel)
    requires
        is_finished_scan(scan),
        is_finished_sort(sort),
        scan.files().len() <= u64::MAX,
        sort.expected == scan.summary().files_indexed,
        sort.input.is_prefix_of(scan.records_written),
    ensures
        sort.input == scan.records_written,
        sort.output().len() == scan.files().len(),
{
    external_sort::finished_sort_has_expected_records(sort);
    assert(sort.input =~= scan.records_written);
}

proof fn lemma_step_is_made_of(
    build: ColdBuild,
    event: ColdBuildEvent,
    scan: ScanModel,
    sort: SortModel,
    before: BuildFiles,
    after: BuildFiles,
    fresh: ChronoIndexHeader,
)
    requires
        scan.files().len() * MTIME_RECORD_SIZE <= u64::MAX,
        is_made_of(build, before, fresh, scan, sort),
        is_performed(build, event, scan, sort, before, after),
    ensures
        is_made_of(build.after(event), after, fresh, scan, sort),
{
    match (build.step, event) {
        (ColdBuildStep::SortMtimes, ColdBuildEvent::Succeeded) => {
            record::records_file_round_trips(scan.records_written);
            lemma_sort_reads_all(scan, sort);
        },
        (ColdBuildStep::ReadNewest(_), ColdBuildEvent::Newest(_)) => {
            lemma_sort_reads_all(scan, sort);
            stored_index::newest_record_is_last(sort.output());
        },
        (
            ColdBuildStep::SetAsideNames | ColdBuildStep::SetAsideMtimes
            | ColdBuildStep::PromoteNames | ColdBuildStep::PromoteMtimes
            | ColdBuildStep::WriteHeader | ColdBuildStep::RestoreMtimes { .. }
            | ColdBuildStep::RestoreNames { .. } | ColdBuildStep::CleanUp { .. }
            | ColdBuildStep::Finished,
            _,
        ) => {
            if !(build.step matches ColdBuildStep::CleanUp { outcome: Err(_), .. }) {
                lemma_step_carries_new(
                    build,
                    event,
                    scan,
                    sort,
                    before,
                    after,
                    built_header(fresh, scan, sort),
                    names::names_file(scan.names_written),
                    record::records_file(sort.output()),
                );
            }
        },
        _ => {},
    }
}

/// [`is_made_of`], for proofs that only pass it on.
#[verifier::opaque]
spec fn is_still_made_of(
    build: ColdBuild,
    files: BuildFiles,
    fresh: ChronoIndexHeader,
    scan: ScanModel,
    sort: SortModel,
) -> bool {
    is_made_of(build, files, fresh, scan, sort)
}

proof fn lemma_step_is_still_made_of(
    build: ColdBuild,
    event: ColdBuildEvent,
    scan: ScanModel,
    sort: SortModel,
    before: BuildFiles,
    after: BuildFiles,
    fresh: ChronoIndexHeader,
)
    requires
        scan.files().len() * MTIME_RECORD_SIZE <= u64::MAX,
        is_still_made_of(build, before, fresh, scan, sort),
        is_one_step(build, event, scan, sort, before, after),
    ensures
        is_still_made_of(build.after(event), after, fresh, scan, sort),
{
    reveal(is_still_made_of);
    reveal(is_one_step);
    lemma_step_is_made_of(build, event, scan, sort, before, after, fresh);
}

proof fn lemma_build_is_made_of(
    build: ColdBuild,
    fresh: ChronoIndexHeader,
    events: Seq<ColdBuildEvent>,
    scan: ScanModel,
    sort: SortModel,
    files: Seq<BuildFiles>,
)
    requires
        build.step is EnsureIndexDirectory,
        build.header == Ok::<ChronoIndexHeader, ChronoIndexError>(fresh),
        scan.files().len() * MTIME_RECORD_SIZE <= u64::MAX,
        are_steps(build, events, scan, sort, files),
    ensures
        is_still_made_of(state_after(build, events), files.last(), fresh, scan, sort),
    decreases events.len(),
{
    if events.len() == 0 {
        reveal(state_after);
        reveal(is_still_made_of);
    } else {
        let front = events.drop_last();
        lemma_last_step(build, events, scan, sort, files);
        lemma_build_is_made_of(build, fresh, front, scan, sort, files.drop_last());
        lemma_step_is_still_made_of(
            state_after(build, front),
            events.last(),
            scan,
            sort,
            files[events.len() - 1],
            files.last(),
            fresh,
        );
    }
}

/// A build that finishes, whatever its course, ends with a header, the names and
/// the sorted records of exactly the files that its scan has taken in: what the
/// three files hold, byte for byte, is an index of those files.
pub proof fn finished_build_leaves_index_of_scan(
    build: ColdBuild,
    fresh: ChronoIndexHeader,
    events: Seq<ColdBuildEvent>,
    scan: ScanModel,
    sort: SortModel,
    files: Seq<BuildFiles>,
)
    requires
        build.step is EnsureIndexDirectory,
        build.header == Ok::<ChronoIndexHeader, ChronoIndexError>(fresh),
        scan.files().len() * MTIME_RECORD_SIZE <= u64::MAX,
        are_performed(build, events, scan, sort, files),
    ensures
        ({
            let end = after_all(build, events);
            let header = built_header(fresh, scan, sort);
            &&& is_made_of(end, files.last(), fresh, scan, sort)
            &&& end.step is Finished ==> {
                &&& files.last().index == committed_contents(
                    header,
                    names::names_file(scan.names_written),
                    record::records_file(sort.output()),
                )
                &&& stored_index::represents(
                    header,
                    sort.output(),
                    scan.names_written,
                    scan.files(),
                )
                &&& header.parent() == fresh.parent()
                &&& end.summary == scan.summary()
            }
        }),
{
    lemma_performed_in_steps(build, events, scan, sort, files);
    lemma_build_is_made_of(build, fresh, events, scan, sort, files);
    reveal(state_after);
    reveal(is_still_made_of);
    if after_all(build, events).step is Finished {
        lemma_sort_reads_all(scan, sort);
        stored_index::cold_build_represents_directory(scan, sort, fresh);
    }
}

/// A scan whose steps were performed, and which has finished, is a step of a
/// build.
pub proof fn performed_scan_is_step_of_build(
    build: ColdBuild,
    events: Seq<ScanEvent>,
    scan_files: Seq<ScanFiles>,
    sort: SortModel,
    before: BuildFiles,
    after: BuildFiles,
)
    requires
        build.step is ScanDirectory,
        scan_files::are_performed(events, scan_files),
        scan_files::after_all(events).step == ScanStep::Finished,
        after == (BuildFiles {
            scratch: scan_files.last().scratch,
            staged_names: scan_files.last().names,
            ..before
        }),
    ensures
        ({
            let scan = scan_files::after_all(events);
            is_performed(
                build,
                ColdBuildEvent::Scanned {
                    summary: scan.summary(),
                    signal_hash: hash::signal_hash(entry::basenames(scan.files())),
                },
                scan,
                sort,
                before,
                after,
            )
        }),
{
    scan_files::finished_scan_leaves_its_files(events, scan_files);
}

/// A sort of the scratch file whose steps were performed, and which has finished,
/// is a step of a build.
pub proof fn performed_sort_is_step_of_build(
    build: ColdBuild,
    events: Seq<SortEvent>,
    sort_files: Seq<SortFiles>,
    scan: ScanModel,
    before: BuildFiles,
    after: BuildFiles,
)
    requires
        build.step is SortMtimes,
        events.len() <= u64::MAX,
        sort_files::are_performed(build.summary.files_indexed, events, sort_files),
        sort_files::after_all(build.summary.files_indexed, events).step == SortStep::Finished,
        before.scratch == Some(sort_files[0].input),
        after == (BuildFiles { staged_mtimes: sort_files.last().output, ..before }),
    ensures
        is_performed(
            build,
            ColdBuildEvent::Succeeded,
            scan,
            sort_files::after_all(build.summary.files_indexed, events),
            before,
            after,
        ),
{
    sort_files::finished_sort_leaves_its_file(build.summary.files_indexed, events, sort_files);
}

} // verus!
