//! What an update leaves: an index of what the directory holds.
//!
//! The steps of an update are performed on an index on disk, whatever state that
//! is in, and on a directory that does not change meanwhile. What an append and
//! a build do to the index is what [`crate::append_files`] and
//! [`crate::build_files`] show of them.

use vstd::prelude::*;
use vstd::seq_lib;
use crate::append::{AppendEvent, AppendModel};
use crate::append_files;
use crate::build_files;
use crate::build_files::{BuildFiles, IndexContents};
use crate::cold_build::{ColdBuild, ColdBuildEvent};
use crate::counting;
use crate::entry;
use crate::entry::{EntryView, FileFact, Observed};
use crate::error::ChronoIndexError;
use crate::external_sort::SortModel;
use crate::hash;
use crate::header::ChronoIndexHeader;
use crate::header_file;
use crate::layout::{MAX_PARENT_PATH_LEN, MTIME_RECORD_SIZE, NAME_RECORD_SIZE};
use crate::lifecycle;
use crate::names;
use crate::record;
use crate::record::MtimeRecord;
use crate::scan::ScanModel;
use crate::stored_index;
use crate::update;
use crate::update::{UpdateEvent, UpdateRun, UpdateStep, UpdateSummary};

verus! {

/// What is on disk of an index.
pub struct OnDisk {
    /// What reading the header gives, where nothing fails.
    pub header: Result<Option<ChronoIndexHeader>, ChronoIndexError>,
    /// What the data files hold; none where there is no such file.
    pub names: Option<Seq<u8>>,
    pub mtimes: Option<Seq<u8>>,
    /// The files whose index it is, where it is one.
    pub files: Seq<FileFact>,
}

impl OnDisk {
    /// This is what is on disk where the files of the index hold `contents`.
    pub open spec fn holds(self, contents: IndexContents) -> bool {
        &&& header_file::is_read_of(contents.header, self.header)
        &&& self.names == contents.names
        &&& self.mtimes == contents.mtimes
    }

    /// The same, taken as an index of `files`.
    pub open spec fn with_files(self, files: Seq<FileFact>) -> OnDisk {
        OnDisk { files, ..self }
    }

    /// The records that the files have in chronological order.
    pub open spec fn records(self) -> Seq<MtimeRecord> {
        record::chronological(entry::file_records(self.files, 0))
    }

    /// There is an index of `files` here.
    pub open spec fn is_index(self) -> bool {
        let basenames = entry::basenames(self.files);
        &&& self.header matches Ok(Some(header))
        &&& stored_index::represents(header, self.records(), basenames, self.files)
        &&& self.names == Some(names::names_file(basenames))
        &&& self.mtimes == Some(record::records_file(self.records()))
    }

    /// There is an index of the files of the directory with this path here.
    pub open spec fn is_index_of(self, parent: Seq<u8>) -> bool {
        &&& self.is_index()
        &&& self.header matches Ok(Some(header))
        &&& header.parent() == parent
    }

    /// There is an index here, or it can be told from the header and the sizes
    /// of the data files that there is none.
    pub open spec fn can_be_told(self) -> bool {
        self.header matches Ok(Some(header)) ==> (update::sizes_match(
            build_files::measured_size(self.names),
            build_files::measured_size(self.mtimes),
            header,
        ) ==> self.is_index())
    }
}

/// `files` are those that a scan of a directory with these entries takes in,
/// where it could examine every file that could be listed.
pub open spec fn is_scan_of(files: Seq<FileFact>, entries: Seq<EntryView>) -> bool {
    exists|seen: Seq<Observed>|
        {
            &&& files == #[trigger] entry::indexed_files(seen)
            &&& entry::entries_of(seen).to_multiset() == entries.to_multiset()
            &&& forall|i: int|
                0 <= i < seen.len() && entry::is_listable((#[trigger] seen[i]).entry)
                    ==> seen[i].stat is Some
        }
}

/// Performing the step that `run` asks for, with `event` coming of it, over a
/// directory with these entries, turns `before` into `after`.
///
/// Reading the header and measuring a file can fail. An append that has finished
/// leaves an index that it has extended, and one that has failed leaves what can
/// be told from an index, or is one; a build that has finished leaves an index of
/// what its scan took in, and one that has failed, and could put back what it had
/// replaced, leaves what was there.
pub open spec fn is_performed(
    run: UpdateRun,
    event: UpdateEvent,
    entries: Seq<EntryView>,
    before: OnDisk,
    after: OnDisk,
) -> bool {
    let live = entry::live_files(entries);
    match (run.step, event) {
        (
            UpdateStep::ReadHeader | UpdateStep::ReadHeaderAfterAppend
            | UpdateStep::ReadHeaderAfterBuild(_),
            UpdateEvent::Header(read),
        ) => {
            &&& read == before.header || read == Err::<
                Option<ChronoIndexHeader>,
                ChronoIndexError,
            >(ChronoIndexError::HeaderReadIo)
            &&& after == before
        },
        (UpdateStep::MeasureDataFiles, UpdateEvent::Sizes { names, mtimes }) => {
            &&& names == build_files::measured_size(before.names) || names is None
            &&& mtimes == build_files::measured_size(before.mtimes) || mtimes is None
            &&& after == before
        },
        (
            UpdateStep::ProbeDirectory,
            UpdateEvent::Probed { live_file_count, live_signal_hash },
        ) => {
            &&& live_file_count == counting::saturated(live.len())
            &&& live_signal_hash == hash::signal_hash(entry::basenames(live))
            &&& after == before
        },
        (UpdateStep::Append, UpdateEvent::Appended(_)) => {
            before.is_index_of(run.parent_directory@) ==> {
                &&& after.is_index_of(run.parent_directory@)
                &&& before.files.is_prefix_of(after.files)
            }
        },
        (UpdateStep::ColdBuild(_), UpdateEvent::Built(_)) => {
            &&& after.is_index_of(run.parent_directory@)
            &&& is_scan_of(after.files, entries)
        },
        (UpdateStep::Append, UpdateEvent::FailedWith(_)) => {
            before.is_index_of(run.parent_directory@) ==> after.can_be_told()
        },
        (UpdateStep::ColdBuild(_), UpdateEvent::FailedWith(_)) => after == before,
        _ => after == before,
    }
}

/// An append whose steps were performed on an index on disk, whatever came of
/// them, leaves what an update relies on: where it has finished, an index that it
/// has extended; where it has failed or was broken off, that too, or what was
/// there, or something that can be told from an index.
#[verifier::rlimit(40)]
pub proof fn performed_append_extends_index_or_is_noticed(
    parent: Seq<u8>,
    header: ChronoIndexHeader,
    before: OnDisk,
    events: Seq<AppendEvent>,
    contents: Seq<IndexContents>,
    after: OnDisk,
)
    requires
        before.is_index_of(parent),
        before.header == Ok::<Option<ChronoIndexHeader>, ChronoIndexError>(Some(header)),
        before.files.len() * NAME_RECORD_SIZE <= u64::MAX,
        before.files.len() + events.len() < u64::MAX,
        contents.len() > 0,
        before.holds(contents[0]),
        append_files::are_performed(header, events, contents),
        after.holds(contents.last()),
    ensures
        ({
            let end = lifecycle::after_all(AppendModel::start(header), events);
            let extended = before.files + end.files_taken;
            &&& before.files.is_prefix_of(extended)
            &&& end.step is Finished ==> after.with_files(extended).is_index_of(parent)
            &&& after.with_files(extended).is_index_of(parent) || after.with_files(
                before.files,
            ).can_be_told()
        }),
{
    let start = AppendModel::start(header);
    let end = lifecycle::after_all(start, events);
    let extended = before.files + end.files_taken;
    append_files::append_is_committed_or_noticed(
        header,
        before.records(),
        before.files,
        events,
        contents,
    );
    if append_files::is_noticed(contents.last(), contents[0], header) {
        header_file::header_file_reads_as_one_header(
            contents[0].header,
            before.header,
            after.header,
        );
    }
    if append_files::is_committed(
        end,
        contents.last(),
        entry::basenames(before.files),
        before.records(),
    ) {
        header_file::written_header_file_is_read_back(end.header, after.header);
    }
}

/// A build whose steps were performed, and which has finished, leaves an index of
/// what its scan took in, as an update relies on; where the scan listed these
/// entries and could examine every one of the files, those are the files of the
/// directory.
pub proof fn finished_build_leaves_index_on_disk(
    build: ColdBuild,
    fresh: ChronoIndexHeader,
    events: Seq<ColdBuildEvent>,
    scan: ScanModel,
    sort: SortModel,
    files: Seq<BuildFiles>,
    entries: Seq<EntryView>,
    after: OnDisk,
)
    requires
        build.step is EnsureIndexDirectory,
        build.header == Ok::<ChronoIndexHeader, ChronoIndexError>(fresh),
        fresh.parent_path_len <= MAX_PARENT_PATH_LEN,
        scan.files().len() * MTIME_RECORD_SIZE <= u64::MAX,
        build_files::are_performed(build, events, scan, sort, files),
        build_files::after_all(build, events).step is Finished,
        after.holds(files.last().index),
    ensures
        after.with_files(scan.files()).is_index_of(fresh.parent()),
        entry::entries_of(scan.seen).to_multiset() == entries.to_multiset() && (forall|i: int|
            0 <= i < scan.seen.len() && entry::is_listable((#[trigger] scan.seen[i]).entry)
                ==> scan.seen[i].stat is Some) ==> is_scan_of(scan.files(), entries),
{
    build_files::finished_build_leaves_index_of_scan(build, fresh, events, scan, sort, files);
    header_file::written_header_file_is_read_back(
        build_files::built_header(fresh, scan, sort),
        after.header,
    );
    assert(scan.files() == entry::indexed_files(scan.seen));
}

/// A build whose steps were performed, and which has failed, leaves what was on
/// disk before it, as an update relies on, unless an old data file could not be
/// kept or put back.
pub proof fn failed_build_leaves_disk_as_it_was(
    build: ColdBuild,
    events: Seq<ColdBuildEvent>,
    scan: ScanModel,
    sort: SortModel,
    files: Seq<BuildFiles>,
    before: OnDisk,
    after: OnDisk,
)
    requires
        build.step is EnsureIndexDirectory,
        build_files::are_performed(build, events, scan, sort, files),
        build_files::after_all(build, events).step is Failed,
        !build_files::after_all(build, events).restore_failed,
        before.holds(files[0].index),
        after.holds(files.last().index),
    ensures
        after.with_files(before.files) == before,
{
    build_files::failed_build_leaves_previous_index(build, events, scan, sort, files);
    header_file::header_file_reads_as_one_header(
        files[0].index.header,
        before.header,
        after.header,
    );
}

/// The state of an update after all of `events`.
pub open spec fn after_all(run: UpdateRun, events: Seq<UpdateEvent>) -> UpdateRun
    decreases events.len(),
{
    if events.len() == 0 {
        run
    } else {
        after_all(run, events.drop_last()).after(events.last())
    }
}

/// `disk` is what is on disk at the start of an update and after each of
/// `events`.
pub open spec fn are_performed(
    run: UpdateRun,
    events: Seq<UpdateEvent>,
    entries: Seq<EntryView>,
    disk: Seq<OnDisk>,
) -> bool {
    &&& disk.len() == events.len() + 1
    &&& forall|i: int|
        0 <= i < events.len() ==> is_performed(
            after_all(run, events.take(i)),
            #[trigger] events[i],
            entries,
            disk[i],
            disk[i + 1],
        )
}

/// The index on disk counts as many files as the directory holds, and has its
/// signal hash.
pub open spec fn agrees_with_directory(disk: OnDisk, entries: Seq<EntryView>) -> bool {
    let live = entry::live_files(entries);
    &&& disk.header matches Ok(Some(header))
    &&& header.file_count == counting::saturated(live.len())
    &&& header.signal_hash == hash::signal_hash(entry::basenames(live))
}

/// The index on disk is one of exactly the files that the directory holds.
pub open spec fn has_live_names(disk: OnDisk, entries: Seq<EntryView>) -> bool {
    entry::basenames(disk.files).to_multiset() == entry::basenames(
        entry::live_files(entries),
    ).to_multiset()
}

/// What an update that is finished leaves.
pub open spec fn is_left_by(
    disk: OnDisk,
    parent: Seq<u8>,
    entries: Seq<EntryView>,
    summary: UpdateSummary,
) -> bool {
    &&& disk.is_index_of(parent)
    &&& agrees_with_directory(disk, entries)
    &&& summary.final_file_count == disk.files.len()
    &&& summary.outcome is ColdBuildCompleted || summary.outcome is RebuiltDueToInconsistency
        ==> has_live_names(disk, entries)
}

/// What holds at every step of an update.
pub open spec fn is_in_agreement(run: UpdateRun, disk: OnDisk, entries: Seq<EntryView>) -> bool {
    let live = entry::live_files(entries);
    let parent = run.parent_directory@;
    let knows_live = {
        &&& run.live_file_count == counting::saturated(live.len())
        &&& run.live_signal_hash == hash::signal_hash(entry::basenames(live))
    };
    let knows_header = {
        &&& run.committed is Some
        &&& disk.header == Ok::<Option<ChronoIndexHeader>, ChronoIndexError>(run.committed)
    };
    &&& run.is_sound()
    &&& match run.step {
        UpdateStep::EnsureIndexDirectory | UpdateStep::ReadHeader => disk.can_be_told(),
        UpdateStep::MeasureDataFiles => disk.can_be_told() && knows_header,
        UpdateStep::ProbeDirectory => disk.is_index_of(parent) && knows_header,
        UpdateStep::Append => disk.is_index_of(parent) && knows_header && knows_live,
        UpdateStep::ReadHeaderAfterAppend => disk.is_index_of(parent) && knows_live,
        UpdateStep::ColdBuild(_) | UpdateStep::Failed(_) => disk.can_be_told(),
        UpdateStep::ReadHeaderAfterBuild(_) => {
            &&& disk.is_index_of(parent)
            &&& agrees_with_directory(disk, entries)
            &&& has_live_names(disk, entries)
        },
        UpdateStep::Finished(summary) => is_left_by(disk, parent, entries, summary),
    }
}

/// A scan of a directory takes in exactly its live files.
proof fn lemma_scan_takes_in_live_files(disk: OnDisk, entries: Seq<EntryView>)
    requires
        disk.is_index(),
        is_scan_of(disk.files, entries),
    ensures
        agrees_with_directory(disk, entries),
        has_live_names(disk, entries),
{
    let seen = choose|seen: Seq<Observed>|
        {
            &&& disk.files == #[trigger] entry::indexed_files(seen)
            &&& entry::entries_of(seen).to_multiset() == entries.to_multiset()
            &&& forall|i: int|
                0 <= i < seen.len() && entry::is_listable((#[trigger] seen[i]).entry)
                    ==> seen[i].stat is Some
        };
    entry::probe_agrees_with_scan(seen);
    entry::live_files_ignore_order(entry::entries_of(seen), entries);
    let names = entry::basenames(disk.files);
    let live = entry::basenames(entry::live_files(entries));
    assert(names.to_multiset() == live.to_multiset());
    seq_lib::to_multiset_len(names);
    seq_lib::to_multiset_len(live);
    hash::signal_hash_ignores_order(names, live);
}

proof fn lemma_step_stays_in_agreement(
    run: UpdateRun,
    event: UpdateEvent,
    entries: Seq<EntryView>,
    before: OnDisk,
    after: OnDisk,
)
    requires
        is_in_agreement(run, before, entries),
        is_performed(run, event, entries, before, after),
    ensures
        is_in_agreement(run.after(event), after, entries),
        run.after(event).parent_directory == run.parent_directory,
{
    if run.step is ColdBuild && event is Built {
        lemma_scan_takes_in_live_files(after, entries);
    }
}

/// An update that finishes, whatever its course, leaves an index of files of the
/// directory: its data files and its header belong together, it counts as many
/// files as the directory holds and has the signal hash of their basenames, and
/// the summary gives that count. After a build the basenames are exactly those
/// of the directory; otherwise they are as far as the signal hash can tell.
///
/// At the start there may be an index, nothing, or anything else that can be told
/// from an index by the header and the sizes of the data files. At every step,
/// and after a failure, that is so again: the next update can start from there.
pub proof fn finished_update_leaves_index_of_directory(
    run: UpdateRun,
    events: Seq<UpdateEvent>,
    entries: Seq<EntryView>,
    disk: Seq<OnDisk>,
)
    requires
        run.step is EnsureIndexDirectory,
        disk.len() > 0,
        disk[0].can_be_told(),
        are_performed(run, events, entries, disk),
    ensures
        ({
            let end = after_all(run, events);
            &&& is_in_agreement(end, disk.last(), entries)
            &&& disk.last().can_be_told()
            &&& end.parent_directory == run.parent_directory
            &&& end.step matches UpdateStep::Finished(summary) ==> is_left_by(
                disk.last(),
                run.parent_directory@,
                entries,
                summary,
            )
        }),
    decreases events.len(),
{
    if events.len() > 0 {
        let front = events.drop_last();
        let earlier = disk.drop_last();
        assert(are_performed(run, front, entries, earlier)) by {
            assert forall|i: int| 0 <= i < front.len() implies is_performed(
                after_all(run, front.take(i)),
                #[trigger] front[i],
                entries,
                earlier[i],
                earlier[i + 1],
            ) by {
                assert(front[i] == events[i]);
                assert(front.take(i) =~= events.take(i));
            }
        }
        finished_update_leaves_index_of_directory(run, front, entries, earlier);
        let i = events.len() - 1;
        assert(is_performed(
            after_all(run, events.take(i)),
            events[i],
            entries,
            disk[i],
            disk[i + 1],
        ));
        assert(events.take(i) =~= front);
        lemma_step_stays_in_agreement(
            after_all(run, front),
            events.last(),
            entries,
            disk[i],
            disk[i + 1],
        );
    }
}

/// A failed update is made good by a later one. However an update ended, whether
/// in its append or in its build, the next one that finishes leaves an index of
/// what the directory holds then.
pub proof fn failed_update_is_made_good(
    failed: UpdateRun,
    failed_events: Seq<UpdateEvent>,
    failed_entries: Seq<EntryView>,
    failed_disk: Seq<OnDisk>,
    run: UpdateRun,
    events: Seq<UpdateEvent>,
    entries: Seq<EntryView>,
    disk: Seq<OnDisk>,
    summary: UpdateSummary,
)
    requires
        failed.step is EnsureIndexDirectory,
        failed_disk.len() > 0,
        failed_disk[0].can_be_told(),
        are_performed(failed, failed_events, failed_entries, failed_disk),
        run.step is EnsureIndexDirectory,
        disk.len() > 0,
        disk[0] == failed_disk.last(),
        are_performed(run, events, entries, disk),
        after_all(run, events).step == UpdateStep::Finished(summary),
    ensures
        is_left_by(disk.last(), run.parent_directory@, entries, summary),
{
    finished_update_leaves_index_of_directory(
        failed,
        failed_events,
        failed_entries,
        failed_disk,
    );
    finished_update_leaves_index_of_directory(run, events, entries, disk);
}

} // verus!
