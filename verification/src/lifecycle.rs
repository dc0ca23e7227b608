//! The life of an index: what a build, an append and an update come to as a
//! whole, from their first step to their last.

use vstd::prelude::*;
use vstd::seq_lib;
use crate::append;
use crate::append::{AppendEvent, AppendModel, AppendStep};
use crate::cold_build;
use crate::cold_build::{ColdBuild, ColdBuildEvent};
use crate::counting;
use crate::entry;
use crate::entry::{DirectoryEntry, EntryView, FileFact, Observed};
use crate::error::ChronoIndexError;
use crate::external_sort;
use crate::external_sort::{SortModel, SortStep};
use crate::hash;
use crate::header::ChronoIndexHeader;
use crate::layout::{
    MAX_BASENAME_LEN, MTIME_RECORD_SIZE, NAME_HASH_RECORD_SIZE, NAME_RECORD_SIZE,
};
use crate::lookup;
use crate::names;
use crate::record;
use crate::record::MtimeRecord;
use crate::scan::{ScanModel, ScanStep};
use crate::sidecar;
use crate::stored_index;
use crate::update;
use crate::update::{UpdateEvent, UpdateOutcome, UpdateRun, UpdateStep, UpdateSummary};

verus! {

/// A build that goes through leaves an index of exactly the files that its scan
/// has taken in, where the sort has read what the scan has written, cut short or
/// not: the header that it writes is true of the sorted records and of
/// the names that it puts in place, and holds the path that it began with.
pub proof fn cold_build_leaves_index_of_directory(
    build: ColdBuild,
    fresh: ChronoIndexHeader,
    scan: ScanModel,
    sort: SortModel,
    newest: [u8; MTIME_RECORD_SIZE],
    names_aside: ColdBuildEvent,
    mtimes_aside: ColdBuildEvent,
)
    requires
        names_aside is Succeeded || names_aside is Absent || names_aside is Failed,
        mtimes_aside is Succeeded || mtimes_aside is Absent || mtimes_aside is Failed,
        build.step is EnsureIndexDirectory,
        build.header == Ok::<ChronoIndexHeader, ChronoIndexError>(fresh),
        scan.is_sound(),
        scan.step == ScanStep::Finished,
        scan.files().len() * MTIME_RECORD_SIZE <= u64::MAX,
        sort.is_sound(),
        sort.step == SortStep::Finished,
        sort.expected == scan.summary().files_indexed,
        sort.input.is_prefix_of(scan.records_written),
        scan.files().len() > 0 ==> ({
            let offset = cold_build::newest_offset(scan.summary().files_indexed) as int;
            newest@ == record::records_file(sort.output()).subrange(
                offset,
                offset + MTIME_RECORD_SIZE,
            )
        }),
    ensures
        ({
            let succeeded = ColdBuildEvent::Succeeded;
            let signal_hash = hash::signal_hash(entry::basenames(scan.files()));
            let sorted = build.after(succeeded).after(succeeded).after(
                ColdBuildEvent::Scanned { summary: scan.summary(), signal_hash },
            ).after(succeeded);
            let ready = if scan.summary().files_indexed > 0 {
                sorted.after(ColdBuildEvent::Newest(newest))
            } else {
                sorted
            };
            let committing = ready.after(names_aside).after(mtimes_aside).after(succeeded).after(
                succeeded,
            );
            let committed = committing.after(succeeded).after(succeeded);
            &&& committing.step is WriteHeader
            &&& committing.header matches Ok(header)
            &&& stored_index::represents(header, sort.output(), scan.names_written, scan.files())
            &&& header.parent() == fresh.parent()
            &&& header.invariant_breach_count == fresh.invariant_breach_count
            &&& committed.step is Finished
            &&& committed.summary == scan.summary()
        }),
{
    let signal_hash = hash::signal_hash(entry::basenames(scan.files()));
    assert(sort.input =~= scan.records_written);
    cold_build::successful_build_commits_scanned_header(
        build,
        fresh,
        scan.summary(),
        signal_hash,
        newest,
        names_aside,
        mtimes_aside,
    );
    stored_index::cold_build_represents_directory(scan, sort, fresh);
    external_sort::finished_sort_is_chronological(sort);
    record::lemma_chronological_sorts(sort.input);
    if scan.files().len() > 0 {
        stored_index::newest_record_is_last(sort.output());
    }
}

/// The state of an append after all of `events`.
pub open spec fn after_all(m: AppendModel, events: Seq<AppendEvent>) -> AppendModel
    decreases events.len(),
{
    if events.len() == 0 {
        m
    } else {
        after_all(m, events.drop_last()).after(events.last())
    }
}

/// Every rewrite among `events` has reported the newest modification time that
/// `mtimes.bin` held then.
pub open spec fn rewrites_are_truthful(
    m: AppendModel,
    events: Seq<AppendEvent>,
    mtimes: Seq<MtimeRecord>,
) -> bool {
    forall|i: int|
        0 <= i < events.len() ==> stored_index::rewrite_is_truthful(
            after_all(m, events.take(i)),
            #[trigger] events[i],
            mtimes,
        )
}

/// Whatever comes of the steps of an append, the index loses no file, and
/// whenever the header is written, the files are an index of those that were
/// there before and of those that were taken in. Where the append has finished,
/// the latter are all that the directory listed, the sidecar did not know and
/// could be examined.
pub proof fn append_extends_index(
    header: ChronoIndexHeader,
    mtimes: Seq<MtimeRecord>,
    names: Seq<Seq<u8>>,
    base: Seq<FileFact>,
    events: Seq<AppendEvent>,
)
    requires
        stored_index::represents(header, mtimes, names, base),
        rewrites_are_truthful(AppendModel::start(header), events, mtimes),
        base.len() + events.len() < u64::MAX,
    ensures
        ({
            let end = after_all(AppendModel::start(header), events);
            &&& end.is_sound()
            &&& stored_index::append_agrees(end, base, mtimes)
            &&& base.len() <= end.header.file_count <= base.len() + events.len()
            &&& end.header.parent() == header.parent()
            &&& end.step is WriteHeader || end.step is Finished ==> stored_index::represents(
                end.header,
                stored_index::mtimes_after(mtimes, end.flushes),
                names + end.names_written,
                base + end.files_taken,
            )
            &&& end.step is Finished ==> end.files_taken == entry::indexed_files(end.seen)
        }),
    decreases events.len(),
{
    let start = AppendModel::start(header);
    let end = after_all(start, events);
    if events.len() == 0 {
        append::append_starts_sound(header);
        stored_index::append_starts_in_agreement(header, mtimes, names, base);
    } else {
        let front = events.drop_last();
        let event = events.last();
        let m = after_all(start, front);
        assert(rewrites_are_truthful(start, front, mtimes)) by {
            assert forall|i: int| 0 <= i < front.len() implies stored_index::rewrite_is_truthful(
                after_all(start, front.take(i)),
                #[trigger] front[i],
                mtimes,
            ) by {
                assert(front.take(i) =~= events.take(i));
                assert(front[i] == events[i]);
            }
        }
        append_extends_index(header, mtimes, names, base, front);
        assert(stored_index::rewrite_is_truthful(m, event, mtimes)) by {
            assert(events[events.len() - 1] == event);
            assert(events.take(events.len() - 1) =~= front);
        }
        append::append_stays_sound(m, event);
        stored_index::append_stays_in_agreement(m, event, base, mtimes);
        lemma_step_takes_one_file(m, event);
    }
    if end.step is WriteHeader || end.step is Finished {
        stored_index::written_header_represents_files(end, base, mtimes);
    }
}

proof fn lemma_step_takes_one_file(m: AppendModel, event: AppendEvent)
    requires
        m.is_sound(),
    ensures
        m.after(event).files_taken.len() <= m.files_taken.len() + 1,
        m.after(event).header.parent() == m.header.parent(),
{
}

/// Names are written first: as long as `names.bin` has gained none, the sidecar
/// has gained no hash and nothing was flushed.
pub open spec fn names_come_first(m: AppendModel) -> bool {
    &&& m.hashes_written.len() <= m.names_written.len()
    &&& m.flushes.len() > 0 ==> stored_index::flushed_count(m) > 0
}

proof fn lemma_names_come_first(m: AppendModel, event: AppendEvent)
    requires
        m.is_sound(),
        names_come_first(m),
        m.step is AppendHash ==> m.hashes_written.len() < m.names_written.len(),
    ensures
        names_come_first(m.after(event)),
        m.after(event).step is AppendHash ==> m.after(event).hashes_written.len() < m.after(
            event,
        ).names_written.len(),
        m.after(event).names_written.len() <= m.names_written.len() + 1,
{
    stored_index::lemma_flush_takes_in_files(m, event);
}

proof fn lemma_append_writes_names_first(header: ChronoIndexHeader, events: Seq<AppendEvent>)
    ensures
        ({
            let end = after_all(AppendModel::start(header), events);
            &&& end.is_sound()
            &&& names_come_first(end)
            &&& end.step is AppendHash ==> end.hashes_written.len() < end.names_written.len()
            &&& end.names_written.len() <= events.len()
        }),
    decreases events.len(),
{
    if events.len() == 0 {
        append::append_starts_sound(header);
    } else {
        let m = after_all(AppendModel::start(header), events.drop_last());
        lemma_append_writes_names_first(header, events.drop_last());
        append::append_stays_sound(m, events.last());
        lemma_names_come_first(m, events.last());
    }
}

/// What an append adds is noticed as long as the old header is in place. Whatever
/// comes of its steps, where `names.bin` has gained no name, the sidecar has
/// gained no hash and nothing was flushed; and where it has gained one, its size
/// is not the one that the old header asks for, whatever the size of
/// `mtimes.bin`, so that the next update builds the index anew.
pub proof fn unfinished_append_is_noticed(
    header: ChronoIndexHeader,
    mtimes: Seq<MtimeRecord>,
    names: Seq<Seq<u8>>,
    base: Seq<FileFact>,
    events: Seq<AppendEvent>,
    mtimes_size: Option<u64>,
)
    requires
        stored_index::represents(header, mtimes, names, base),
        (base.len() + events.len()) * NAME_RECORD_SIZE <= u64::MAX,
    ensures
        ({
            let end = after_all(AppendModel::start(header), events);
            &&& end.names_written.len() == 0 ==> {
                &&& end.hashes_written.len() == 0
                &&& end.flushes.len() == 0
                &&& end.files_taken.len() == 0
            }
            &&& end.names_written.len() > 0 ==> !update::sizes_match(
                Some(names::names_file(names + end.names_written).len() as u64),
                mtimes_size,
                header,
            )
        }),
{
    lemma_append_writes_names_first(header, events);
}

/// Data files and a sidecar that are cut to a number of records hold the first
/// so many names, name hashes and modification times.
pub proof fn cut_files_hold_first_records(
    names: Seq<Seq<u8>>,
    hashes: Seq<u64>,
    mtimes: Seq<MtimeRecord>,
    count: int,
)
    requires
        0 <= count <= names.len(),
        count <= hashes.len(),
        count <= mtimes.len(),
    ensures
        names::names_file(names).take(count * NAME_RECORD_SIZE) == names::names_file(
            names.take(count),
        ),
        sidecar::hashes_file(hashes).take(count * NAME_HASH_RECORD_SIZE) == sidecar::hashes_file(
            hashes.take(count),
        ),
        record::records_file(mtimes).take(count * MTIME_RECORD_SIZE) == record::records_file(
            mtimes.take(count),
        ),
{
    let names_cut = names::names_file(names).take(count * NAME_RECORD_SIZE);
    let names_first = names::names_file(names.take(count));
    assert forall|k: int| 0 <= k < names_first.len() implies names_cut[k] == names_first[k] by {
        assert(k / (NAME_RECORD_SIZE as int) < count);
    }
    assert(names_cut =~= names_first);
    let hashes_cut = sidecar::hashes_file(hashes).take(count * NAME_HASH_RECORD_SIZE);
    let hashes_first = sidecar::hashes_file(hashes.take(count));
    assert forall|k: int| 0 <= k < hashes_first.len() implies hashes_cut[k] == hashes_first[k] by {
        assert(k / (NAME_HASH_RECORD_SIZE as int) < count);
    }
    assert(hashes_cut =~= hashes_first);
    let mtimes_cut = record::records_file(mtimes).take(count * MTIME_RECORD_SIZE);
    let mtimes_first = record::records_file(mtimes.take(count));
    assert forall|k: int| 0 <= k < mtimes_first.len() implies mtimes_cut[k] == mtimes_first[k] by {
        assert(k / (MTIME_RECORD_SIZE as int) < count);
    }
    assert(mtimes_cut =~= mtimes_first);
}

/// What `event` says of the sidecar is true, where the append began with a
/// sidecar that agrees with `names`.
pub open spec fn search_is_truthful(
    m: AppendModel,
    event: AppendEvent,
    names: Seq<Seq<u8>>,
) -> bool {
    m.step matches AppendStep::SearchSidecar(name_hash) ==> (
    event matches AppendEvent::Known(known) ==> known == sidecar::holds_name_hash(
        sidecar::hashes_file(sidecar::name_hashes(names) + m.hashes_written),
        name_hash,
    ))
}

/// No name hash is in the sidecar twice, and that of a file that is being taken
/// in is not there yet.
pub open spec fn hashes_are_distinct(m: AppendModel, names: Seq<Seq<u8>>) -> bool {
    let hashes = sidecar::name_hashes(names) + m.hashes_written;
    &&& hashes.no_duplicates()
    &&& m.step is StatEntry || m.step is AppendName || m.step is AppendHash ==> !hashes.contains(
        hash::fnv1a(m.pending.basename),
    )
}

/// Where the searches through the sidecar are truthful, an append never takes in
/// a file whose name hash is there: no name hash, and so no name, comes to be in
/// the index twice.
pub proof fn append_keeps_hashes_distinct(
    m: AppendModel,
    event: AppendEvent,
    names: Seq<Seq<u8>>,
)
    requires
        m.is_sound(),
        hashes_are_distinct(m, names),
        search_is_truthful(m, event, names),
    ensures
        hashes_are_distinct(m.after(event), names),
{
    let hashes = sidecar::name_hashes(names) + m.hashes_written;
    let n = m.after(event);
    let later = sidecar::name_hashes(names) + n.hashes_written;
    match (m.step, event) {
        (AppendStep::SearchSidecar(name_hash), AppendEvent::Known(_)) => {
            sidecar::search_finds_what_sidecar_holds(hashes, name_hash);
        },
        (AppendStep::AppendHash, AppendEvent::Succeeded) => {
            let added = hash::fnv1a(m.pending.basename);
            assert(later =~= hashes.push(added));
            assert forall|i: int, j: int|
                0 <= i < later.len() && 0 <= j < later.len() && i != j implies later[i]
                != later[j] by {
                if i == hashes.len() {
                    assert(hashes[j] == later[j]);
                } else if j == hashes.len() {
                    assert(hashes[i] == later[i]);
                }
            }
        },
        (AppendStep::TrimFiles, AppendEvent::Succeeded) => {
            assert forall|i: int, j: int|
                0 <= i < later.len() && 0 <= j < later.len() && i != j implies later[i]
                != later[j] by {
                assert(hashes[i] == later[i] && hashes[j] == later[j]);
            }
        },
        _ => {},
    }
}

/// Names whose hashes differ are different.
pub proof fn distinct_hashes_mean_distinct_names(names: Seq<Seq<u8>>)
    requires
        sidecar::name_hashes(names).no_duplicates(),
    ensures
        names.no_duplicates(),
{
    assert forall|i: int, j: int|
        0 <= i < names.len() && 0 <= j < names.len() && i != j implies names[i] != names[j] by {
        assert(sidecar::name_hashes(names)[i] != sidecar::name_hashes(names)[j]);
    }
}

/// What an update does that finds this header and data files of these sizes,
/// and whose probe lists `entries`.
pub open spec fn after_probe(
    run: UpdateRun,
    header: ChronoIndexHeader,
    names_size: u64,
    mtimes_size: u64,
    entries: Seq<EntryView>,
) -> UpdateRun {
    let live = entry::live_files(entries);
    run.after(UpdateEvent::Header(Ok(Some(header)))).after(
        UpdateEvent::Sizes { names: Some(names_size), mtimes: Some(mtimes_size) },
    ).after(
        UpdateEvent::Probed {
            live_file_count: counting::saturated(live.len()),
            live_signal_hash: hash::signal_hash(entry::basenames(live)),
        },
    )
}

/// An update of an index whose directory holds the same files as when it was
/// built does nothing, in whatever order the directory is listed. The files
/// that could be listed must have been examined for the build.
pub proof fn update_after_build_does_nothing(
    run: UpdateRun,
    header: ChronoIndexHeader,
    mtimes: Seq<MtimeRecord>,
    names: Seq<Seq<u8>>,
    seen: Seq<Observed>,
    entries: Seq<EntryView>,
)
    requires
        run.step == UpdateStep::ReadHeader,
        ChronoIndexHeader::parent_error(run.parent_directory@) is None,
        header.parent() == run.parent_directory@,
        stored_index::represents(header, mtimes, names, entry::indexed_files(seen)),
        entry::indexed_files(seen).len() * NAME_RECORD_SIZE <= u64::MAX,
        forall|i: int|
            0 <= i < seen.len() && entry::is_listable((#[trigger] seen[i]).entry)
                ==> seen[i].stat is Some,
        entries.to_multiset() == entry::entries_of(seen).to_multiset(),
    ensures
        after_probe(
            run,
            header,
            names::names_file(names).len() as u64,
            record::records_file(mtimes).len() as u64,
            entries,
        ).step == UpdateStep::Finished(
            UpdateSummary {
                outcome: UpdateOutcome::NoChangesDetected,
                final_file_count: header.file_count,
                cold_build_summary: run.cold_build_summary,
                append_summary: run.append_summary,
            },
        ),
{
    let files = entry::indexed_files(seen);
    stored_index::index_has_expected_sizes(header, mtimes, names, files);
    stored_index::probe_after_build_agrees_with_header(header, mtimes, names, seen);
    entry::live_files_ignore_order(entries, entry::entries_of(seen));
    update::update_of_unchanged_directory_does_nothing(
        run,
        header,
        Some(names::names_file(names).len() as u64),
        Some(record::records_file(mtimes).len() as u64),
    );
}

/// Entries of regular files with these basenames.
pub open spec fn regular_entries(basenames: Seq<Seq<u8>>) -> Seq<EntryView> {
    Seq::new(basenames.len(), |i: int| EntryView::Regular(basenames[i]))
}

proof fn lemma_live_names_of_regular_entries(basenames: Seq<Seq<u8>>)
    requires
        forall|i: int| 0 <= i < basenames.len() ==> (#[trigger] basenames[i]).len()
            <= MAX_BASENAME_LEN,
    ensures
        entry::basenames(entry::live_files(regular_entries(basenames))) == basenames,
    decreases basenames.len(),
{
    let entries = regular_entries(basenames);
    if basenames.len() == 0 {
        assert(entry::basenames(entry::live_files(entries)) =~= basenames);
    } else {
        let front = basenames.drop_last();
        assert forall|i: int| 0 <= i < front.len() implies (#[trigger] front[i]).len()
            <= MAX_BASENAME_LEN by {
            assert(front[i] == basenames[i]);
        }
        lemma_live_names_of_regular_entries(front);
        let last = EntryView::Regular(basenames.last());
        assert(basenames.last() == basenames[basenames.len() - 1]);
        assert(entries =~= regular_entries(front).push(last));
        entry::lemma_live_names_push(regular_entries(front), last);
        assert(front + entry::live_names_of(last) =~= basenames);
    }
}

/// An update of a directory that has only grown ends with the new files
/// appended, and without a new build: where the probe lists what the append
/// dealt with, in whatever order, the sidecar knew exactly the indexed files,
/// and every other file could be examined, the header that the append has
/// written agrees with the probe.
pub proof fn grown_directory_is_appended(
    run: UpdateRun,
    m: AppendModel,
    base: Seq<FileFact>,
    mtimes: Seq<MtimeRecord>,
    entries: Seq<EntryView>,
)
    requires
        run.step == UpdateStep::ReadHeaderAfterAppend,
        run.live_file_count == counting::saturated(entry::live_files(entries).len()),
        run.live_signal_hash == hash::signal_hash(entry::basenames(entry::live_files(entries))),
        m.is_sound(),
        stored_index::append_agrees(m, base, mtimes),
        m.step is Finished,
        entries.to_multiset() == (entry::entries_of(m.seen) + regular_entries(
            m.known,
        )).to_multiset(),
        m.known.to_multiset() == entry::basenames(base).to_multiset(),
        forall|i: int|
            0 <= i < m.seen.len() && entry::is_listable((#[trigger] m.seen[i]).entry)
                ==> m.seen[i].stat is Some,
    ensures
        run.after(UpdateEvent::Header(Ok(Some(m.header)))).step == UpdateStep::Finished(
            UpdateSummary {
                outcome: UpdateOutcome::IncrementalAppendCompleted,
                final_file_count: m.header.file_count,
                cold_build_summary: run.cold_build_summary,
                append_summary: run.append_summary,
            },
        ),
        m.header.file_count == base.len() + m.files_taken.len(),
{
    let dealt_with = entry::entries_of(m.seen) + regular_entries(m.known);
    let live = entry::live_files(entries);
    entry::live_files_ignore_order(entries, dealt_with);
    entry::lemma_live_names_concat(entry::entries_of(m.seen), regular_entries(m.known));
    entry::probe_agrees_with_scan(m.seen);
    lemma_live_names_of_regular_entries(m.known);
    let new_names = entry::basenames(m.files_taken);
    assert(entry::basenames(base + m.files_taken) =~= entry::basenames(base) + new_names);
    seq_lib::lemma_multiset_commutative(new_names, m.known);
    seq_lib::lemma_multiset_commutative(entry::basenames(base), new_names);
    assert(entry::basenames(live).to_multiset() =~= entry::basenames(
        base + m.files_taken,
    ).to_multiset());
    stored_index::append_of_new_files_agrees_with_probe(m, base, mtimes, live);
}

/// Every basename that the append has found in the sidecar is there.
pub open spec fn known_names_are_in_sidecar(m: AppendModel, names: Seq<Seq<u8>>) -> bool {
    !(m.purpose is Fail) ==> forall|i: int|
        0 <= i < m.known.len() ==> (sidecar::name_hashes(names) + m.hashes_written).contains(
            hash::fnv1a(#[trigger] m.known[i]),
        )
}

/// Where the searches through the sidecar are truthful, what an append has found
/// there stays there, unless the append fails.
pub proof fn append_keeps_known_names(m: AppendModel, event: AppendEvent, names: Seq<Seq<u8>>)
    requires
        m.is_sound(),
        known_names_are_in_sidecar(m, names),
        search_is_truthful(m, event, names),
    ensures
        known_names_are_in_sidecar(m.after(event), names),
{
    let n = m.after(event);
    let hashes = sidecar::name_hashes(names) + m.hashes_written;
    let later = sidecar::name_hashes(names) + n.hashes_written;
    if !(n.purpose is Fail) {
        assert(!(m.purpose is Fail));
        assert(hashes.is_prefix_of(later));
        assert forall|i: int| 0 <= i < n.known.len() implies later.contains(
            hash::fnv1a(#[trigger] n.known[i]),
        ) by {
            if i < m.known.len() {
                assert(n.known[i] == m.known[i]);
                let k = choose|k: int|
                    0 <= k < hashes.len() && hashes[k] == hash::fnv1a(m.known[i]);
                assert(later[k] == hashes[k]);
            } else {
                sidecar::search_finds_what_sidecar_holds(hashes, hash::fnv1a(m.pending.basename));
            }
        }
    }
}

proof fn lemma_examined_file_is_indexed(seen: Seq<Observed>, i: int)
    requires
        0 <= i < seen.len(),
        entry::is_listable(seen[i].entry),
        seen[i].stat is Some,
    ensures
        exists|k: int|
            0 <= k < entry::indexed_files(seen).len() && (#[trigger] entry::indexed_files(
                seen,
            )[k]).basename == seen[i].entry->Regular_0,
    decreases seen.len(),
{
    let front = seen.drop_last();
    let files = entry::indexed_files(seen);
    if i == seen.len() - 1 {
        assert(seen.last() == seen[i]);
        assert(seen[i].fate() is Indexed);
        assert(files[files.len() - 1].basename == seen[i].entry->Regular_0);
    } else {
        assert(front[i] == seen[i]);
        lemma_examined_file_is_indexed(front, i);
        let k = choose|k: int|
            0 <= k < entry::indexed_files(front).len() && (#[trigger] entry::indexed_files(
                front,
            )[k]).basename == seen[i].entry->Regular_0;
        assert(files[k] == entry::indexed_files(front)[k]);
    }
}

/// All entries that an append has dealt with.
pub open spec fn entries_dealt_with(m: AppendModel) -> Seq<EntryView> {
    entry::entries_of(m.seen) + regular_entries(m.known)
}

/// The hash of every basename among `entries` that fits a name record is one of
/// `hashes`.
pub open spec fn all_names_known(entries: Seq<EntryView>, hashes: Seq<u64>) -> bool {
    forall|i: int|
        0 <= i < entries.len() && entry::is_listable(#[trigger] entries[i]) ==> hashes.contains(
            hash::fnv1a(entries[i]->Regular_0),
        )
}

/// After an append that has finished, in which every file could be examined, the
/// sidecar knows every file that the directory listed.
pub proof fn finished_append_leaves_all_names_known(
    m: AppendModel,
    names: Seq<Seq<u8>>,
    base: Seq<FileFact>,
    mtimes: Seq<MtimeRecord>,
)
    requires
        m.is_sound(),
        stored_index::append_agrees(m, base, mtimes),
        m.step is Finished,
        known_names_are_in_sidecar(m, names),
        forall|i: int|
            0 <= i < m.seen.len() && entry::is_listable((#[trigger] m.seen[i]).entry)
                ==> m.seen[i].stat is Some,
    ensures
        all_names_known(entries_dealt_with(m), sidecar::name_hashes(names + m.names_written)),
{
    stored_index::written_header_represents_files(m, base, mtimes);
    let entries = entries_dealt_with(m);
    let hashes = sidecar::name_hashes(names + m.names_written);
    assert(hashes =~= sidecar::name_hashes(names) + m.hashes_written);
    assert forall|i: int|
        0 <= i < entries.len() && entry::is_listable(#[trigger] entries[i]) implies hashes.contains(
        hash::fnv1a(entries[i]->Regular_0),
    ) by {
        if i < m.seen.len() {
            assert(entries[i] == m.seen[i].entry);
            lemma_examined_file_is_indexed(m.seen, i);
            let k = choose|k: int|
                0 <= k < entry::indexed_files(m.seen).len() && (#[trigger] entry::indexed_files(
                    m.seen,
                )[k]).basename == m.seen[i].entry->Regular_0;
            assert(m.files_taken[k].basename == entries[i]->Regular_0);
            assert(m.names_written =~= entry::basenames(m.files_taken));
            assert(hashes[names.len() + k] == hash::fnv1a(entries[i]->Regular_0));
        } else {
            let k = i - m.seen.len();
            assert(entries[i] == EntryView::Regular(m.known[k]));
        }
    }
}

/// An append that has added nothing to the index with this header.
pub open spec fn has_added_nothing(m: AppendModel, header: ChronoIndexHeader) -> bool {
    &&& m.header == header
    &&& m.names_written.len() == 0
    &&& m.hashes_written.len() == 0
    &&& m.flushes.len() == 0
    &&& m.files_taken.len() == 0
    &&& m.batch.len() == 0
    &&& m.batch_names.len() == 0
    &&& m.summary.files_appended == 0
    &&& m.summary.invariant_breaches_this_call == 0
}

/// An append that has added nothing and has not failed; where it asks for a
/// search, the sidecar holds the hash.
pub open spec fn is_idle(m: AppendModel, header: ChronoIndexHeader, hashes: Seq<u64>) -> bool {
    &&& has_added_nothing(m, header)
    &&& !(m.purpose is Fail)
    &&& match m.step {
        AppendStep::EnsureSidecar | AppendStep::OpenDirectory | AppendStep::NextEntry
        | AppendStep::SyncFiles | AppendStep::WriteHeader | AppendStep::Finished => true,
        AppendStep::SearchSidecar(name_hash) => hashes.contains(name_hash),
        _ => false,
    }
}

/// `event` reports no failure and, where it answers a search, the truth; and the
/// file that it lists, if any, has a name whose hash is in the sidecar.
pub open spec fn finds_known_files(
    m: AppendModel,
    event: AppendEvent,
    names: Seq<Seq<u8>>,
) -> bool {
    &&& !(event is Failed) && !(event is FailedWith)
    &&& search_is_truthful(m, event, names)
    &&& event matches AppendEvent::Entry(found) ==> (entry::is_listable(found@)
        ==> sidecar::name_hashes(names).contains(hash::fnv1a(found@->Regular_0)))
}

proof fn lemma_step_stays_idle(
    m: AppendModel,
    event: AppendEvent,
    header: ChronoIndexHeader,
    names: Seq<Seq<u8>>,
)
    requires
        is_idle(m, header, sidecar::name_hashes(names)),
        finds_known_files(m, event, names),
    ensures
        is_idle(m.after(event), header, sidecar::name_hashes(names)),
{
    let hashes = sidecar::name_hashes(names);
    assert(hashes + m.hashes_written =~= hashes);
    if let AppendStep::SearchSidecar(name_hash) = m.step {
        sidecar::search_finds_what_sidecar_holds(hashes, name_hash);
    }
}

/// An append in which nothing fails, over a directory whose every file the
/// sidecar knows, changes nothing, in whatever state it is: the header to commit
/// is the one it began with, and nothing is written to the other files.
pub proof fn append_of_known_files_changes_nothing(
    header: ChronoIndexHeader,
    names: Seq<Seq<u8>>,
    events: Seq<AppendEvent>,
)
    requires
        forall|i: int|
            0 <= i < events.len() ==> finds_known_files(
                after_all(AppendModel::start(header), events.take(i)),
                #[trigger] events[i],
                names,
            ),
    ensures
        is_idle(
            after_all(AppendModel::start(header), events),
            header,
            sidecar::name_hashes(names),
        ),
    decreases events.len(),
{
    let start = AppendModel::start(header);
    if events.len() > 0 {
        let front = events.drop_last();
        assert forall|i: int| 0 <= i < front.len() implies finds_known_files(
            after_all(start, front.take(i)),
            #[trigger] front[i],
            names,
        ) by {
            assert(front[i] == events[i]);
            assert(front.take(i) =~= events.take(i));
        }
        append_of_known_files_changes_nothing(header, names, front);
        let last = events.len() - 1;
        assert(finds_known_files(after_all(start, events.take(last)), events[last], names));
        assert(events.take(last) =~= front);
        lemma_step_stays_idle(after_all(start, front), events.last(), header, names);
    }
}

/// What comes of the steps of an append, up to the end of the directory, where
/// every file that is listed is known.
pub open spec fn events_of_known_listing(entries: Seq<DirectoryEntry>) -> Seq<AppendEvent>
    decreases entries.len(),
{
    if entries.len() == 0 {
        seq![AppendEvent::Succeeded, AppendEvent::Succeeded]
    } else {
        let listed = events_of_known_listing(entries.drop_last()).push(
            AppendEvent::Entry(entries.last()),
        );
        if entry::is_listable(entries.last()@) {
            listed.push(AppendEvent::Known(true))
        } else {
            listed
        }
    }
}

/// What comes of the steps of an append over a directory whose every file is
/// known, where nothing fails: the files are made durable and the header is
/// written.
pub open spec fn events_of_known_directory(entries: Seq<DirectoryEntry>) -> Seq<AppendEvent> {
    events_of_known_listing(entries).push(AppendEvent::EndOfDirectory).push(
        AppendEvent::Succeeded,
    ).push(AppendEvent::Succeeded)
}

proof fn lemma_after_one_more(m: AppendModel, events: Seq<AppendEvent>, event: AppendEvent)
    ensures
        after_all(m, events.push(event)) == after_all(m, events).after(event),
{
    assert(events.push(event).drop_last() =~= events);
}

proof fn lemma_known_listing_adds_nothing(header: ChronoIndexHeader, entries: Seq<DirectoryEntry>)
    ensures
        ({
            let m = after_all(AppendModel::start(header), events_of_known_listing(entries));
            &&& has_added_nothing(m, header)
            &&& m.step is NextEntry
            &&& m.purpose is Full
        }),
    decreases entries.len(),
{
    let start = AppendModel::start(header);
    if entries.len() == 0 {
        let none = Seq::<AppendEvent>::empty();
        let events = events_of_known_listing(entries);
        assert(events =~= none.push(AppendEvent::Succeeded).push(AppendEvent::Succeeded));
        lemma_after_one_more(start, none, AppendEvent::Succeeded);
        lemma_after_one_more(
            start,
            none.push(AppendEvent::Succeeded),
            AppendEvent::Succeeded,
        );
    } else {
        let front = events_of_known_listing(entries.drop_last());
        let listed = front.push(AppendEvent::Entry(entries.last()));
        lemma_known_listing_adds_nothing(header, entries.drop_last());
        lemma_after_one_more(start, front, AppendEvent::Entry(entries.last()));
        lemma_after_one_more(start, listed, AppendEvent::Known(true));
    }
}

/// A second append over a directory that has not changed changes nothing. Where
/// an append has finished and every file could be examined, each file that the
/// directory lists is then found in the sidecar; the next append, in which
/// nothing fails, finishes, writes the header that is there, appends no file and
/// leaves `names.bin`, the sidecar and `mtimes.bin` as they are.
pub proof fn second_append_changes_nothing(
    first: AppendModel,
    names: Seq<Seq<u8>>,
    base: Seq<FileFact>,
    mtimes: Seq<MtimeRecord>,
    entries: Seq<DirectoryEntry>,
)
    requires
        first.is_sound(),
        stored_index::append_agrees(first, base, mtimes),
        first.step is Finished,
        known_names_are_in_sidecar(first, names),
        forall|i: int|
            0 <= i < first.seen.len() && entry::is_listable((#[trigger] first.seen[i]).entry)
                ==> first.seen[i].stat is Some,
        forall|i: int|
            0 <= i < entries.len() ==> entries_dealt_with(first).contains(
                (#[trigger] entries[i])@,
            ),
    ensures
        ({
            let stored = sidecar::name_hashes(names + first.names_written);
            let second = after_all(
                AppendModel::start(first.header),
                events_of_known_directory(entries),
            );
            &&& forall|i: int|
                0 <= i < entries.len() && entry::is_listable((#[trigger] entries[i])@)
                    ==> sidecar::holds_name_hash(
                    sidecar::hashes_file(stored),
                    hash::fnv1a(entries[i]@->Regular_0),
                )
            &&& second.step is Finished
            &&& has_added_nothing(second, first.header)
            &&& stored_index::mtimes_after(mtimes, first.flushes + second.flushes)
                == stored_index::mtimes_after(mtimes, first.flushes)
        }),
{
    let stored = sidecar::name_hashes(names + first.names_written);
    let dealt_with = entries_dealt_with(first);
    finished_append_leaves_all_names_known(first, names, base, mtimes);
    assert forall|i: int|
        0 <= i < entries.len() && entry::is_listable(
            (#[trigger] entries[i])@,
        ) implies sidecar::holds_name_hash(
        sidecar::hashes_file(stored),
        hash::fnv1a(entries[i]@->Regular_0),
    ) by {
        let k = choose|k: int| 0 <= k < dealt_with.len() && dealt_with[k] == entries[i]@;
        assert(entry::is_listable(dealt_with[k]));
        sidecar::search_finds_what_sidecar_holds(stored, hash::fnv1a(entries[i]@->Regular_0));
    }
    let start = AppendModel::start(first.header);
    let listing = events_of_known_listing(entries);
    let ended = listing.push(AppendEvent::EndOfDirectory);
    lemma_known_listing_adds_nothing(first.header, entries);
    lemma_after_one_more(start, listing, AppendEvent::EndOfDirectory);
    lemma_after_one_more(start, ended, AppendEvent::Succeeded);
    lemma_after_one_more(start, ended.push(AppendEvent::Succeeded), AppendEvent::Succeeded);
    let second = after_all(start, events_of_known_directory(entries));
    assert(first.flushes + second.flushes =~= first.flushes);
}

/// An update notices a file that has another name now: where the directory holds
/// the files of the index, in the order in which they were taken in, but for one
/// with another name of up to 64 bytes, the index is built anew, unless both names
/// have one hash. Names that differ in one byte, be it only the case of a letter,
/// have different hashes.
pub proof fn renamed_file_leads_to_rebuild(
    run: UpdateRun,
    header: ChronoIndexHeader,
    mtimes: Seq<MtimeRecord>,
    names: Seq<Seq<u8>>,
    files: Seq<FileFact>,
    i: int,
    name: Seq<u8>,
)
    requires
        run.step == UpdateStep::ReadHeader,
        0 < run.parent_directory@.len() <= 4096,
        header.parent() == run.parent_directory@,
        stored_index::represents(header, mtimes, names, files),
        files.len() * 64 <= u64::MAX,
        forall|k: int| 0 <= k < files.len() ==> (#[trigger] files[k]).basename.len() <= 64,
        0 <= i < files.len(),
        name.len() <= 64,
    ensures
        ({
            let listed = entry::basenames(files).update(i, name);
            let end = after_probe(
                run,
                header,
                (files.len() * 64) as u64,
                (files.len() * 20) as u64,
                regular_entries(listed),
            );
            &&& hash::fnv1a(name) != hash::fnv1a(files[i].basename) ==> end.step
                == UpdateStep::ColdBuild(UpdateOutcome::RebuiltDueToInconsistency)
            &&& lookup::differ_in_one_byte(name, files[i].basename) ==> end.step
                == UpdateStep::ColdBuild(UpdateOutcome::RebuiltDueToInconsistency)
            &&& name == files[i].basename ==> (end.step matches UpdateStep::Finished(summary)
                && summary.outcome is NoChangesDetected && summary.final_file_count == files.len())
        }),
{
    let old_names = entry::basenames(files);
    let listed = old_names.update(i, name);
    stored_index::index_has_expected_sizes(header, mtimes, names, files);
    assert forall|k: int| 0 <= k < listed.len() implies (#[trigger] listed[k]).len()
        <= MAX_BASENAME_LEN by {
        if k != i {
            assert(listed[k] == files[k].basename);
        }
    }
    lemma_live_names_of_regular_entries(listed);
    let live = entry::live_files(regular_entries(listed));
    assert(entry::basenames(live).len() == live.len());
    hash::renamed_file_changes_signal_hash(old_names, i, name);
    if lookup::differ_in_one_byte(name, files[i].basename) {
        let old_name = files[i].basename;
        let place = choose|place: int|
            {
                &&& 0 <= place < name.len()
                &&& #[trigger] name[place] != old_name[place]
                &&& forall|k: int| 0 <= k < name.len() && k != place ==> name[k] == old_name[k]
            };
        hash::strings_that_differ_in_one_byte_hash_differently(0, name, old_name, place);
    }
    if name == files[i].basename {
        assert(listed =~= old_names);
    }
}

/// An update notices a file that is gone, and one that has come: with one file
/// fewer the index is built anew, and with one more the new files are appended.
pub proof fn lost_or_gained_file_is_noticed(
    run: UpdateRun,
    header: ChronoIndexHeader,
    mtimes: Seq<MtimeRecord>,
    names: Seq<Seq<u8>>,
    files: Seq<FileFact>,
    listed: Seq<Seq<u8>>,
)
    requires
        run.step == UpdateStep::ReadHeader,
        0 < run.parent_directory@.len() <= 4096,
        header.parent() == run.parent_directory@,
        stored_index::represents(header, mtimes, names, files),
        files.len() * 64 <= u64::MAX,
        listed.len() <= u64::MAX,
        forall|k: int| 0 <= k < listed.len() ==> (#[trigger] listed[k]).len() <= 64,
    ensures
        ({
            let end = after_probe(
                run,
                header,
                (files.len() * 64) as u64,
                (files.len() * 20) as u64,
                regular_entries(listed),
            );
            &&& listed.len() < files.len() ==> end.step == UpdateStep::ColdBuild(
                UpdateOutcome::RebuiltDueToInconsistency,
            )
            &&& listed.len() > files.len() ==> end.step is Append
        }),
{
    stored_index::index_has_expected_sizes(header, mtimes, names, files);
    lemma_live_names_of_regular_entries(listed);
    let live = entry::live_files(regular_entries(listed));
    assert(entry::basenames(live).len() == live.len());
}

} // verus!
