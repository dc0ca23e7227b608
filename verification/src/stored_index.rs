//! What the files of an index hold, and what follows for building, appending
//! and looking up.

use vstd::prelude::*;
use vstd::seq_lib;
use crate::append;
use crate::append::{AppendEvent, AppendModel, AppendStep, Flush, FlushPurpose};
use crate::batch_rewrite;
use crate::batch_rewrite::{RewriteModel, RewriteStep};
use crate::cold_build;
use crate::counting;
use crate::entry;
use crate::entry::{FileFact, Observed};
use crate::error::ChronoIndexError;
use crate::external_sort;
use crate::external_sort::{RunId, SortEvent, SortModel, SortStep};
use crate::hash;
use crate::header::ChronoIndexHeader;
use crate::layout::{
    APPEND_BATCH_RECORDS, MAX_FULL_PATH_LEN, MTIME_RECORD_SIZE, NAME_RECORD_SIZE,
};
use crate::lookup;
use crate::lookup::{
    check_chronosort_hash_to_n, chrono_sort_hash_to_n, ChronoLookupResult, PositionRead,
};
use crate::names;
use crate::record;
use crate::record::MtimeRecord;
use crate::run_merge;
use crate::run_merge::{MergeStep, RunMergeModel};
use crate::scan::{ScanModel, ScanStep};
use crate::sidecar;
use crate::update;

verus! {

/// An index with this header, whose `mtimes.bin` holds `mtimes` and whose
/// `names.bin` holds `names`, is an index of `files`.
pub open spec fn represents(
    header: ChronoIndexHeader,
    mtimes: Seq<MtimeRecord>,
    names: Seq<Seq<u8>>,
    files: Seq<FileFact>,
) -> bool {
    &&& header.file_count == files.len()
    &&& header.signal_hash == hash::signal_hash(entry::basenames(files))
    &&& names == entry::basenames(files)
    &&& mtimes == record::chronological(entry::file_records(files, 0))
    &&& has_newest(header, mtimes)
}

/// The header holds the modification time of the last record, if there is one.
pub open spec fn has_newest(header: ChronoIndexHeader, mtimes: Seq<MtimeRecord>) -> bool {
    mtimes.len() > 0 ==> header.last_mtime_sec == mtimes.last().mtime_sec
        && header.last_mtime_nsec == mtimes.last().mtime_nsec
}

/// The run that a merge of the next group of runs writes is the one that the
/// sort goes on with, where the merge has read that group.
pub proof fn merge_writes_run_of_sort(sort: SortModel, run: RunId, merge: RunMergeModel)
    requires
        sort.is_sound(),
        sort.step == SortStep::MergeGroup(run),
        merge.is_sound(),
        merge.step == MergeStep::Finished,
        merge.consumed == sort.group_records(),
    ensures
        sort.after(SortEvent::Succeeded).merged == sort.merged.push(run),
        sort.after(SortEvent::Succeeded).merged_records == sort.merged_records.push(merge.written),
{
    assert forall|i: int| 0 <= i < merge.consumed.len() implies record::is_chronological(
        #[trigger] merge.consumed[i],
    ) by {
        assert(merge.consumed[i] == sort.run_records[sort.position + i]);
    }
    run_merge::finished_merge_is_chronological(merge);
}

/// The record that a cold build reads at the offset of the newest one is the
/// last of the sorted records.
pub proof fn newest_record_is_last(records: Seq<MtimeRecord>)
    requires
        records.len() > 0,
        records.len() * MTIME_RECORD_SIZE <= u64::MAX,
    ensures
        ({
            let offset = cold_build::newest_offset(records.len() as u64) as int;
            let file = record::records_file(records);
            &&& offset + MTIME_RECORD_SIZE <= file.len()
            &&& MtimeRecord::of_bytes(file.subrange(offset, offset + MTIME_RECORD_SIZE))
                == records.last()
        }),
{
    record::lemma_records_file_at(records, records.len() - 1);
    record::record_round_trips(records.last());
}

/// A cold build whose scan and sort have finished, and which commits what they
/// found, leaves an index of exactly the files that the scan took in.
pub proof fn cold_build_represents_directory(
    scan: ScanModel,
    sort: SortModel,
    fresh: ChronoIndexHeader,
)
    requires
        scan.is_sound(),
        scan.step == ScanStep::Finished,
        scan.files().len() <= u64::MAX,
        sort.is_sound(),
        sort.step == SortStep::Finished,
        sort.input == scan.records_written,
    ensures
        ({
            let scanned = cold_build::scanned_header(
                fresh,
                scan.summary(),
                hash::signal_hash(entry::basenames(scan.files())),
            );
            let header = if scan.summary().files_indexed > 0 {
                cold_build::with_newest(scanned, sort.output().last())
            } else {
                scanned
            };
            &&& represents(header, sort.output(), scan.names_written, scan.files())
            &&& header.parent() == fresh.parent()
        }),
{
    external_sort::finished_sort_is_chronological(sort);
    record::lemma_chronological_sorts(sort.input);
}

/// What `mtimes.bin` holds after `flushes`, having held `before`.
pub open spec fn mtimes_after(before: Seq<MtimeRecord>, flushes: Seq<Flush>) -> Seq<MtimeRecord>
    decreases flushes.len(),
{
    if flushes.len() == 0 {
        before
    } else {
        let earlier = mtimes_after(before, flushes.drop_last());
        if flushes.last().rewritten {
            record::chronological(earlier + flushes.last().records)
        } else {
            earlier + flushes.last().records
        }
    }
}

/// How many of the files that an append has taken in are in `mtimes.bin`.
pub open spec fn flushed_count(m: AppendModel) -> int {
    m.files_taken.len() - m.batch.len()
}

/// Where anything was flushed, files were taken in with it.
pub proof fn lemma_flush_takes_in_files(m: AppendModel, event: AppendEvent)
    requires
        m.is_sound(),
        m.flushes.len() > 0 ==> flushed_count(m) > 0,
    ensures
        m.after(event).flushes.len() > 0 ==> flushed_count(m.after(event)) > 0,
{
    record::lemma_chronological_sorts(m.batch);
    record::lemma_chronological_sorts(
        m.batch.push(
            MtimeRecord {
                mtime_sec: m.pending.mtime_sec,
                mtime_nsec: m.pending.mtime_nsec,
                record_id: m.header.file_count,
            },
        ),
    );
}

/// The files of the index whose records are in `mtimes.bin`, where the index
/// held `base` before the append.
pub open spec fn flushed_files(m: AppendModel, base: Seq<FileFact>) -> Seq<FileFact> {
    base + m.files_taken.take(flushed_count(m))
}

/// What holds at every step of an append to an index of `base` whose
/// `mtimes.bin` held `mtimes`: what is flushed makes up an index, and the batch
/// holds the rest of the files that were taken in.
pub open spec fn append_agrees(
    m: AppendModel,
    base: Seq<FileFact>,
    mtimes: Seq<MtimeRecord>,
) -> bool {
    let waiting = m.files_taken.skip(flushed_count(m));
    &&& m.batch.len() <= m.files_taken.len()
    &&& m.header.file_count == base.len() + m.files_taken.len()
    &&& m.header.signal_hash == hash::signal_hash(entry::basenames(flushed_files(m, base)))
    &&& mtimes_after(mtimes, m.flushes) == record::chronological(
        entry::file_records(flushed_files(m, base), 0),
    )
    &&& has_newest(m.header, mtimes_after(mtimes, m.flushes))
    &&& m.batch_names == entry::basenames(waiting)
    &&& m.batch.to_multiset() == entry::file_records(
        waiting,
        (base.len() + flushed_count(m)) as nat,
    ).to_multiset()
    &&& entry::basenames(m.files_taken).is_prefix_of(m.names_written)
    &&& sidecar::name_hashes(entry::basenames(m.files_taken)).is_prefix_of(m.hashes_written)
    &&& m.step is AppendHash ==> m.names_written == entry::basenames(m.files_taken).push(
        m.pending.basename,
    )
    &&& !(m.step is AppendHash) && !can_be_ahead(m) ==> m.names_written.len()
        == m.files_taken.len()
    &&& !can_be_ahead(m) ==> m.hashes_written.len() == m.files_taken.len()
}

/// After a failure, and until they are cut, `names.bin` and the sidecar can
/// hold records of files that are not taken in.
pub open spec fn can_be_ahead(m: AppendModel) -> bool {
    m.step is Failed || (m.purpose is Fail && !(m.step is WriteHeader))
}

proof fn lemma_ids(records: Seq<MtimeRecord>, sorted: Seq<MtimeRecord>, low: int, high: int)
    requires
        sorted.to_multiset() == records.to_multiset(),
        forall|i: int|
            0 <= i < records.len() ==> low <= (#[trigger] records[i]).record_id < high,
    ensures
        forall|i: int| 0 <= i < sorted.len() ==> low <= (#[trigger] sorted[i]).record_id < high,
{
    assert forall|i: int| 0 <= i < sorted.len() implies low <= (#[trigger] sorted[i]).record_id
        < high by {
        let x = sorted[i];
        seq_lib::to_multiset_contains(sorted, x);
        assert(sorted.contains(x));
        seq_lib::to_multiset_contains(records, x);
        assert(records.contains(x));
        let j = choose|j: int| 0 <= j < records.len() && records[j] == x;
        assert(records[j].record_id == x.record_id);
    }
}

proof fn lemma_file_records_concat(a: Seq<FileFact>, b: Seq<FileFact>, first_id: nat)
    ensures
        entry::file_records(a + b, first_id) == entry::file_records(a, first_id)
            + entry::file_records(b, first_id + a.len()),
        entry::basenames(a + b) == entry::basenames(a) + entry::basenames(b),
{
    assert(entry::file_records(a + b, first_id) =~= entry::file_records(a, first_id)
        + entry::file_records(b, first_id + a.len()));
    assert(entry::basenames(a + b) =~= entry::basenames(a) + entry::basenames(b));
}

/// New records that are not older than those of a chronological sequence and
/// have higher ids follow on it.
proof fn lemma_append_keeps_order(old_records: Seq<MtimeRecord>, added: Seq<MtimeRecord>, ids: int)
    requires
        record::is_chronological(old_records),
        record::is_chronological(added),
        forall|i: int|
            0 <= i < old_records.len() ==> (#[trigger] old_records[i]).record_id < ids,
        forall|i: int| 0 <= i < added.len() ==> (#[trigger] added[i]).record_id >= ids,
        added.len() > 0,
        old_records.len() > 0 ==> old_records.last().mtime_not_after(added[0]),
    ensures
        record::is_chronological(old_records + added),
{
    let all = old_records + added;
    let n = old_records.len() as int;
    assert forall|i: int, j: int| 0 <= i < j < all.len() implies (#[trigger] all[i]).not_after(
        #[trigger] all[j],
    ) by {
        if j < n {
            assert(old_records[i].not_after(old_records[j]));
        } else if i >= n {
            assert(added[i - n].not_after(added[j - n]));
        } else {
            let last = old_records[n - 1];
            let first = added[0];
            assert(last.before(first));
            assert(old_records[i].not_after(last)) by {
                if i < n - 1 {
                    assert(old_records[i].not_after(old_records[n - 1]));
                }
            }
            assert(first.not_after(added[j - n])) by {
                if j > n {
                    assert(added[0].not_after(added[j - n]));
                }
            }
        }
    }
}

/// An append starts in agreement with the index that it extends.
pub proof fn append_starts_in_agreement(
    header: ChronoIndexHeader,
    mtimes: Seq<MtimeRecord>,
    names: Seq<Seq<u8>>,
    base: Seq<FileFact>,
)
    requires
        represents(header, mtimes, names, base),
    ensures
        append_agrees(AppendModel::start(header), base, mtimes),
{
    let m = AppendModel::start(header);
    assert(flushed_files(m, base) =~= base);
    let waiting = m.files_taken.skip(0);
    assert(waiting =~= Seq::empty());
    assert(m.batch_names =~= entry::basenames(waiting));
    assert(entry::file_records(waiting, base.len()) =~= Seq::empty());
}

proof fn lemma_flushing_agrees(
    m: AppendModel,
    purpose: FlushPurpose,
    base: Seq<FileFact>,
    mtimes: Seq<MtimeRecord>,
)
    requires
        append_agrees(m, base, mtimes),
        purpose is Fail || (!(m.step is AppendHash) && !can_be_ahead(m)),
    ensures
        append_agrees(m.flushing(purpose), base, mtimes),
{
    record::lemma_chronological_sorts(m.batch);
}

proof fn lemma_taken_in_agrees(m: AppendModel, base: Seq<FileFact>, mtimes: Seq<MtimeRecord>)
    requires
        append_agrees(m, base, mtimes),
        m.step is AppendHash,
        m.header.file_count < u64::MAX,
        !(m.purpose is Fail),
        m.batch.len() <= APPEND_BATCH_RECORDS,
    ensures
        append_agrees(m.taken_in(), base, mtimes),
{
    let added = MtimeRecord {
        mtime_sec: m.pending.mtime_sec,
        mtime_nsec: m.pending.mtime_nsec,
        record_id: m.header.file_count,
    };
    let taken = AppendModel {
        step: AppendStep::NextEntry,
        hashes_written: m.hashes_written.push(hash::fnv1a(m.pending.basename)),
        batch: m.batch.push(added),
        batch_names: m.batch_names.push(m.pending.basename),
        files_taken: m.files_taken.push(m.pending),
        seen: m.taken_in().seen,
        header: ChronoIndexHeader {
            file_count: append::bumped(m.header.file_count),
            ..m.header
        },
        ..m
    };
    let f = flushed_count(m);
    let waiting = m.files_taken.skip(f);
    let id = (base.len() + f) as nat;
    assert(flushed_count(taken) == f);
    assert(taken.files_taken.take(f) =~= m.files_taken.take(f));
    assert(taken.files_taken.skip(f) =~= waiting.push(m.pending));
    entry::lemma_basenames_push(waiting, m.pending);
    entry::lemma_basenames_push(m.files_taken, m.pending);
    assert(entry::file_records(waiting.push(m.pending), id) =~= entry::file_records(
        waiting,
        id,
    ).push(added));
    seq_lib::to_multiset_build(entry::file_records(waiting, id), added);
    seq_lib::to_multiset_build(m.batch, added);
    assert(m.hashes_written =~= sidecar::name_hashes(entry::basenames(m.files_taken)));
    assert(taken.hashes_written =~= sidecar::name_hashes(entry::basenames(taken.files_taken)));
    assert(taken.names_written =~= entry::basenames(taken.files_taken));
    if taken.batch.len() >= APPEND_BATCH_RECORDS {
        lemma_flushing_agrees(taken, FlushPurpose::Full, base, mtimes);
        assert(m.taken_in() == taken.flushing(FlushPurpose::Full));
    }
}

proof fn lemma_flushed_agrees(
    m: AppendModel,
    rewritten: bool,
    sec: i64,
    nsec: i32,
    base: Seq<FileFact>,
    mtimes: Seq<MtimeRecord>,
)
    requires
        append_agrees(m, base, mtimes),
        m.batch.len() > 0,
        record::is_chronological(m.batch),
        m.step is AppendMtimes || m.step is RewriteMtimes,
        !rewritten ==> append::can_append(m.header, m.batch),
        ({
            let earlier = mtimes_after(mtimes, m.flushes);
            let newest = if rewritten {
                record::chronological(earlier + m.batch).last()
            } else {
                m.batch.last()
            };
            sec == newest.mtime_sec && nsec == newest.mtime_nsec
        }),
    ensures
        append_agrees(m.flushed(rewritten, sec, nsec), base, mtimes),
{
    let n = m.flushed(rewritten, sec, nsec);
    let f = flushed_count(m);
    let before = flushed_files(m, base);
    let waiting = m.files_taken.skip(f);
    let id = (base.len() + f) as nat;
    let earlier = mtimes_after(mtimes, m.flushes);
    let later = mtimes_after(mtimes, n.flushes);
    assert(n.flushes.drop_last() =~= m.flushes);
    assert(flushed_files(n, base) =~= before + waiting);
    assert(n.files_taken.skip(flushed_count(n)) =~= Seq::empty());
    assert(entry::basenames(Seq::<FileFact>::empty()) =~= Seq::empty());
    assert(entry::file_records(Seq::<FileFact>::empty(), (base.len() + flushed_count(n)) as nat)
        =~= Seq::empty());
    lemma_file_records_concat(before, waiting, 0);
    hash::lemma_signal_hash_concat(entry::basenames(before), entry::basenames(waiting));
    let old_records = entry::file_records(before, 0);
    let new_records = entry::file_records(waiting, id);
    record::lemma_chronological_sorts(old_records);
    seq_lib::lemma_multiset_commutative(earlier, m.batch);
    seq_lib::lemma_multiset_commutative(old_records, new_records);
    assert((earlier + m.batch).to_multiset() == (old_records + new_records).to_multiset());
    seq_lib::to_multiset_len(old_records);
    if rewritten {
        record::lemma_chronological_sorts(earlier + m.batch);
        record::lemma_chronological_unique(later, old_records + new_records);
    } else {
        lemma_ids(old_records, earlier, 0, id as int);
        lemma_ids(new_records, m.batch, id as int, m.header.file_count as int);
        assert(earlier.len() > 0 ==> earlier.last().mtime_not_after(m.batch[0]));
        lemma_append_keeps_order(earlier, m.batch, id as int);
        record::lemma_chronological_unique(later, old_records + new_records);
        assert(later.last() == m.batch.last());
    }
}

proof fn lemma_flush_failed_agrees(
    m: AppendModel,
    error: ChronoIndexError,
    base: Seq<FileFact>,
    mtimes: Seq<MtimeRecord>,
)
    requires
        append_agrees(m, base, mtimes),
        m.step is AppendMtimes || m.step is RewriteMtimes,
        m.batch.len() <= m.header.file_count,
    ensures
        append_agrees(m.flush_failed(error), base, mtimes),
{
    let n = m.flush_failed(error);
    let f = flushed_count(m);
    assert(flushed_files(n, base) =~= flushed_files(m, base));
    assert(n.files_taken.skip(f) =~= Seq::empty());
    assert(n.batch_names =~= entry::basenames(n.files_taken.skip(f)));
    assert(entry::file_records(Seq::<FileFact>::empty(), (base.len() + f) as nat) =~= Seq::empty());
}

/// A rewrite that `event` reports has the newest modification time that
/// `mtimes.bin` then holds, where the file held `mtimes` before the append.
pub open spec fn rewrite_is_truthful(
    m: AppendModel,
    event: AppendEvent,
    mtimes: Seq<MtimeRecord>,
) -> bool {
    m.step is RewriteMtimes ==> (event matches AppendEvent::Rewritten { newest_sec, newest_nsec }
        ==> {
        let newest = record::chronological(mtimes_after(mtimes, m.flushes) + m.batch).last();
        newest_sec == newest.mtime_sec && newest_nsec == newest.mtime_nsec
    })
}

/// Whatever comes of a step, an append stays in agreement with the index that
/// it extends. A rewrite must report the newest modification time truthfully.
pub proof fn append_stays_in_agreement(
    m: AppendModel,
    event: AppendEvent,
    base: Seq<FileFact>,
    mtimes: Seq<MtimeRecord>,
)
    requires
        m.is_sound(),
        append_agrees(m, base, mtimes),
        m.header.file_count < u64::MAX,
        rewrite_is_truthful(m, event, mtimes),
    ensures
        append_agrees(m.after(event), base, mtimes),
{
    match (m.step, event) {
        (AppendStep::NextEntry, AppendEvent::EndOfDirectory) => {
            if m.batch.len() > 0 {
                lemma_flushing_agrees(m, FlushPurpose::Final, base, mtimes);
            }
        },
        (
            AppendStep::SearchSidecar(_) | AppendStep::AppendName | AppendStep::AppendHash,
            AppendEvent::Failed,
        ) => {
            if m.batch.len() > 0 {
                lemma_flushing_agrees(
                    m,
                    FlushPurpose::Fail(ChronoIndexError::AppendIo),
                    base,
                    mtimes,
                );
            }
        },
        (AppendStep::AppendHash, AppendEvent::Succeeded) => {
            lemma_taken_in_agrees(m, base, mtimes);
        },
        (AppendStep::AppendMtimes, AppendEvent::Succeeded) => {
            lemma_flushed_agrees(
                m,
                false,
                m.batch.last().mtime_sec,
                m.batch.last().mtime_nsec,
                base,
                mtimes,
            );
        },
        (AppendStep::RewriteMtimes, AppendEvent::Rewritten { newest_sec, newest_nsec }) => {
            lemma_flushed_agrees(m, true, newest_sec, newest_nsec, base, mtimes);
        },
        (AppendStep::AppendMtimes, AppendEvent::Failed) => {
            lemma_flush_failed_agrees(m, ChronoIndexError::AppendIo, base, mtimes);
        },
        (AppendStep::RewriteMtimes, AppendEvent::FailedWith(error)) => {
            lemma_flush_failed_agrees(m, error, base, mtimes);
        },
        (AppendStep::TrimFiles, AppendEvent::Succeeded) => {
            let n = m.after(event);
            assert(n.names_written =~= entry::basenames(n.files_taken));
            assert(n.hashes_written =~= sidecar::name_hashes(entry::basenames(n.files_taken)));
        },
        (AppendStep::AppendName, AppendEvent::Succeeded) => {
            assert(m.names_written =~= entry::basenames(m.files_taken));
        },
        _ => {},
    }
}

/// The header that an append writes is true: with it, the files are an index of
/// the files that were there before and of those taken in, with `names.bin`
/// extended by their names and the sidecar by their name hashes. This holds of
/// an append that has finished, and also of one that writes the header after a
/// failure.
pub proof fn written_header_represents_files(
    m: AppendModel,
    base: Seq<FileFact>,
    mtimes: Seq<MtimeRecord>,
)
    requires
        m.is_sound(),
        append_agrees(m, base, mtimes),
        m.step is WriteHeader || m.step is Finished,
    ensures
        represents(
            m.header,
            mtimes_after(mtimes, m.flushes),
            entry::basenames(base) + m.names_written,
            base + m.files_taken,
        ),
        m.hashes_written == sidecar::name_hashes(m.names_written),
        m.files_taken.is_prefix_of(entry::indexed_files(m.seen)),
        m.step is Finished ==> m.files_taken == entry::indexed_files(m.seen),
{
    assert(m.names_written =~= entry::basenames(m.files_taken));
    assert(m.hashes_written =~= sidecar::name_hashes(m.names_written));
    assert(flushed_files(m, base) =~= base + m.files_taken);
    lemma_file_records_concat(base, m.files_taken, 0);
    record::lemma_chronological_sorts(entry::file_records(base + m.files_taken, 0));
}

/// Where a rewrite has finished over the file as the flushes before left it,
/// what it wrote is what `mtimes.bin` holds after this flush, and the newest
/// modification time it reports is true.
pub proof fn rewrite_is_flush(
    m: AppendModel,
    base: Seq<FileFact>,
    mtimes: Seq<MtimeRecord>,
    rewrite: RewriteModel,
)
    requires
        m.is_sound(),
        m.step is RewriteMtimes,
        append_agrees(m, base, mtimes),
        rewrite.is_sound(),
        rewrite.step == RewriteStep::Finished,
        rewrite.batch == record::chronological(m.batch),
        rewrite.consumed == mtimes_after(mtimes, m.flushes),
    ensures
        rewrite.written.len() > 0,
        rewrite.written == record::chronological(mtimes_after(mtimes, m.flushes) + m.batch),
        rewrite.written == mtimes_after(
            mtimes,
            m.after(
                AppendEvent::Rewritten {
                    newest_sec: rewrite.written.last().mtime_sec,
                    newest_nsec: rewrite.written.last().mtime_nsec,
                },
            ).flushes,
        ),
        rewrite_is_truthful(
            m,
            AppendEvent::Rewritten {
                newest_sec: rewrite.written.last().mtime_sec,
                newest_nsec: rewrite.written.last().mtime_nsec,
            },
            mtimes,
        ),
{
    record::lemma_chronological_sorts(entry::file_records(flushed_files(m, base), 0));
    batch_rewrite::finished_rewrite_is_chronological(rewrite);
    record::lemma_chronological_sorts(m.batch);
    record::lemma_chronological_unique(m.batch, m.batch);
    let n = m.after(
        AppendEvent::Rewritten {
            newest_sec: rewrite.written.last().mtime_sec,
            newest_nsec: rewrite.written.last().mtime_nsec,
        },
    );
    assert(n.flushes.drop_last() =~= m.flushes);
}

/// The files of an index have the sizes that its header asks for.
pub proof fn index_has_expected_sizes(
    header: ChronoIndexHeader,
    mtimes: Seq<MtimeRecord>,
    names: Seq<Seq<u8>>,
    files: Seq<FileFact>,
)
    requires
        represents(header, mtimes, names, files),
        files.len() * NAME_RECORD_SIZE <= u64::MAX,
    ensures
        update::sizes_match(
            Some(names::names_file(names).len() as u64),
            Some(record::records_file(mtimes).len() as u64),
            header,
        ),
{
    record::lemma_chronological_sorts(entry::file_records(files, 0));
}

/// The sorted records of an index: the record at any position has the id of a
/// file and its modification time.
proof fn lemma_record_is_of_file(files: Seq<FileFact>, position: int)
    requires
        files.len() <= u64::MAX,
        0 <= position < files.len(),
    ensures
        ({
            let mtimes = record::chronological(entry::file_records(files, 0));
            &&& mtimes.len() == files.len()
            &&& mtimes[position].record_id < files.len()
            &&& mtimes[position] == entry::file_records(files, 0)[mtimes[position].record_id as int]
        }),
{
    let records = entry::file_records(files, 0);
    let mtimes = record::chronological(records);
    record::lemma_chronological_sorts(records);
    let x = mtimes[position];
    seq_lib::to_multiset_contains(mtimes, x);
    assert(mtimes.contains(x));
    seq_lib::to_multiset_contains(records, x);
    assert(records.contains(x));
    let j = choose|j: int| 0 <= j < records.len() && records[j] == x;
    assert(records[j].record_id == j);
}

/// What a lookup reads from the files of an index leads to the file at that
/// chronological position: its modification time and its basename.
pub proof fn lookup_finds_file_at_position(
    header: ChronoIndexHeader,
    mtimes: Seq<MtimeRecord>,
    names: Seq<Seq<u8>>,
    files: Seq<FileFact>,
    position: u64,
)
    requires
        represents(header, mtimes, names, files),
        files.len() * NAME_RECORD_SIZE <= u64::MAX,
        forall|i: int|
            0 <= i < files.len() ==> names::is_storable((#[trigger] files[i]).basename),
        position < files.len(),
    ensures
        ({
            let mtimes_file = record::records_file(mtimes);
            let names_file = names::names_file(names);
            let mtime_at = lookup::mtime_offset(position) as int;
            let found = MtimeRecord::of_bytes(
                mtimes_file.subrange(mtime_at, mtime_at + MTIME_RECORD_SIZE),
            );
            let name_at = lookup::name_offset(found.record_id) as int;
            let file = files[found.record_id as int];
            &&& mtime_at + MTIME_RECORD_SIZE <= mtimes_file.len()
            &&& found == mtimes[position as int]
            &&& found.record_id < header.file_count
            &&& name_at + NAME_RECORD_SIZE <= names_file.len()
            &&& names::basename_of(names_file.subrange(name_at, name_at + NAME_RECORD_SIZE))
                == file.basename
            &&& found.mtime_sec == file.mtime_sec
            &&& found.mtime_nsec == file.mtime_nsec
        }),
{
    lemma_record_is_of_file(files, position as int);
    let found = mtimes[position as int];
    record::lemma_records_file_at(mtimes, position as int);
    record::record_round_trips(found);
    names::lemma_names_file_at(names, found.record_id as int);
    names::name_record_round_trips(files[found.record_id as int].basename);
}

/// The positions of an index are in ascending order of modification time.
pub proof fn positions_ascend_in_mtime(
    header: ChronoIndexHeader,
    mtimes: Seq<MtimeRecord>,
    names: Seq<Seq<u8>>,
    files: Seq<FileFact>,
    earlier: int,
    later: int,
)
    requires
        represents(header, mtimes, names, files),
        0 <= earlier <= later < files.len(),
    ensures
        mtimes.len() == files.len(),
        mtimes[earlier].mtime_not_after(mtimes[later]),
{
    record::lemma_chronological_sorts(entry::file_records(files, 0));
    if earlier < later {
        assert(mtimes[earlier].not_after(mtimes[later]));
    }
}

/// Every indexed file is at exactly one position.
pub proof fn every_file_has_one_position(
    header: ChronoIndexHeader,
    mtimes: Seq<MtimeRecord>,
    names: Seq<Seq<u8>>,
    files: Seq<FileFact>,
    i: u64,
)
    requires
        represents(header, mtimes, names, files),
        i < files.len(),
    ensures
        exists|p: int| 0 <= p < mtimes.len() && (#[trigger] mtimes[p]).record_id == i,
        forall|p: int, q: int|
            0 <= p < mtimes.len() && 0 <= q < mtimes.len() && (#[trigger] mtimes[p]).record_id == (
            #[trigger] mtimes[q]).record_id ==> p == q,
{
    let records = entry::file_records(files, 0);
    record::lemma_chronological_sorts(records);
    let x = records[i as int];
    seq_lib::to_multiset_contains(records, x);
    assert(records.contains(x));
    seq_lib::to_multiset_contains(mtimes, x);
    assert(mtimes.contains(x));
    let p = choose|p: int| 0 <= p < mtimes.len() && mtimes[p] == x;
    assert(mtimes[p].record_id == i);
    assert(records.no_duplicates()) by {
        assert forall|a: int, b: int|
            0 <= a < records.len() && 0 <= b < records.len() && a != b implies records[a]
            != records[b] by {
            assert(records[a].record_id == a);
            assert(records[b].record_id == b);
        }
    }
    records.lemma_multiset_has_no_duplicates();
    mtimes.lemma_multiset_has_no_duplicates_conv();
    assert forall|a: int, b: int|
        0 <= a < mtimes.len() && 0 <= b < mtimes.len() && (#[trigger] mtimes[a]).record_id == (
        #[trigger] mtimes[b]).record_id implies a == b by {
        lemma_record_is_of_file(files, a);
        lemma_record_is_of_file(files, b);
    }
}

/// Two lookups of the same records give the same result and the same path,
/// whatever the buffers held before.
pub proof fn lookup_is_repeatable(
    header: ChronoIndexHeader,
    found: MtimeRecord,
    name_record: Seq<u8>,
    before_a: Seq<u8>,
    after_a: Seq<u8>,
    a: Result<Option<ChronoLookupResult>, ChronoIndexError>,
    before_b: Seq<u8>,
    after_b: Seq<u8>,
    b: Result<Option<ChronoLookupResult>, ChronoIndexError>,
)
    requires
        before_a.len() == MAX_FULL_PATH_LEN,
        before_b.len() == MAX_FULL_PATH_LEN,
        lookup::is_lookup_of(header, found, name_record, before_a, after_a, a),
        lookup::is_lookup_of(header, found, name_record, before_b, after_b, b),
    ensures
        a == b,
        a matches Ok(Some(result)) ==> after_a.take(result.path_byte_length as int)
            == after_b.take(result.path_byte_length as int),
{
    if let Ok(Some(result)) = a {
        let path = lookup::joined_path(header.parent(), names::basename_of(name_record));
        assert(after_a.take(path.len() as int) =~= path);
        assert(after_b.take(path.len() as int) =~= path);
    }
}

/// The basenames at the positions of `mtimes`.
pub open spec fn basenames_in_order(
    mtimes: Seq<MtimeRecord>,
    names: Seq<Seq<u8>>,
) -> Seq<Seq<u8>> {
    Seq::new(mtimes.len(), |p: int| names[mtimes[p].record_id as int])
}

/// The hash of the positions of an index from zero to `n`, the latter counted.
pub open spec fn index_hash_to(mtimes: Seq<MtimeRecord>, names: Seq<Seq<u8>>, n: int) -> u64 {
    lookup::sequence_hash(mtimes.take(n + 1), basenames_in_order(mtimes.take(n + 1), names))
}

/// What the hash functions compute from the files of an index is the hash of
/// its positions: it depends on nothing else, so that the same index gives the
/// same hash.
pub proof fn hash_of_stored_index(
    header: ChronoIndexHeader,
    mtimes: Seq<MtimeRecord>,
    names: Seq<Seq<u8>>,
    files: Seq<FileFact>,
    reads: Seq<PositionRead>,
    up_to_position: u64,
    result: Result<u64, ChronoIndexError>,
)
    requires
        represents(header, mtimes, names, files),
        files.len() * NAME_RECORD_SIZE <= u64::MAX,
        forall|i: int|
            0 <= i < files.len() ==> names::is_storable((#[trigger] files[i]).basename),
        up_to_position < files.len(),
        lookup::is_hash_of_reads(reads, header.file_count, up_to_position, result),
        reads_are_from(reads, header.file_count, mtimes, names),
    ensures
        result == Ok::<u64, ChronoIndexError>(
            index_hash_to(mtimes, names, up_to_position as int),
        ),
{
    record::lemma_chronological_sorts(entry::file_records(files, 0));
    assert forall|p: int| 0 <= p < reads.len() implies {
        &&& (#[trigger] reads[p]).is_complete(header.file_count)
        &&& reads[p].record() == mtimes[p]
        &&& reads[p].basename() == names[mtimes[p].record_id as int]
    } by {
        lookup_finds_file_at_position(header, mtimes, names, files, p as u64);
    }
    assert(reads.last() == reads[reads.len() - 1]);
    let first = mtimes.take(up_to_position + 1);
    assert(lookup::records_read(reads) =~= first);
    assert(lookup::basenames_read(reads) =~= basenames_in_order(first, names));
}

/// `reads` are what the files of an index hold for the positions from zero on,
/// every read within a file succeeding.
pub open spec fn reads_are_from(
    reads: Seq<PositionRead>,
    file_count: u64,
    mtimes: Seq<MtimeRecord>,
    names: Seq<Seq<u8>>,
) -> bool {
    forall|p: int|
        0 <= p < reads.len() ==> {
            let mtimes_file = record::records_file(mtimes);
            let names_file = names::names_file(names);
            let mtime_at = lookup::mtime_offset(p as u64) as int;
            let name_at = lookup::name_offset((#[trigger] reads[p]).record().record_id) as int;
            &&& mtime_at + MTIME_RECORD_SIZE <= mtimes_file.len() ==> (
            reads[p].mtime matches Some(bytes) && bytes@ == mtimes_file.subrange(
                mtime_at,
                mtime_at + MTIME_RECORD_SIZE,
            ))
            &&& reads[p].refers_to_name(file_count) && name_at + NAME_RECORD_SIZE
                <= names_file.len() ==> (reads[p].name matches Some(bytes) && bytes@
                == names_file.subrange(name_at, name_at + NAME_RECORD_SIZE))
        }
}

/// Files that are appended behind all others leave the hash of the positions
/// before them as it was, so that a check against a hash taken earlier
/// succeeds.
pub proof fn append_keeps_hash_of_prefix(
    mtimes: Seq<MtimeRecord>,
    added: Seq<MtimeRecord>,
    names: Seq<Seq<u8>>,
    added_names: Seq<Seq<u8>>,
    n: int,
)
    requires
        0 <= n < mtimes.len(),
        forall|p: int| 0 <= p <= n ==> (#[trigger] mtimes[p]).record_id < names.len(),
    ensures
        index_hash_to(mtimes + added, names + added_names, n) == index_hash_to(mtimes, names, n),
{
    assert((mtimes + added).take(n + 1) =~= mtimes.take(n + 1));
    assert(basenames_in_order(mtimes.take(n + 1), names + added_names) =~= basenames_in_order(
        mtimes.take(n + 1),
        names,
    ));
}

/// An update right after a cold build finds nothing to do: where every file
/// that could be listed could be examined, and the directory is the same, the
/// probe of it agrees with the header.
pub proof fn probe_after_build_agrees_with_header(
    header: ChronoIndexHeader,
    mtimes: Seq<MtimeRecord>,
    names: Seq<Seq<u8>>,
    seen: Seq<Observed>,
)
    requires
        represents(header, mtimes, names, entry::indexed_files(seen)),
        forall|i: int|
            0 <= i < seen.len() && entry::is_listable((#[trigger] seen[i]).entry)
                ==> seen[i].stat is Some,
    ensures
        ({
            let live = entry::live_files(entry::entries_of(seen));
            &&& counting::saturated(live.len()) == header.file_count
            &&& hash::signal_hash(entry::basenames(live)) == header.signal_hash
        }),
{
    entry::probe_agrees_with_scan(seen);
    let live = entry::live_files(entry::entries_of(seen));
    assert(entry::basenames(live).len() == live.len());
    assert(entry::basenames(entry::indexed_files(seen)).len() == entry::indexed_files(seen).len());
}

/// An append that has taken in exactly the files that the directory has gained
/// ends with the header that the update expects: as many files as the
/// directory holds, and its signal hash.
pub proof fn append_of_new_files_agrees_with_probe(
    m: AppendModel,
    base: Seq<FileFact>,
    mtimes: Seq<MtimeRecord>,
    live: Seq<FileFact>,
)
    requires
        m.is_sound(),
        append_agrees(m, base, mtimes),
        m.step is Finished,
        entry::basenames(live).to_multiset() == entry::basenames(
            base + m.files_taken,
        ).to_multiset(),
    ensures
        m.header.file_count == counting::saturated(live.len()),
        m.header.signal_hash == hash::signal_hash(entry::basenames(live)),
{
    written_header_represents_files(m, base, mtimes);
    seq_lib::to_multiset_len(entry::basenames(live));
    seq_lib::to_multiset_len(entry::basenames(base + m.files_taken));
    hash::signal_hash_ignores_order(
        entry::basenames(live),
        entry::basenames(base + m.files_taken),
    );
}

/// `read_at` reads records of `mtimes.bin` from a file with these contents.
pub open spec fn serves_mtimes<M>(read_at: M, file: Seq<u8>) -> bool where
    M: Fn(u64) -> Option<[u8; MTIME_RECORD_SIZE]>,
 {
    forall|offset: u64, answer: Option<[u8; MTIME_RECORD_SIZE]>| #[trigger]
        call_ensures(read_at, (offset,), answer) && offset + MTIME_RECORD_SIZE <= file.len() ==> (
        answer matches Some(bytes) && bytes@ == file.subrange(
            offset as int,
            offset + MTIME_RECORD_SIZE,
        ))
}

/// `read_at` reads records of `names.bin` from a file with these contents.
pub open spec fn serves_names<N>(read_at: N, file: Seq<u8>) -> bool where
    N: Fn(u64) -> Option<[u8; NAME_RECORD_SIZE]>,
 {
    forall|offset: u64, answer: Option<[u8; NAME_RECORD_SIZE]>| #[trigger]
        call_ensures(read_at, (offset,), answer) && offset + NAME_RECORD_SIZE <= file.len() ==> (
        answer matches Some(bytes) && bytes@ == file.subrange(
            offset as int,
            offset + NAME_RECORD_SIZE,
        ))
}

/// Every basename can be stored, and the data files are not larger than an
/// offset can tell.
pub open spec fn is_readable(files: Seq<FileFact>) -> bool {
    &&& files.len() * NAME_RECORD_SIZE <= u64::MAX
    &&& forall|i: int| 0 <= i < files.len() ==> names::is_storable((#[trigger] files[i]).basename)
}

/// A lookup in an index of `files`, through readers of its data files, gives
/// the file at that chronological position: its modification time, and its
/// path below the indexed directory in the buffer. Where the path is too long
/// for the buffer, the lookup fails instead; past the last position it finds
/// nothing.
pub proof fn lookup_in_stored_index<M, N>(
    header: ChronoIndexHeader,
    mtimes: Seq<MtimeRecord>,
    names: Seq<Seq<u8>>,
    files: Seq<FileFact>,
    position: u64,
    read_mtimes_at: M,
    read_names_at: N,
    before: Seq<u8>,
    after: Seq<u8>,
    result: Result<Option<ChronoLookupResult>, ChronoIndexError>,
) where
    M: Fn(u64) -> Option<[u8; MTIME_RECORD_SIZE]>,
    N: Fn(u64) -> Option<[u8; NAME_RECORD_SIZE]>,

    requires
        represents(header, mtimes, names, files),
        is_readable(files),
        serves_mtimes(read_mtimes_at, record::records_file(mtimes)),
        serves_names(read_names_at, names::names_file(names)),
        before.len() == MAX_FULL_PATH_LEN,
        header.parent().len() > 0,
        lookup::is_lookup(
            Ok(Some(header)),
            position,
            read_mtimes_at,
            read_names_at,
            before,
            after,
            result,
        ),
    ensures
        position >= files.len() ==> result == Ok::<Option<ChronoLookupResult>, ChronoIndexError>(
            None,
        ) && after == before,
        position < files.len() ==> {
            let file = files[mtimes[position as int].record_id as int];
            let path = lookup::joined_path(header.parent(), file.basename);
            if path.len() > MAX_FULL_PATH_LEN {
                result == Err::<Option<ChronoLookupResult>, ChronoIndexError>(
                    ChronoIndexError::LookupIo,
                ) && after == before
            } else {
                &&& result matches Ok(Some(found))
                &&& found.path_byte_length == path.len()
                &&& after.take(found.path_byte_length as int) == path
                &&& found.looked_up_file_mtime_sec == file.mtime_sec
                &&& found.looked_up_file_mtime_nsec == file.mtime_nsec
            }
        },
{
    if position < files.len() {
        lookup_finds_file_at_position(header, mtimes, names, files, position);
        let file = files[mtimes[position as int].record_id as int];
        let path = lookup::joined_path(header.parent(), file.basename);
        if path.len() <= MAX_FULL_PATH_LEN {
            assert(before.update_subrange_with(0, path).take(path.len() as int) =~= path);
        }
    }
}

/// The hash of an index of `files` up to a position, through readers of its
/// data files, is the hash of its positions.
pub proof fn hash_in_stored_index<M, N>(
    header: ChronoIndexHeader,
    mtimes: Seq<MtimeRecord>,
    names: Seq<Seq<u8>>,
    files: Seq<FileFact>,
    up_to_position: u64,
    read_mtimes_at: M,
    read_names_at: N,
    result: Result<u64, ChronoIndexError>,
) where
    M: Fn(u64) -> Option<[u8; MTIME_RECORD_SIZE]>,
    N: Fn(u64) -> Option<[u8; NAME_RECORD_SIZE]>,

    requires
        represents(header, mtimes, names, files),
        is_readable(files),
        serves_mtimes(read_mtimes_at, record::records_file(mtimes)),
        serves_names(read_names_at, names::names_file(names)),
        lookup::is_sequence_hash(
            Ok(Some(header)),
            up_to_position,
            read_mtimes_at,
            read_names_at,
            result,
        ),
    ensures
        result == if up_to_position < files.len() {
            Ok::<u64, ChronoIndexError>(index_hash_to(mtimes, names, up_to_position as int))
        } else {
            Err::<u64, ChronoIndexError>(ChronoIndexError::LookupIo)
        },
{
    if up_to_position < files.len() {
        let reads = choose|reads: Seq<PositionRead>| #[trigger]
            lookup::is_hash_of_reads(reads, header.file_count, up_to_position, result)
                && lookup::were_read(reads, header.file_count, read_mtimes_at, read_names_at);
        hash_of_stored_index(header, mtimes, names, files, reads, up_to_position, result);
    }
}

/// A check against the hash that was taken of the same index succeeds, and one
/// against any other value does not.
pub proof fn check_in_stored_index<M, N>(
    header: ChronoIndexHeader,
    mtimes: Seq<MtimeRecord>,
    names: Seq<Seq<u8>>,
    files: Seq<FileFact>,
    up_to_position: u64,
    previous_hash: u64,
    read_mtimes_at: M,
    read_names_at: N,
    unchanged: Result<bool, ChronoIndexError>,
) where
    M: Fn(u64) -> Option<[u8; MTIME_RECORD_SIZE]>,
    N: Fn(u64) -> Option<[u8; NAME_RECORD_SIZE]>,

    requires
        represents(header, mtimes, names, files),
        is_readable(files),
        serves_mtimes(read_mtimes_at, record::records_file(mtimes)),
        serves_names(read_names_at, names::names_file(names)),
        lookup::is_hash_check(
            Ok(Some(header)),
            up_to_position,
            previous_hash,
            read_mtimes_at,
            read_names_at,
            unchanged,
        ),
    ensures
        unchanged == if up_to_position < files.len() {
            Ok::<bool, ChronoIndexError>(
                index_hash_to(mtimes, names, up_to_position as int) == previous_hash,
            )
        } else {
            Err::<bool, ChronoIndexError>(ChronoIndexError::LookupIo)
        },
{
    let committed: Result<Option<ChronoIndexHeader>, ChronoIndexError> = Ok(Some(header));
    let current = choose|current: Result<u64, ChronoIndexError>| #[trigger]
        lookup::is_sequence_hash(
            committed,
            up_to_position,
            read_mtimes_at,
            read_names_at,
            current,
        ) && unchanged == match current {
            Ok(value) => Ok::<bool, ChronoIndexError>(value == previous_hash),
            Err(error) => Err::<bool, ChronoIndexError>(error),
        };
    hash_in_stored_index(
        header,
        mtimes,
        names,
        files,
        up_to_position,
        read_mtimes_at,
        read_names_at,
        current,
    );
}

/// A batch none of whose files is older than the newest indexed one is appended
/// without a rewrite.
pub proof fn newer_files_are_appended(m: AppendModel, purpose: FlushPurpose)
    requires
        m.batch.len() > 0,
        forall|i: int|
            0 <= i < m.batch.len() ==> (MtimeRecord {
                mtime_sec: m.header.last_mtime_sec,
                mtime_nsec: m.header.last_mtime_nsec,
                record_id: 0,
            }).mtime_not_after(#[trigger] m.batch[i]),
    ensures
        m.flushing(purpose).step == AppendStep::AppendMtimes,
        m.flushing(purpose).header == m.header,
        m.flushing(purpose).summary == m.summary,
{
    let sorted = record::chronological(m.batch);
    record::lemma_chronological_sorts(m.batch);
    let x = sorted[0];
    seq_lib::to_multiset_contains(sorted, x);
    assert(sorted.contains(x));
    seq_lib::to_multiset_contains(m.batch, x);
    assert(m.batch.contains(x));
    let i = choose|i: int| 0 <= i < m.batch.len() && m.batch[i] == x;
    assert(m.batch[i] == x);
}

/// Flushes that append leave what `mtimes.bin` held at its start.
pub proof fn appending_flushes_extend_mtimes(before: Seq<MtimeRecord>, flushes: Seq<Flush>)
    requires
        forall|i: int| 0 <= i < flushes.len() ==> !(#[trigger] flushes[i]).rewritten,
    ensures
        before.is_prefix_of(mtimes_after(before, flushes)),
    decreases flushes.len(),
{
    if flushes.len() > 0 {
        let front = flushes.drop_last();
        assert forall|i: int| 0 <= i < front.len() implies !(#[trigger] front[i]).rewritten by {
            assert(front[i] == flushes[i]);
        }
        assert(flushes.last() == flushes[flushes.len() - 1]);
        appending_flushes_extend_mtimes(before, front);
    }
}

/// An append without a rewrite leaves the hash of every position that was there
/// before as it was.
pub proof fn append_without_rewrite_keeps_hashes(
    m: AppendModel,
    header: ChronoIndexHeader,
    mtimes: Seq<MtimeRecord>,
    names: Seq<Seq<u8>>,
    base: Seq<FileFact>,
    n: int,
)
    requires
        represents(header, mtimes, names, base),
        0 <= n < base.len(),
        forall|i: int| 0 <= i < m.flushes.len() ==> !(#[trigger] m.flushes[i]).rewritten,
    ensures
        index_hash_to(mtimes_after(mtimes, m.flushes), names + m.names_written, n)
            == index_hash_to(mtimes, names, n),
{
    appending_flushes_extend_mtimes(mtimes, m.flushes);
    let later = mtimes_after(mtimes, m.flushes);
    let added = later.skip(mtimes.len() as int);
    assert(later =~= mtimes + added);
    record::lemma_chronological_sorts(entry::file_records(base, 0));
    assert forall|p: int| 0 <= p <= n implies (#[trigger] mtimes[p]).record_id < names.len() by {
        lemma_record_is_of_file(base, p);
    }
    append_keeps_hash_of_prefix(mtimes, added, names, m.names_written, n);
}

/// No file of `later` has an earlier modification time than one of `earlier`.
pub open spec fn are_not_older(earlier: Seq<FileFact>, later: Seq<FileFact>) -> bool {
    forall|i: int, j: int|
        0 <= i < earlier.len() && 0 <= j < later.len() ==> {
            ||| (#[trigger] earlier[i]).mtime_sec < (#[trigger] later[j]).mtime_sec
            ||| earlier[i].mtime_sec == later[j].mtime_sec && earlier[i].mtime_nsec
                <= later[j].mtime_nsec
        }
}

/// Files none of which is older than an indexed one come to stand behind all of
/// those, in however many batches they were taken in and whether `mtimes.bin`
/// was rewritten or not: the positions that were there before are the same, and
/// so are their hashes.
pub proof fn newer_files_keep_hashes(
    header: ChronoIndexHeader,
    mtimes: Seq<MtimeRecord>,
    names: Seq<Seq<u8>>,
    base: Seq<FileFact>,
    later_header: ChronoIndexHeader,
    later_mtimes: Seq<MtimeRecord>,
    later_names: Seq<Seq<u8>>,
    added: Seq<FileFact>,
    n: int,
)
    requires
        represents(header, mtimes, names, base),
        represents(later_header, later_mtimes, later_names, base + added),
        are_not_older(base, added),
        0 <= n < base.len(),
    ensures
        mtimes.is_prefix_of(later_mtimes),
        index_hash_to(later_mtimes, later_names, n) == index_hash_to(mtimes, names, n),
{
    let old_records = entry::file_records(base, 0);
    let new_records = entry::file_records(added, base.len());
    lemma_file_records_concat(base, added, 0);
    record::lemma_chronological_sorts(old_records);
    record::lemma_chronological_sorts(new_records);
    let behind = record::chronological(new_records);
    if added.len() > 0 {
        lemma_ids(old_records, mtimes, 0, base.len() as int);
        lemma_ids(new_records, behind, base.len() as int, (base.len() + added.len()) as int);
        let last = mtimes.last();
        let first = behind[0];
        lemma_record_is_of_file(base, mtimes.len() - 1);
        seq_lib::to_multiset_contains(behind, first);
        assert(behind.contains(first));
        seq_lib::to_multiset_contains(new_records, first);
        assert(new_records.contains(first));
        let j = choose|j: int| 0 <= j < new_records.len() && new_records[j] == first;
        assert(base[last.record_id as int].mtime_sec == last.mtime_sec);
        assert(added[j].mtime_sec == first.mtime_sec);
        assert(last.mtime_not_after(first));
        lemma_append_keeps_order(mtimes, behind, base.len() as int);
    } else {
        assert(behind =~= Seq::empty());
        assert(mtimes + behind =~= mtimes);
    }
    seq_lib::lemma_multiset_commutative(mtimes, behind);
    seq_lib::lemma_multiset_commutative(old_records, new_records);
    assert((mtimes + behind).to_multiset() =~= (old_records + new_records).to_multiset());
    record::lemma_chronological_unique(mtimes + behind, old_records + new_records);
    assert(later_mtimes == mtimes + behind);
    assert forall|p: int| 0 <= p <= n implies (#[trigger] mtimes[p]).record_id < names.len() by {
        lemma_record_is_of_file(base, p);
    }
    append_keeps_hash_of_prefix(mtimes, behind, names, entry::basenames(added), n);
}

/// A lookup in an index of `files` whose names are any that a POSIX directory can
/// hold, of up to 64 bytes, gives the whole path and the exact time of the file
/// at that position: the buffer holds all of the parent path, a separator, and
/// all of the basename, and the result their length.
pub proof fn lookup_gives_whole_path_and_exact_time<M, N>(
    header: ChronoIndexHeader,
    mtimes: Seq<MtimeRecord>,
    names: Seq<Seq<u8>>,
    files: Seq<FileFact>,
    position: u64,
    read_mtimes_at: M,
    read_names_at: N,
    before: Seq<u8>,
    after: Seq<u8>,
    result: Result<Option<ChronoLookupResult>, ChronoIndexError>,
) where
    M: Fn(u64) -> Option<[u8; MTIME_RECORD_SIZE]>,
    N: Fn(u64) -> Option<[u8; NAME_RECORD_SIZE]>,

    requires
        represents(header, mtimes, names, files),
        files.len() * 64 <= u64::MAX,
        forall|i: int| 0 <= i < files.len() ==> (#[trigger] files[i]).basename.len() <= 64,
        forall|i: int, k: int|
            0 <= i < files.len() && 0 <= k < files[i].basename.len()
                ==> #[trigger] files[i].basename[k] != 0,
        serves_mtimes(read_mtimes_at, record::records_file(mtimes)),
        serves_names(read_names_at, names::names_file(names)),
        before.len() == 4096,
        position < files.len(),
        header.parent().len() > 0,
        header.parent().len() + 65 <= 4096,
        lookup::is_lookup(
            Ok(Some(header)),
            position,
            read_mtimes_at,
            read_names_at,
            before,
            after,
            result,
        ),
    ensures
        mtimes[position as int].record_id < files.len(),
        ({
            let file = files[mtimes[position as int].record_id as int];
            let parent = header.parent();
            &&& result matches Ok(Some(found))
            &&& found.looked_up_file_mtime_sec == file.mtime_sec
            &&& found.looked_up_file_mtime_nsec == file.mtime_nsec
            &&& found.path_byte_length == parent.len() + file.basename.len() + if parent[
            parent.len() - 1] == 0x2f {
                0int
            } else {
                1int
            }
            &&& after.len() == before.len()
            &&& forall|i: int| 0 <= i < parent.len() ==> after[i] == #[trigger] parent[i]
            &&& after[found.path_byte_length - file.basename.len() - 1] == 0x2f
            &&& forall|i: int|
                0 <= i < file.basename.len() ==> after[found.path_byte_length
                    - file.basename.len() + i] == #[trigger] file.basename[i]
        }),
{
    lemma_record_is_of_file(files, position as int);
    lookup_in_stored_index(
        header,
        mtimes,
        names,
        files,
        position,
        read_mtimes_at,
        read_names_at,
        before,
        after,
        result,
    );
    let file = files[mtimes[position as int].record_id as int];
    let path = lookup::joined_path(header.parent(), file.basename);
    lookup::path_is_parent_separator_and_basename(header.parent(), file.basename);
    lookup_finds_file_at_position(header, mtimes, names, files, position);
    assert(after =~= before.update_subrange_with(0, path));
    assert(after.take(path.len() as int) =~= path);
    assert forall|i: int| 0 <= i < path.len() implies after[i] == path[i] by {
        assert(after.take(path.len() as int)[i] == after[i]);
    }
}

/// The files of an index are found in ascending order of time: of two positions
/// the later one has more seconds, or as many and more nanoseconds, or the same
/// time and a file that was taken in later.
pub proof fn positions_ascend_in_exact_time(
    header: ChronoIndexHeader,
    mtimes: Seq<MtimeRecord>,
    names: Seq<Seq<u8>>,
    files: Seq<FileFact>,
    earlier: int,
    later: int,
)
    requires
        represents(header, mtimes, names, files),
        0 <= earlier < later < files.len(),
    ensures
        ({
            let i = mtimes[earlier].record_id as int;
            let j = mtimes[later].record_id as int;
            &&& mtimes.len() == files.len()
            &&& 0 <= i < files.len() && 0 <= j < files.len() && i != j
            &&& files[i].mtime_sec <= files[j].mtime_sec
            &&& files[i].mtime_sec == files[j].mtime_sec ==> files[i].mtime_nsec
                <= files[j].mtime_nsec
            &&& files[i].mtime_sec == files[j].mtime_sec && files[i].mtime_nsec
                == files[j].mtime_nsec ==> i < j
            &&& mtimes[earlier].mtime_sec == files[i].mtime_sec
            &&& mtimes[earlier].mtime_nsec == files[i].mtime_nsec
        }),
{
    lemma_record_is_of_file(files, earlier);
    lemma_record_is_of_file(files, later);
    record::sorted_records_ascend_in_time(entry::file_records(files, 0), earlier, later);
    every_file_has_one_position(header, mtimes, names, files, mtimes[earlier].record_id);
}

/// What the hash of an index up to a position is, in terms of the files: that up
/// to position zero takes in the oldest file from the offset basis on, and that
/// up to the next position goes on from there with the next file, and so on to
/// the last. So a check up to any position is about every file up to it.
pub proof fn hash_takes_in_every_file_up_to_position<M, N>(
    header: ChronoIndexHeader,
    mtimes: Seq<MtimeRecord>,
    names: Seq<Seq<u8>>,
    files: Seq<FileFact>,
    position: u64,
    read_mtimes_at: M,
    read_names_at: N,
    before: Result<u64, ChronoIndexError>,
    result: Result<u64, ChronoIndexError>,
    previous_hash: u64,
    unchanged: Result<bool, ChronoIndexError>,
) where
    M: Fn(u64) -> Option<[u8; MTIME_RECORD_SIZE]>,
    N: Fn(u64) -> Option<[u8; NAME_RECORD_SIZE]>,

    requires
        represents(header, mtimes, names, files),
        files.len() * 64 <= u64::MAX,
        forall|i: int| 0 <= i < files.len() ==> (#[trigger] files[i]).basename.len() <= 64,
        forall|i: int, k: int|
            0 <= i < files.len() && 0 <= k < files[i].basename.len()
                ==> #[trigger] files[i].basename[k] != 0,
        serves_mtimes(read_mtimes_at, record::records_file(mtimes)),
        serves_names(read_names_at, names::names_file(names)),
        position < files.len(),
        position > 0 ==> lookup::is_sequence_hash(
            Ok(Some(header)),
            (position - 1) as u64,
            read_mtimes_at,
            read_names_at,
            before,
        ),
        lookup::is_sequence_hash(
            Ok(Some(header)),
            position,
            read_mtimes_at,
            read_names_at,
            result,
        ),
        lookup::is_hash_check(
            Ok(Some(header)),
            position,
            previous_hash,
            read_mtimes_at,
            read_names_at,
            unchanged,
        ),
    ensures
        mtimes[position as int].record_id < files.len(),
        ({
            let file = files[mtimes[position as int].record_id as int];
            &&& position == 0 ==> result == Ok::<u64, ChronoIndexError>(
                lookup::fed_position(
                    0xcbf2_9ce4_8422_2325,
                    file.mtime_sec,
                    file.mtime_nsec,
                    file.basename,
                ),
            )
            &&& position > 0 ==> before is Ok && result == Ok::<u64, ChronoIndexError>(
                lookup::fed_position(
                    before->Ok_0,
                    file.mtime_sec,
                    file.mtime_nsec,
                    file.basename,
                ),
            )
            &&& unchanged == Ok::<bool, ChronoIndexError>(result->Ok_0 == previous_hash)
        }),
{
    let p = position as int;
    lemma_record_is_of_file(files, p);
    let file = files[mtimes[p].record_id as int];
    let taken = mtimes.take(p);
    hash_in_stored_index(
        header,
        mtimes,
        names,
        files,
        position,
        read_mtimes_at,
        read_names_at,
        result,
    );
    check_in_stored_index(
        header,
        mtimes,
        names,
        files,
        position,
        previous_hash,
        read_mtimes_at,
        read_names_at,
        unchanged,
    );
    lookup::sequence_hash_goes_on_with_every_position(
        taken,
        basenames_in_order(taken, names),
        mtimes[p],
        file.basename,
    );
    assert(mtimes.take(p + 1) =~= taken.push(mtimes[p]));
    assert(basenames_in_order(mtimes.take(p + 1), names) =~= basenames_in_order(
        taken,
        names,
    ).push(file.basename));
    if position > 0 {
        hash_in_stored_index(
            header,
            mtimes,
            names,
            files,
            (position - 1) as u64,
            read_mtimes_at,
            read_names_at,
            before,
        );
    } else {
        assert(taken =~= Seq::empty());
        assert(basenames_in_order(taken, names) =~= Seq::empty());
    }
}

/// What calls of [`chrono_sort_hash_to_n`] return for two positions in a row: the
/// later hash goes on from the earlier one with the file at the later position,
/// its seconds, nanoseconds and whole name; and a call of
/// [`check_chronosort_hash_to_n`] tells whether it is the one that is given.
pub proof fn calls_hash_position_by_position<M, N>(
    header: ChronoIndexHeader,
    mtimes: Seq<MtimeRecord>,
    names: Seq<Seq<u8>>,
    files: Seq<FileFact>,
    position: u64,
    read_mtimes_at: M,
    read_names_at: N,
    before: Result<u64, ChronoIndexError>,
    result: Result<u64, ChronoIndexError>,
    previous_hash: u64,
    unchanged: Result<bool, ChronoIndexError>,
) where
    M: Fn(u64) -> Option<[u8; MTIME_RECORD_SIZE]>,
    N: Fn(u64) -> Option<[u8; NAME_RECORD_SIZE]>,

    requires
        represents(header, mtimes, names, files),
        files.len() * 64 <= u64::MAX,
        forall|i: int| 0 <= i < files.len() ==> (#[trigger] files[i]).basename.len() <= 64,
        forall|i: int, k: int|
            0 <= i < files.len() && 0 <= k < files[i].basename.len()
                ==> #[trigger] files[i].basename[k] != 0,
        serves_mtimes(read_mtimes_at, record::records_file(mtimes)),
        serves_names(read_names_at, names::names_file(names)),
        0 < position < files.len(),
        call_ensures(
            chrono_sort_hash_to_n::<M, N>,
            (Ok(Some(header)), (position - 1) as u64, read_mtimes_at, read_names_at),
            before,
        ),
        call_ensures(
            chrono_sort_hash_to_n::<M, N>,
            (Ok(Some(header)), position, read_mtimes_at, read_names_at),
            result,
        ),
        call_ensures(
            check_chronosort_hash_to_n::<M, N>,
            (Ok(Some(header)), position, previous_hash, read_mtimes_at, read_names_at),
            unchanged,
        ),
    ensures
        ({
            let file = files[mtimes[position as int].record_id as int];
            &&& before is Ok
            &&& result == Ok::<u64, ChronoIndexError>(
                lookup::fed_position(
                    before->Ok_0,
                    file.mtime_sec,
                    file.mtime_nsec,
                    file.basename,
                ),
            )
            &&& unchanged == Ok::<bool, ChronoIndexError>(result->Ok_0 == previous_hash)
        }),
{
    hash_takes_in_every_file_up_to_position(
        header,
        mtimes,
        names,
        files,
        position,
        read_mtimes_at,
        read_names_at,
        before,
        result,
        previous_hash,
        unchanged,
    );
}

} // verus!
