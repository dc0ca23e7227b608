//! What an append takes in of what the directory and the sidecar gave.

use vstd::prelude::*;
use vstd::seq_lib;
use crate::append;
use crate::append::{
    incremental_append_new_files, AppendEvent, AppendModel, AppendSession, AppendStep, FlushPurpose,
    TrimmedSizes,
};
use crate::counting;
use crate::entry;
use crate::entry::{DirectoryEntry, EntryView, FileFact, Observed};
use crate::error::ChronoIndexError;
use crate::hash;
use crate::header::ChronoIndexHeader;
use crate::layout::{NAME_HASH_RECORD_SIZE, NAME_RECORD_SIZE};
use crate::lifecycle;
use crate::little_endian;
use crate::names;
use crate::record;
use crate::record::MtimeRecord;
use crate::scan_events;
use crate::sidecar;

verus! {

/// Where the next entry of the directory is a regular file with a name of up to
/// 64 bytes, whatever that is, and the sidecar does not know the hash of that
/// name, the append asks for the file to be examined, then for its name and its
/// name hash to be appended; and once that is done, it has taken in one more
/// file, with exactly this name and this time, under the next number. The batch
/// is flushed exactly where it holds 256 files then.
pub proof fn new_file_is_taken_in(
    m: AppendModel,
    found: DirectoryEntry,
    mtime_sec: i64,
    mtime_nsec: i64,
)
    requires
        m.step is NextEntry,
        m.is_sound(),
        m.header.file_count < u64::MAX,
        found matches DirectoryEntry::Regular(name) && name@.len() <= 64,
    ensures
        ({
            let name = found->Regular_0@;
            let listed = m.after(AppendEvent::Entry(found));
            let unknown = listed.after(AppendEvent::Known(false));
            let examined = unknown.after(AppendEvent::Stat { mtime_sec, mtime_nsec });
            let named = examined.after(AppendEvent::Succeeded);
            let end = named.after(AppendEvent::Succeeded);
            let nsec = if 0 <= mtime_nsec < 1_000_000_000 {
                mtime_nsec as i32
            } else {
                0i32
            };
            &&& listed.step == AppendStep::SearchSidecar(hash::fnv1a(name))
            &&& unknown.step is StatEntry && examined.step is AppendName && named.step is AppendHash
            &&& examined.pending.basename == name && named.pending.basename == name
            &&& named.files_taken == m.files_taken && named.seen == m.seen
            &&& end.seen == m.seen.push(
                Observed {
                    entry: EntryView::Regular(name),
                    stat: Some((mtime_sec, nsec as i64)),
                },
            )
            &&& end.files_taken == m.files_taken.push(
                FileFact { basename: name, mtime_sec, mtime_nsec: nsec },
            )
            &&& end.names_written == m.names_written.push(name)
            &&& end.hashes_written == m.hashes_written.push(hash::fnv1a(name))
            &&& end.known == m.known
            &&& end.flushes == m.flushes
            &&& end.summary == m.summary
            &&& end.header == (ChronoIndexHeader {
                file_count: (m.header.file_count + 1) as u64,
                ..m.header
            })
            &&& end.batch_names == m.batch_names.push(name)
            &&& end.batch.len() == m.batch.len() + 1
            &&& end.batch.to_multiset() == m.batch.to_multiset().insert(
                MtimeRecord { mtime_sec, mtime_nsec: nsec, record_id: m.header.file_count },
            )
            &&& m.batch.len() + 1 < 256 <==> end.step is NextEntry
            &&& m.batch.len() + 1 == 256 <==> end.step is AppendMtimes || end.step
                is RewriteMtimes
        }),
{
    let nsec = if 0 <= mtime_nsec < 1_000_000_000 {
        mtime_nsec as i32
    } else {
        0i32
    };
    let added = MtimeRecord { mtime_sec, mtime_nsec: nsec, record_id: m.header.file_count };
    let grown = m.batch.push(added);
    record::lemma_chronological_sorts(grown);
    broadcast use vstd::seq_lib::group_to_multiset_ensures;

}

/// A file whose name hash the sidecar knows is left alone: nothing is examined,
/// written or counted for it.
pub proof fn known_file_is_left_alone(m: AppendModel, found: DirectoryEntry)
    requires
        m.step is NextEntry,
        found matches DirectoryEntry::Regular(name) && name@.len() <= 64,
    ensures
        ({
            let name = found->Regular_0@;
            let listed = m.after(AppendEvent::Entry(found));
            let end = listed.after(AppendEvent::Known(true));
            &&& listed.step == AppendStep::SearchSidecar(hash::fnv1a(name))
            &&& end.known == m.known.push(name)
            &&& end == (AppendModel { known: end.known, pending: end.pending, ..m })
        }),
{
}

/// Any other entry is dealt with at once, or once its file could not be examined:
/// nothing is written for it and no file taken in, and it is counted for its
/// reason.
pub proof fn other_entry_is_passed_over(m: AppendModel, found: DirectoryEntry)
    requires
        m.step is NextEntry,
    ensures
        ({
            let fits = found matches DirectoryEntry::Regular(name) && name@.len() <= 64;
            let listed = m.after(AppendEvent::Entry(found));
            let end = if fits {
                listed.after(AppendEvent::Known(false)).after(AppendEvent::Failed)
            } else {
                listed
            };
            &&& end.seen == m.seen.push(Observed { entry: found@, stat: None })
            &&& end == (AppendModel {
                seen: end.seen,
                pending: end.pending,
                summary: end.summary,
                ..m
            })
            &&& end.summary.files_appended == m.summary.files_appended
            &&& end.summary.invariant_breaches_this_call == m.summary.invariant_breaches_this_call
            &&& counting::is_counted(
                m.summary.entries_skipped_non_regular,
                end.summary.entries_skipped_non_regular,
                found is NotRegular,
            )
            &&& counting::is_counted(
                m.summary.entries_skipped_overlong_name,
                end.summary.entries_skipped_overlong_name,
                found is Regular && !fits,
            )
            &&& counting::is_counted(
                m.summary.entries_skipped_stat_failed,
                end.summary.entries_skipped_stat_failed,
                found is Unreadable || fits,
            )
        }),
{
}

/// What the directory gave of files that are not in the sidecar: each entry that
/// was listed when the append asked for one, without those that the sidecar
/// turned out to know, and with it the time that examining its file gave when the
/// append asked for that.
pub open spec fn given(header: ChronoIndexHeader, events: Seq<AppendEvent>) -> Seq<Observed>
    decreases events.len(),
{
    if events.len() == 0 {
        Seq::empty()
    } else {
        let front = events.drop_last();
        let step = lifecycle::after_all(AppendModel::start(header), front).step;
        next_given(step, given(header, front), events.last())
    }
}

/// What is given with one more event that comes of `step`.
pub open spec fn next_given(
    step: AppendStep,
    before: Seq<Observed>,
    event: AppendEvent,
) -> Seq<Observed> {
    match (step, event) {
        (AppendStep::NextEntry, AppendEvent::Entry(found)) => before.push(
            Observed {
                entry: match found {
                    DirectoryEntry::Unreadable => EntryView::Unreadable,
                    DirectoryEntry::NotRegular => EntryView::NotRegular,
                    DirectoryEntry::Regular(name) => EntryView::Regular(name@),
                },
                stat: None,
            },
        ),
        (AppendStep::SearchSidecar(_), AppendEvent::Known(known)) => if known {
            before.drop_last()
        } else {
            before
        },
        (AppendStep::StatEntry, AppendEvent::Stat { mtime_sec, mtime_nsec }) => before.update(
            before.len() - 1,
            Observed { entry: before.last().entry, stat: Some((mtime_sec, mtime_nsec)) },
        ),
        _ => before,
    }
}

/// The last of `all` is the regular file that `m` is taking in, with a name that
/// fits, and all before it are dealt with.
pub open spec fn is_taking_in_last(m: AppendModel, all: Seq<Observed>) -> bool {
    &&& all.len() > 0
    &&& scan_events::is_all_of(m.seen, all.drop_last())
    &&& all.last().entry == EntryView::Regular(m.pending.basename)
    &&& m.pending.basename.len() <= 64
}

/// What an append has made of what the directory gave.
pub open spec fn has_made_of(m: AppendModel, all: Seq<Observed>) -> bool {
    match m.step {
        AppendStep::EnsureSidecar | AppendStep::OpenDirectory => {
            m.seen.len() == 0 && all.len() == 0
        },
        AppendStep::SearchSidecar(name_hash) => {
            &&& is_taking_in_last(m, all)
            &&& all.last().stat is None
            &&& name_hash == hash::fnv1a(m.pending.basename)
        },
        AppendStep::StatEntry => is_taking_in_last(m, all) && all.last().stat is None,
        AppendStep::AppendName | AppendStep::AppendHash => {
            &&& is_taking_in_last(m, all)
            &&& all.last().stat matches Some((sec, nsec)) && m.pending.mtime_sec == sec
                && m.pending.mtime_nsec == if 0 <= nsec < 1_000_000_000 {
                nsec
            } else {
                0i64
            }
        },
        _ => scan_events::is_all_of(m.seen, all) || (m.purpose is Fail && is_taking_in_last(m, all)),
    }
}

#[verifier::opaque]
spec fn has_made_soundly(m: AppendModel, all: Seq<Observed>) -> bool {
    m.is_sound() && has_made_of(m, all)
}

proof fn lemma_step_makes_of(m: AppendModel, all: Seq<Observed>, event: AppendEvent)
    requires
        has_made_soundly(m, all),
    ensures
        has_made_soundly(m.after(event), next_given(m.step, all, event)),
{
    reveal(has_made_soundly);
    let more = next_given(m.step, all, event);
    let n = m.after(event);
    append::append_stays_sound(m, event);
    match (m.step, event) {
        (AppendStep::NextEntry, AppendEvent::Entry(found)) => {
            entry::listed_entry_is_spoken_of(found);
            assert(more.drop_last() =~= all);
        },
        (AppendStep::StatEntry, AppendEvent::Stat { mtime_sec: _, mtime_nsec: _ }) => {
            assert(more.drop_last() =~= all.drop_last());
        },
        (AppendStep::StatEntry | AppendStep::AppendHash, _) => {
            assert(all =~= all.drop_last().push(all.last()));
            assert forall|i: int| 0 <= i < m.seen.len() implies all[i] == all.drop_last()[i] by {}
        },
        _ => {},
    }
}

proof fn lemma_append_makes_of(header: ChronoIndexHeader, events: Seq<AppendEvent>)
    ensures
        has_made_soundly(
            lifecycle::after_all(AppendModel::start(header), events),
            given(header, events),
        ),
    decreases events.len(),
{
    if events.len() == 0 {
        append::append_starts_sound(header);
        reveal(has_made_soundly);
    } else {
        let front = events.drop_last();
        lemma_append_makes_of(header, front);
        lemma_step_makes_of(
            lifecycle::after_all(AppendModel::start(header), front),
            given(header, front),
            events.last(),
        );
    }
}

/// Whatever comes of the steps of an append, the entries that it has dealt with
/// are those that the directory gave and the sidecar did not know, all of them and
/// in their order, each with the time that examining its file gave; but for the
/// one that it is taking in, or was when a step failed. Where no step has failed
/// and none is being taken in, the files taken in are exactly those among them
/// that have a name that fits and could be examined.
pub proof fn append_deals_with_all_that_is_given(
    header: ChronoIndexHeader,
    events: Seq<AppendEvent>,
)
    ensures
        ({
            let end = lifecycle::after_all(AppendModel::start(header), events);
            &&& has_made_of(end, given(header, events))
            &&& !(end.purpose is Fail) && !(end.step is SearchSidecar) && !(end.step is StatEntry)
                && !(end.step is AppendName) && !(end.step is AppendHash) ==> end.files_taken
                == entry::indexed_files(given(header, events))
            &&& end.files_taken.is_prefix_of(entry::indexed_files(given(header, events)))
        }),
{
    let end = lifecycle::after_all(AppendModel::start(header), events);
    let all = given(header, events);
    lemma_append_makes_of(header, events);
    reveal(has_made_soundly);
    if scan_events::is_all_of(end.seen, all) {
        scan_events::lemma_same_files(end.seen, all);
    } else if all.len() > 0 && scan_events::is_all_of(end.seen, all.drop_last()) {
        scan_events::lemma_same_files(end.seen, all.drop_last());
        assert(all =~= all.drop_last().push(all.last()));
        entry::lemma_seen_push(all.drop_last(), all.last());
    } else {
        assert(end.seen =~= Seq::empty());
        assert(all =~= Seq::empty());
        assert(scan_events::is_all_of(end.seen, all));
    }
}

/// The basenames that the sidecar turned out to know.
pub open spec fn known_names(header: ChronoIndexHeader, events: Seq<AppendEvent>) -> Seq<Seq<u8>>
    decreases events.len(),
{
    if events.len() == 0 {
        Seq::empty()
    } else {
        let front = events.drop_last();
        let before = known_names(header, front);
        match (lifecycle::after_all(AppendModel::start(header), front).step, events.last()) {
            (AppendStep::SearchSidecar(_), AppendEvent::Known(true)) => before.push(
                given(header, front).last().entry->Regular_0,
            ),
            _ => before,
        }
    }
}

proof fn lemma_step_finds_known(m: AppendModel, event: AppendEvent)
    ensures
        m.after(event).known == match (m.step, event) {
            (AppendStep::SearchSidecar(_), AppendEvent::Known(true)) => m.known.push(
                m.pending.basename,
            ),
            _ => m.known,
        },
{
}

/// The basenames that an append has left alone are those that the sidecar turned
/// out to know.
pub proof fn append_leaves_known_names_alone(header: ChronoIndexHeader, events: Seq<AppendEvent>)
    ensures
        lifecycle::after_all(AppendModel::start(header), events).known == known_names(
            header,
            events,
        ),
    decreases events.len(),
{
    if events.len() > 0 {
        let front = events.drop_last();
        append_leaves_known_names_alone(header, front);
        append_deals_with_all_that_is_given(header, front);
        lemma_step_finds_known(
            lifecycle::after_all(AppendModel::start(header), front),
            events.last(),
        );
    }
}

/// A modification time comes before another.
pub open spec fn is_older(record: MtimeRecord, sec: i64, nsec: i32) -> bool {
    record.mtime_sec < sec || record.mtime_sec == sec && record.mtime_nsec < nsec
}

/// One of `records` is older than the newest indexed file.
pub open spec fn some_is_older(records: Seq<MtimeRecord>, header: ChronoIndexHeader) -> bool {
    exists|i: int|
        0 <= i < records.len() && is_older(
            #[trigger] records[i],
            header.last_mtime_sec,
            header.last_mtime_nsec,
        )
}

/// At the end of the directory, what the batch holds is flushed: `mtimes.bin` is
/// rewritten exactly where one of its files is older than the newest indexed file
/// and the index held any file before, and is appended to otherwise. With an empty
/// batch the append goes on to make its files durable.
pub proof fn older_file_leads_to_rewrite(m: AppendModel)
    requires
        m.step is NextEntry,
    ensures
        ({
            let end = m.after(AppendEvent::EndOfDirectory);
            &&& m.batch.len() == 0 ==> end.step is SyncFiles
            &&& m.batch.len() > 0 ==> {
                &&& end.batch.to_multiset() == m.batch.to_multiset()
                &&& record::is_chronological(end.batch)
                &&& some_is_older(m.batch, m.header) && m.header.file_count != m.batch.len()
                    ==> end.step is RewriteMtimes
                &&& !some_is_older(m.batch, m.header) || m.header.file_count == m.batch.len()
                    ==> end.step is AppendMtimes
            }
        }),
{
    let end = m.after(AppendEvent::EndOfDirectory);
    if m.batch.len() > 0 {
        let sorted = record::chronological(m.batch);
        record::lemma_chronological_sorts(m.batch);
        if some_is_older(m.batch, m.header) {
            let i = choose|i: int|
                0 <= i < m.batch.len() && is_older(
                    #[trigger] m.batch[i],
                    m.header.last_mtime_sec,
                    m.header.last_mtime_nsec,
                );
            seq_lib::to_multiset_contains(m.batch, m.batch[i]);
            seq_lib::to_multiset_contains(sorted, m.batch[i]);
            assert(m.batch.contains(m.batch[i]));
            let k = choose|k: int| 0 <= k < sorted.len() && sorted[k] == m.batch[i];
            if k > 0 {
                assert(sorted[0].not_after(sorted[k]));
                record::earlier_time_comes_first(sorted[0], sorted[k]);
            }
        } else {
            assert(sorted.contains(sorted[0]));
            seq_lib::to_multiset_contains(sorted, sorted[0]);
            seq_lib::to_multiset_contains(m.batch, sorted[0]);
            let k = choose|k: int| 0 <= k < m.batch.len() && m.batch[k] == sorted[0];
            assert(!is_older(m.batch[k], m.header.last_mtime_sec, m.header.last_mtime_nsec));
        }
    }
}

/// The count of older files is one by one.
pub proof fn older_files_are_counted(
    records: Seq<MtimeRecord>,
    record: MtimeRecord,
    sec: i64,
    nsec: i32,
)
    ensures
        append::older_than(Seq::empty(), sec, nsec) == 0,
        append::older_than(records.push(record), sec, nsec) == append::older_than(
            records,
            sec,
            nsec,
        ) + if is_older(record, sec, nsec) {
            1int
        } else {
            0int
        },
{
    assert(records.push(record).drop_last() =~= records);
}

/// A flush leaves the batch empty and counts its files; it is remembered with all
/// of its records. After an append to `mtimes.bin` the newest indexed file is the
/// last of the batch; after a rewrite it is the one that was reported, and the
/// header counts one rewrite more, and the summary the files that were older than
/// the newest indexed file before.
pub proof fn flush_is_counted(m: AppendModel, newest_sec: i64, newest_nsec: i32)
    requires
        m.step is AppendMtimes || m.step is RewriteMtimes,
        m.summary.files_appended + m.batch.len() <= u64::MAX,
        m.summary.invariant_breaches_this_call + append::older_than(
            m.batch,
            m.header.last_mtime_sec,
            m.header.last_mtime_nsec,
        ) <= u64::MAX,
        m.header.invariant_breach_count < u64::MAX,
    ensures
        ({
            let rewritten = m.step is RewriteMtimes;
            let end = m.after(
                if rewritten {
                    AppendEvent::Rewritten { newest_sec, newest_nsec }
                } else {
                    AppendEvent::Succeeded
                },
            );
            let older = append::older_than(
                m.batch,
                m.header.last_mtime_sec,
                m.header.last_mtime_nsec,
            );
            &&& end.batch.len() == 0 && end.batch_names.len() == 0
            &&& end.files_taken == m.files_taken && end.seen == m.seen
            &&& end.names_written == m.names_written && end.hashes_written == m.hashes_written
            &&& end.flushes.len() == m.flushes.len() + 1 && end.flushes.drop_last() == m.flushes
            &&& end.flushes.last().records == m.batch
            &&& end.flushes.last().rewritten == rewritten
            &&& end.summary.files_appended == m.summary.files_appended + m.batch.len()
            &&& end.summary.invariant_breaches_this_call == m.summary.invariant_breaches_this_call
                + if rewritten {
                older
            } else {
                0
            }
            &&& end.header.invariant_breach_count == m.header.invariant_breach_count
                + if rewritten {
                1int
            } else {
                0int
            }
            &&& end.header.file_count == m.header.file_count
            &&& end.header.signal_hash == m.header.signal_hash ^ hash::signal_hash(m.batch_names)
            &&& rewritten ==> end.header.last_mtime_sec == newest_sec && end.header.last_mtime_nsec
                == newest_nsec
            &&& !rewritten ==> end.header.last_mtime_sec == m.batch[m.batch.len()
                - 1].mtime_sec && end.header.last_mtime_nsec == m.batch[m.batch.len()
                - 1].mtime_nsec
            &&& m.purpose is Full ==> end.step is NextEntry
            &&& m.purpose is Final ==> end.step is SyncFiles
            &&& m.purpose is Fail ==> end.step is TrimFiles
        }),
{
    let rewritten = m.step is RewriteMtimes;
    let end = m.after(
        if rewritten {
            AppendEvent::Rewritten { newest_sec, newest_nsec }
        } else {
            AppendEvent::Succeeded
        },
    );
    assert(end.flushes.drop_last() =~= m.flushes);
}

/// The error that a failed step of an append leads to: opening the directory,
/// searching the sidecar, appending a name, a name hash or modification times and
/// cutting the files fail with an I/O error of the append; making the sidecar
/// agree, the rewrite and writing the header with the error that they reported.
/// Once a step has failed, the append ends with the error of the first one.
pub proof fn append_fails_with_first_error(m: AppendModel, event: AppendEvent)
    requires
        m.is_sound(),
    ensures
        m.purpose matches FlushPurpose::Fail(first) ==> {
            &&& m.after(event).purpose == m.purpose
            &&& !(m.step is Failed) && m.after(event).step is Failed ==> m.after(event).step
                == AppendStep::Failed(first)
            &&& !(m.after(event).step is Finished)
        },
        m.step is OpenDirectory && event is Failed ==> m.after(event).step == AppendStep::Failed(
            ChronoIndexError::AppendIo,
        ),
        event is Failed && (m.step is SearchSidecar || m.step is AppendName || m.step
            is AppendHash || m.step is AppendMtimes && !(m.purpose is Fail)) ==> m.after(
            event,
        ).purpose == FlushPurpose::Fail(ChronoIndexError::AppendIo),
        m.step is EnsureSidecar ==> (event matches AppendEvent::FailedWith(error) ==> m.after(
            event,
        ).step == AppendStep::Failed(error)),
        m.step is RewriteMtimes && !(m.purpose is Fail) ==> (event matches AppendEvent::FailedWith(
            error,
        ) ==> m.after(event).purpose == FlushPurpose::Fail(error)),
        m.step is WriteHeader && !(m.purpose is Fail) ==> (event matches AppendEvent::FailedWith(
            error,
        ) ==> m.after(event).step == AppendStep::Failed(error)),
        m.step is WriteHeader && !(m.purpose is Fail) && event is Succeeded ==> m.after(event).step
            is Finished,
        m.step is TrimFiles && event is Succeeded ==> m.after(event).step is WriteHeader,
{
}

/// A flush that fails gives up exactly the files of the batch: the header counts
/// them no longer, and those taken in before them stay.
pub proof fn failed_flush_gives_up_its_batch(m: AppendModel, event: AppendEvent)
    requires
        m.is_sound(),
        m.step is AppendMtimes && event is Failed || m.step is RewriteMtimes && event
            is FailedWith,
    ensures
        ({
            let end = m.after(event);
            &&& end.step is TrimFiles
            &&& end.files_taken.len() == m.files_taken.len() - m.batch.len()
            &&& end.files_taken == m.files_taken.take(m.files_taken.len() - m.batch.len())
            &&& end.header == (ChronoIndexHeader {
                file_count: (m.header.file_count - m.batch.len()) as u64,
                ..m.header
            })
            &&& end.summary == m.summary
            &&& end.flushes == m.flushes
            &&& end.batch.len() == 0
        }),
{
}

/// The sizes to which files are cut are those of files with so many records of
/// 64, 8 and 20 bytes.
pub proof fn cut_files_have_whole_records(
    names: Seq<Seq<u8>>,
    hashes: Seq<u64>,
    records: Seq<MtimeRecord>,
    count: u64,
)
    requires
        names.len() == count,
        hashes.len() == count,
        records.len() == count,
        count * 64 <= u64::MAX,
    ensures
        append::trimmed_size(count, 64) == Some((count * 64) as u64),
        append::trimmed_size(count, 8) == Some((count * 8) as u64),
        append::trimmed_size(count, 20) == Some((count * 20) as u64),
        names::names_file(names).len() == count * 64,
        sidecar::hashes_file(hashes).len() == count * 8,
        record::records_file(records).len() == count * 20,
{
}

/// Five calls take a file in: with an entry of a regular file with a name of up to
/// 64 bytes, with the answer that the sidecar does not know it, with its
/// modification time, and with the success of the two appends that are asked for
/// then, [`incremental_append_new_files`] leads to an append with one more file, of
/// that name and time, and a header that counts it.
pub proof fn five_calls_take_in_a_file(
    session: AppendSession,
    found: DirectoryEntry,
    mtime_sec: i64,
    mtime_nsec: i64,
    listed: AppendSession,
    unknown: AppendSession,
    examined: AppendSession,
    named: AppendSession,
    end: AppendSession,
)
    requires
        session@.step is NextEntry,
        session@.is_sound(),
        session@.header.file_count < u64::MAX,
        found matches DirectoryEntry::Regular(name) && name@.len() <= 64,
        call_ensures(
            incremental_append_new_files,
            (session, AppendEvent::Entry(found)),
            listed,
        ),
        call_ensures(incremental_append_new_files, (listed, AppendEvent::Known(false)), unknown),
        call_ensures(
            incremental_append_new_files,
            (unknown, AppendEvent::Stat { mtime_sec, mtime_nsec }),
            examined,
        ),
        call_ensures(incremental_append_new_files, (examined, AppendEvent::Succeeded), named),
        call_ensures(incremental_append_new_files, (named, AppendEvent::Succeeded), end),
    ensures
        end@.files_taken == session@.files_taken.push(
            FileFact {
                basename: found->Regular_0@,
                mtime_sec,
                mtime_nsec: if 0 <= mtime_nsec < 1_000_000_000 {
                    mtime_nsec as i32
                } else {
                    0
                },
            },
        ),
        end@.header.file_count == session@.header.file_count + 1,
{
    new_file_is_taken_in(session@, found, mtime_sec, mtime_nsec);
}

/// An append ends with its header: once the directory is at its end and the batch
/// in `mtimes.bin`, the files are made durable as far as that can be done, then
/// the header is written; where a step has failed, the files are cut first, and
/// where they cannot be cut, no header is written.
pub proof fn append_ends_with_its_header(m: AppendModel)
    requires
        m.is_sound(),
    ensures
        m.step is SyncFiles ==> {
            &&& m.after(AppendEvent::Succeeded) == (AppendModel { step: AppendStep::WriteHeader, ..m })
            &&& m.after(AppendEvent::Failed) == (AppendModel { step: AppendStep::WriteHeader, ..m })
        },
        m.step is TrimFiles ==> {
            &&& m.after(AppendEvent::Succeeded).step is WriteHeader
            &&& m.after(AppendEvent::Succeeded).header == m.header
            &&& m.after(AppendEvent::Succeeded).names_written.len() == m.files_taken.len()
            &&& m.after(AppendEvent::Succeeded).hashes_written.len() == m.files_taken.len()
            &&& m.after(AppendEvent::Failed).step is Failed
        },
        m.step is WriteHeader && m.purpose is Fail ==> m.after(AppendEvent::Succeeded).step
            is Failed,
        m.step is EnsureSidecar ==> m.after(AppendEvent::Succeeded).step is OpenDirectory,
        m.step is OpenDirectory ==> m.after(AppendEvent::Succeeded).step is NextEntry,
{
}

/// An append is begun only over the directory that was indexed: a call of
/// [`AppendSession::begin`] with another path, an empty one or one that no header
/// can hold is refused, and with the path of the header nothing is done yet.
pub proof fn append_is_begun_over_indexed_directory(
    parent: &[u8],
    header: ChronoIndexHeader,
    session: Result<AppendSession, ChronoIndexError>,
)
    requires
        call_ensures(AppendSession::begin, (parent, &header), session),
    ensures
        session is Ok <==> 0 < parent@.len() <= 4096 && parent@ == header.parent(),
        parent@.len() > 4096 ==> session == Err::<AppendSession, ChronoIndexError>(
            ChronoIndexError::ParentPathTooLong,
        ),
        parent@.len() == 0 || parent@.len() <= 4096 && parent@ != header.parent() ==> session
            == Err::<AppendSession, ChronoIndexError>(ChronoIndexError::ParentPathInvalid),
        session matches Ok(begun) ==> {
            &&& begun@.header == header
            &&& begun@.step is EnsureSidecar
            &&& begun@.files_taken.len() == 0 && begun@.batch.len() == 0 && begun@.seen.len() == 0
            &&& begun@.summary.files_appended == 0
            &&& begun@.summary.invariant_breaches_this_call == 0
        },
{
}

/// What calls on an append hand out for its steps: a name record from which the
/// name of the file that is being taken in is read back, the eight bytes of the
/// hash of that name, bytes that hold the records of the batch, the header that
/// counts the files, and the sizes of files with a record for each of them.
pub proof fn append_hands_out_what_it_says(
    session: AppendSession,
    name: [u8; NAME_RECORD_SIZE],
    name_hash: [u8; NAME_HASH_RECORD_SIZE],
    bytes: Vec<u8>,
    header: &ChronoIndexHeader,
    sizes: TrimmedSizes,
)
    requires
        session@.pending.basename.len() <= 64,
        session@.header.file_count * 64 <= u64::MAX,
        forall|i: int|
            0 <= i < session@.pending.basename.len() ==> #[trigger] session@.pending.basename[i]
                != 0,
        call_ensures(AppendSession::name_record, (&session,), name),
        call_ensures(AppendSession::hash_record, (&session,), name_hash),
        call_ensures(AppendSession::batch_bytes, (&session,), bytes),
        call_ensures(AppendSession::header, (&session,), header),
        call_ensures(AppendSession::trimmed_sizes, (&session,), sizes),
    ensures
        names::basename_of(name@) == session@.pending.basename,
        little_endian::le_value(name_hash@) == hash::fnv1a(session@.pending.basename),
        record::records_in_file(bytes@) == session@.batch,
        *header == session@.header,
        sizes.names == Some((session@.header.file_count * 64) as u64),
        sizes.name_hashes == Some((session@.header.file_count * 8) as u64),
        sizes.mtimes == Some((session@.header.file_count * 20) as u64),
{
    names::name_record_round_trips(session@.pending.basename);
    little_endian::written_number_is_read_back(hash::fnv1a(session@.pending.basename), 8);
    record::records_file_round_trips(session@.batch);
}

} // verus!
