//! What a scan takes in of what the directory gave.

use vstd::prelude::*;
use crate::counting;
use crate::entry;
use crate::entry::{DirectoryEntry, EntryView, FileFact, Observed};
use crate::error::ChronoIndexError;
use crate::hash;
use crate::layout::{MTIME_RECORD_SIZE, NAME_RECORD_SIZE};
use crate::names;
use crate::record;
use crate::record::MtimeRecord;
use crate::scan;
use crate::scan::{
    phase1_stream_directory_into_files, ColdBuildSummary, DirectoryScan, ScanEvent, ScanModel,
    ScanStep,
};
use crate::scan_files;

verus! {

/// Where the next entry of the directory is a regular file with a name of up to
/// 64 bytes, whatever that is, the scan asks for the file to be examined, then for
/// its name to be written, then for its record; and once that is done, it has
/// taken in one more file, with exactly this name and this time.
pub proof fn fitting_file_is_taken_in(
    m: ScanModel,
    found: DirectoryEntry,
    mtime_sec: i64,
    mtime_nsec: i64,
)
    requires
        m.step is NextEntry,
        found matches DirectoryEntry::Regular(name) && name@.len() <= 64,
        m.files().len() < u64::MAX,
    ensures
        ({
            let name = found->Regular_0@;
            let listed = m.after(ScanEvent::Entry(found));
            let examined = listed.after(ScanEvent::Stat { mtime_sec, mtime_nsec });
            let named = examined.after(ScanEvent::Succeeded);
            let end = named.after(ScanEvent::Succeeded);
            let nsec = if 0 <= mtime_nsec < 1_000_000_000 {
                mtime_nsec as i32
            } else {
                0i32
            };
            &&& listed.step is StatEntry && examined.step is WriteName && named.step is WriteMtime
                && end.step is NextEntry
            &&& examined.pending.basename == name
            &&& named.pending_record().mtime_sec == mtime_sec
            &&& named.pending_record().mtime_nsec == nsec
            &&& named.pending_record().record_id == m.files().len()
            &&& listed.seen == m.seen && examined.seen == m.seen && named.seen == m.seen
            &&& end.seen == m.seen.push(
                Observed {
                    entry: EntryView::Regular(name),
                    stat: Some((mtime_sec, nsec as i64)),
                },
            )
            &&& end.files() == m.files().push(
                FileFact { basename: name, mtime_sec, mtime_nsec: nsec },
            )
            &&& end.names_written == m.names_written.push(name)
            &&& end.records_written == m.records_written.push(named.pending_record())
            &&& end.summary() == (ColdBuildSummary {
                files_indexed: (m.files().len() + 1) as u64,
                ..m.summary()
            })
        }),
{
    let name = found->Regular_0@;
    let nsec = if 0 <= mtime_nsec < 1_000_000_000 {
        mtime_nsec as i32
    } else {
        0i32
    };
    entry::lemma_seen_push(
        m.seen,
        Observed { entry: EntryView::Regular(name), stat: Some((mtime_sec, nsec as i64)) },
    );
}

/// Any other entry is dealt with at once: nothing is written for it and no file
/// taken in, and it is counted for its reason. One whose file cannot be examined
/// is passed over then.
pub proof fn other_entry_is_passed_over(m: ScanModel, found: DirectoryEntry)
    requires
        m.step is NextEntry,
    ensures
        ({
            let fits = found matches DirectoryEntry::Regular(name) && name@.len() <= 64;
            let listed = m.after(ScanEvent::Entry(found));
            let end = if fits {
                listed.after(ScanEvent::Failed)
            } else {
                listed
            };
            &&& end.step is NextEntry
            &&& end.seen == m.seen.push(Observed { entry: found@, stat: None })
            &&& end.files() == m.files()
            &&& end.names_written == m.names_written
            &&& end.records_written == m.records_written
            &&& end.summary().files_indexed == m.summary().files_indexed
            &&& counting::is_counted(
                m.summary().entries_skipped_non_regular,
                end.summary().entries_skipped_non_regular,
                found is NotRegular,
            )
            &&& counting::is_counted(
                m.summary().entries_skipped_overlong_name,
                end.summary().entries_skipped_overlong_name,
                found is Regular && !fits,
            )
            &&& counting::is_counted(
                m.summary().entries_skipped_stat_failed,
                end.summary().entries_skipped_stat_failed,
                found is Unreadable || fits,
            )
        }),
{
    entry::lemma_seen_push(m.seen, Observed { entry: found@, stat: None });
}

/// What the directory gave among `events`: each entry that was listed when the
/// scan asked for one, and with it the time that examining its file gave when the
/// scan asked for that.
pub open spec fn given(events: Seq<ScanEvent>) -> Seq<Observed>
    decreases events.len(),
{
    if events.len() == 0 {
        Seq::empty()
    } else {
        let before = given(events.drop_last());
        match (scan_files::after_all(events.drop_last()).step, events.last()) {
            (ScanStep::NextEntry, ScanEvent::Entry(found)) => before.push(
                Observed {
                    entry: match found {
                        DirectoryEntry::Unreadable => EntryView::Unreadable,
                        DirectoryEntry::NotRegular => EntryView::NotRegular,
                        DirectoryEntry::Regular(name) => EntryView::Regular(name@),
                    },
                    stat: None,
                },
            ),
            (ScanStep::StatEntry, ScanEvent::Stat { mtime_sec, mtime_nsec }) => before.update(
                before.len() - 1,
                Observed { entry: before.last().entry, stat: Some((mtime_sec, mtime_nsec)) },
            ),
            _ => before,
        }
    }
}

/// `seen` are the entries of `all` in their order, each with the time that it has
/// there; nanoseconds that are no fraction of a second are zero.
pub open spec fn is_all_of(seen: Seq<Observed>, all: Seq<Observed>) -> bool {
    &&& seen.len() == all.len()
    &&& forall|i: int|
        0 <= i < seen.len() ==> {
            &&& (#[trigger] seen[i]).entry == all[i].entry
            &&& all[i].stat is None ==> seen[i].stat is None
            &&& all[i].stat matches Some((sec, nsec)) ==> seen[i].stat == Some(
                (
                    sec,
                    if 0 <= nsec < 1_000_000_000 {
                        nsec
                    } else {
                        0i64
                    },
                ),
            )
        }
}

/// The last of `all` is the regular file that `m` is taking in, with a name that
/// fits, and all before it are dealt with.
pub open spec fn is_taking_in_last(m: ScanModel, all: Seq<Observed>) -> bool {
    &&& all.len() > 0
    &&& is_all_of(m.seen, all.drop_last())
    &&& all.last().entry == EntryView::Regular(m.pending.basename)
    &&& m.pending.basename.len() <= 64
}

/// What a scan has made of what the directory gave.
pub open spec fn has_made_of(m: ScanModel, all: Seq<Observed>) -> bool {
    match m.step {
        ScanStep::CreateNames | ScanStep::CreateScratch | ScanStep::OpenDirectory => {
            m.seen.len() == 0 && all.len() == 0
        },
        ScanStep::NextEntry | ScanStep::SyncNames | ScanStep::SyncScratch | ScanStep::Finished => {
            is_all_of(m.seen, all)
        },
        ScanStep::StatEntry => is_taking_in_last(m, all) && all.last().stat is None,
        ScanStep::WriteName | ScanStep::WriteMtime => {
            &&& is_taking_in_last(m, all)
            &&& all.last().stat matches Some((sec, nsec)) && m.pending.mtime_sec == sec
                && m.pending.mtime_nsec == if 0 <= nsec < 1_000_000_000 {
                nsec
            } else {
                0i64
            }
        },
        ScanStep::Failed(_) => is_all_of(m.seen, all) || is_taking_in_last(m, all),
    }
}

pub proof fn lemma_same_files(seen: Seq<Observed>, all: Seq<Observed>)
    requires
        is_all_of(seen, all),
    ensures
        entry::indexed_files(seen) == entry::indexed_files(all),
        entry::stat_failures(seen) == entry::stat_failures(all),
        entry::non_regulars(seen) == entry::non_regulars(all),
        entry::overlongs(seen) == entry::overlongs(all),
    decreases seen.len(),
{
    if seen.len() > 0 {
        let i = seen.len() - 1;
        assert(seen[i] == seen.last());
        assert forall|k: int| 0 <= k < seen.drop_last().len() implies (
        #[trigger] seen.drop_last()[k]) == seen[k] && all.drop_last()[k] == all[k] by {}
        assert(is_all_of(seen.drop_last(), all.drop_last()));
        lemma_same_files(seen.drop_last(), all.drop_last());
    }
}

proof fn lemma_step_makes_of(m: ScanModel, all: Seq<Observed>, event: ScanEvent, more: Seq<Observed>)
    requires
        m.is_sound(),
        has_made_of(m, all),
        more == match (m.step, event) {
            (ScanStep::NextEntry, ScanEvent::Entry(found)) => all.push(
                Observed { entry: found@, stat: None },
            ),
            (ScanStep::StatEntry, ScanEvent::Stat { mtime_sec, mtime_nsec }) => all.update(
                all.len() - 1,
                Observed { entry: all.last().entry, stat: Some((mtime_sec, mtime_nsec)) },
            ),
            _ => all,
        },
    ensures
        has_made_of(m.after(event), more),
{
    match (m.step, event) {
        (ScanStep::NextEntry, ScanEvent::Entry(_)) => {
            assert(more.drop_last() =~= all);
        },
        (ScanStep::StatEntry, ScanEvent::Stat { mtime_sec: _, mtime_nsec: _ }) => {
            assert(more.drop_last() =~= all.drop_last());
        },
        (ScanStep::StatEntry | ScanStep::WriteMtime, _) => {
            assert(all =~= all.drop_last().push(all.last()));
            assert forall|i: int| 0 <= i < m.seen.len() implies all[i] == all.drop_last()[i] by {}
        },
        _ => {},
    }
}

/// Whatever comes of the steps of a scan, the entries that it has dealt with are
/// those that the directory gave, all of them and in their order, each with the
/// time that examining its file gave; but for the one that it is taking in. A scan
/// that is at the next entry or has reached the end of the directory has taken in
/// exactly the files among them.
pub proof fn scan_deals_with_all_that_is_given(events: Seq<ScanEvent>)
    ensures
        ({
            let end = scan_files::after_all(events);
            &&& end.is_sound()
            &&& has_made_of(end, given(events))
            &&& end.step is NextEntry || end.step is SyncNames || end.step is SyncScratch
                || end.step is Finished ==> {
                &&& end.files() == entry::indexed_files(given(events))
                &&& end.names_written == entry::basenames(entry::indexed_files(given(events)))
                &&& end.records_written == entry::file_records(
                    entry::indexed_files(given(events)),
                    0,
                )
            }
        }),
    decreases events.len(),
{
    let end = scan_files::after_all(events);
    if events.len() == 0 {
        scan::scan_starts_sound();
    } else {
        let front = events.drop_last();
        let m = scan_files::after_all(front);
        scan_deals_with_all_that_is_given(front);
        scan::scan_stays_sound(m, events.last());
        if let ScanEvent::Entry(found) = events.last() {
            entry::listed_entry_is_spoken_of(found);
        }
        lemma_step_makes_of(m, given(front), events.last(), given(events));
    }
    if end.step is NextEntry || end.step is SyncNames || end.step is SyncScratch || end.step
        is Finished {
        lemma_same_files(end.seen, given(events));
    }
}

/// What the directory gives, entry by entry: what was listed, and what examining
/// its file gives where it is a regular file with a name of up to 64 bytes.
pub struct Listed {
    pub entry: DirectoryEntry,
    pub stat: Option<(i64, i64)>,
}

impl Listed {
    pub open spec fn fits(self) -> bool {
        self.entry matches DirectoryEntry::Regular(name) && name@.len() <= 64
    }

    /// What comes of the steps that the scan asks for at this entry.
    pub open spec fn events(self) -> Seq<ScanEvent> {
        if !self.fits() {
            seq![ScanEvent::Entry(self.entry)]
        } else {
            match self.stat {
                None => seq![ScanEvent::Entry(self.entry), ScanEvent::Failed],
                Some((mtime_sec, mtime_nsec)) => seq![
                    ScanEvent::Entry(self.entry),
                    ScanEvent::Stat { mtime_sec, mtime_nsec },
                    ScanEvent::Succeeded,
                    ScanEvent::Succeeded,
                ],
            }
        }
    }
}

/// What comes of the steps of a scan up to the end of `listing`.
pub open spec fn events_of_listing(listing: Seq<Listed>) -> Seq<ScanEvent>
    decreases listing.len(),
{
    if listing.len() == 0 {
        seq![ScanEvent::Succeeded, ScanEvent::Succeeded, ScanEvent::Succeeded]
    } else {
        events_of_listing(listing.drop_last()) + listing.last().events()
    }
}

/// The files of `listing`: every regular file with a name of up to 64 bytes that
/// can be examined, with its name and time.
pub open spec fn files_of_listing(listing: Seq<Listed>) -> Seq<FileFact>
    decreases listing.len(),
{
    if listing.len() == 0 {
        Seq::empty()
    } else {
        let before = files_of_listing(listing.drop_last());
        let last = listing.last();
        if last.fits() && last.stat is Some {
            let (mtime_sec, nsec) = last.stat->0;
            before.push(
                FileFact {
                    basename: last.entry->Regular_0@,
                    mtime_sec,
                    mtime_nsec: if 0 <= nsec < 1_000_000_000 {
                        nsec as i32
                    } else {
                        0
                    },
                },
            )
        } else {
            before
        }
    }
}

proof fn lemma_after_one_more(events: Seq<ScanEvent>, event: ScanEvent)
    ensures
        scan_files::after_all(events.push(event)) == scan_files::after_all(events).after(event),
{
    assert(events.push(event).drop_last() =~= events);
}

proof fn lemma_files_of_listing_len(listing: Seq<Listed>)
    ensures
        files_of_listing(listing).len() <= listing.len(),
    decreases listing.len(),
{
    if listing.len() > 0 {
        lemma_files_of_listing_len(listing.drop_last());
    }
}

proof fn lemma_listing_is_taken_in(listing: Seq<Listed>)
    requires
        listing.len() <= u64::MAX,
    ensures
        ({
            let end = scan_files::after_all(events_of_listing(listing));
            &&& end.step is NextEntry
            &&& end.seen.len() == listing.len()
            &&& end.files() == files_of_listing(listing)
            &&& end.names_written == entry::basenames(files_of_listing(listing))
            &&& end.records_written == entry::file_records(files_of_listing(listing), 0)
        }),
    decreases listing.len(),
{
    let events = events_of_listing(listing);
    scan_deals_with_all_that_is_given(events);
    if listing.len() == 0 {
        let none = Seq::<ScanEvent>::empty();
        lemma_after_one_more(none, ScanEvent::Succeeded);
        lemma_after_one_more(none.push(ScanEvent::Succeeded), ScanEvent::Succeeded);
        lemma_after_one_more(
            none.push(ScanEvent::Succeeded).push(ScanEvent::Succeeded),
            ScanEvent::Succeeded,
        );
        assert(events =~= none.push(ScanEvent::Succeeded).push(ScanEvent::Succeeded).push(
            ScanEvent::Succeeded,
        ));
        entry::nothing_comes_of_nothing();
    } else {
        let front = listing.drop_last();
        let last = listing.last();
        let before = events_of_listing(front);
        let m = scan_files::after_all(before);
        lemma_listing_is_taken_in(front);
        lemma_files_of_listing_len(front);
        let one = before.push(ScanEvent::Entry(last.entry));
        lemma_after_one_more(before, ScanEvent::Entry(last.entry));
        if !last.fits() {
            other_entry_is_passed_over(m, last.entry);
            assert(events =~= one);
        } else {
            match last.stat {
                None => {
                    other_entry_is_passed_over(m, last.entry);
                    lemma_after_one_more(one, ScanEvent::Failed);
                    assert(events =~= one.push(ScanEvent::Failed));
                },
                Some((mtime_sec, mtime_nsec)) => {
                    let stat = ScanEvent::Stat { mtime_sec, mtime_nsec };
                    let two = one.push(stat);
                    let three = two.push(ScanEvent::Succeeded);
                    fitting_file_is_taken_in(m, last.entry, mtime_sec, mtime_nsec);
                    lemma_after_one_more(one, stat);
                    lemma_after_one_more(two, ScanEvent::Succeeded);
                    lemma_after_one_more(three, ScanEvent::Succeeded);
                    assert(events =~= three.push(ScanEvent::Succeeded));
                },
            }
        }
    }
}

/// A scan of a directory in which every step succeeds but for examining some of
/// the files finishes with exactly the regular files that have names of up to 64
/// bytes and could be examined, in the order in which they were listed, and counts
/// every other entry.
pub proof fn scan_of_directory_indexes_its_files(listing: Seq<Listed>)
    requires
        listing.len() <= u64::MAX,
    ensures
        ({
            let end = scan_files::after_all(
                events_of_listing(listing) + seq![
                    ScanEvent::EndOfDirectory,
                    ScanEvent::Succeeded,
                    ScanEvent::Succeeded,
                ],
            );
            let summary = end.summary();
            &&& end.step is Finished
            &&& end.files() == files_of_listing(listing)
            &&& end.names_written == entry::basenames(files_of_listing(listing))
            &&& end.records_written == entry::file_records(files_of_listing(listing), 0)
            &&& summary.files_indexed == files_of_listing(listing).len()
            &&& summary.files_indexed + summary.entries_skipped_overlong_name
                + summary.entries_skipped_stat_failed + summary.entries_skipped_non_regular
                == listing.len()
        }),
{
    let events = events_of_listing(listing);
    let m = scan_files::after_all(events);
    lemma_listing_is_taken_in(listing);
    let one = events.push(ScanEvent::EndOfDirectory);
    let two = one.push(ScanEvent::Succeeded);
    lemma_after_one_more(events, ScanEvent::EndOfDirectory);
    lemma_after_one_more(one, ScanEvent::Succeeded);
    lemma_after_one_more(two, ScanEvent::Succeeded);
    assert(events + seq![
        ScanEvent::EndOfDirectory,
        ScanEvent::Succeeded,
        ScanEvent::Succeeded,
    ] =~= two.push(ScanEvent::Succeeded));
    entry::every_entry_is_counted_once(m.seen);
}

/// A step of a scan that fails ends it with an I/O error of the build, except
/// that a file that cannot be examined is passed over; and what has ended stays
/// as it is.
pub proof fn failed_step_ends_scan(m: ScanModel, event: ScanEvent)
    ensures
        m.step is CreateNames || m.step is CreateScratch || m.step is OpenDirectory || m.step
            is WriteName || m.step is WriteMtime || m.step is SyncNames || m.step is SyncScratch
            ==> m.after(ScanEvent::Failed).step == ScanStep::Failed(ChronoIndexError::BuildIo)
            && m.after(ScanEvent::Failed).files() == m.files(),
        m.step is Finished || m.step is Failed ==> m.after(event) == m,
{
}

/// Four calls take a file in: with an entry of a regular file with a name of up to
/// 64 bytes, with its modification time, and with the success of the two writes
/// that are asked for then, [`phase1_stream_directory_into_files`] leads to a scan
/// with one more file, of that name and time.
pub proof fn four_calls_take_in_a_file(
    scan: DirectoryScan,
    found: DirectoryEntry,
    mtime_sec: i64,
    mtime_nsec: i64,
    listed: DirectoryScan,
    examined: DirectoryScan,
    named: DirectoryScan,
    end: DirectoryScan,
)
    requires
        scan@.step is NextEntry,
        scan@.files().len() < u64::MAX,
        found matches DirectoryEntry::Regular(name) && name@.len() <= 64,
        call_ensures(
            phase1_stream_directory_into_files,
            (scan, ScanEvent::Entry(found)),
            listed,
        ),
        call_ensures(
            phase1_stream_directory_into_files,
            (listed, ScanEvent::Stat { mtime_sec, mtime_nsec }),
            examined,
        ),
        call_ensures(
            phase1_stream_directory_into_files,
            (examined, ScanEvent::Succeeded),
            named,
        ),
        call_ensures(phase1_stream_directory_into_files, (named, ScanEvent::Succeeded), end),
    ensures
        end@.files() == scan@.files().push(
            FileFact {
                basename: found->Regular_0@,
                mtime_sec,
                mtime_nsec: if 0 <= mtime_nsec < 1_000_000_000 {
                    mtime_nsec as i32
                } else {
                    0
                },
            },
        ),
        end@.summary().files_indexed == scan@.files().len() + 1,
{
    fitting_file_is_taken_in(scan@, found, mtime_sec, mtime_nsec);
}

/// What calls on a scan hand out for its steps: a name record from which the name
/// of the file that is being taken in is read back, and a record from which its
/// time and number are.
pub proof fn scan_hands_out_what_it_says(
    scan: DirectoryScan,
    name: [u8; NAME_RECORD_SIZE],
    mtime: [u8; MTIME_RECORD_SIZE],
    signal: u64,
    summary: ColdBuildSummary,
)
    requires
        scan@.pending.basename.len() <= 64,
        scan@.files().len() <= u64::MAX,
        forall|i: int|
            0 <= i < scan@.pending.basename.len() ==> #[trigger] scan@.pending.basename[i] != 0,
        call_ensures(DirectoryScan::name_record, (&scan,), name),
        call_ensures(DirectoryScan::mtime_record, (&scan,), mtime),
        call_ensures(DirectoryScan::signal_hash, (&scan,), signal),
        call_ensures(DirectoryScan::summary, (&scan,), summary),
    ensures
        names::basename_of(name@) == scan@.pending.basename,
        ({
            let record = MtimeRecord::of_bytes(mtime@);
            &&& record.mtime_sec == scan@.pending.mtime_sec
            &&& record.mtime_nsec == scan@.pending.mtime_nsec
            &&& record.record_id == scan@.files().len()
        }),
        signal == hash::signal_hash(entry::basenames(scan@.files())),
        summary.files_indexed == scan@.files().len(),
        summary == scan@.summary(),
{
    names::name_record_round_trips(scan@.pending.basename);
    record::record_round_trips(scan@.pending_record());
}

} // verus!
