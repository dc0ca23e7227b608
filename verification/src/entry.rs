//! What reading a directory gives, and what counts of it.

use vstd::prelude::*;
use vstd::seq_lib;
use crate::counting;
use crate::hash;
use crate::hash::fnv1a_64;
use crate::layout::MAX_BASENAME_LEN;
use crate::record::MtimeRecord;

verus! {

/// One entry of a directory, as far as listing it tells.
#[derive(Debug)]
pub enum DirectoryEntry {
    /// The entry, or its type, could not be read.
    Unreadable,
    /// A subdirectory, a symbolic link or anything else but a regular file.
    NotRegular,
    /// A regular file with this basename.
    Regular(Vec<u8>),
}

/// A directory entry as contracts speak of it.
pub enum EntryView {
    Unreadable,
    NotRegular,
    Regular(Seq<u8>),
}

impl View for DirectoryEntry {
    type V = EntryView;

    open spec fn view(&self) -> EntryView {
        match self {
            DirectoryEntry::Unreadable => EntryView::Unreadable,
            DirectoryEntry::NotRegular => EntryView::NotRegular,
            DirectoryEntry::Regular(basename) => EntryView::Regular(basename@),
        }
    }
}

/// An indexed file.
pub struct FileFact {
    pub basename: Seq<u8>,
    pub mtime_sec: i64,
    pub mtime_nsec: i32,
}

/// An entry and, where its file was examined, the seconds and nanoseconds of
/// its modification time.
pub struct Observed {
    pub entry: EntryView,
    pub stat: Option<(i64, i64)>,
}

/// What becomes of an entry.
pub enum EntryFate {
    /// Skipped: the entry or the file's metadata could not be read.
    StatFailed,
    /// Skipped: not a regular file.
    NonRegular,
    /// Skipped: the basename does not fit a name record.
    Overlong,
    /// Taken into the index.
    Indexed(FileFact),
}

/// The nanoseconds that are recorded for `nsec`: zero where it is no fraction
/// of a second.
pub open spec fn clamped_nanos(nsec: i64) -> i32 {
    if 0 <= nsec < 1_000_000_000 {
        nsec as i32
    } else {
        0
    }
}

/// A regular file whose basename fits a name record.
pub open spec fn is_listable(entry: EntryView) -> bool {
    entry matches EntryView::Regular(basename) && basename.len() <= MAX_BASENAME_LEN
}

impl Observed {
    pub open spec fn fate(self) -> EntryFate {
        match self.entry {
            EntryView::Unreadable => EntryFate::StatFailed,
            EntryView::NotRegular => EntryFate::NonRegular,
            EntryView::Regular(basename) => if basename.len() > MAX_BASENAME_LEN {
                EntryFate::Overlong
            } else {
                match self.stat {
                    None => EntryFate::StatFailed,
                    Some((sec, nsec)) => EntryFate::Indexed(
                        FileFact { basename, mtime_sec: sec, mtime_nsec: clamped_nanos(nsec) },
                    ),
                }
            },
        }
    }
}

/// The files among `seen` that are taken into the index, in this order.
pub open spec fn indexed_files(seen: Seq<Observed>) -> Seq<FileFact>
    decreases seen.len(),
{
    if seen.len() == 0 {
        Seq::empty()
    } else {
        match seen.last().fate() {
            EntryFate::Indexed(file) => indexed_files(seen.drop_last()).push(file),
            _ => indexed_files(seen.drop_last()),
        }
    }
}

/// How many of `seen` are skipped because they could not be read.
pub open spec fn stat_failures(seen: Seq<Observed>) -> nat
    decreases seen.len(),
{
    if seen.len() == 0 {
        0
    } else {
        stat_failures(seen.drop_last()) + if seen.last().fate() is StatFailed {
            1nat
        } else {
            0nat
        }
    }
}

/// How many of `seen` are skipped because they are not regular files.
pub open spec fn non_regulars(seen: Seq<Observed>) -> nat
    decreases seen.len(),
{
    if seen.len() == 0 {
        0
    } else {
        non_regulars(seen.drop_last()) + if seen.last().fate() is NonRegular {
            1nat
        } else {
            0nat
        }
    }
}

/// How many of `seen` are skipped because their basename is too long.
pub open spec fn overlongs(seen: Seq<Observed>) -> nat
    decreases seen.len(),
{
    if seen.len() == 0 {
        0
    } else {
        overlongs(seen.drop_last()) + if seen.last().fate() is Overlong {
            1nat
        } else {
            0nat
        }
    }
}

/// The basenames of `files`.
pub open spec fn basenames(files: Seq<FileFact>) -> Seq<Seq<u8>> {
    Seq::new(files.len(), |i: int| files[i].basename)
}

/// The records of `files`, numbered from `first_id` on.
pub open spec fn file_records(files: Seq<FileFact>, first_id: nat) -> Seq<MtimeRecord> {
    Seq::new(
        files.len(),
        |i: int|
            MtimeRecord {
                mtime_sec: files[i].mtime_sec,
                mtime_nsec: files[i].mtime_nsec,
                record_id: counting::saturated((first_id + i) as nat),
            },
    )
}

pub proof fn lemma_seen_push(seen: Seq<Observed>, next: Observed)
    ensures
        indexed_files(seen.push(next)) == match next.fate() {
            EntryFate::Indexed(file) => indexed_files(seen).push(file),
            _ => indexed_files(seen),
        },
        stat_failures(seen.push(next)) == stat_failures(seen) + if next.fate() is StatFailed {
            1nat
        } else {
            0nat
        },
        non_regulars(seen.push(next)) == non_regulars(seen) + if next.fate() is NonRegular {
            1nat
        } else {
            0nat
        },
        overlongs(seen.push(next)) == overlongs(seen) + if next.fate() is Overlong {
            1nat
        } else {
            0nat
        },
{
    assert(seen.push(next).drop_last() =~= seen);
}

/// Every basename that is indexed fits a name record.
pub proof fn lemma_indexed_names_fit(seen: Seq<Observed>)
    ensures
        forall|i: int|
            0 <= i < indexed_files(seen).len() ==> (#[trigger] indexed_files(
                seen,
            )[i]).basename.len() <= MAX_BASENAME_LEN,
    decreases seen.len(),
{
    if seen.len() > 0 {
        lemma_indexed_names_fit(seen.drop_last());
        assert forall|i: int| 0 <= i < indexed_files(seen).len() implies (#[trigger] indexed_files(
            seen,
        )[i]).basename.len() <= MAX_BASENAME_LEN by {
            if i < indexed_files(seen.drop_last()).len() {
                assert(indexed_files(seen)[i] == indexed_files(seen.drop_last())[i]);
            }
        }
    }
}

/// Every entry is counted once: indexed, or skipped for one reason.
pub proof fn every_entry_is_counted_once(seen: Seq<Observed>)
    ensures
        indexed_files(seen).len() + stat_failures(seen) + non_regulars(seen) + overlongs(seen)
            == seen.len(),
    decreases seen.len(),
{
    if seen.len() > 0 {
        every_entry_is_counted_once(seen.drop_last());
    }
}

/// The seconds and nanoseconds to record for a modification time. Nanoseconds
/// that are no fraction of a second are recorded as zero.
pub fn extract_mtime_seconds_and_nanos(mtime_sec: i64, mtime_nsec: i64) -> (recorded: (i64, i32))
    ensures
        recorded == (mtime_sec, clamped_nanos(mtime_nsec)),
{
    if mtime_nsec < 0 || mtime_nsec >= 1_000_000_000 {
        (mtime_sec, 0)
    } else {
        (mtime_sec, mtime_nsec as i32)
    }
}

pub proof fn lemma_basenames_push(files: Seq<FileFact>, file: FileFact)
    ensures
        basenames(files.push(file)) == basenames(files).push(file.basename),
        hash::signal_hash(basenames(files.push(file))) == hash::signal_hash(basenames(files))
            ^ hash::fnv1a(file.basename),
{
    assert(basenames(files.push(file)) =~= basenames(files).push(file.basename));
    assert(basenames(files).push(file.basename).drop_last() =~= basenames(files));
}

/// The entries of `seen`, without what examining their files gave.
pub open spec fn entries_of(seen: Seq<Observed>) -> Seq<EntryView> {
    Seq::new(seen.len(), |i: int| seen[i].entry)
}

/// `entries` with the files of all of them taken to be readable.
pub open spec fn presumed_readable(entries: Seq<EntryView>) -> Seq<Observed> {
    Seq::new(entries.len(), |i: int| Observed { entry: entries[i], stat: Some((0, 0)) })
}

/// The regular files among `entries` whose basename fits a name record.
pub open spec fn live_files(entries: Seq<EntryView>) -> Seq<FileFact> {
    indexed_files(presumed_readable(entries))
}

/// What an entry adds to the basenames of the live files.
pub open spec fn live_names_of(entry: EntryView) -> Seq<Seq<u8>> {
    if is_listable(entry) {
        seq![entry->Regular_0]
    } else {
        Seq::empty()
    }
}

pub proof fn lemma_live_names_push(entries: Seq<EntryView>, entry: EntryView)
    ensures
        basenames(live_files(entries.push(entry))) == basenames(live_files(entries))
            + live_names_of(entry),
{
    let seen = presumed_readable(entries);
    let added = Observed { entry, stat: Some((0i64, 0i64)) };
    assert(presumed_readable(entries.push(entry)) =~= seen.push(added));
    lemma_seen_push(seen, added);
    assert(basenames(live_files(entries.push(entry))) =~= basenames(live_files(entries))
        + live_names_of(entry));
}

pub proof fn lemma_live_names_concat(a: Seq<EntryView>, b: Seq<EntryView>)
    ensures
        basenames(live_files(a + b)) == basenames(live_files(a)) + basenames(live_files(b)),
    decreases b.len(),
{
    if b.len() == 0 {
        assert(a + b =~= a);
        assert(basenames(live_files(b)) =~= Seq::empty());
        assert(basenames(live_files(a)) + basenames(live_files(b)) =~= basenames(live_files(a)));
    } else {
        let front = b.drop_last();
        assert(a + b =~= (a + front).push(b.last()));
        assert(b =~= front.push(b.last()));
        lemma_live_names_concat(a, front);
        lemma_live_names_push(a + front, b.last());
        lemma_live_names_push(front, b.last());
        assert(basenames(live_files(a)) + basenames(live_files(front)) + live_names_of(b.last())
            =~= basenames(live_files(a)) + (basenames(live_files(front)) + live_names_of(
            b.last(),
        )));
    }
}

/// The live files of a directory do not depend on the order in which it is
/// listed.
pub proof fn live_files_ignore_order(a: Seq<EntryView>, b: Seq<EntryView>)
    requires
        a.to_multiset() == b.to_multiset(),
    ensures
        basenames(live_files(a)).to_multiset() == basenames(live_files(b)).to_multiset(),
        live_files(a).len() == live_files(b).len(),
        hash::signal_hash(basenames(live_files(a))) == hash::signal_hash(basenames(live_files(b))),
    decreases a.len(),
{
    seq_lib::to_multiset_len(a);
    seq_lib::to_multiset_len(b);
    if a.len() == 0 {
        assert(a =~= b);
    } else {
        let x = a.last();
        assert(a.contains(x)) by {
            assert(a[a.len() - 1] == x);
        }
        seq_lib::to_multiset_contains(a, x);
        seq_lib::to_multiset_contains(b, x);
        let j = choose|j: int| 0 <= j < b.len() && b[j] == x;
        let before = b.take(j);
        let after = b.skip(j + 1);
        let rest = before + after;
        assert(b =~= before.push(x) + after);
        assert(b.remove(j) =~= rest);
        assert(a.remove(a.len() - 1) =~= a.drop_last());
        seq_lib::to_multiset_remove(a, a.len() - 1);
        seq_lib::to_multiset_remove(b, j);
        live_files_ignore_order(a.drop_last(), rest);
        assert(a =~= a.drop_last().push(x));
        lemma_live_names_push(a.drop_last(), x);
        lemma_live_names_concat(before.push(x), after);
        lemma_live_names_push(before, x);
        lemma_live_names_concat(before, after);
        let names_before = basenames(live_files(before));
        let names_after = basenames(live_files(after));
        seq_lib::lemma_multiset_commutative(
            basenames(live_files(a.drop_last())),
            live_names_of(x),
        );
        seq_lib::lemma_multiset_commutative(names_before + live_names_of(x), names_after);
        seq_lib::lemma_multiset_commutative(names_before, live_names_of(x));
        seq_lib::lemma_multiset_commutative(names_before, names_after);
        assert(basenames(live_files(a)).to_multiset() =~= basenames(live_files(b)).to_multiset());
    }
    seq_lib::to_multiset_len(basenames(live_files(a)));
    seq_lib::to_multiset_len(basenames(live_files(b)));
    hash::signal_hash_ignores_order(basenames(live_files(a)), basenames(live_files(b)));
}

/// What a directory holds now, found out without examining any file: how many
/// files an index of it would hold, and the exclusive or of the hashes of
/// their basenames.
pub struct LiveDirectoryProbe {
    live_file_count: u64,
    live_signal_hash: u64,
    entries_skipped_overlong_name: u64,
    entries_skipped_stat_failed: u64,
    entries_skipped_non_regular: u64,
    entries: Ghost<Seq<EntryView>>,
}

impl LiveDirectoryProbe {
    /// The entries that the probe has taken in.
    pub closed spec fn entries(self) -> Seq<EntryView> {
        self.entries@
    }

    #[verifier::type_invariant]
    spec fn holds_invariant(self) -> bool {
        let seen = presumed_readable(self.entries@);
        &&& self.live_file_count == counting::saturated(indexed_files(seen).len())
        &&& self.live_signal_hash == hash::signal_hash(basenames(indexed_files(seen)))
        &&& self.entries_skipped_overlong_name == counting::saturated(overlongs(seen))
        &&& self.entries_skipped_stat_failed == counting::saturated(stat_failures(seen))
        &&& self.entries_skipped_non_regular == counting::saturated(non_regulars(seen))
    }

    /// A probe that has taken in no entry.
    pub fn new() -> (probe: LiveDirectoryProbe)
        ensures
            probe.entries() == Seq::<EntryView>::empty(),
    {
        let ghost none = Seq::<EntryView>::empty();
        assert(basenames(indexed_files(presumed_readable(none))) =~= Seq::empty());
        LiveDirectoryProbe {
            live_file_count: 0,
            live_signal_hash: 0,
            entries_skipped_overlong_name: 0,
            entries_skipped_stat_failed: 0,
            entries_skipped_non_regular: 0,
            entries: Ghost(none),
        }
    }

    /// How many files an index of the directory would hold.
    pub fn live_file_count(&self) -> (count: u64)
        ensures
            count == counting::saturated(live_files(self.entries()).len()),
    {
        proof {
            use_type_invariant(self);
        }
        self.live_file_count
    }

    /// The exclusive or of the hashes of their basenames.
    pub fn live_signal_hash(&self) -> (signal: u64)
        ensures
            signal == hash::signal_hash(basenames(live_files(self.entries()))),
    {
        proof {
            use_type_invariant(self);
        }
        self.live_signal_hash
    }

    /// How many regular files have a basename that is too long.
    pub fn entries_skipped_overlong_name(&self) -> (count: u64)
        ensures
            count == counting::saturated(overlongs(presumed_readable(self.entries()))),
    {
        proof {
            use_type_invariant(self);
        }
        self.entries_skipped_overlong_name
    }

    /// How many entries could not be read.
    pub fn entries_skipped_stat_failed(&self) -> (count: u64)
        ensures
            count == counting::saturated(stat_failures(presumed_readable(self.entries()))),
    {
        proof {
            use_type_invariant(self);
        }
        self.entries_skipped_stat_failed
    }

    /// How many entries are not regular files.
    pub fn entries_skipped_non_regular(&self) -> (count: u64)
        ensures
            count == counting::saturated(non_regulars(presumed_readable(self.entries()))),
    {
        proof {
            use_type_invariant(self);
        }
        self.entries_skipped_non_regular
    }
}

/// Takes one more entry of the live directory into `probe`.
pub fn probe_live_directory(probe: LiveDirectoryProbe, entry: &DirectoryEntry) -> (next:
    LiveDirectoryProbe)
    ensures
        next.entries() == probe.entries().push(entry@),
{
    proof {
        use_type_invariant(&probe);
    }
    let ghost entries = probe.entries@.push(entry@);
    proof {
        let seen = presumed_readable(probe.entries@);
        let added = Observed { entry: entry@, stat: Some((0i64, 0i64)) };
        assert(presumed_readable(entries) =~= seen.push(added));
        lemma_seen_push(seen, added);
        if let EntryFate::Indexed(file) = added.fate() {
            lemma_basenames_push(indexed_files(seen), file);
        }
    }
    let LiveDirectoryProbe {
        live_file_count,
        live_signal_hash,
        entries_skipped_overlong_name,
        entries_skipped_stat_failed,
        entries_skipped_non_regular,
        entries: _,
    } = probe;
    match entry {
        DirectoryEntry::Unreadable => LiveDirectoryProbe {
            live_file_count,
            live_signal_hash,
            entries_skipped_overlong_name,
            entries_skipped_stat_failed: entries_skipped_stat_failed.saturating_add(1),
            entries_skipped_non_regular,
            entries: Ghost(entries),
        },
        DirectoryEntry::NotRegular => LiveDirectoryProbe {
            live_file_count,
            live_signal_hash,
            entries_skipped_overlong_name,
            entries_skipped_stat_failed,
            entries_skipped_non_regular: entries_skipped_non_regular.saturating_add(1),
            entries: Ghost(entries),
        },
        DirectoryEntry::Regular(basename) => if basename.len() > MAX_BASENAME_LEN {
            LiveDirectoryProbe {
                live_file_count,
                live_signal_hash,
                entries_skipped_overlong_name: entries_skipped_overlong_name.saturating_add(1),
                entries_skipped_stat_failed,
                entries_skipped_non_regular,
                entries: Ghost(entries),
            }
        } else {
            LiveDirectoryProbe {
                live_file_count: live_file_count.saturating_add(1),
                live_signal_hash: live_signal_hash ^ fnv1a_64(basename),
                entries_skipped_overlong_name,
                entries_skipped_stat_failed,
                entries_skipped_non_regular,
                entries: Ghost(entries),
            }
        },
    }
}

/// Where every file that could be listed could also be examined, the probe of
/// a directory finds the basenames that a scan of it indexes.
pub proof fn probe_agrees_with_scan(seen: Seq<Observed>)
    requires
        forall|i: int|
            0 <= i < seen.len() && is_listable((#[trigger] seen[i]).entry) ==> seen[i].stat is Some,
    ensures
        basenames(live_files(entries_of(seen))) == basenames(indexed_files(seen)),
    decreases seen.len(),
{
    let listed = presumed_readable(entries_of(seen));
    if seen.len() == 0 {
        assert(basenames(indexed_files(listed)) =~= basenames(indexed_files(seen)));
    } else {
        let front = seen.drop_last();
        let last = seen.last();
        assert(last == seen[seen.len() - 1]);
        assert forall|i: int| 0 <= i < front.len() && is_listable(
            (#[trigger] front[i]).entry,
        ) implies front[i].stat is Some by {
            assert(front[i] == seen[i]);
        }
        probe_agrees_with_scan(front);
        assert(listed.drop_last() =~= presumed_readable(entries_of(front)));
        if let EntryFate::Indexed(file) = last.fate() {
            lemma_basenames_push(indexed_files(front), file);
        }
        if let EntryFate::Indexed(file) = listed.last().fate() {
            lemma_basenames_push(indexed_files(listed.drop_last()), file);
        }
    }
}

/// What was listed is what contracts speak of: a regular file with all of its
/// basename, whatever that is, and nothing else as a regular file.
pub proof fn listed_entry_is_spoken_of(listed: DirectoryEntry)
    ensures
        listed matches DirectoryEntry::Regular(basename) ==> listed@ == EntryView::Regular(
            basename@,
        ),
        listed is NotRegular ==> listed@ == EntryView::NotRegular,
        listed is Unreadable ==> listed@ == EntryView::Unreadable,
{
}

/// One more regular file of up to 64 bytes of name is indexed whatever its name
/// is, with exactly that name and the seconds and nanoseconds that examining it
/// gave; only nanoseconds that are no fraction of a second become zero.
pub proof fn examined_file_is_indexed_as_it_is(
    seen: Seq<Observed>,
    basename: Seq<u8>,
    sec: i64,
    nsec: i64,
)
    requires
        basename.len() <= 64,
    ensures
        ({
            let more = seen.push(
                Observed { entry: EntryView::Regular(basename), stat: Some((sec, nsec)) },
            );
            let file = indexed_files(more).last();
            &&& indexed_files(more).len() == indexed_files(seen).len() + 1
            &&& indexed_files(more).drop_last() == indexed_files(seen)
            &&& file.basename == basename
            &&& file.mtime_sec == sec
            &&& 0 <= nsec < 1_000_000_000 ==> file.mtime_nsec == nsec
            &&& nsec < 0 || nsec >= 1_000_000_000 ==> file.mtime_nsec == 0
            &&& stat_failures(more) == stat_failures(seen)
            &&& non_regulars(more) == non_regulars(seen)
            &&& overlongs(more) == overlongs(seen)
        }),
{
    let next = Observed { entry: EntryView::Regular(basename), stat: Some((sec, nsec)) };
    lemma_seen_push(seen, next);
    assert(indexed_files(seen.push(next)).drop_last() =~= indexed_files(seen));
}

/// Any other entry is not indexed, and is counted once, for its reason: one that
/// could not be read or examined, one that is no regular file, and one with a
/// name of more than 64 bytes.
pub proof fn other_entry_is_skipped_for_its_reason(seen: Seq<Observed>, next: Observed)
    requires
        next.entry matches EntryView::Regular(basename) ==> basename.len() > 64 || next.stat
            is None,
    ensures
        ({
            let more = seen.push(next);
            let overlong = next.entry matches EntryView::Regular(basename) && basename.len() > 64;
            &&& indexed_files(more) == indexed_files(seen)
            &&& non_regulars(more) == non_regulars(seen) + if next.entry is NotRegular {
                1int
            } else {
                0int
            }
            &&& overlongs(more) == overlongs(seen) + if overlong {
                1int
            } else {
                0int
            }
            &&& stat_failures(more) == stat_failures(seen) + if next.entry is NotRegular
                || overlong {
                0int
            } else {
                1int
            }
        }),
{
    lemma_seen_push(seen, next);
}

/// Where nothing was seen, nothing is indexed and nothing counted.
pub proof fn nothing_comes_of_nothing()
    ensures
        indexed_files(Seq::empty()) == Seq::<FileFact>::empty(),
        stat_failures(Seq::empty()) == 0,
        non_regulars(Seq::empty()) == 0,
        overlongs(Seq::empty()) == 0,
{
}

/// The live files of a directory are its regular files with names of up to 64
/// bytes, whatever these are.
pub proof fn live_names_are_those_that_fit(entries: Seq<EntryView>, next: EntryView)
    ensures
        basenames(live_files(Seq::empty())) == Seq::<Seq<u8>>::empty(),
        next matches EntryView::Regular(basename) && basename.len() <= 64 ==> basenames(
            live_files(entries.push(next)),
        ) == basenames(live_files(entries)).push(next->Regular_0),
        !(next matches EntryView::Regular(basename) && basename.len() <= 64) ==> basenames(
            live_files(entries.push(next)),
        ) == basenames(live_files(entries)),
{
    lemma_live_names_push(entries, next);
    assert(presumed_readable(Seq::empty()) =~= Seq::empty());
    assert(basenames(live_files(Seq::empty())) =~= Seq::<Seq<u8>>::empty());
    if is_listable(next) {
        assert(basenames(live_files(entries)) + live_names_of(next) =~= basenames(
            live_files(entries),
        ).push(next->Regular_0));
    } else {
        assert(basenames(live_files(entries)) + live_names_of(next) =~= basenames(
            live_files(entries),
        ));
    }
}

/// The name, time and number of each file are at its place.
pub proof fn files_keep_their_places(files: Seq<FileFact>, first_id: nat, i: int)
    requires
        0 <= i < files.len(),
        first_id + files.len() <= u64::MAX,
    ensures
        basenames(files).len() == files.len(),
        basenames(files)[i] == files[i].basename,
        file_records(files, first_id).len() == files.len(),
        file_records(files, first_id)[i].mtime_sec == files[i].mtime_sec,
        file_records(files, first_id)[i].mtime_nsec == files[i].mtime_nsec,
        file_records(files, first_id)[i].record_id == first_id + i,
{
}

/// A call of [`probe_live_directory`] with a regular file with a name of up to 64
/// bytes, whatever that is, leads to a probe with one more live file and the hash
/// of that name in its signal hash; with anything else, neither changes.
pub proof fn probe_counts_every_file_that_fits(
    probe: LiveDirectoryProbe,
    entry: DirectoryEntry,
    next: LiveDirectoryProbe,
    count_before: u64,
    count_after: u64,
    signal_before: u64,
    signal_after: u64,
)
    requires
        call_ensures(probe_live_directory, (probe, &entry), next),
        call_ensures(LiveDirectoryProbe::live_file_count, (&probe,), count_before),
        call_ensures(LiveDirectoryProbe::live_file_count, (&next,), count_after),
        call_ensures(LiveDirectoryProbe::live_signal_hash, (&probe,), signal_before),
        call_ensures(LiveDirectoryProbe::live_signal_hash, (&next,), signal_after),
    ensures
        ({
            let fits = entry matches DirectoryEntry::Regular(name) && name@.len() <= 64;
            &&& counting::is_counted(count_before, count_after, fits)
            &&& fits ==> signal_after == signal_before ^ hash::fnv1a(entry->Regular_0@)
            &&& !fits ==> signal_after == signal_before
        }),
{
    live_names_are_those_that_fit(probe.entries(), entry@);
    let before = live_files(probe.entries());
    let after = live_files(next.entries());
    assert(basenames(before).len() == before.len() && basenames(after).len() == after.len());
    if entry matches DirectoryEntry::Regular(name) && name@.len() <= 64 {
        hash::every_name_enters_the_signal_hash(basenames(before), entry->Regular_0@);
    }
}

/// What a call of [`extract_mtime_seconds_and_nanos`] returns is what it was given,
/// but for nanoseconds that are no fraction of a second.
pub proof fn time_is_recorded_as_it_is(sec: i64, nsec: i64, recorded: (i64, i32))
    requires
        call_ensures(extract_mtime_seconds_and_nanos, (sec, nsec), recorded),
    ensures
        recorded.0 == sec,
        0 <= nsec < 1_000_000_000 ==> recorded.1 == nsec,
        nsec < 0 || nsec >= 1_000_000_000 ==> recorded.1 == 0,
{
}

} // verus!
