//! What the demonstration program decides: names of the files it creates, what
//! it prints for an outcome, and what it does with the answer to its question.

use vstd::prelude::*;
use crate::counting;
use crate::entry::DirectoryEntry;
use crate::text;
use crate::text::append_padded_decimal;
use crate::update::UpdateOutcome;

verus! {

/// The text of [`timestamp_prefix`].
pub open spec fn timestamp_text(secs: nat, nanos: nat) -> Seq<char> {
    text::padded_decimal(secs, 10) + "_"@ + text::padded_decimal(nanos, 9)
}

/// A time since the epoch as `<seconds>_<nanoseconds>`, with ten and nine
/// digits, for use at the start of file names.
pub fn timestamp_prefix(secs: u64, nanos: u32) -> (prefix: String)
    ensures
        prefix@ == timestamp_text(secs as nat, nanos as nat),
{
    let mut prefix: String = String::new();
    append_padded_decimal(&mut prefix, secs, 10);
    prefix.append("_");
    append_padded_decimal(&mut prefix, nanos as u64, 9);
    assert(prefix@ =~= timestamp_text(secs as nat, nanos as nat));
    prefix
}

/// Prefixes are ordered as text as the times are, as long as the seconds take
/// up no more than ten digits.
pub proof fn timestamp_prefix_keeps_order(
    earlier_secs: nat,
    earlier_nanos: nat,
    later_secs: nat,
    later_nanos: nat,
)
    requires
        earlier_secs < later_secs || (earlier_secs == later_secs && earlier_nanos < later_nanos),
        later_secs < 10_000_000_000,
        earlier_nanos < 1_000_000_000,
        later_nanos < 1_000_000_000,
    ensures
        text::text_before(
            timestamp_text(earlier_secs, earlier_nanos),
            timestamp_text(later_secs, later_nanos),
        ),
{
    reveal_strlit("_");
    assert(text::power_of_ten(10) == 10_000_000_000) by {
        reveal_with_fuel(text::power_of_ten, 11);
    }
    assert(text::power_of_ten(9) == 1_000_000_000) by {
        reveal_with_fuel(text::power_of_ten, 10);
    }
    let a = timestamp_text(earlier_secs, earlier_nanos);
    let b = timestamp_text(later_secs, later_nanos);
    let sa = text::padded_decimal(earlier_secs, 10);
    let sb = text::padded_decimal(later_secs, 10);
    let na = text::padded_decimal(earlier_nanos, 9);
    let nb = text::padded_decimal(later_nanos, 9);
    text::lemma_padded_len(earlier_secs, 10);
    text::lemma_padded_len(later_secs, 10);
    text::lemma_padded_len(earlier_nanos, 9);
    text::lemma_padded_len(later_nanos, 9);
    if earlier_secs < later_secs {
        text::padded_decimal_keeps_order(earlier_secs, later_secs, 10);
        let k = choose|k: int|
            0 <= k < 10 && #[trigger] sa.take(k) == sb.take(k) && sa[k] < sb[k];
        assert(a.take(k) =~= sa.take(k));
        assert(b.take(k) =~= sb.take(k));
        assert(a[k] < b[k]);
    } else {
        text::padded_decimal_keeps_order(earlier_nanos, later_nanos, 9);
        let k = choose|k: int|
            0 <= k < 9 && #[trigger] na.take(k) == nb.take(k) && na[k] < nb[k];
        assert(a.take(11 + k) =~= sa + "_"@ + na.take(k));
        assert(b.take(11 + k) =~= sb + "_"@ + nb.take(k));
        assert(a[11 + k] < b[11 + k]);
    }
}

/// The name of a file that the demonstration creates.
pub fn watched_file_basename(run_prefix: &str, label: &str) -> (basename: String)
    ensures
        basename@ == run_prefix@ + "_"@ + label@ + ".pgn"@,
{
    let mut basename: String = String::from_str(run_prefix);
    basename.append("_");
    basename.append(label);
    basename.append(".pgn");
    basename
}

/// The name of an outcome.
pub fn outcome_label(outcome: UpdateOutcome) -> (label: &'static str)
    ensures
        label@ == match outcome {
            UpdateOutcome::ColdBuildCompleted => "ColdBuildCompleted"@,
            UpdateOutcome::RebuiltDueToInconsistency => "RebuiltDueToInconsistency"@,
            UpdateOutcome::NoChangesDetected => "NoChangesDetected"@,
            UpdateOutcome::IncrementalAppendCompleted => "IncrementalAppendCompleted"@,
        },
{
    match outcome {
        UpdateOutcome::ColdBuildCompleted => "ColdBuildCompleted",
        UpdateOutcome::RebuiltDueToInconsistency => "RebuiltDueToInconsistency",
        UpdateOutcome::NoChangesDetected => "NoChangesDetected",
        UpdateOutcome::IncrementalAppendCompleted => "IncrementalAppendCompleted",
    }
}

/// What came of asking whether to clean up.
#[derive(Debug)]
pub enum CleanupResponse {
    /// The input was at its end.
    NoInput,
    /// The input could not be read.
    Unreadable,
    /// The line that was read, without the white space around it.
    Line(String),
}

/// What follows from a [`CleanupResponse`].
#[derive(Debug, Clone, Copy, PartialEq, Eq, Structural)]
pub enum CleanupDecision {
    KeepForNoInput,
    KeepForUnreadableInput,
    Keep,
    CleanUp,
}

/// The answers that mean yes.
pub open spec fn is_confirmation(answer: Seq<char>) -> bool {
    answer == "y"@ || answer == "Y"@ || answer == "yes"@ || answer == "Yes"@ || answer == "YES"@
}

/// Whether to clean up. Files are kept unless the answer is a plain yes.
pub fn decide_cleanup(response: &CleanupResponse) -> (decision: CleanupDecision)
    ensures
        decision == match response {
            CleanupResponse::NoInput => CleanupDecision::KeepForNoInput,
            CleanupResponse::Unreadable => CleanupDecision::KeepForUnreadableInput,
            CleanupResponse::Line(answer) => if is_confirmation(answer@) {
                CleanupDecision::CleanUp
            } else {
                CleanupDecision::Keep
            },
        },
{
    match response {
        CleanupResponse::NoInput => CleanupDecision::KeepForNoInput,
        CleanupResponse::Unreadable => CleanupDecision::KeepForUnreadableInput,
        CleanupResponse::Line(answer) => {
            let confirmed: bool = *answer == String::from_str("y") || *answer == String::from_str(
                "Y",
            ) || *answer == String::from_str("yes") || *answer == String::from_str("Yes")
                || *answer == String::from_str("YES");
            if confirmed {
                CleanupDecision::CleanUp
            } else {
                CleanupDecision::Keep
            }
        },
    }
}

/// How many of `total` files were there before this run, where there are any.
pub fn files_of_prior_runs(total: u64, created_this_run: u64) -> (prior: Option<u64>)
    ensures
        prior == if total > created_this_run {
            Some((total - created_this_run) as u64)
        } else {
            None
        },
{
    if total > created_this_run {
        Some(total - created_this_run)
    } else {
        None
    }
}

/// One more regular file, where the entry is one. Entries that cannot be read
/// are not counted.
pub fn count_regular_file(count: u64, entry: &DirectoryEntry) -> (next: u64)
    ensures
        next == if entry is Regular {
            counting::saturated((count + 1) as nat)
        } else {
            count
        },
{
    match entry {
        DirectoryEntry::Regular(_) => count.saturating_add(1),
        _ => count,
    }
}

/// Whether a cleanup removes this entry: only regular files are removed.
pub fn cleanup_removes(entry: &DirectoryEntry) -> (removed: bool)
    ensures
        removed == (entry is Regular),
{
    matches!(entry, DirectoryEntry::Regular(_))
}

/// What became of one entry of the directory that is cleaned up.
#[derive(Debug, Clone, Copy, PartialEq, Eq, Structural)]
pub enum CleanupEntry {
    /// The entry or its type could not be read.
    Unreadable,
    /// Not a regular file, so left alone.
    LeftAlone,
    Removed,
    NotRemoved,
}

/// How many files a cleanup has removed, and how many entries gave trouble.
#[derive(Debug, Clone, Copy, PartialEq, Eq, Structural)]
pub struct CleanupTally {
    pub files_removed: u32,
    pub files_failed: u32,
}

/// `n` and one more, as far as 32 bits go.
pub open spec fn bumped_32(n: u32) -> u32 {
    if n < u32::MAX {
        (n + 1) as u32
    } else {
        n
    }
}

/// Counts one more entry of a cleanup.
pub fn count_cleanup_entry(tally: CleanupTally, entry: CleanupEntry) -> (next: CleanupTally)
    ensures
        next == match entry {
            CleanupEntry::Unreadable | CleanupEntry::NotRemoved => (CleanupTally {
                files_failed: bumped_32(tally.files_failed),
                ..tally
            }),
            CleanupEntry::LeftAlone => tally,
            CleanupEntry::Removed => (CleanupTally {
                files_removed: bumped_32(tally.files_removed),
                ..tally
            }),
        },
{
    match entry {
        CleanupEntry::Unreadable | CleanupEntry::NotRemoved => CleanupTally {
            files_removed: tally.files_removed,
            files_failed: tally.files_failed.saturating_add(1),
        },
        CleanupEntry::LeftAlone => tally,
        CleanupEntry::Removed => CleanupTally {
            files_removed: tally.files_removed.saturating_add(1),
            files_failed: tally.files_failed,
        },
    }
}

/// A prefix tells its time: ten digits of seconds, an underscore and nine digits
/// of nanoseconds, from which both are read back.
pub proof fn timestamp_prefix_is_read_back(secs: nat, nanos: nat)
    requires
        secs < 10_000_000_000,
        nanos < 1_000_000_000,
    ensures
        timestamp_text(secs, nanos).len() == 20,
        timestamp_text(secs, nanos)[10] == '_',
        text::decimal_value(timestamp_text(secs, nanos).take(10)) == secs,
        text::decimal_value(timestamp_text(secs, nanos).skip(11)) == nanos,
{
    reveal_strlit("_");
    assert(text::power_of_ten(10) == 10_000_000_000) by {
        reveal_with_fuel(text::power_of_ten, 11);
    }
    assert(text::power_of_ten(9) == 1_000_000_000) by {
        reveal_with_fuel(text::power_of_ten, 10);
    }
    text::lemma_padded_len(secs, 10);
    text::lemma_padded_len(nanos, 9);
    text::padded_decimal_round_trips(secs, 10);
    text::padded_decimal_round_trips(nanos, 9);
    assert(timestamp_text(secs, nanos).take(10) =~= text::padded_decimal(secs, 10));
    assert(timestamp_text(secs, nanos).skip(11) =~= text::padded_decimal(nanos, 9));
}

/// Only a yes confirms: one letter, `y` or `Y`, or three, of which the first is
/// one of these and the others are `es`, or `ES` behind a capital.
pub proof fn only_yes_confirms(answer: Seq<char>)
    ensures
        is_confirmation(answer) <==> {
            ||| answer.len() == 1 && (answer[0] == 'y' || answer[0] == 'Y')
            ||| answer.len() == 3 && (answer[0] == 'y' || answer[0] == 'Y') && answer[1] == 'e'
                && answer[2] == 's'
            ||| answer.len() == 3 && answer[0] == 'Y' && answer[1] == 'E' && answer[2] == 'S'
        },
{
    reveal_strlit("y");
    reveal_strlit("Y");
    reveal_strlit("yes");
    reveal_strlit("Yes");
    reveal_strlit("YES");
    if answer.len() == 1 {
        assert(answer[0] == 'y' ==> answer =~= "y"@);
        assert(answer[0] == 'Y' ==> answer =~= "Y"@);
    }
    if answer.len() == 3 {
        assert(answer[0] == 'y' && answer[1] == 'e' && answer[2] == 's' ==> answer =~= "yes"@);
        assert(answer[0] == 'Y' && answer[1] == 'e' && answer[2] == 's' ==> answer =~= "Yes"@);
        assert(answer[0] == 'Y' && answer[1] == 'E' && answer[2] == 'S' ==> answer =~= "YES"@);
    }
}

/// What calls that count a cleanup return: one more file that was removed, one
/// more entry that gave trouble, or what it was.
pub proof fn cleanup_is_counted_one_by_one(
    tally: CleanupTally,
    entry: CleanupEntry,
    next: CleanupTally,
)
    requires
        call_ensures(count_cleanup_entry, (tally, entry), next),
        tally.files_removed < u32::MAX,
        tally.files_failed < u32::MAX,
    ensures
        next.files_removed == tally.files_removed + if entry is Removed {
            1int
        } else {
            0int
        },
        next.files_failed == tally.files_failed + if entry is Unreadable || entry is NotRemoved {
            1int
        } else {
            0int
        },
{
}

/// What a cleanup removes is what is counted as a file of the directory: regular
/// files and nothing else.
pub proof fn only_regular_files_count(
    entry: DirectoryEntry,
    count: u64,
    next: u64,
    removed: bool,
)
    requires
        call_ensures(count_regular_file, (count, &entry), next),
        call_ensures(cleanup_removes, (&entry,), removed),
    ensures
        removed <==> entry is Regular,
        counting::is_counted(count, next, removed),
{
}

/// Files of earlier runs are what is left of all without those of this run.
pub proof fn prior_files_are_the_rest(total: u64, created: u64, prior: Option<u64>)
    requires
        call_ensures(files_of_prior_runs, (total, created), prior),
    ensures
        prior matches Some(n) ==> n > 0 && n + created == total,
        prior is None <==> total <= created,
{
}

} // verus!
