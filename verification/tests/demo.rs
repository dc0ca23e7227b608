//! The decisions of the demonstration program.

use chrono_sort::demo::{
    cleanup_removes, count_cleanup_entry, count_regular_file, decide_cleanup, files_of_prior_runs, outcome_label,
    timestamp_prefix, watched_file_basename, CleanupDecision, CleanupEntry, CleanupResponse,
    CleanupTally,
};
use chrono_sort::entry::DirectoryEntry;
use chrono_sort::update::UpdateOutcome;

#[test]
fn timestamp_prefix_is_padded() {
    assert_eq!(
        timestamp_prefix(1_779_200_900, 123_456_789),
        "1779200900_123456789"
    );
    assert_eq!(timestamp_prefix(7, 5), "0000000007_000000005");
    assert_eq!(timestamp_prefix(0, 0), "0000000000_000000000");
    assert_eq!(
        timestamp_prefix(12_345_678_901, 1),
        "12345678901_000000001"
    );
}

#[test]
fn timestamp_prefixes_are_ordered_as_the_times_are() {
    let times = [
        (0, 0),
        (0, 999_999_999),
        (9, 5),
        (10, 0),
        (10, 4),
        (999_999_999, 0),
        (1_000_000_000, 1),
        (9_999_999_999, 999_999_999),
    ];
    for pair in times.windows(2) {
        assert!(timestamp_prefix(pair[0].0, pair[0].1) < timestamp_prefix(pair[1].0, pair[1].1));
    }
}

#[test]
fn watched_files_are_named_by_prefix_and_label() {
    assert_eq!(
        watched_file_basename("0000000007_000000005", "move_001_white"),
        "0000000007_000000005_move_001_white.pgn"
    );
}

#[test]
fn outcome_labels_are_the_names_of_the_outcomes() {
    for outcome in [
        UpdateOutcome::ColdBuildCompleted,
        UpdateOutcome::RebuiltDueToInconsistency,
        UpdateOutcome::NoChangesDetected,
        UpdateOutcome::IncrementalAppendCompleted,
    ] {
        assert_eq!(outcome_label(outcome), format!("{:?}", outcome));
    }
}

#[test]
fn only_a_plain_yes_cleans_up() {
    for answer in ["y", "Y", "yes", "Yes", "YES"] {
        assert_eq!(
            decide_cleanup(&CleanupResponse::Line(answer.to_string())),
            CleanupDecision::CleanUp
        );
    }
    for answer in ["", "n", "yEs", "yes please", "ye", "no"] {
        assert_eq!(
            decide_cleanup(&CleanupResponse::Line(answer.to_string())),
            CleanupDecision::Keep
        );
    }
    assert_eq!(
        decide_cleanup(&CleanupResponse::NoInput),
        CleanupDecision::KeepForNoInput
    );
    assert_eq!(
        decide_cleanup(&CleanupResponse::Unreadable),
        CleanupDecision::KeepForUnreadableInput
    );
}

#[test]
fn files_of_prior_runs_are_the_rest() {
    assert_eq!(files_of_prior_runs(7, 4), Some(3));
    assert_eq!(files_of_prior_runs(4, 4), None);
    assert_eq!(files_of_prior_runs(2, 4), None);
}

#[test]
fn only_regular_files_are_counted() {
    let mut count: u64 = 0;
    for entry in [
        DirectoryEntry::Regular(b"a".to_vec()),
        DirectoryEntry::NotRegular,
        DirectoryEntry::Unreadable,
        DirectoryEntry::Regular(vec![b'x'; 200]),
    ] {
        count = count_regular_file(count, &entry);
    }
    assert_eq!(count, 2);
    assert_eq!(
        count_regular_file(u64::MAX, &DirectoryEntry::Regular(Vec::new())),
        u64::MAX
    );
}

#[test]
fn cleanup_removes_regular_files_only() {
    assert!(cleanup_removes(&DirectoryEntry::Regular(b"a".to_vec())));
    assert!(!cleanup_removes(&DirectoryEntry::NotRegular));
    assert!(!cleanup_removes(&DirectoryEntry::Unreadable));
}

#[test]
fn cleanup_tally_counts_removals_and_trouble() {
    let mut tally = CleanupTally {
        files_removed: 0,
        files_failed: u32::MAX - 1,
    };
    for entry in [
        CleanupEntry::Removed,
        CleanupEntry::LeftAlone,
        CleanupEntry::NotRemoved,
        CleanupEntry::Unreadable,
        CleanupEntry::Removed,
    ] {
        tally = count_cleanup_entry(tally, entry);
    }
    assert_eq!(
        tally,
        CleanupTally {
            files_removed: 2,
            files_failed: u32::MAX
        }
    );
}
