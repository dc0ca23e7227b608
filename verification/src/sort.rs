//! Sorting records that fit in memory.

use vstd::prelude::*;
use vstd::seq_lib;
use vstd::slice::slice_subrange;
use crate::record;
use crate::record::MtimeRecord;

verus! {

/// Merges two chronological sequences into one.
fn merge_chronological(left: &Vec<MtimeRecord>, right: &Vec<MtimeRecord>) -> (merged: Vec<
    MtimeRecord,
>)
    requires
        record::is_chronological(left@),
        record::is_chronological(right@),
    ensures
        record::is_chronological(merged@),
        merged@.to_multiset() == left@.to_multiset().add(right@.to_multiset()),
{
    let mut merged: Vec<MtimeRecord> = Vec::new();
    let mut i: usize = 0;
    let mut j: usize = 0;
    proof {
        assert(left@.take(0) =~= Seq::<MtimeRecord>::empty());
        assert(right@.take(0) =~= Seq::<MtimeRecord>::empty());
        assert(merged@.to_multiset() =~= left@.take(0).to_multiset().add(
            right@.take(0).to_multiset(),
        )) by {
            Seq::<MtimeRecord>::empty().to_multiset_ensures();
        }
    }
    while i < left.len() || j < right.len()
        invariant
            i <= left.len(),
            j <= right.len(),
            record::is_chronological(left@),
            record::is_chronological(right@),
            record::is_chronological(merged@),
            merged@.to_multiset() == left@.take(i as int).to_multiset().add(
                right@.take(j as int).to_multiset(),
            ),
            forall|k: int, l: int|
                0 <= k < merged@.len() && i <= l < left@.len() ==> (
                #[trigger] merged@[k]).not_after(#[trigger] left@[l]),
            forall|k: int, l: int|
                0 <= k < merged@.len() && j <= l < right@.len() ==> (
                #[trigger] merged@[k]).not_after(#[trigger] right@[l]),
        decreases left.len() - i + right.len() - j,
    {
        let take_right: bool = i == left.len() || (j < right.len() && right[j].is_strictly_before(
            left[i],
        ));
        let next: MtimeRecord = if take_right {
            right[j]
        } else {
            left[i]
        };
        proof {
            seq_lib::to_multiset_build(merged@, next);
            if take_right {
                assert(right@.take(j + 1) =~= right@.take(j as int).push(next));
                seq_lib::to_multiset_build(right@.take(j as int), next);
            } else {
                assert(left@.take(i + 1) =~= left@.take(i as int).push(next));
                seq_lib::to_multiset_build(left@.take(i as int), next);
            }
        }
        merged.push(next);
        if take_right {
            j = j + 1;
        } else {
            i = i + 1;
        }
        assert(merged@.to_multiset() =~= left@.take(i as int).to_multiset().add(
            right@.take(j as int).to_multiset(),
        ));
    }
    assert(left@.take(i as int) =~= left@);
    assert(right@.take(j as int) =~= right@);
    merged
}

/// The records of `records` in chronological order.
pub fn sort_chronologically(records: &[MtimeRecord]) -> (sorted: Vec<MtimeRecord>)
    ensures
        sorted@ == record::chronological(records@),
    decreases records@.len(),
{
    if records.len() <= 1 {
        let mut sorted: Vec<MtimeRecord> = Vec::new();
        if records.len() == 1 {
            sorted.push(records[0]);
        }
        assert(sorted@ =~= records@);
        proof {
            record::lemma_chronological_unique(sorted@, records@);
        }
        return sorted;
    }
    let middle: usize = records.len() / 2;
    let left: Vec<MtimeRecord> = sort_chronologically(slice_subrange(records, 0, middle));
    let right: Vec<MtimeRecord> = sort_chronologically(
        slice_subrange(records, middle, records.len()),
    );
    proof {
        let a = records@.subrange(0, middle as int);
        let b = records@.subrange(middle as int, records@.len() as int);
        record::lemma_chronological_sorts(a);
        record::lemma_chronological_sorts(b);
        assert(records@ =~= a + b);
        seq_lib::lemma_multiset_commutative(a, b);
    }
    let sorted: Vec<MtimeRecord> = merge_chronological(&left, &right);
    proof {
        record::lemma_chronological_unique(sorted@, records@);
    }
    sorted
}

/// What a call of [`sort_chronologically`] returns: each record as often as it was
/// given, and none after one with more seconds, or with as many and more
/// nanoseconds.
pub proof fn sorted_records_are_those_given(
    records: &[MtimeRecord],
    sorted: Vec<MtimeRecord>,
    i: int,
    j: int,
)
    requires
        call_ensures(sort_chronologically, (records,), sorted),
        0 <= i < j < sorted@.len(),
    ensures
        sorted@.to_multiset() == records@.to_multiset(),
        sorted@[i].mtime_sec <= sorted@[j].mtime_sec,
        sorted@[i].mtime_sec == sorted@[j].mtime_sec ==> sorted@[i].mtime_nsec
            <= sorted@[j].mtime_nsec,
{
    record::lemma_chronological_sorts(records@);
    assert(sorted@[i].not_after(sorted@[j]));
}

} // verus!
