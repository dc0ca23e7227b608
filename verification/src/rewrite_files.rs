//! What a rewrite does to `mtimes.bin`.

use vstd::prelude::*;
use crate::batch_rewrite;
use crate::batch_rewrite::{RewriteEvent, RewriteModel, RewriteStep};
use crate::layout::MTIME_RECORD_SIZE;
use crate::merge_files;
use crate::record;
use crate::record::MtimeRecord;

verus! {

/// What the files hold that a rewrite works with.
pub struct RewriteFiles {
    /// `mtimes.bin`.
    pub existing: Seq<u8>,
    /// How many bytes of it were read.
    pub read: int,
    /// The staging file, with what is still buffered; none where there is no
    /// such file.
    pub staging: Option<Seq<u8>>,
}

/// Performing the step that `m` asks for, with `event` coming of it, turns files
/// that hold `before` into ones that hold `after`. A rename that fails changes
/// nothing, and no other step touches `mtimes.bin`. What creating or writing the
/// staging file leaves in it after a failure is left open.
pub open spec fn is_performed(
    m: RewriteModel,
    event: RewriteEvent,
    before: RewriteFiles,
    after: RewriteFiles,
) -> bool {
    match (m.step, event) {
        (RewriteStep::CreateStaging, RewriteEvent::Succeeded) => after == (RewriteFiles {
            staging: Some(Seq::empty()),
            ..before
        }),
        (RewriteStep::ReadExisting, RewriteEvent::Existing(bytes)) => {
            &&& before.read + MTIME_RECORD_SIZE <= before.existing.len()
            &&& bytes@ == before.existing.subrange(before.read, before.read + MTIME_RECORD_SIZE)
            &&& after == (RewriteFiles { read: before.read + MTIME_RECORD_SIZE, ..before })
        },
        (RewriteStep::ReadExisting, RewriteEvent::EndOfExisting) => {
            &&& before.read + MTIME_RECORD_SIZE > before.existing.len()
            &&& after == before
        },
        (RewriteStep::WriteMerged, RewriteEvent::Succeeded) => {
            &&& before.staging is Some
            &&& after == (RewriteFiles {
                staging: Some(before.staging->0 + m.next_record()->0.bytes()),
                ..before
            })
        },
        (RewriteStep::PromoteStaging, RewriteEvent::Succeeded) => {
            &&& before.staging is Some
            &&& after == (RewriteFiles { existing: before.staging->0, staging: None, ..before })
        },
        (
            RewriteStep::CreateStaging | RewriteStep::WriteMerged | RewriteStep::SyncStaging,
            RewriteEvent::Failed,
        ) | (RewriteStep::RemoveStaging(_), _) => after == (RewriteFiles {
            staging: after.staging,
            ..before
        }),
        _ => after == before,
    }
}

/// The state of a rewrite that merges `batch` in, after all of `events`.
pub open spec fn after_all(batch: Seq<MtimeRecord>, events: Seq<RewriteEvent>) -> RewriteModel
    decreases events.len(),
{
    if events.len() == 0 {
        RewriteModel::start(batch)
    } else {
        after_all(batch, events.drop_last()).after(events.last())
    }
}

/// `files` are what the files hold at the start of a rewrite, when nothing is
/// read, and after each of `events`.
pub open spec fn are_performed(
    batch: Seq<MtimeRecord>,
    events: Seq<RewriteEvent>,
    files: Seq<RewriteFiles>,
) -> bool {
    &&& files.len() == events.len() + 1
    &&& files[0].read == 0
    &&& forall|i: int|
        0 <= i < events.len() ==> is_performed(
            after_all(batch, events.take(i)),
            #[trigger] events[i],
            files[i],
            files[i + 1],
        )
}

/// `rewrite` has finished a rewrite of a file that held `existing`, merging
/// `batch` in, and has left `result`.
pub open spec fn is_rewrite_of(
    rewrite: RewriteModel,
    batch: Seq<MtimeRecord>,
    existing: Seq<u8>,
    result: Seq<u8>,
) -> bool {
    &&& rewrite.is_sound()
    &&& rewrite.step == RewriteStep::Finished
    &&& rewrite.batch == record::chronological(batch)
    &&& rewrite.consumed == record::records_in_file(existing)
    &&& result == record::records_file(rewrite.written)
}

/// What a rewrite has read is what the file held so far, and the staging file
/// holds what it has written; `mtimes.bin` holds what it held, `existing`, until
/// the rewrite has finished.
pub open spec fn agrees_with_files(
    m: RewriteModel,
    files: RewriteFiles,
    existing: Seq<u8>,
) -> bool {
    let held = record::records_in_file(existing);
    let has_read = {
        &&& files.read == m.consumed.len() * MTIME_RECORD_SIZE
        &&& m.consumed.is_prefix_of(held)
    };
    let is_staged = files.staging == Some(record::records_file(m.written));
    match m.step {
        RewriteStep::OpenExisting | RewriteStep::CreateStaging => {
            has_read && files.existing == existing
        },
        RewriteStep::ReadExisting => has_read && is_staged && files.existing == existing,
        RewriteStep::WriteMerged | RewriteStep::SyncStaging | RewriteStep::PromoteStaging => {
            &&& has_read && is_staged && files.existing == existing
            &&& m.head is None ==> m.consumed == held
        },
        RewriteStep::Finished => {
            &&& m.consumed == held
            &&& files.existing == record::records_file(m.written)
        },
        RewriteStep::RemoveStaging(_) | RewriteStep::Failed(_) => files.existing == existing,
    }
}

proof fn lemma_step_agrees_with_files(
    m: RewriteModel,
    event: RewriteEvent,
    before: RewriteFiles,
    after: RewriteFiles,
    existing: Seq<u8>,
)
    requires
        m.is_sound(),
        agrees_with_files(m, before, existing),
        is_performed(m, event, before, after),
    ensures
        agrees_with_files(m.after(event), after, existing),
{
    match (m.step, event) {
        (RewriteStep::CreateStaging, RewriteEvent::Succeeded) => {
            assert(m.written =~= Seq::empty());
            assert(record::records_file(Seq::empty()) =~= Seq::<u8>::empty());
        },
        (RewriteStep::ReadExisting, _) => {
            merge_files::lemma_next_record(existing, m.consumed, before.read);
        },
        (RewriteStep::WriteMerged, RewriteEvent::Succeeded) => {
            record::appended_record_extends_file(m.written, m.next_record()->0);
        },
        _ => {},
    }
}

/// What holds at every step of a rewrite that merges `batch` in.
#[verifier::opaque]
spec fn is_in_order(
    m: RewriteModel,
    files: RewriteFiles,
    batch: Seq<MtimeRecord>,
    existing: Seq<u8>,
) -> bool {
    &&& m.is_sound()
    &&& m.batch == record::chronological(batch)
    &&& agrees_with_files(m, files, existing)
}

proof fn lemma_step_stays_in_order(
    m: RewriteModel,
    event: RewriteEvent,
    before: RewriteFiles,
    after: RewriteFiles,
    batch: Seq<MtimeRecord>,
    existing: Seq<u8>,
)
    requires
        is_in_order(m, before, batch, existing),
        is_performed(m, event, before, after),
    ensures
        is_in_order(m.after(event), after, batch, existing),
{
    reveal(is_in_order);
    batch_rewrite::rewrite_stays_sound(m, event);
    lemma_step_agrees_with_files(m, event, before, after, existing);
    assert(m.after(event).batch == m.batch);
}

proof fn lemma_rewrite_is_in_order(
    batch: Seq<MtimeRecord>,
    events: Seq<RewriteEvent>,
    files: Seq<RewriteFiles>,
)
    requires
        are_performed(batch, events, files),
    ensures
        is_in_order(after_all(batch, events), files.last(), batch, files[0].existing),
    decreases events.len(),
{
    if events.len() == 0 {
        reveal(is_in_order);
        batch_rewrite::rewrite_starts_sound(batch);
    } else {
        let front = events.drop_last();
        let earlier = files.drop_last();
        assert forall|i: int| 0 <= i < front.len() implies is_performed(
            after_all(batch, front.take(i)),
            #[trigger] front[i],
            earlier[i],
            earlier[i + 1],
        ) by {
            assert(front[i] == events[i]);
            assert(front.take(i) =~= events.take(i));
        }
        lemma_rewrite_is_in_order(batch, front, earlier);
        let i = events.len() - 1;
        assert(is_performed(after_all(batch, events.take(i)), events[i], files[i], files[i + 1]));
        assert(events.take(i) =~= front);
        assert(earlier.last() == files[i]);
        lemma_step_stays_in_order(
            after_all(batch, front),
            events.last(),
            files[i],
            files[i + 1],
            batch,
            files[0].existing,
        );
    }
}

/// A rewrite replaces `mtimes.bin` as a whole, whatever comes of its steps: until
/// it has finished, and where it fails, the file holds what it held before, and
/// once it has finished, exactly the records of the file and of the batch,
/// merged.
pub proof fn rewrite_replaces_file_as_a_whole(
    batch: Seq<MtimeRecord>,
    events: Seq<RewriteEvent>,
    files: Seq<RewriteFiles>,
)
    requires
        are_performed(batch, events, files),
    ensures
        ({
            let end = after_all(batch, events);
            &&& end.is_sound()
            &&& agrees_with_files(end, files.last(), files[0].existing)
            &&& end.step == RewriteStep::Finished ==> is_rewrite_of(
                end,
                batch,
                files[0].existing,
                files.last().existing,
            )
            &&& end.step != RewriteStep::Finished ==> files.last().existing == files[0].existing
        }),
{
    lemma_rewrite_is_in_order(batch, events, files);
    reveal(is_in_order);
}

} // verus!
