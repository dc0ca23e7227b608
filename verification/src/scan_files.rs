//! What a scan of a directory does to the files that it writes.

use vstd::prelude::*;
use crate::names;
use crate::record;
use crate::scan;
use crate::scan::{ScanEvent, ScanModel, ScanStep};

verus! {

/// What the files hold that a scan writes, with what is still buffered; none
/// where there is no such file.
pub struct ScanFiles {
    /// The staged names file.
    pub names: Option<Seq<u8>>,
    /// The unsorted scratch file.
    pub scratch: Option<Seq<u8>>,
}

/// Performing the step that `m` asks for, with `event` coming of it, turns files
/// that hold `before` into ones that hold `after`. What creating or writing a
/// file leaves in it after a failure is left open.
pub open spec fn is_performed(
    m: ScanModel,
    event: ScanEvent,
    before: ScanFiles,
    after: ScanFiles,
) -> bool {
    match (m.step, event) {
        (ScanStep::CreateNames, ScanEvent::Succeeded) => after == (ScanFiles {
            names: Some(Seq::empty()),
            ..before
        }),
        (ScanStep::CreateScratch, ScanEvent::Succeeded) => after == (ScanFiles {
            scratch: Some(Seq::empty()),
            ..before
        }),
        (ScanStep::WriteName, ScanEvent::Succeeded) => {
            &&& before.names is Some
            &&& after == (ScanFiles {
                names: Some(before.names->0 + names::name_record(m.pending.basename)),
                ..before
            })
        },
        (ScanStep::WriteMtime, ScanEvent::Succeeded) => {
            &&& before.scratch is Some
            &&& after == (ScanFiles {
                scratch: Some(before.scratch->0 + m.pending_record().bytes()),
                ..before
            })
        },
        (ScanStep::CreateNames | ScanStep::WriteName | ScanStep::SyncNames, ScanEvent::Failed) => {
            after.scratch == before.scratch
        },
        (
            ScanStep::CreateScratch | ScanStep::WriteMtime | ScanStep::SyncScratch,
            ScanEvent::Failed,
        ) => after.names == before.names,
        _ => after == before,
    }
}

/// The state of a scan after all of `events`.
pub open spec fn after_all(events: Seq<ScanEvent>) -> ScanModel
    decreases events.len(),
{
    if events.len() == 0 {
        ScanModel::start()
    } else {
        after_all(events.drop_last()).after(events.last())
    }
}

/// `files` are what the files hold at the start of a scan and after each of
/// `events`.
pub open spec fn are_performed(events: Seq<ScanEvent>, files: Seq<ScanFiles>) -> bool {
    &&& files.len() == events.len() + 1
    &&& forall|i: int|
        0 <= i < events.len() ==> is_performed(
            after_all(events.take(i)),
            #[trigger] events[i],
            files[i],
            files[i + 1],
        )
}

/// As far as a scan has not failed, its files hold what it has written.
pub open spec fn holds_what_was_written(m: ScanModel, files: ScanFiles) -> bool {
    let names_hold = files.names == Some(names::names_file(m.names_written));
    let scratch_holds = files.scratch == Some(record::records_file(m.records_written));
    match m.step {
        ScanStep::CreateNames => m.names_written.len() == 0 && m.records_written.len() == 0,
        ScanStep::CreateScratch => names_hold && m.records_written.len() == 0,
        ScanStep::Failed(_) => true,
        _ => names_hold && scratch_holds,
    }
}

proof fn lemma_step_holds_what_was_written(
    m: ScanModel,
    event: ScanEvent,
    before: ScanFiles,
    after: ScanFiles,
)
    requires
        m.is_sound(),
        holds_what_was_written(m, before),
        is_performed(m, event, before, after),
    ensures
        holds_what_was_written(m.after(event), after),
{
    assert(names::names_file(Seq::empty()) =~= Seq::<u8>::empty());
    assert(record::records_file(Seq::empty()) =~= Seq::<u8>::empty());
    if m.step is CreateNames {
        assert(m.names_written =~= Seq::empty());
    }
    if m.step is CreateScratch {
        assert(m.records_written =~= Seq::empty());
    }
    names::appended_name_extends_file(m.names_written, m.pending.basename);
    record::appended_record_extends_file(m.records_written, m.pending_record());
}

/// A scan that has finished leaves a staged names file with exactly the names,
/// and a scratch file with exactly the records, that it has written: those of
/// the files it has taken in, in this order.
pub proof fn finished_scan_leaves_its_files(events: Seq<ScanEvent>, files: Seq<ScanFiles>)
    requires
        are_performed(events, files),
    ensures
        ({
            let end = after_all(events);
            &&& end.is_sound()
            &&& holds_what_was_written(end, files.last())
            &&& end.step == ScanStep::Finished ==> files.last() == (ScanFiles {
                names: Some(names::names_file(end.names_written)),
                scratch: Some(record::records_file(end.records_written)),
            })
        }),
    decreases events.len(),
{
    if events.len() == 0 {
        scan::scan_starts_sound();
    } else {
        let front = events.drop_last();
        let earlier = files.drop_last();
        assert forall|i: int| 0 <= i < front.len() implies is_performed(
            after_all(front.take(i)),
            #[trigger] front[i],
            earlier[i],
            earlier[i + 1],
        ) by {
            assert(front[i] == events[i]);
            assert(front.take(i) =~= events.take(i));
        }
        finished_scan_leaves_its_files(front, earlier);
        let i = events.len() - 1;
        assert(is_performed(after_all(events.take(i)), events[i], files[i], files[i + 1]));
        assert(events.take(i) =~= front);
        assert(earlier.last() == files[i]);
        scan::scan_stays_sound(after_all(front), events.last());
        lemma_step_holds_what_was_written(
            after_all(front),
            events.last(),
            files[i],
            files[i + 1],
        );
    }
}

} // verus!
