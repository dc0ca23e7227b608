//! What an append does to the files of an index.
//!
//! The steps of an append are performed on files with given contents; a write
//! that fails can leave a part of what was to be written. Until its header is
//! written, an append leaves the old header, and then it can be told from the
//! sizes of the data files whether anything was added to them.

use vstd::prelude::*;
use crate::append;
use crate::append::{AppendEvent, AppendModel, AppendStep};
use crate::batch_rewrite::RewriteModel;
use crate::build_files;
use crate::build_files::IndexContents;
use crate::entry;
use crate::entry::FileFact;
use crate::header::ChronoIndexHeader;
use crate::layout::{MTIME_RECORD_SIZE, NAME_RECORD_SIZE};
use crate::lifecycle;
use crate::names;
use crate::record;
use crate::record::MtimeRecord;
use crate::rewrite_files;
use crate::stored_index;
use crate::update;

verus! {

/// Appending `bytes` to a file that held `before` has failed and has left
/// `after`: the file with a part of them, if any.
pub open spec fn is_partly_appended(
    before: Option<Seq<u8>>,
    bytes: Seq<u8>,
    after: Option<Seq<u8>>,
) -> bool {
    &&& before is Some
    &&& after is Some
    &&& before->0.is_prefix_of(after->0)
    &&& after->0.is_prefix_of(before->0 + bytes)
}

/// Cutting a file that held `before` to `size` bytes leaves `after`.
pub open spec fn is_cut(before: Option<Seq<u8>>, size: int, after: Option<Seq<u8>>) -> bool {
    &&& before is Some
    &&& size <= before->0.len()
    &&& after == Some(before->0.take(size))
}

/// Rewriting a file that held `before` with `batch` merged in leaves `after`, as
/// [`crate::rewrite_files`] shows, and reports this newest modification time.
pub open spec fn is_rewritten(
    batch: Seq<MtimeRecord>,
    before: Option<Seq<u8>>,
    after: Option<Seq<u8>>,
    newest_sec: i64,
    newest_nsec: i32,
) -> bool {
    &&& before is Some
    &&& after is Some
    &&& exists|rewrite: RewriteModel|
        {
            &&& #[trigger] rewrite_files::is_rewrite_of(rewrite, batch, before->0, after->0)
            &&& newest_sec == rewrite.written.last().mtime_sec
            &&& newest_nsec == rewrite.written.last().mtime_nsec
        }
}

/// Performing the step that `m` asks for, with `event` coming of it, turns files
/// that hold `before` into ones that hold `after`.
///
/// A rewrite that fails leaves `mtimes.bin` alone. Cutting the files can fail
/// after some of them are cut. The header is written atomically, as
/// [`crate::header_file`] shows: it is the new one, or, where that fails, the old
/// one. The sidecar is no part of these files.
pub open spec fn is_performed(
    m: AppendModel,
    event: AppendEvent,
    before: IndexContents,
    after: IndexContents,
) -> bool {
    let names_size = m.header.file_count * NAME_RECORD_SIZE;
    let mtimes_size = m.header.file_count * MTIME_RECORD_SIZE;
    match (m.step, event) {
        (AppendStep::AppendName, AppendEvent::Succeeded) => {
            &&& before.names is Some
            &&& after == (IndexContents {
                names: Some(before.names->0 + names::name_record(m.pending.basename)),
                ..before
            })
        },
        (AppendStep::AppendName, AppendEvent::Failed) => {
            &&& is_partly_appended(
                before.names,
                names::name_record(m.pending.basename),
                after.names,
            )
            &&& after == (IndexContents { names: after.names, ..before })
        },
        (AppendStep::AppendMtimes, AppendEvent::Succeeded) => {
            &&& before.mtimes is Some
            &&& after == (IndexContents {
                mtimes: Some(before.mtimes->0 + record::records_file(m.batch)),
                ..before
            })
        },
        (AppendStep::AppendMtimes, AppendEvent::Failed) => {
            &&& is_partly_appended(before.mtimes, record::records_file(m.batch), after.mtimes)
            &&& after == (IndexContents { mtimes: after.mtimes, ..before })
        },
        (AppendStep::RewriteMtimes, AppendEvent::Rewritten { newest_sec, newest_nsec }) => {
            &&& is_rewritten(m.batch, before.mtimes, after.mtimes, newest_sec, newest_nsec)
            &&& after == (IndexContents { mtimes: after.mtimes, ..before })
        },
        (AppendStep::TrimFiles, AppendEvent::Succeeded) => {
            &&& is_cut(before.names, names_size, after.names)
            &&& is_cut(before.mtimes, mtimes_size, after.mtimes)
            &&& after.header == before.header
        },
        (AppendStep::TrimFiles, AppendEvent::Failed) => {
            &&& after.names == before.names || is_cut(before.names, names_size, after.names)
            &&& after.mtimes == before.mtimes || is_cut(before.mtimes, mtimes_size, after.mtimes)
            &&& after.header == before.header
        },
        (AppendStep::WriteHeader, AppendEvent::Succeeded) => after == (IndexContents {
            header: Some(m.header.bytes()),
            ..before
        }),
        _ => after == before,
    }
}

/// `contents` are what the files hold at the start of an append and after each of
/// `events`.
pub open spec fn are_performed(
    header: ChronoIndexHeader,
    events: Seq<AppendEvent>,
    contents: Seq<IndexContents>,
) -> bool {
    &&& contents.len() == events.len() + 1
    &&& forall|i: int|
        0 <= i < events.len() ==> is_performed(
            lifecycle::after_all(AppendModel::start(header), events.take(i)),
            #[trigger] events[i],
            contents[i],
            contents[i + 1],
        )
}

/// The files are those of an index of `base` with this header, small enough for
/// their sizes to be told.
pub open spec fn is_index_of_files(
    contents: IndexContents,
    header: ChronoIndexHeader,
    base: Seq<FileFact>,
    mtimes: Seq<MtimeRecord>,
) -> bool {
    &&& stored_index::represents(header, mtimes, entry::basenames(base), base)
    &&& contents.names == Some(names::names_file(entry::basenames(base)))
    &&& contents.mtimes == Some(record::records_file(mtimes))
    &&& base.len() * NAME_RECORD_SIZE <= u64::MAX
}

/// The old header is in place, and where the data files have the sizes that it
/// asks for, they are the old ones too.
pub open spec fn is_noticed(
    contents: IndexContents,
    previous: IndexContents,
    header: ChronoIndexHeader,
) -> bool {
    &&& contents.header == previous.header
    &&& update::sizes_match(
        build_files::measured_size(contents.names),
        build_files::measured_size(contents.mtimes),
        header,
    ) ==> contents == previous
}

/// The header of the append is in place, and the data files hold what the append
/// has added to `names` and `mtimes`.
pub open spec fn is_committed(
    m: AppendModel,
    contents: IndexContents,
    names: Seq<Seq<u8>>,
    mtimes: Seq<MtimeRecord>,
) -> bool {
    contents == build_files::committed_contents(
        m.header,
        names::names_file(names + m.names_written),
        record::records_file(stored_index::mtimes_after(mtimes, m.flushes)),
    )
}

/// What holds at every step of an append to files that held `previous`: an index
/// of `base` with this header.
pub open spec fn agrees_with_files(
    m: AppendModel,
    contents: IndexContents,
    previous: IndexContents,
    header: ChronoIndexHeader,
    base: Seq<FileFact>,
    mtimes: Seq<MtimeRecord>,
) -> bool {
    let names_hold = names::names_file(entry::basenames(base) + m.names_written);
    let mtimes_hold = record::records_file(stored_index::mtimes_after(mtimes, m.flushes));
    &&& m.flushes.len() > 0 ==> stored_index::flushed_count(m) > 0
    &&& match m.step {
        AppendStep::Failed(_) => {
            ||| is_noticed(contents, previous, header)
            ||| m.purpose is Fail && is_committed(m, contents, entry::basenames(base), mtimes)
                && stored_index::represents(
                m.header,
                stored_index::mtimes_after(mtimes, m.flushes),
                entry::basenames(base) + m.names_written,
                base + m.files_taken,
            )
        },
        AppendStep::Finished => is_committed(m, contents, entry::basenames(base), mtimes),
        _ => {
            &&& contents.header == previous.header
            &&& contents.names is Some
            &&& contents.mtimes is Some
            &&& names_hold.is_prefix_of(contents.names->0)
            &&& mtimes_hold.is_prefix_of(contents.mtimes->0)
            &&& !(m.purpose is Fail) || m.step is WriteHeader ==> contents.names->0 == names_hold
            &&& !(m.step is TrimFiles) ==> contents.mtimes->0 == mtimes_hold
        },
    }
}

proof fn lemma_prefix_of_names_file(a: Seq<Seq<u8>>, b: Seq<Seq<u8>>)
    ensures
        names::names_file(a).is_prefix_of(names::names_file(a + b)),
        names::names_file(a).len() == a.len() * NAME_RECORD_SIZE,
{
    let whole = names::names_file(a + b);
    let part = names::names_file(a);
    assert forall|k: int| 0 <= k < part.len() implies part[k] == whole[k] by {
        assert(k / (NAME_RECORD_SIZE as int) < a.len());
    }
    assert(part =~= whole.take(part.len() as int));
}

/// Data files that begin with the old names and with what was flushed have other
/// sizes than the old header asks for, or are the old ones.
proof fn lemma_additions_are_noticed(
    m: AppendModel,
    contents: IndexContents,
    previous: IndexContents,
    header: ChronoIndexHeader,
    base: Seq<FileFact>,
    mtimes: Seq<MtimeRecord>,
)
    requires
        is_index_of_files(previous, header, base, mtimes),
        stored_index::append_agrees(m, base, mtimes),
        m.flushes.len() > 0 ==> stored_index::flushed_count(m) > 0,
        contents.header == previous.header,
        contents.names is Some,
        contents.mtimes is Some,
        names::names_file(entry::basenames(base)).is_prefix_of(contents.names->0),
        record::records_file(stored_index::mtimes_after(mtimes, m.flushes)).is_prefix_of(
            contents.mtimes->0,
        ),
    ensures
        is_noticed(contents, previous, header),
{
    let flushed = stored_index::mtimes_after(mtimes, m.flushes);
    record::lemma_chronological_sorts(
        entry::file_records(stored_index::flushed_files(m, base), 0),
    );
    assert(flushed.len() == base.len() + stored_index::flushed_count(m));
    if update::sizes_match(
        build_files::measured_size(contents.names),
        build_files::measured_size(contents.mtimes),
        header,
    ) {
        assert(contents.names->0 =~= previous.names->0);
        assert(m.flushes.len() == 0);
        assert(contents.mtimes->0 =~= previous.mtimes->0);
    }
}

proof fn lemma_trimming_agrees(
    m: AppendModel,
    event: AppendEvent,
    before: IndexContents,
    after: IndexContents,
    previous: IndexContents,
    header: ChronoIndexHeader,
    base: Seq<FileFact>,
    mtimes: Seq<MtimeRecord>,
)
    requires
        is_index_of_files(previous, header, base, mtimes),
        m.is_sound(),
        m.step is TrimFiles,
        stored_index::append_agrees(m, base, mtimes),
        agrees_with_files(m, before, previous, header, base, mtimes),
        is_performed(m, event, before, after),
    ensures
        agrees_with_files(m.after(event), after, previous, header, base, mtimes),
{
    let old_names = entry::basenames(base);
    let all_names = old_names + m.names_written;
    let flushed = stored_index::mtimes_after(mtimes, m.flushes);
    let count = (base.len() + m.files_taken.len()) as int;
    record::lemma_chronological_sorts(
        entry::file_records(stored_index::flushed_files(m, base), 0),
    );
    assert(flushed.len() == count);
    lemma_prefix_of_names_file(old_names, m.names_written);
    let kept = m.names_written.take(m.files_taken.len() as int);
    let names_cut = before.names->0.take(count * NAME_RECORD_SIZE);
    assert(all_names =~= old_names + kept + m.names_written.skip(m.files_taken.len() as int));
    lemma_prefix_of_names_file(
        old_names + kept,
        m.names_written.skip(m.files_taken.len() as int),
    );
    if event is Succeeded || is_cut(before.names, count * NAME_RECORD_SIZE, after.names) {
        assert(names_cut =~= names::names_file(old_names + kept));
    }
    let mtimes_cut = before.mtimes->0.take(count * MTIME_RECORD_SIZE);
    assert(mtimes_cut =~= record::records_file(flushed));
    if event is Failed {
        lemma_prefix_of_names_file(old_names, kept);
        lemma_additions_are_noticed(m, after, previous, header, base, mtimes);
    }
}

proof fn lemma_name_step_agrees_with_files(
    m: AppendModel,
    event: AppendEvent,
    before: IndexContents,
    after: IndexContents,
    previous: IndexContents,
    header: ChronoIndexHeader,
    base: Seq<FileFact>,
    mtimes: Seq<MtimeRecord>,
)
    requires
        is_index_of_files(previous, header, base, mtimes),
        m.is_sound(),
        m.header.file_count < u64::MAX,
        stored_index::append_agrees(m, base, mtimes),
        agrees_with_files(m, before, previous, header, base, mtimes),
        is_performed(m, event, before, after),
        m.step is AppendName,
    ensures
        agrees_with_files(m.after(event), after, previous, header, base, mtimes),
{
    let n = m.after(event);
    let old_names = entry::basenames(base);
    stored_index::lemma_flush_takes_in_files(m, event);
    names::appended_name_extends_file(old_names + m.names_written, m.pending.basename);
    assert(old_names + m.names_written.push(m.pending.basename) =~= (old_names
        + m.names_written).push(m.pending.basename));
}

proof fn lemma_flush_step_agrees_with_files(
    m: AppendModel,
    event: AppendEvent,
    before: IndexContents,
    after: IndexContents,
    previous: IndexContents,
    header: ChronoIndexHeader,
    base: Seq<FileFact>,
    mtimes: Seq<MtimeRecord>,
)
    requires
        is_index_of_files(previous, header, base, mtimes),
        m.is_sound(),
        m.header.file_count < u64::MAX,
        stored_index::append_agrees(m, base, mtimes),
        agrees_with_files(m, before, previous, header, base, mtimes),
        is_performed(m, event, before, after),
        m.step is AppendMtimes,
    ensures
        agrees_with_files(m.after(event), after, previous, header, base, mtimes),
{
    let n = m.after(event);
    let flushed = stored_index::mtimes_after(mtimes, m.flushes);
    stored_index::lemma_flush_takes_in_files(m, event);
    if event is Succeeded {
        record::lemma_records_file_concat(flushed, m.batch);
        assert(n.flushes.drop_last() =~= m.flushes);
        assert(stored_index::mtimes_after(mtimes, n.flushes) == flushed + m.batch);
    }
}

proof fn lemma_rewrite_leaves_flushed_records(
    m: AppendModel,
    before: Option<Seq<u8>>,
    after: Option<Seq<u8>>,
    newest_sec: i64,
    newest_nsec: i32,
    base: Seq<FileFact>,
    mtimes: Seq<MtimeRecord>,
)
    requires
        m.is_sound(),
        m.step is RewriteMtimes,
        stored_index::append_agrees(m, base, mtimes),
        before == Some(
            record::records_file(stored_index::mtimes_after(mtimes, m.flushes)),
        ),
        is_rewritten(m.batch, before, after, newest_sec, newest_nsec),
    ensures
        ({
            let event = AppendEvent::Rewritten { newest_sec, newest_nsec };
            &&& stored_index::rewrite_is_truthful(m, event, mtimes)
            &&& after == Some(
                record::records_file(
                    stored_index::mtimes_after(mtimes, m.after(event).flushes),
                ),
            )
        }),
{
    let rewrite = choose|rewrite: RewriteModel|
        {
            &&& #[trigger] rewrite_files::is_rewrite_of(rewrite, m.batch, before->0, after->0)
            &&& newest_sec == rewrite.written.last().mtime_sec
            &&& newest_nsec == rewrite.written.last().mtime_nsec
        };
    record::records_file_round_trips(stored_index::mtimes_after(mtimes, m.flushes));
    stored_index::rewrite_is_flush(m, base, mtimes, rewrite);
}

proof fn lemma_rewrite_step_agrees_with_files(
    m: AppendModel,
    event: AppendEvent,
    before: IndexContents,
    after: IndexContents,
    previous: IndexContents,
    header: ChronoIndexHeader,
    base: Seq<FileFact>,
    mtimes: Seq<MtimeRecord>,
)
    requires
        is_index_of_files(previous, header, base, mtimes),
        m.is_sound(),
        m.header.file_count < u64::MAX,
        stored_index::append_agrees(m, base, mtimes),
        agrees_with_files(m, before, previous, header, base, mtimes),
        is_performed(m, event, before, after),
        m.step is RewriteMtimes,
    ensures
        stored_index::rewrite_is_truthful(m, event, mtimes),
        agrees_with_files(m.after(event), after, previous, header, base, mtimes),
{
    stored_index::lemma_flush_takes_in_files(m, event);
    if let AppendEvent::Rewritten { newest_sec, newest_nsec } = event {
        lemma_rewrite_leaves_flushed_records(
            m,
            before.mtimes,
            after.mtimes,
            newest_sec,
            newest_nsec,
            base,
            mtimes,
        );
    }
}

proof fn lemma_other_step_agrees_with_files(
    m: AppendModel,
    event: AppendEvent,
    before: IndexContents,
    after: IndexContents,
    previous: IndexContents,
    header: ChronoIndexHeader,
    base: Seq<FileFact>,
    mtimes: Seq<MtimeRecord>,
)
    requires
        is_index_of_files(previous, header, base, mtimes),
        m.is_sound(),
        m.header.file_count < u64::MAX,
        stored_index::append_agrees(m, base, mtimes),
        agrees_with_files(m, before, previous, header, base, mtimes),
        is_performed(m, event, before, after),
        !(m.step is AppendName) && !(m.step is AppendMtimes) && !(m.step is RewriteMtimes)
            && !(m.step is TrimFiles),
    ensures
        agrees_with_files(m.after(event), after, previous, header, base, mtimes),
{
    let old_names = entry::basenames(base);
    stored_index::lemma_flush_takes_in_files(m, event);
    if m.step is WriteHeader && event is Succeeded {
        stored_index::written_header_represents_files(m, base, mtimes);
    } else if m.after(event).step is Failed && !(m.step is Failed) {
        lemma_prefix_of_names_file(old_names, m.names_written);
        lemma_additions_are_noticed(m, after, previous, header, base, mtimes);
    }
}

proof fn lemma_step_keeps_path(m: AppendModel, event: AppendEvent)
    requires
        m.is_sound(),
    ensures
        m.after(event).header.parent_path_len == m.header.parent_path_len,
        m.after(event).header.parent_path == m.header.parent_path,
        m.after(event).files_taken.len() <= m.files_taken.len() + 1,
{
}

/// What holds after `steps` steps of an append to files that held `previous`.
#[verifier::opaque]
spec fn is_in_order(
    m: AppendModel,
    contents: IndexContents,
    previous: IndexContents,
    header: ChronoIndexHeader,
    base: Seq<FileFact>,
    mtimes: Seq<MtimeRecord>,
    steps: nat,
) -> bool {
    &&& m.is_sound()
    &&& stored_index::append_agrees(m, base, mtimes)
    &&& agrees_with_files(m, contents, previous, header, base, mtimes)
    &&& m.header.parent_path_len == header.parent_path_len
    &&& m.header.parent_path == header.parent_path
    &&& m.files_taken.len() <= steps
}

proof fn lemma_step_stays_in_order(
    m: AppendModel,
    event: AppendEvent,
    before: IndexContents,
    after: IndexContents,
    previous: IndexContents,
    header: ChronoIndexHeader,
    base: Seq<FileFact>,
    mtimes: Seq<MtimeRecord>,
    steps: nat,
)
    requires
        is_index_of_files(previous, header, base, mtimes),
        base.len() + steps < u64::MAX,
        is_in_order(m, before, previous, header, base, mtimes, steps),
        is_one_step(m, event, before, after),
    ensures
        is_in_order(m.after(event), after, previous, header, base, mtimes, steps + 1),
{
    reveal(is_in_order);
    reveal(is_one_step);
    match m.step {
        AppendStep::AppendName => {
            lemma_name_step_agrees_with_files(
                m,
                event,
                before,
                after,
                previous,
                header,
                base,
                mtimes,
            );
        },
        AppendStep::RewriteMtimes => {
            lemma_rewrite_step_agrees_with_files(
                m,
                event,
                before,
                after,
                previous,
                header,
                base,
                mtimes,
            );
        },
        AppendStep::AppendMtimes => {
            lemma_flush_step_agrees_with_files(
                m,
                event,
                before,
                after,
                previous,
                header,
                base,
                mtimes,
            );
        },
        AppendStep::TrimFiles => {
            lemma_trimming_agrees(m, event, before, after, previous, header, base, mtimes);
        },
        _ => {
            lemma_other_step_agrees_with_files(
                m,
                event,
                before,
                after,
                previous,
                header,
                base,
                mtimes,
            );
        },
    }
    append::append_stays_sound(m, event);
    stored_index::append_stays_in_agreement(m, event, base, mtimes);
    lemma_step_keeps_path(m, event);
}

/// [`is_performed`], for proofs that only pass it on.
#[verifier::opaque]
spec fn is_one_step(
    m: AppendModel,
    event: AppendEvent,
    before: IndexContents,
    after: IndexContents,
) -> bool {
    is_performed(m, event, before, after)
}

proof fn lemma_append_starts_in_order(
    header: ChronoIndexHeader,
    mtimes: Seq<MtimeRecord>,
    base: Seq<FileFact>,
    contents: IndexContents,
)
    requires
        is_index_of_files(contents, header, base, mtimes),
    ensures
        is_in_order(AppendModel::start(header), contents, contents, header, base, mtimes, 0),
{
    reveal(is_in_order);
    append::append_starts_sound(header);
    stored_index::append_starts_in_agreement(header, mtimes, entry::basenames(base), base);
    assert(entry::basenames(base) + AppendModel::start(header).names_written
        =~= entry::basenames(base));
}

/// [`lifecycle::after_all`] from the start of an append, for proofs that take one
/// step at a time.
#[verifier::opaque]
spec fn state_after(header: ChronoIndexHeader, events: Seq<AppendEvent>) -> AppendModel {
    lifecycle::after_all(AppendModel::start(header), events)
}

proof fn lemma_state_after(header: ChronoIndexHeader, events: Seq<AppendEvent>)
    ensures
        events.len() == 0 ==> state_after(header, events) == AppendModel::start(header),
        events.len() > 0 ==> state_after(header, events) == state_after(
            header,
            events.drop_last(),
        ).after(events.last()),
{
    reveal(state_after);
}

proof fn lemma_append_is_in_order(
    header: ChronoIndexHeader,
    mtimes: Seq<MtimeRecord>,
    base: Seq<FileFact>,
    events: Seq<AppendEvent>,
    contents: Seq<IndexContents>,
)
    requires
        contents.len() == events.len() + 1,
        is_index_of_files(contents[0], header, base, mtimes),
        forall|i: int|
            0 <= i < events.len() ==> is_one_step(
                state_after(header, events.take(i)),
                #[trigger] events[i],
                contents[i],
                contents[i + 1],
            ),
        base.len() + events.len() < u64::MAX,
    ensures
        is_in_order(
            state_after(header, events),
            contents.last(),
            contents[0],
            header,
            base,
            mtimes,
            events.len(),
        ),
    decreases events.len(),
{
    lemma_state_after(header, events);
    if events.len() == 0 {
        lemma_append_starts_in_order(header, mtimes, base, contents[0]);
    } else {
        let front = events.drop_last();
        let earlier = contents.drop_last();
        assert forall|i: int| 0 <= i < front.len() implies is_one_step(
            state_after(header, front.take(i)),
            #[trigger] front[i],
            earlier[i],
            earlier[i + 1],
        ) by {
            assert(front[i] == events[i]);
            assert(front.take(i) =~= events.take(i));
        }
        lemma_append_is_in_order(header, mtimes, base, front, earlier);
        let i = events.len() - 1;
        assert(is_one_step(
            state_after(header, events.take(i)),
            events[i],
            contents[i],
            contents[i + 1],
        ));
        assert(events.take(i) =~= front);
        assert(earlier.last() == contents[i]);
        lemma_step_stays_in_order(
            state_after(header, front),
            events.last(),
            contents[i],
            contents[i + 1],
            contents[0],
            header,
            base,
            mtimes,
            front.len(),
        );
    }
}

/// An append is committed by its header, or it is noticed. Whatever comes of its
/// steps, as long as the header is not written the old one is in place, and data
/// files to which anything was added, be it a part of a record, do not have the
/// sizes that it asks for, so that the next update builds the index anew; where
/// nothing was added, they are the files that there were. Once the header is
/// written, the three files are an index of the files that were there before and
/// of those that were taken in, also where the append has failed.
pub proof fn append_is_committed_or_noticed(
    header: ChronoIndexHeader,
    mtimes: Seq<MtimeRecord>,
    base: Seq<FileFact>,
    events: Seq<AppendEvent>,
    contents: Seq<IndexContents>,
)
    requires
        contents.len() > 0,
        is_index_of_files(contents[0], header, base, mtimes),
        are_performed(header, events, contents),
        base.len() + events.len() < u64::MAX,
    ensures
        ({
            let end = lifecycle::after_all(AppendModel::start(header), events);
            let committed = {
                &&& is_committed(end, contents.last(), entry::basenames(base), mtimes)
                &&& stored_index::represents(
                    end.header,
                    stored_index::mtimes_after(mtimes, end.flushes),
                    entry::basenames(base) + end.names_written,
                    base + end.files_taken,
                )
            };
            let noticed = is_noticed(contents.last(), contents[0], header);
            &&& end.is_sound()
            &&& stored_index::append_agrees(end, base, mtimes)
            &&& end.header.parent_path_len == header.parent_path_len
            &&& end.header.parent_path == header.parent_path
            &&& match end.step {
                AppendStep::Finished => committed,
                AppendStep::Failed(_) => committed || noticed,
                _ => noticed,
            }
        }),
{
    let start = AppendModel::start(header);
    let end = lifecycle::after_all(start, events);
    assert forall|i: int| 0 <= i < events.len() implies is_one_step(
        state_after(header, events.take(i)),
        #[trigger] events[i],
        contents[i],
        contents[i + 1],
    ) by {
        reveal(is_one_step);
        reveal(state_after);
    }
    lemma_append_is_in_order(header, mtimes, base, events, contents);
    reveal(is_in_order);
    reveal(state_after);
    if end.step is Finished {
        stored_index::written_header_represents_files(end, base, mtimes);
    } else if !(end.step is Failed) {
        lemma_prefix_of_names_file(entry::basenames(base), end.names_written);
        lemma_additions_are_noticed(end, contents.last(), contents[0], header, base, mtimes);
    }
}

} // verus!
