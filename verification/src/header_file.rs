//! Reading and writing `header.bin`.

use vstd::prelude::*;
use crate::error::ChronoIndexError;
use crate::header;
use crate::header::ChronoIndexHeader;
use crate::layout::HEADER_SIZE;

verus! {

/// What reading the header file gave.
pub enum HeaderRead {
    /// There is no header file.
    NotFound,
    /// The header file could not be opened, or holds fewer bytes than a header.
    Failed,
    /// The first bytes of the header file.
    Bytes([u8; HEADER_SIZE]),
}

/// The header that the header file holds; none where there is no such file.
pub fn read_header(read: HeaderRead) -> (header: Result<Option<ChronoIndexHeader>, ChronoIndexError>)
    ensures
        match read {
            HeaderRead::NotFound => header == Ok::<Option<ChronoIndexHeader>, ChronoIndexError>(
                None,
            ),
            HeaderRead::Failed => header == Err::<Option<ChronoIndexHeader>, ChronoIndexError>(
                ChronoIndexError::HeaderReadIo,
            ),
            HeaderRead::Bytes(bytes) => match ChronoIndexHeader::structural_error(bytes@) {
                Some(error) => header == Err::<Option<ChronoIndexHeader>, ChronoIndexError>(error),
                None => header matches Ok(Some(h)) && h.is_read_from(bytes@),
            },
        },
{
    match read {
        HeaderRead::NotFound => Ok(None),
        HeaderRead::Failed => Err(ChronoIndexError::HeaderReadIo),
        HeaderRead::Bytes(bytes) => match ChronoIndexHeader::deserialize_from(&bytes) {
            Ok(header) => Ok(Some(header)),
            Err(error) => Err(error),
        },
    }
}

/// What reading a header file with these contents gives, where nothing fails;
/// none stands for a file that is not there.
pub open spec fn is_read_of(
    file: Option<Seq<u8>>,
    read: Result<Option<ChronoIndexHeader>, ChronoIndexError>,
) -> bool {
    match file {
        None => read == Ok::<Option<ChronoIndexHeader>, ChronoIndexError>(None),
        Some(bytes) => if bytes.len() < HEADER_SIZE {
            read == Err::<Option<ChronoIndexHeader>, ChronoIndexError>(
                ChronoIndexError::HeaderReadIo,
            )
        } else {
            let first = bytes.take(HEADER_SIZE as int);
            match ChronoIndexHeader::structural_error(first) {
                Some(error) => read == Err::<Option<ChronoIndexHeader>, ChronoIndexError>(error),
                None => read matches Ok(Some(header)) && header.is_read_from(first),
            }
        },
    }
}

/// The same header file always gives the same header.
pub proof fn header_file_reads_as_one_header(
    file: Option<Seq<u8>>,
    a: Result<Option<ChronoIndexHeader>, ChronoIndexError>,
    b: Result<Option<ChronoIndexHeader>, ChronoIndexError>,
)
    requires
        is_read_of(file, a),
        is_read_of(file, b),
    ensures
        a == b,
{
    if let (Ok(Some(x)), Ok(Some(y))) = (a, b) {
        assert(x.parent_path =~= y.parent_path);
    }
}

/// What writing the header needs done next. The new header is staged in a file
/// of its own and renamed over the old one, so that a reader sees the one or
/// the other and never a part.
#[derive(Debug, Clone, Copy, PartialEq, Eq, Structural)]
pub enum HeaderWriteStep {
    /// Create the staging file, empty.
    CreateStaging,
    /// Write the header's bytes to the staging file.
    WriteStaging,
    /// Make the staging file durable.
    SyncStaging,
    /// Rename the staging file to the header file.
    RenameStaging,
    /// Remove the staging file after a failure.
    RemoveStaging(ChronoIndexError),
    /// Nothing: the new header is in place.
    Finished,
    /// Nothing: the old header, if any, is still in place.
    Failed(ChronoIndexError),
}

impl HeaderWriteStep {
    /// The step after this one succeeded or failed.
    pub open spec fn after(self, succeeded: bool) -> HeaderWriteStep {
        match self {
            HeaderWriteStep::CreateStaging => if succeeded {
                HeaderWriteStep::WriteStaging
            } else {
                HeaderWriteStep::Failed(ChronoIndexError::HeaderWriteIo)
            },
            HeaderWriteStep::WriteStaging => if succeeded {
                HeaderWriteStep::SyncStaging
            } else {
                HeaderWriteStep::RemoveStaging(ChronoIndexError::HeaderWriteIo)
            },
            HeaderWriteStep::SyncStaging => if succeeded {
                HeaderWriteStep::RenameStaging
            } else {
                HeaderWriteStep::RemoveStaging(ChronoIndexError::HeaderWriteIo)
            },
            HeaderWriteStep::RenameStaging => if succeeded {
                HeaderWriteStep::Finished
            } else {
                HeaderWriteStep::RemoveStaging(ChronoIndexError::RenameIo)
            },
            HeaderWriteStep::RemoveStaging(error) => HeaderWriteStep::Failed(error),
            HeaderWriteStep::Finished => self,
            HeaderWriteStep::Failed(_) => self,
        }
    }
}

/// A header on its way to disk.
pub struct HeaderWrite {
    pub step: HeaderWriteStep,
    /// The bytes to write.
    pub bytes: [u8; HEADER_SIZE],
}

impl HeaderWrite {
    /// Starts writing `header`.
    pub fn begin(header: &ChronoIndexHeader) -> (write: HeaderWrite)
        ensures
            write.step == HeaderWriteStep::CreateStaging,
            write.bytes@ == header.bytes(),
    {
        let mut bytes: [u8; HEADER_SIZE] = [0u8; HEADER_SIZE];
        header.serialize_into(&mut bytes);
        HeaderWrite { step: HeaderWriteStep::CreateStaging, bytes }
    }
}

/// Goes on after the step that `write` asked for has succeeded or failed.
pub fn write_header_atomic(write: HeaderWrite, succeeded: bool) -> (next: HeaderWrite)
    ensures
        next.step == write.step.after(succeeded),
        next.bytes == write.bytes,
{
    let next_step: HeaderWriteStep = match write.step {
        HeaderWriteStep::CreateStaging => if succeeded {
            HeaderWriteStep::WriteStaging
        } else {
            HeaderWriteStep::Failed(ChronoIndexError::HeaderWriteIo)
        },
        HeaderWriteStep::WriteStaging => if succeeded {
            HeaderWriteStep::SyncStaging
        } else {
            HeaderWriteStep::RemoveStaging(ChronoIndexError::HeaderWriteIo)
        },
        HeaderWriteStep::SyncStaging => if succeeded {
            HeaderWriteStep::RenameStaging
        } else {
            HeaderWriteStep::RemoveStaging(ChronoIndexError::HeaderWriteIo)
        },
        HeaderWriteStep::RenameStaging => if succeeded {
            HeaderWriteStep::Finished
        } else {
            HeaderWriteStep::RemoveStaging(ChronoIndexError::RenameIo)
        },
        HeaderWriteStep::RemoveStaging(error) => HeaderWriteStep::Failed(error),
        HeaderWriteStep::Finished => HeaderWriteStep::Finished,
        HeaderWriteStep::Failed(error) => HeaderWriteStep::Failed(error),
    };
    HeaderWrite { step: next_step, bytes: write.bytes }
}

/// The new header is in place exactly where creating, writing and syncing the
/// staging file and renaming it all succeeded; the rename is asked for only
/// after the staging file is complete and durable.
pub proof fn header_write_is_all_or_nothing(create: bool, write: bool, sync: bool, rename: bool)
    ensures
        ({
            let created = HeaderWriteStep::CreateStaging.after(create);
            let written = created.after(write);
            let synced = written.after(sync);
            let renamed = synced.after(rename);
            &&& synced is RenameStaging <==> create && write && sync
            &&& !(created is RenameStaging) && !(written is RenameStaging)
            &&& renamed is Finished <==> create && write && sync && rename
            &&& !create ==> created == HeaderWriteStep::Failed(ChronoIndexError::HeaderWriteIo)
            &&& create && !write ==> written == HeaderWriteStep::RemoveStaging(
                ChronoIndexError::HeaderWriteIo,
            )
            &&& create && write && !sync ==> synced == HeaderWriteStep::RemoveStaging(
                ChronoIndexError::HeaderWriteIo,
            )
            &&& create && write && sync && !rename ==> renamed == HeaderWriteStep::RemoveStaging(
                ChronoIndexError::RenameIo,
            )
        }),
{
}

/// What the header file and its staging file hold; none where there is no such
/// file.
pub struct HeaderFiles {
    pub header: Option<Seq<u8>>,
    pub staging: Option<Seq<u8>>,
}

/// Performing `step` of a write of `bytes`, with success or not, turns files that
/// hold `before` into ones that hold `after`. A rename that fails changes
/// nothing, and no other step touches the header file.
pub open spec fn is_performed(
    step: HeaderWriteStep,
    bytes: Seq<u8>,
    succeeded: bool,
    before: HeaderFiles,
    after: HeaderFiles,
) -> bool {
    match step {
        HeaderWriteStep::RenameStaging => if succeeded {
            &&& before.staging is Some
            &&& after == HeaderFiles { header: before.staging, staging: None }
        } else {
            after == before
        },
        HeaderWriteStep::CreateStaging => {
            &&& after.header == before.header
            &&& succeeded ==> after.staging == Some(Seq::<u8>::empty())
        },
        HeaderWriteStep::WriteStaging => {
            &&& after.header == before.header
            &&& succeeded ==> before.staging is Some && after.staging == Some(
                before.staging->0 + bytes,
            )
        },
        HeaderWriteStep::RemoveStaging(_) => after.header == before.header,
        HeaderWriteStep::SyncStaging | HeaderWriteStep::Finished | HeaderWriteStep::Failed(_) => {
            after == before
        },
    }
}

/// The step of a write after all of `outcomes`.
pub open spec fn step_after_all(outcomes: Seq<bool>) -> HeaderWriteStep
    decreases outcomes.len(),
{
    if outcomes.len() == 0 {
        HeaderWriteStep::CreateStaging
    } else {
        step_after_all(outcomes.drop_last()).after(outcomes.last())
    }
}

/// A write of the header is atomic, whatever comes of its steps: until it has
/// finished, and where it fails, the header file holds what it held before, and
/// once it has finished, exactly the bytes of the new header.
pub proof fn header_write_is_atomic(
    bytes: Seq<u8>,
    outcomes: Seq<bool>,
    files: Seq<HeaderFiles>,
)
    requires
        files.len() == outcomes.len() + 1,
        forall|i: int|
            0 <= i < outcomes.len() ==> is_performed(
                step_after_all(outcomes.take(i)),
                bytes,
                #[trigger] outcomes[i],
                files[i],
                files[i + 1],
            ),
    ensures
        files.last().header == if step_after_all(outcomes) is Finished {
            Some(bytes)
        } else {
            files[0].header
        },
        step_after_all(outcomes) is WriteStaging ==> files.last().staging == Some(
            Seq::<u8>::empty(),
        ),
        step_after_all(outcomes) is SyncStaging || step_after_all(outcomes) is RenameStaging
            ==> files.last().staging == Some(bytes),
    decreases outcomes.len(),
{
    if outcomes.len() > 0 {
        let front = outcomes.drop_last();
        let i = outcomes.len() - 1;
        assert forall|k: int| 0 <= k < front.len() implies is_performed(
            step_after_all(front.take(k)),
            bytes,
            #[trigger] front[k],
            files.drop_last()[k],
            files.drop_last()[k + 1],
        ) by {
            assert(front[k] == outcomes[k]);
            assert(front.take(k) =~= outcomes.take(k));
        }
        header_write_is_atomic(bytes, front, files.drop_last());
        assert(is_performed(
            step_after_all(outcomes.take(i)),
            bytes,
            outcomes[i],
            files[i],
            files[i + 1],
        ));
        assert(outcomes.take(i) =~= front);
        assert(Seq::<u8>::empty() + bytes =~= bytes);
    }
}

/// What a read of the header file gives back after a header was written: that
/// header.
pub proof fn read_gives_back_written_header(
    written: ChronoIndexHeader,
    bytes: [u8; HEADER_SIZE],
    read: ChronoIndexHeader,
)
    requires
        written.parent_path_len <= crate::layout::MAX_PARENT_PATH_LEN,
        bytes@ == written.bytes(),
    ensures
        ChronoIndexHeader::structural_error(bytes@) is None,
        read.is_read_from(bytes@) ==> read == written,
{
    header::header_round_trips(written);
}

/// A header file that holds a written header is read as that header.
pub proof fn written_header_file_is_read_back(
    written: ChronoIndexHeader,
    read: Result<Option<ChronoIndexHeader>, ChronoIndexError>,
)
    requires
        written.parent_path_len <= crate::layout::MAX_PARENT_PATH_LEN,
        is_read_of(Some(written.bytes()), read),
    ensures
        read == Ok::<Option<ChronoIndexHeader>, ChronoIndexError>(Some(written)),
{
    header::header_round_trips(written);
    assert(written.bytes().take(HEADER_SIZE as int) =~= written.bytes());
}

/// What calls that write and read a header return: reading the bytes that are
/// written for a header gives that header, no header file gives none, and one that
/// cannot be read an error.
pub proof fn header_is_written_and_read_back(
    header: ChronoIndexHeader,
    write: HeaderWrite,
    read: Result<Option<ChronoIndexHeader>, ChronoIndexError>,
    missing: Result<Option<ChronoIndexHeader>, ChronoIndexError>,
    unreadable: Result<Option<ChronoIndexHeader>, ChronoIndexError>,
)
    requires
        header.parent_path_len <= 4096,
        call_ensures(HeaderWrite::begin, (&header,), write),
        call_ensures(read_header, (HeaderRead::Bytes(write.bytes),), read),
        call_ensures(read_header, (HeaderRead::NotFound,), missing),
        call_ensures(read_header, (HeaderRead::Failed,), unreadable),
    ensures
        read == Ok::<Option<ChronoIndexHeader>, ChronoIndexError>(Some(header)),
        missing == Ok::<Option<ChronoIndexHeader>, ChronoIndexError>(None),
        unreadable == Err::<Option<ChronoIndexHeader>, ChronoIndexError>(
            ChronoIndexError::HeaderReadIo,
        ),
{
    read_gives_back_written_header(header, write.bytes, read->Ok_0->0);
}

} // verus!
