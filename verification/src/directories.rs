//! Creating and removing the directories of an index.

use vstd::prelude::*;
use crate::error::ChronoIndexError;

verus! {

/// What removing a directory and all it holds came to.
#[derive(Debug, Clone, Copy, PartialEq, Eq, Structural)]
pub enum Removal {
    Removed,
    /// There was nothing to remove.
    NotFound,
    Failed,
}

/// The outcome of creating the index directory, which succeeds where it is
/// there already.
pub fn ensure_index_directory_exists(present: bool) -> (outcome: Result<(), ChronoIndexError>)
    ensures
        outcome == if present {
            Ok::<(), ChronoIndexError>(())
        } else {
            Err::<(), ChronoIndexError>(ChronoIndexError::IndexDirIo)
        },
{
    if present {
        Ok(())
    } else {
        Err(ChronoIndexError::IndexDirIo)
    }
}

/// The outcome of removing the index directory. A directory that is already
/// gone is the wanted end state.
pub fn purge_index_state(removal: Removal) -> (outcome: Result<(), ChronoIndexError>)
    ensures
        outcome == if removal is Failed {
            Err::<(), ChronoIndexError>(ChronoIndexError::IndexDirIo)
        } else {
            Ok::<(), ChronoIndexError>(())
        },
{
    match removal {
        Removal::Removed | Removal::NotFound => Ok(()),
        Removal::Failed => Err(ChronoIndexError::IndexDirIo),
    }
}

/// The outcome of removing the scratch directory, by the same rule.
pub fn purge_scratch_only(removal: Removal) -> (outcome: Result<(), ChronoIndexError>)
    ensures
        outcome == if removal is Failed {
            Err::<(), ChronoIndexError>(ChronoIndexError::IndexDirIo)
        } else {
            Ok::<(), ChronoIndexError>(())
        },
{
    match removal {
        Removal::Removed | Removal::NotFound => Ok(()),
        Removal::Failed => Err(ChronoIndexError::IndexDirIo),
    }
}

/// Removing what is already gone is a success; only a removal that failed is an
/// error.
pub proof fn gone_is_gone(
    removal: Removal,
    index: Result<(), ChronoIndexError>,
    scratch: Result<(), ChronoIndexError>,
)
    requires
        call_ensures(purge_index_state, (removal,), index),
        call_ensures(purge_scratch_only, (removal,), scratch),
    ensures
        removal is Removed || removal is NotFound <==> index is Ok,
        removal is Failed <==> index == Err::<(), ChronoIndexError>(ChronoIndexError::IndexDirIo),
        scratch == index,
{
}

} // verus!
