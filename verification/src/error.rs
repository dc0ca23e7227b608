//! The error codes of the index.

use vstd::prelude::*;
use crate::text;

verus! {

/// Error codes returned by this library.
///
/// Variants are coarse and carry no path, file name or other content, so that
/// they can be logged anywhere.
#[derive(Debug, Clone, Copy, PartialEq, Eq, Structural)]
pub enum ChronoIndexError {
    /// CIDX-01: the index directory could not be created, opened or removed.
    IndexDirIo,
    /// CIDX-02: the header file could not be read.
    HeaderReadIo,
    /// CIDX-03: the header file could not be written.
    HeaderWriteIo,
    /// CIDX-04: the header's magic bytes are wrong.
    HeaderBadMagic,
    /// CIDX-05: the header has another format version.
    HeaderBadVersion,
    /// CIDX-06: a length field of the header is out of range.
    HeaderBadSize,
    /// CIDX-07: the parent path is longer than the header can hold.
    ParentPathTooLong,
    /// CIDX-08: the parent path is empty or otherwise unusable.
    ParentPathInvalid,
    /// CIDX-09: an atomic rename failed.
    RenameIo,
    /// CIDX-10: the cold build failed.
    BuildIo,
    /// CIDX-11: the incremental append failed.
    AppendIo,
    /// CIDX-12: a lookup failed.
    LookupIo,
}

/// The number that stands behind the prefix in an error's code.
pub open spec fn error_number(error: ChronoIndexError) -> nat {
    match error {
        ChronoIndexError::IndexDirIo => 1,
        ChronoIndexError::HeaderReadIo => 2,
        ChronoIndexError::HeaderWriteIo => 3,
        ChronoIndexError::HeaderBadMagic => 4,
        ChronoIndexError::HeaderBadVersion => 5,
        ChronoIndexError::HeaderBadSize => 6,
        ChronoIndexError::ParentPathTooLong => 7,
        ChronoIndexError::ParentPathInvalid => 8,
        ChronoIndexError::RenameIo => 9,
        ChronoIndexError::BuildIo => 10,
        ChronoIndexError::AppendIo => 11,
        ChronoIndexError::LookupIo => 12,
    }
}

/// The code of `error`: the prefix `CIDX-` and two digits.
pub open spec fn error_code(error: ChronoIndexError) -> Seq<char> {
    seq![
        'C',
        'I',
        'D',
        'X',
        '-',
        text::digit_char(error_number(error) / 10),
        text::digit_char(error_number(error) % 10),
    ]
}

impl ChronoIndexError {
    /// The stable diagnostic code, safe to log: it never holds a path or a name.
    pub fn code(self) -> (code: &'static str)
        ensures
            code@ == error_code(self),
    {
        proof {
            reveal_strlit("CIDX-01");
            reveal_strlit("CIDX-02");
            reveal_strlit("CIDX-03");
            reveal_strlit("CIDX-04");
            reveal_strlit("CIDX-05");
            reveal_strlit("CIDX-06");
            reveal_strlit("CIDX-07");
            reveal_strlit("CIDX-08");
            reveal_strlit("CIDX-09");
            reveal_strlit("CIDX-10");
            reveal_strlit("CIDX-11");
            reveal_strlit("CIDX-12");
        }
        match self {
            ChronoIndexError::IndexDirIo => "CIDX-01",
            ChronoIndexError::HeaderReadIo => "CIDX-02",
            ChronoIndexError::HeaderWriteIo => "CIDX-03",
            ChronoIndexError::HeaderBadMagic => "CIDX-04",
            ChronoIndexError::HeaderBadVersion => "CIDX-05",
            ChronoIndexError::HeaderBadSize => "CIDX-06",
            ChronoIndexError::ParentPathTooLong => "CIDX-07",
            ChronoIndexError::ParentPathInvalid => "CIDX-08",
            ChronoIndexError::RenameIo => "CIDX-09",
            ChronoIndexError::BuildIo => "CIDX-10",
            ChronoIndexError::AppendIo => "CIDX-11",
            ChronoIndexError::LookupIo => "CIDX-12",
        }
    }
}

/// Two errors with the same code are the same error.
pub proof fn error_codes_are_distinct(a: ChronoIndexError, b: ChronoIndexError)
    requires
        error_code(a) == error_code(b),
    ensures
        a == b,
{
    let x = error_number(a);
    let y = error_number(b);
    assert(error_code(a)[5] == text::digit_char(x / 10) && error_code(b)[5] == text::digit_char(y / 10));
    assert(error_code(a)[6] == text::digit_char(x % 10) && error_code(b)[6] == text::digit_char(y % 10));
    assert(x == y);
}

/// Every error has the code that is documented for it.
pub proof fn codes_are_as_documented(error: ChronoIndexError)
    ensures
        error_code(error) == match error {
            ChronoIndexError::IndexDirIo => "CIDX-01"@,
            ChronoIndexError::HeaderReadIo => "CIDX-02"@,
            ChronoIndexError::HeaderWriteIo => "CIDX-03"@,
            ChronoIndexError::HeaderBadMagic => "CIDX-04"@,
            ChronoIndexError::HeaderBadVersion => "CIDX-05"@,
            ChronoIndexError::HeaderBadSize => "CIDX-06"@,
            ChronoIndexError::ParentPathTooLong => "CIDX-07"@,
            ChronoIndexError::ParentPathInvalid => "CIDX-08"@,
            ChronoIndexError::RenameIo => "CIDX-09"@,
            ChronoIndexError::BuildIo => "CIDX-10"@,
            ChronoIndexError::AppendIo => "CIDX-11"@,
            ChronoIndexError::LookupIo => "CIDX-12"@,
        },
{
    reveal_strlit("CIDX-01");
    reveal_strlit("CIDX-02");
    reveal_strlit("CIDX-03");
    reveal_strlit("CIDX-04");
    reveal_strlit("CIDX-05");
    reveal_strlit("CIDX-06");
    reveal_strlit("CIDX-07");
    reveal_strlit("CIDX-08");
    reveal_strlit("CIDX-09");
    reveal_strlit("CIDX-10");
    reveal_strlit("CIDX-11");
    reveal_strlit("CIDX-12");
}

} // verus!
