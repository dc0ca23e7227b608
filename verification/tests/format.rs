//! The on-disk formats, the order of records, and names and paths.

use chrono_sort::entry::extract_mtime_seconds_and_nanos;
use chrono_sort::error::ChronoIndexError;
use chrono_sort::external_sort::RunId;
use chrono_sort::hash::{feed_bytes, fnv1a_64, FNV1A_64_OFFSET_BASIS};
use chrono_sort::header::{posix_path_to_bytes, ChronoIndexHeader};
use chrono_sort::layout::{
    HEADER_MAGIC, HEADER_SIZE, HEADER_VERSION, MAX_BASENAME_LEN, MAX_FULL_PATH_LEN,
    MAX_PARENT_PATH_LEN, MTIMES_FILENAME, MTIME_RECORD_SIZE, NAME_RECORD_SIZE,
};
use chrono_sort::lookup::assemble_absolute_path_into_buffer;
use chrono_sort::names::{basename_used_length, pack_basename_record};
use chrono_sort::paths::{
    build_index_directory_path, build_index_file_path, build_scratch_directory_path,
    build_scratch_path, format_run_filename, format_run_name,
};
use chrono_sort::record::{decode_mtime_records, encode_mtime_records, MtimeRecord};
use chrono_sort::sort::sort_chronologically;

#[test]
fn header_size_constant_matches_field_sum() {
    assert_eq!(
        HEADER_SIZE,
        8 + 4 + 8 + 8 + 8 + 4 + 8 + 2 + 2 + MAX_PARENT_PATH_LEN + 12
    );
}

#[test]
fn new_header_for_parent_rejects_empty_path() {
    let result = ChronoIndexHeader::new_for_parent(b"");
    assert_eq!(result.err(), Some(ChronoIndexError::ParentPathInvalid));
}

#[test]
fn new_header_for_parent_rejects_oversize_path() {
    let oversize = vec![b'a'; MAX_PARENT_PATH_LEN + 1];
    let result = ChronoIndexHeader::new_for_parent(&oversize);
    assert_eq!(result.err(), Some(ChronoIndexError::ParentPathTooLong));
}

#[test]
fn new_header_for_parent_accepts_longest_path() {
    let longest = vec![b'a'; MAX_PARENT_PATH_LEN];
    let header = ChronoIndexHeader::new_for_parent(&longest).expect("fits");
    assert_eq!(header.parent_path_slice(), &longest[..]);
}

#[test]
fn new_header_initial_state_is_sane() {
    let header =
        ChronoIndexHeader::new_for_parent(b"/var/data/watched").expect("valid parent path");
    assert_eq!(header.file_count, 0);
    assert_eq!(header.signal_hash, 0);
    assert_eq!(header.last_mtime_sec, i64::MIN);
    assert_eq!(header.last_mtime_nsec, 0);
    assert_eq!(header.invariant_breach_count, 0);
    assert_eq!(header.parent_path_slice(), b"/var/data/watched");
}

#[test]
fn parent_path_slice_clamps_length_out_of_range() {
    let mut header = ChronoIndexHeader::new_for_parent(b"/d").expect("valid path");
    header.parent_path_len = u16::MAX;
    assert_eq!(header.parent_path_slice().len(), MAX_PARENT_PATH_LEN);
}

#[test]
fn serialize_then_deserialize_round_trips() {
    let mut original = ChronoIndexHeader::new_for_parent(b"/some/dir").expect("valid path");
    original.file_count = 123_456;
    original.signal_hash = 0xDEAD_BEEF_CAFE_BABE;
    original.last_mtime_sec = 1_700_000_000;
    original.last_mtime_nsec = 999_999_999;
    original.invariant_breach_count = 7;

    let mut buffer = [0u8; HEADER_SIZE];
    original.serialize_into(&mut buffer);

    let recovered =
        ChronoIndexHeader::deserialize_from(&buffer).expect("valid header round-trip");

    assert_eq!(recovered.file_count, original.file_count);
    assert_eq!(recovered.signal_hash, original.signal_hash);
    assert_eq!(recovered.last_mtime_sec, original.last_mtime_sec);
    assert_eq!(recovered.last_mtime_nsec, original.last_mtime_nsec);
    assert_eq!(
        recovered.invariant_breach_count,
        original.invariant_breach_count
    );
    assert_eq!(recovered.parent_path_slice(), original.parent_path_slice());
}

#[test]
fn serialized_header_has_documented_layout() {
    let mut header = ChronoIndexHeader::new_for_parent(b"/ab").expect("valid path");
    header.file_count = 0x0102_0304_0506_0708;
    header.signal_hash = 0x1112_1314_1516_1718;
    header.last_mtime_sec = -2;
    header.last_mtime_nsec = 0x2122_2324;
    header.invariant_breach_count = 3;
    let mut buffer = [0xAAu8; HEADER_SIZE];
    header.serialize_into(&mut buffer);
    assert_eq!(&buffer[0..8], b"CHRIDX01");
    assert_eq!(&buffer[8..12], &[1, 0, 0, 0]);
    assert_eq!(&buffer[12..20], &[8, 7, 6, 5, 4, 3, 2, 1]);
    assert_eq!(
        &buffer[20..28],
        &[0x18, 0x17, 0x16, 0x15, 0x14, 0x13, 0x12, 0x11]
    );
    assert_eq!(
        &buffer[28..36],
        &[0xFE, 0xFF, 0xFF, 0xFF, 0xFF, 0xFF, 0xFF, 0xFF]
    );
    assert_eq!(&buffer[36..40], &[0x24, 0x23, 0x22, 0x21]);
    assert_eq!(&buffer[40..48], &[3, 0, 0, 0, 0, 0, 0, 0]);
    assert_eq!(&buffer[48..50], &[3, 0]);
    assert_eq!(&buffer[50..52], &[0, 0]);
    assert_eq!(&buffer[52..55], b"/ab");
    assert!(buffer[55..].iter().all(|byte| *byte == 0));
}

#[test]
fn deserialize_rejects_bad_magic() {
    let mut buffer = [0u8; HEADER_SIZE];
    // Leave magic as all-zero; deserialize must reject.
    let result = ChronoIndexHeader::deserialize_from(&buffer);
    assert_eq!(result.err(), Some(ChronoIndexError::HeaderBadMagic));

    // Corrupt magic.
    buffer[0..8].copy_from_slice(b"XXXXXXXX");
    let result = ChronoIndexHeader::deserialize_from(&buffer);
    assert_eq!(result.err(), Some(ChronoIndexError::HeaderBadMagic));
}

#[test]
fn deserialize_rejects_bad_version() {
    let mut buffer = [0u8; HEADER_SIZE];
    buffer[0..8].copy_from_slice(&HEADER_MAGIC);
    // Write a wrong version.
    buffer[8..12].copy_from_slice(&(HEADER_VERSION.wrapping_add(99)).to_le_bytes());
    let result = ChronoIndexHeader::deserialize_from(&buffer);
    assert_eq!(result.err(), Some(ChronoIndexError::HeaderBadVersion));
}

#[test]
fn deserialize_rejects_oversize_parent_path_len() {
    let mut buffer = [0u8; HEADER_SIZE];
    buffer[0..8].copy_from_slice(&HEADER_MAGIC);
    buffer[8..12].copy_from_slice(&HEADER_VERSION.to_le_bytes());
    // Set parent_path_len > MAX_PARENT_PATH_LEN.
    let bogus_len: u16 = (MAX_PARENT_PATH_LEN as u16).saturating_add(1);
    buffer[48..50].copy_from_slice(&bogus_len.to_le_bytes());
    let result = ChronoIndexHeader::deserialize_from(&buffer);
    assert_eq!(result.err(), Some(ChronoIndexError::HeaderBadSize));
}

#[test]
fn posix_path_is_checked_for_length() {
    assert_eq!(posix_path_to_bytes(b"/d"), Ok(&b"/d"[..]));
    assert_eq!(
        posix_path_to_bytes(b""),
        Err(ChronoIndexError::ParentPathInvalid)
    );
    let oversize = vec![b'a'; MAX_PARENT_PATH_LEN + 1];
    assert_eq!(
        posix_path_to_bytes(&oversize),
        Err(ChronoIndexError::ParentPathTooLong)
    );
}

#[test]
fn error_codes_are_stable_and_terse() {
    assert_eq!(ChronoIndexError::IndexDirIo.code(), "CIDX-01");
    assert_eq!(ChronoIndexError::HeaderBadMagic.code(), "CIDX-04");
    assert_eq!(ChronoIndexError::ParentPathTooLong.code(), "CIDX-07");
}

#[test]
fn error_codes_are_all_different() {
    let codes = [
        ChronoIndexError::IndexDirIo.code(),
        ChronoIndexError::HeaderReadIo.code(),
        ChronoIndexError::HeaderWriteIo.code(),
        ChronoIndexError::HeaderBadMagic.code(),
        ChronoIndexError::HeaderBadVersion.code(),
        ChronoIndexError::HeaderBadSize.code(),
        ChronoIndexError::ParentPathTooLong.code(),
        ChronoIndexError::ParentPathInvalid.code(),
        ChronoIndexError::RenameIo.code(),
        ChronoIndexError::BuildIo.code(),
        ChronoIndexError::AppendIo.code(),
        ChronoIndexError::LookupIo.code(),
    ];
    for (number, code) in codes.iter().enumerate() {
        assert_eq!(*code, format!("CIDX-{:02}", number + 1));
    }
}

#[test]
fn fnv1a_64_is_deterministic_and_distinguishes_inputs() {
    assert_eq!(fnv1a_64(b""), fnv1a_64(b""));
    assert_eq!(fnv1a_64(b"abc"), fnv1a_64(b"abc"));
    assert_ne!(fnv1a_64(b"abc"), fnv1a_64(b"abd"));
}

#[test]
fn fnv1a_64_matches_published_values() {
    assert_eq!(fnv1a_64(b""), 0xcbf2_9ce4_8422_2325);
    assert_eq!(fnv1a_64(b"a"), 0xaf63_dc4c_8601_ec8c);
    assert_eq!(fnv1a_64(b"foobar"), 0x8594_4171_f739_67e8);
}

#[test]
fn feeding_parts_is_feeding_the_whole() {
    let state = feed_bytes(FNV1A_64_OFFSET_BASIS, b"foo");
    assert_eq!(feed_bytes(state, b"bar"), fnv1a_64(b"foobar"));
}

#[test]
fn mtime_record_serialize_round_trip() {
    let original = MtimeRecord {
        mtime_sec: 1_700_000_123,
        mtime_nsec: 456_789_012,
        record_id: 999_999,
    };
    let mut buf = [0u8; MTIME_RECORD_SIZE];
    original.write_into(&mut buf);
    let recovered = MtimeRecord::read_from(&buf);
    assert_eq!(recovered.mtime_sec, original.mtime_sec);
    assert_eq!(recovered.mtime_nsec, original.mtime_nsec);
    assert_eq!(recovered.record_id, original.record_id);
}

#[test]
fn mtime_record_extremes_round_trip() {
    let extremes = [
        MtimeRecord {
            mtime_sec: i64::MIN,
            mtime_nsec: i32::MIN,
            record_id: 0,
        },
        MtimeRecord {
            mtime_sec: i64::MAX,
            mtime_nsec: i32::MAX,
            record_id: u64::MAX,
        },
        MtimeRecord {
            mtime_sec: -1,
            mtime_nsec: -1,
            record_id: 1,
        },
    ];
    for original in extremes {
        let mut buf = [0u8; MTIME_RECORD_SIZE];
        original.write_into(&mut buf);
        assert_eq!(&buf[0..8], &original.mtime_sec.to_le_bytes());
        assert_eq!(&buf[8..12], &original.mtime_nsec.to_le_bytes());
        assert_eq!(&buf[12..20], &original.record_id.to_le_bytes());
        assert_eq!(MtimeRecord::read_from(&buf), original);
    }
}

#[test]
fn mtime_record_strict_ordering_uses_sec_then_nsec_then_record_id() {
    let earlier = MtimeRecord {
        mtime_sec: 100,
        mtime_nsec: 0,
        record_id: 50,
    };
    let later_sec = MtimeRecord {
        mtime_sec: 101,
        mtime_nsec: 0,
        record_id: 0,
    };
    let same_sec_later_nsec = MtimeRecord {
        mtime_sec: 100,
        mtime_nsec: 1,
        record_id: 0,
    };
    let same_sec_same_nsec_later_id = MtimeRecord {
        mtime_sec: 100,
        mtime_nsec: 0,
        record_id: 51,
    };

    // sec dominates
    assert!(earlier.is_strictly_before(later_sec));
    assert!(!later_sec.is_strictly_before(earlier));

    // nsec tiebreaks on equal sec
    assert!(earlier.is_strictly_before(same_sec_later_nsec));
    assert!(!same_sec_later_nsec.is_strictly_before(earlier));

    // record_id tiebreaks on equal sec+nsec
    assert!(earlier.is_strictly_before(same_sec_same_nsec_later_id));
    assert!(!same_sec_same_nsec_later_id.is_strictly_before(earlier));

    // Equal records are not strictly-before each other.
    let copy_of_earlier = earlier;
    assert!(!earlier.is_strictly_before(copy_of_earlier));
    assert!(!copy_of_earlier.is_strictly_before(earlier));
}

#[test]
fn records_file_round_trips_and_ignores_partial_record() {
    let records: Vec<MtimeRecord> = (0..5)
        .map(|i| MtimeRecord {
            mtime_sec: 100 - i,
            mtime_nsec: i as i32,
            record_id: i as u64,
        })
        .collect();
    let mut file = encode_mtime_records(&records);
    assert_eq!(file.len(), 5 * MTIME_RECORD_SIZE);
    assert_eq!(decode_mtime_records(&file), records);
    file.extend_from_slice(&[1, 2, 3]);
    assert_eq!(decode_mtime_records(&file), records);
    assert_eq!(decode_mtime_records(&[]), Vec::new());
}

#[test]
fn sorting_puts_records_in_chronological_order() {
    let mut state: u64 = 12345;
    let mut records: Vec<MtimeRecord> = Vec::new();
    for id in 0..1000u64 {
        state = state.wrapping_mul(6364136223846793005).wrapping_add(1442695040888963407);
        records.push(MtimeRecord {
            mtime_sec: ((state >> 33) % 50) as i64 - 25,
            mtime_nsec: ((state >> 20) % 3) as i32,
            record_id: id,
        });
    }
    let sorted = sort_chronologically(&records);
    let mut expected = records.clone();
    expected.sort_by_key(|r| (r.mtime_sec, r.mtime_nsec, r.record_id));
    assert_eq!(sorted, expected);
    assert!(sort_chronologically(&[]).is_empty());
}

#[test]
fn pack_basename_record_rejects_overlong_input() {
    let just_right = vec![b'a'; MAX_BASENAME_LEN];
    assert!(pack_basename_record(&just_right).is_some());

    let too_long = vec![b'a'; MAX_BASENAME_LEN + 1];
    assert!(pack_basename_record(&too_long).is_none());
}

#[test]
fn pack_basename_record_zero_pads_unused_tail() {
    let short_name = b"hi";
    let packed = pack_basename_record(short_name).expect("fits");
    // First two bytes are the name; remainder must be zero.
    assert_eq!(&packed[..2], short_name);
    for trailing_byte in &packed[2..] {
        assert_eq!(*trailing_byte, 0);
    }
}

#[test]
fn packed_basename_comes_back() {
    for name in [&b""[..], b"x", b"move_001_white.pgn", &[b'z'; MAX_BASENAME_LEN]] {
        let packed = pack_basename_record(name).expect("fits");
        assert_eq!(&packed[..basename_used_length(&packed)], name);
    }
}

#[test]
fn basename_used_length_handles_full_and_partial_records() {
    // Full record (no NUL padding): length is NAME_RECORD_SIZE.
    let full = [b'a'; NAME_RECORD_SIZE];
    assert_eq!(basename_used_length(&full), NAME_RECORD_SIZE);

    // Empty record: length is 0.
    let empty = [0u8; NAME_RECORD_SIZE];
    assert_eq!(basename_used_length(&empty), 0);

    // Partial record: 5 bytes then NUL padding.
    let mut partial = [0u8; NAME_RECORD_SIZE];
    partial[..5].copy_from_slice(b"hello");
    assert_eq!(basename_used_length(&partial), 5);
}

#[test]
fn assemble_absolute_path_handles_trailing_and_no_trailing_slash() {
    let mut buffer = [0u8; MAX_FULL_PATH_LEN];

    // Parent without trailing slash.
    let len1 =
        assemble_absolute_path_into_buffer(b"/var/data", b"foo.txt", &mut buffer).expect("ok");
    assert_eq!(&buffer[..len1], b"/var/data/foo.txt");

    // Parent with trailing slash.
    let len2 =
        assemble_absolute_path_into_buffer(b"/var/data/", b"bar.txt", &mut buffer).expect("ok");
    assert_eq!(&buffer[..len2], b"/var/data/bar.txt");
}

#[test]
fn assemble_absolute_path_rejects_oversize_result() {
    let mut buffer = [0u8; MAX_FULL_PATH_LEN];
    // Parent length that already saturates the buffer.
    let huge_parent = vec![b'a'; MAX_FULL_PATH_LEN];
    let result = assemble_absolute_path_into_buffer(&huge_parent, b"x", &mut buffer);
    assert_eq!(result.err(), Some(ChronoIndexError::LookupIo));
}

#[test]
fn assemble_absolute_path_rejects_empty_parent() {
    let mut buffer = [0u8; MAX_FULL_PATH_LEN];
    let result = assemble_absolute_path_into_buffer(b"", b"x", &mut buffer);
    assert_eq!(result.err(), Some(ChronoIndexError::ParentPathInvalid));
}

#[test]
fn assemble_absolute_path_fills_buffer_to_the_last_byte() {
    let mut buffer = [0u8; MAX_FULL_PATH_LEN];
    let parent = vec![b'a'; MAX_FULL_PATH_LEN - 4];
    let length = assemble_absolute_path_into_buffer(&parent, b"xyz", &mut buffer).expect("fits");
    assert_eq!(length, MAX_FULL_PATH_LEN);
    assert_eq!(&buffer[MAX_FULL_PATH_LEN - 4..], b"/xyz");
    let before = buffer;
    let refused = assemble_absolute_path_into_buffer(&parent, b"wxyz", &mut buffer);
    assert_eq!(refused, Err(ChronoIndexError::LookupIo));
    assert!(buffer == before);
}

#[test]
fn nanoseconds_out_of_range_are_recorded_as_zero() {
    assert_eq!(extract_mtime_seconds_and_nanos(5, 0), (5, 0));
    assert_eq!(
        extract_mtime_seconds_and_nanos(5, 999_999_999),
        (5, 999_999_999)
    );
    assert_eq!(extract_mtime_seconds_and_nanos(-5, 1_000_000_000), (-5, 0));
    assert_eq!(extract_mtime_seconds_and_nanos(5, -1), (5, 0));
}

#[test]
fn index_paths_are_below_the_temporary_root() {
    assert_eq!(build_index_directory_path(b"/tmp/r"), b"/tmp/r/chrono_index");
    assert_eq!(
        build_index_file_path(b"/tmp/r", MTIMES_FILENAME),
        b"/tmp/r/chrono_index/mtimes.bin"
    );
    assert_eq!(
        build_index_file_path(b"/tmp/r/", "names.bin.tmp"),
        b"/tmp/r/chrono_index/names.bin.tmp"
    );
    assert_eq!(
        build_scratch_directory_path(b"r"),
        b"r/chrono_index/scratch"
    );
    assert_eq!(
        build_scratch_path(b"", "run_00000007.bin"),
        b"chrono_index/scratch/run_00000007.bin"
    );
}

#[test]
fn run_file_names_are_padded_and_different() {
    assert_eq!(format_run_filename(0), "run_00000000.bin");
    assert_eq!(format_run_filename(42), "run_00000042.bin");
    assert_eq!(format_run_filename(12_345_678_901), "run_12345678901.bin");
    assert_eq!(format_run_name(RunId::Initial(7)), "run_00000007.bin");
    assert_eq!(
        format_run_name(RunId::Merged { round: 3, group: 12 }),
        "merge_r0003_g0000000012.bin"
    );
    assert_eq!(
        format_run_name(RunId::Merged {
            round: 10_000,
            group: u64::MAX
        }),
        "merge_r10000_g18446744073709551615.bin"
    );
}
