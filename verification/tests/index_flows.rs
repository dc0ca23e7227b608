//! Whole builds, appends, updates and lookups, run on an index that is held in
//! memory: the steps that the library asks for are performed on a map from file
//! names to contents.

use std::collections::BTreeMap;

use chrono_sort::append::{
    incremental_append_new_files, AppendEvent, AppendSession, AppendStep, AppendSummary,
    TrimmedSizes,
};
use chrono_sort::batch_rewrite::{
    rewrite_mtimes_bin_with_out_of_order_batch, BatchRewrite, RewriteEvent, RewriteStep,
};
use chrono_sort::cold_build::{
    cold_build_index, ColdBuild, ColdBuildEvent, ColdBuildStep, OldFile,
};
use chrono_sort::directories::{
    ensure_index_directory_exists, purge_index_state, purge_scratch_only, Removal,
};
use chrono_sort::entry::{probe_live_directory, DirectoryEntry, LiveDirectoryProbe};
use chrono_sort::error::ChronoIndexError;
use chrono_sort::external_sort::{external_merge_sort_mtimes, ExternalSort, SortEvent, SortStep};
use chrono_sort::hash::fnv1a_64;
use chrono_sort::header::ChronoIndexHeader;
use chrono_sort::header_file::{
    read_header, write_header_atomic, HeaderRead, HeaderWrite, HeaderWriteStep,
};
use chrono_sort::layout::{
    APPEND_BATCH_RECORDS, EXTERNAL_SORT_CHUNK_RECORDS, HEADER_FILENAME, HEADER_SIZE,
    MAX_BASENAME_LEN, MAX_FULL_PATH_LEN, MAX_PARENT_PATH_LEN, MTIMES_FILENAME, MTIME_RECORD_SIZE,
    NAMES_FILENAME, NAME_HASHES_FILENAME, NAME_HASH_RECORD_SIZE, NAME_RECORD_SIZE,
};
use chrono_sort::lookup::{
    check_chronosort_hash_to_n, chrono_sort_hash_to_n, count_committed_files,
    lookup_abs_file_path_at_mtime_chronological_index, ChronoLookupResult,
};
use chrono_sort::names::{basename_used_length, pack_basename_record};
use chrono_sort::paths::format_run_name;
use chrono_sort::record::{decode_mtime_records, encode_mtime_records, MtimeRecord};
use chrono_sort::run_merge::{merge_runs_into, MergeEvent, MergeStep, RunMerge};
use chrono_sort::scan::{
    phase1_stream_directory_into_files, ColdBuildSummary, DirectoryScan, ScanEvent, ScanStep,
};
use chrono_sort::sidecar::{
    ensure_name_hashes_sidecar_consistent, name_hash_is_present_in_sidecar, SidecarCheck,
    SidecarEvent, SidecarStep,
};
use chrono_sort::update::{
    create_or_update_chrono_index, data_files_match_header_count, UpdateEvent, UpdateOutcome,
    UpdateRun, UpdateStep, UpdateSummary,
};

const UNSORTED: &str = "scratch/mtimes_unsorted.bin";
const OLD_NAMES: &str = "names.bin.old";
const OLD_MTIMES: &str = "mtimes.bin.old";
const STAGED_NAMES: &str = "names.bin.tmp";
const STAGED_MTIMES: &str = "mtimes.bin.tmp";
const STAGED_HASHES: &str = "name_hashes.bin.tmp";
const STAGED_HEADER: &str = "header.bin.tmp";

/// A watched directory.
struct Watched {
    path: Vec<u8>,
    entries: Vec<Entry>,
    exists: bool,
    clock: i64,
}

#[derive(Clone)]
struct Entry {
    name: Vec<u8>,
    kind: Kind,
    mtime: Option<(i64, i64)>,
}

#[derive(Clone, Copy, PartialEq)]
enum Kind {
    Regular,
    Subdirectory,
    Unreadable,
}

impl Watched {
    fn listing(&self, position: usize) -> DirectoryEntry {
        let entry = &self.entries[position];
        match entry.kind {
            Kind::Regular => DirectoryEntry::Regular(entry.name.clone()),
            Kind::Subdirectory => DirectoryEntry::NotRegular,
            Kind::Unreadable => DirectoryEntry::Unreadable,
        }
    }

    fn add(&mut self, basename: &str) {
        self.clock += 10;
        let mtime = Some((self.clock, 5_000));
        self.add_with_mtime(basename, mtime);
    }

    /// New entries come first, as the order of a listing means nothing.
    fn add_with_mtime(&mut self, basename: &str, mtime: Option<(i64, i64)>) {
        self.entries.insert(
            0,
            Entry {
                name: basename.as_bytes().to_vec(),
                kind: Kind::Regular,
                mtime,
            },
        );
    }

    fn add_of_kind(&mut self, basename: &str, kind: Kind) {
        self.entries.push(Entry {
            name: basename.as_bytes().to_vec(),
            kind,
            mtime: None,
        });
    }
}

fn watched_with(path: &str, files: &[&str]) -> Watched {
    let mut watched = Watched {
        path: path.as_bytes().to_vec(),
        entries: Vec::new(),
        exists: true,
        clock: 1_700_000_000,
    };
    for file in files {
        watched.add(file);
    }
    watched
}

/// The files of one index, and the operations that are to fail.
struct Disk {
    files: BTreeMap<String, Vec<u8>>,
    index_directory: bool,
    faults: Vec<String>,
    operations: Vec<String>,
    occurrences: BTreeMap<String, u32>,
}

impl Disk {
    fn new() -> Disk {
        Disk {
            files: BTreeMap::new(),
            index_directory: false,
            faults: Vec::new(),
            operations: Vec::new(),
            occurrences: BTreeMap::new(),
        }
    }

    fn fault(&mut self, operation: &str) {
        self.faults.push(operation.to_string());
    }

    /// An operation fails each time, or only at its occurrence after `#`.
    fn fails(&mut self, operation: String) -> bool {
        let occurrence = self.occurrences.entry(operation.clone()).or_default();
        *occurrence += 1;
        let failing = self.faults.contains(&operation)
            || self
                .faults
                .contains(&format!("{} #{}", operation, occurrence));
        self.operations.push(operation);
        failing
    }

    fn create(&mut self, name: &str) -> bool {
        if self.fails(format!("create {}", name)) {
            return false;
        }
        self.files.insert(name.to_string(), Vec::new());
        true
    }

    fn append(&mut self, name: &str, bytes: &[u8]) -> bool {
        let failing = self.fails(format!("append {}", name));
        // A write that fails can leave a part behind.
        let written = if failing { bytes.len() / 2 } else { bytes.len() };
        self.files
            .entry(name.to_string())
            .or_default()
            .extend_from_slice(&bytes[..written]);
        !failing
    }

    fn trim(&mut self, sizes: TrimmedSizes) -> bool {
        if self.fails("trim".to_string()) {
            return false;
        }
        for (name, size) in [
            (NAMES_FILENAME, sizes.names),
            (NAME_HASHES_FILENAME, sizes.name_hashes),
            (MTIMES_FILENAME, sizes.mtimes),
        ] {
            let size = size.expect("size") as usize;
            self.files.get_mut(name).expect("file").resize(size, 0);
        }
        true
    }

    /// The data files have exactly the records that the header counts, in
    /// order, and the sidecar has the hash of every name.
    fn assert_consistent(&self) {
        let header = self.header();
        let count = header.file_count;
        let sizes = [
            (NAMES_FILENAME, NAME_RECORD_SIZE),
            (NAME_HASHES_FILENAME, NAME_HASH_RECORD_SIZE),
            (MTIMES_FILENAME, MTIME_RECORD_SIZE),
        ];
        for (name, record_size) in sizes {
            assert_eq!(self.size(name), Some(count * record_size as u64), "{}", name);
        }
        let mtimes = self.mtimes();
        assert_sorted(&mtimes);
        let newest = mtimes.last().expect("record");
        assert_eq!(header.last_mtime_sec, newest.mtime_sec);
        let mut signal = 0;
        for record_id in 0..count {
            let name = self.basename_at(record_id);
            signal ^= fnv1a_64(&name);
            assert_eq!(
                self.bytes_at::<NAME_HASH_RECORD_SIZE>(NAME_HASHES_FILENAME, record_id * 8),
                Some(fnv1a_64(&name).to_le_bytes())
            );
        }
        assert_eq!(header.signal_hash, signal);
    }

    fn sync(&mut self, name: &str) -> bool {
        !self.fails(format!("sync {}", name))
    }

    fn rename(&mut self, from: &str, to: &str) -> bool {
        if self.fails(format!("rename {}", to)) {
            return false;
        }
        match self.files.remove(from) {
            Some(contents) => {
                self.files.insert(to.to_string(), contents);
                true
            }
            None => false,
        }
    }

    fn set_aside(&mut self, name: &str, aside: &str) -> ColdBuildEvent {
        if self.fails(format!("set aside {}", name)) {
            return ColdBuildEvent::Failed;
        }
        match self.files.get(name).cloned() {
            Some(contents) => {
                self.files.insert(aside.to_string(), contents);
                ColdBuildEvent::Succeeded
            }
            None => ColdBuildEvent::Absent,
        }
    }

    fn put_back(&mut self, name: &str, aside: &str, existed: bool) -> bool {
        if self.fails(format!("put back {}", name)) {
            return false;
        }
        self.files.remove(name);
        if existed {
            let contents = self.files.remove(aside).expect("set aside");
            self.files.insert(name.to_string(), contents);
        }
        true
    }

    /// What the files hold that readers of the index look at.
    fn index_contents(&self) -> Vec<Option<Vec<u8>>> {
        [HEADER_FILENAME, NAMES_FILENAME, MTIMES_FILENAME]
            .iter()
            .map(|name| self.files.get(*name).cloned())
            .collect()
    }

    fn remove(&mut self, name: &str) -> bool {
        self.files.remove(name).is_some()
    }

    fn remove_scratch(&mut self) {
        self.files.retain(|name, _| !name.starts_with("scratch/"));
    }

    fn open(&mut self, name: &str) -> bool {
        !self.fails(format!("open {}", name)) && self.files.contains_key(name)
    }

    fn size(&self, name: &str) -> Option<u64> {
        self.files.get(name).map(|contents| contents.len() as u64)
    }

    fn bytes_at<const N: usize>(&self, name: &str, offset: u64) -> Option<[u8; N]> {
        let contents = self.files.get(name)?;
        let start = usize::try_from(offset).ok()?;
        let end = start.checked_add(N)?;
        contents.get(start..end)?.try_into().ok()
    }

    fn mtimes(&self) -> Vec<MtimeRecord> {
        decode_mtime_records(&self.files[MTIMES_FILENAME])
    }

    fn basename_at(&self, record_id: u64) -> Vec<u8> {
        let record: [u8; NAME_RECORD_SIZE] = self
            .bytes_at(NAMES_FILENAME, record_id * NAME_RECORD_SIZE as u64)
            .expect("record of names.bin");
        record[..basename_used_length(&record)].to_vec()
    }

    fn header_read(&self) -> Result<Option<ChronoIndexHeader>, ChronoIndexError> {
        read_header(match self.files.get(HEADER_FILENAME) {
            None => HeaderRead::NotFound,
            Some(_) => match self.bytes_at::<HEADER_SIZE>(HEADER_FILENAME, 0) {
                Some(bytes) => HeaderRead::Bytes(bytes),
                None => HeaderRead::Failed,
            },
        })
    }

    fn header(&self) -> ChronoIndexHeader {
        self.header_read().expect("readable").expect("present")
    }

    fn write_header(&mut self, header: &ChronoIndexHeader) -> Result<(), ChronoIndexError> {
        let mut write = HeaderWrite::begin(header);
        loop {
            let succeeded = match write.step {
                HeaderWriteStep::CreateStaging => self.create(STAGED_HEADER),
                HeaderWriteStep::WriteStaging => {
                    let bytes = write.bytes;
                    self.append(STAGED_HEADER, &bytes)
                }
                HeaderWriteStep::SyncStaging => self.sync(STAGED_HEADER),
                HeaderWriteStep::RenameStaging => self.rename(STAGED_HEADER, HEADER_FILENAME),
                HeaderWriteStep::RemoveStaging(_) => self.remove(STAGED_HEADER),
                HeaderWriteStep::Finished => return Ok(()),
                HeaderWriteStep::Failed(error) => return Err(error),
            };
            write = write_header_atomic(write, succeeded);
        }
    }

    fn scan(&mut self, watched: &Watched) -> Result<(ColdBuildSummary, u64), ChronoIndexError> {
        let mut scan = DirectoryScan::begin();
        let mut position = 0;
        loop {
            let event = match scan.step() {
                ScanStep::CreateNames => scan_event(self.create(STAGED_NAMES)),
                ScanStep::CreateScratch => scan_event(self.create(UNSORTED)),
                ScanStep::OpenDirectory => scan_event(watched.exists),
                ScanStep::NextEntry => {
                    position += 1;
                    if position > watched.entries.len() {
                        ScanEvent::EndOfDirectory
                    } else {
                        ScanEvent::Entry(watched.listing(position - 1))
                    }
                }
                ScanStep::StatEntry => match watched.entries[position - 1].mtime {
                    Some((mtime_sec, mtime_nsec)) => ScanEvent::Stat {
                        mtime_sec,
                        mtime_nsec,
                    },
                    None => ScanEvent::Failed,
                },
                ScanStep::WriteName => scan_event(self.append(STAGED_NAMES, &scan.name_record())),
                ScanStep::WriteMtime => scan_event(self.append(UNSORTED, &scan.mtime_record())),
                ScanStep::SyncNames => scan_event(self.sync(STAGED_NAMES)),
                ScanStep::SyncScratch => scan_event(self.sync(UNSORTED)),
                ScanStep::Finished => return Ok((scan.summary(), scan.signal_hash())),
                ScanStep::Failed(error) => return Err(error),
            };
            scan = phase1_stream_directory_into_files(scan, event);
        }
    }

    fn merge(&mut self, inputs: &[String], output: &str) -> bool {
        let mut merge = match RunMerge::begin(inputs.len()) {
            Ok(merge) => merge,
            Err(_) => return false,
        };
        let mut offsets = vec![0u64; inputs.len()];
        loop {
            let event = match merge.step() {
                MergeStep::ReadHead(slot) => {
                    if self.fails(format!("read {}", inputs[slot])) {
                        MergeEvent::Failed
                    } else {
                        match self.bytes_at::<MTIME_RECORD_SIZE>(&inputs[slot], offsets[slot]) {
                            Some(bytes) => {
                                offsets[slot] += MTIME_RECORD_SIZE as u64;
                                MergeEvent::Head(bytes)
                            }
                            None => MergeEvent::EndOfInput,
                        }
                    }
                }
                MergeStep::CreateOutput => merge_event(self.create(output)),
                MergeStep::WriteHead(slot) => {
                    let mut bytes = [0u8; MTIME_RECORD_SIZE];
                    merge.head(slot).expect("head").write_into(&mut bytes);
                    merge_event(self.append(output, &bytes))
                }
                MergeStep::SyncOutput => merge_event(self.sync(output)),
                MergeStep::Finished => return true,
                MergeStep::Failed(error) => {
                    assert_eq!(error, ChronoIndexError::BuildIo);
                    return false;
                }
            };
            merge = merge_runs_into(merge, event);
        }
    }

    fn sort(&mut self, expected: u64) -> Result<(), ChronoIndexError> {
        let mut sort = ExternalSort::begin(expected);
        let mut offset = 0usize;
        loop {
            let event = match sort.step() {
                SortStep::CreateEmptyOutput => sort_event(self.create(STAGED_MTIMES)),
                SortStep::OpenInput => sort_event(self.open(UNSORTED)),
                SortStep::ReadChunk => {
                    if self.fails(format!("read {}", UNSORTED)) {
                        SortEvent::Failed
                    } else {
                        let contents = &self.files[UNSORTED];
                        let end = contents
                            .len()
                            .min(offset + EXTERNAL_SORT_CHUNK_RECORDS * MTIME_RECORD_SIZE);
                        let chunk = contents[offset..end].to_vec();
                        offset = end;
                        SortEvent::Chunk(chunk)
                    }
                }
                SortStep::WriteRun(run) => {
                    let name = scratch(&format_run_name(run));
                    let bytes = sort.run_bytes();
                    sort_event(self.create(&name) && self.append(&name, &bytes))
                }
                SortStep::MergeGroup(run) => {
                    let inputs: Vec<String> = sort
                        .group()
                        .iter()
                        .map(|run| scratch(&format_run_name(*run)))
                        .collect();
                    sort_event(self.merge(&inputs, &scratch(&format_run_name(run))))
                }
                SortStep::RemoveGroup => {
                    for run in sort.group() {
                        self.remove(&scratch(&format_run_name(run)));
                    }
                    SortEvent::Succeeded
                }
                SortStep::Promote(run) => {
                    sort_event(self.rename(&scratch(&format_run_name(run)), STAGED_MTIMES))
                }
                SortStep::CleanUp(_) => {
                    for run in sort.leftovers().clone() {
                        self.remove(&scratch(&format_run_name(run)));
                    }
                    SortEvent::Succeeded
                }
                SortStep::Finished => return Ok(()),
                SortStep::Failed(error) => return Err(error),
            };
            sort = external_merge_sort_mtimes(sort, event);
        }
    }

    fn ensure_index_directory(&mut self) -> bool {
        if self.fails("create index directory".to_string()) {
            return false;
        }
        self.index_directory = true;
        true
    }

    fn cold_build(&mut self, watched: &Watched) -> Result<ColdBuildSummary, ChronoIndexError> {
        let indexed = self.index_contents().iter().all(Option::is_some);
        let mut build = ColdBuild::begin(&watched.path);
        loop {
            let event = match build.step {
                ColdBuildStep::EnsureIndexDirectory => build_event(self.ensure_index_directory()),
                ColdBuildStep::EnsureScratchDirectory => {
                    build_event(!self.fails("create scratch directory".to_string()))
                }
                ColdBuildStep::ScanDirectory => match self.scan(watched) {
                    Ok((summary, signal_hash)) => ColdBuildEvent::Scanned {
                        summary,
                        signal_hash,
                    },
                    Err(error) => ColdBuildEvent::FailedWith(error),
                },
                ColdBuildStep::SortMtimes => match self.sort(build.summary.files_indexed) {
                    Ok(()) => ColdBuildEvent::Succeeded,
                    Err(error) => ColdBuildEvent::FailedWith(error),
                },
                ColdBuildStep::ReadNewest(offset) => {
                    if self.fails("read newest".to_string()) {
                        ColdBuildEvent::Failed
                    } else {
                        match self.bytes_at(STAGED_MTIMES, offset) {
                            Some(bytes) => ColdBuildEvent::Newest(bytes),
                            None => ColdBuildEvent::Failed,
                        }
                    }
                }
                ColdBuildStep::SetAsideNames => self.set_aside(NAMES_FILENAME, OLD_NAMES),
                ColdBuildStep::SetAsideMtimes => self.set_aside(MTIMES_FILENAME, OLD_MTIMES),
                ColdBuildStep::PromoteNames => {
                    build_event(self.rename(STAGED_NAMES, NAMES_FILENAME))
                }
                ColdBuildStep::PromoteMtimes => {
                    build_event(self.rename(STAGED_MTIMES, MTIMES_FILENAME))
                }
                ColdBuildStep::WriteHeader => {
                    let header = build.header.as_ref().expect("header").clone();
                    match self.write_header(&header) {
                        Ok(()) => ColdBuildEvent::Succeeded,
                        Err(error) => ColdBuildEvent::FailedWith(error),
                    }
                }
                ColdBuildStep::RestoreMtimes { existed, .. } => {
                    build_event(self.put_back(MTIMES_FILENAME, OLD_MTIMES, existed))
                }
                ColdBuildStep::RestoreNames { existed, .. } => {
                    build_event(self.put_back(NAMES_FILENAME, OLD_NAMES, existed))
                }
                ColdBuildStep::CleanUp {
                    staged_names,
                    staged_mtimes,
                    set_aside,
                    ..
                } => {
                    if set_aside {
                        self.remove(OLD_NAMES);
                        self.remove(OLD_MTIMES);
                    }
                    if staged_names {
                        self.remove(STAGED_NAMES);
                    }
                    if staged_mtimes {
                        self.remove(STAGED_MTIMES);
                    }
                    self.remove_scratch();
                    ColdBuildEvent::Succeeded
                }
                ColdBuildStep::Finished => return Ok(build.summary),
                ColdBuildStep::Failed(error) => return Err(error),
            };
            // A file of the index is replaced, and never missing in between.
            if indexed {
                assert!(self.index_contents().iter().all(Option::is_some));
            }
            build = cold_build_index(build, event);
        }
    }

    fn ensure_sidecar(&mut self, expected: u64) -> Result<(), ChronoIndexError> {
        let mut check = SidecarCheck::begin(expected);
        let mut offset = 0u64;
        loop {
            let event = match check.step() {
                SidecarStep::MeasureSidecar => {
                    SidecarEvent::Size(self.size(NAME_HASHES_FILENAME).unwrap_or(0))
                }
                SidecarStep::ClearSidecar => sidecar_event(self.create(NAME_HASHES_FILENAME)),
                SidecarStep::OpenNames => sidecar_event(self.open(NAMES_FILENAME)),
                SidecarStep::CreateStaging => sidecar_event(self.create(STAGED_HASHES)),
                SidecarStep::ReadName => {
                    match self.bytes_at::<NAME_RECORD_SIZE>(NAMES_FILENAME, offset) {
                        Some(bytes) => {
                            offset += NAME_RECORD_SIZE as u64;
                            SidecarEvent::Name(bytes)
                        }
                        None => SidecarEvent::EndOfNames,
                    }
                }
                SidecarStep::WriteHash => {
                    sidecar_event(self.append(STAGED_HASHES, &check.hash_record()))
                }
                SidecarStep::SyncStaging => sidecar_event(self.sync(STAGED_HASHES)),
                SidecarStep::PromoteStaging => {
                    sidecar_event(self.rename(STAGED_HASHES, NAME_HASHES_FILENAME))
                }
                SidecarStep::RemoveStaging(_) => sidecar_event(self.remove(STAGED_HASHES)),
                SidecarStep::Finished => return Ok(()),
                SidecarStep::Failed(error) => return Err(error),
            };
            check = ensure_name_hashes_sidecar_consistent(check, event);
        }
    }

    fn rewrite(&mut self, batch: &[MtimeRecord]) -> Result<(i64, i32), ChronoIndexError> {
        let mut rewrite = BatchRewrite::begin(batch);
        let mut offset = 0u64;
        loop {
            let event = match rewrite.step() {
                RewriteStep::OpenExisting => rewrite_event(self.open(MTIMES_FILENAME)),
                RewriteStep::CreateStaging => rewrite_event(self.create(STAGED_MTIMES)),
                RewriteStep::ReadExisting => {
                    if self.fails("read mtimes.bin".to_string()) {
                        RewriteEvent::Failed
                    } else {
                        match self.bytes_at::<MTIME_RECORD_SIZE>(MTIMES_FILENAME, offset) {
                            Some(bytes) => {
                                offset += MTIME_RECORD_SIZE as u64;
                                RewriteEvent::Existing(bytes)
                            }
                            None => RewriteEvent::EndOfExisting,
                        }
                    }
                }
                RewriteStep::WriteMerged => {
                    let mut bytes = [0u8; MTIME_RECORD_SIZE];
                    rewrite
                        .record_to_write()
                        .expect("record")
                        .write_into(&mut bytes);
                    rewrite_event(self.append(STAGED_MTIMES, &bytes))
                }
                RewriteStep::SyncStaging => rewrite_event(self.sync(STAGED_MTIMES)),
                RewriteStep::PromoteStaging => {
                    rewrite_event(self.rename(STAGED_MTIMES, MTIMES_FILENAME))
                }
                RewriteStep::RemoveStaging(_) => rewrite_event(self.remove(STAGED_MTIMES)),
                RewriteStep::Finished => return Ok(rewrite.newest_mtime().expect("newest")),
                RewriteStep::Failed(error) => return Err(error),
            };
            rewrite = rewrite_mtimes_bin_with_out_of_order_batch(rewrite, event);
        }
    }

    fn append_new_files(
        &mut self,
        watched: &Watched,
        header: &ChronoIndexHeader,
    ) -> Result<AppendSummary, ChronoIndexError> {
        let mut session = AppendSession::begin(&watched.path, header)?;
        let mut position = 0;
        loop {
            let event = match session.step() {
                AppendStep::EnsureSidecar => match self.ensure_sidecar(header.file_count) {
                    Ok(()) => AppendEvent::Succeeded,
                    Err(error) => AppendEvent::FailedWith(error),
                },
                AppendStep::OpenDirectory => append_event(watched.exists),
                AppendStep::NextEntry => {
                    position += 1;
                    if position > watched.entries.len() {
                        AppendEvent::EndOfDirectory
                    } else {
                        AppendEvent::Entry(watched.listing(position - 1))
                    }
                }
                AppendStep::SearchSidecar(name_hash) => {
                    if self.fails("search sidecar".to_string()) {
                        AppendEvent::Failed
                    } else {
                        AppendEvent::Known(name_hash_is_present_in_sidecar(
                            &self.files[NAME_HASHES_FILENAME],
                            name_hash,
                        ))
                    }
                }
                AppendStep::StatEntry => match watched.entries[position - 1].mtime {
                    Some((mtime_sec, mtime_nsec)) => AppendEvent::Stat {
                        mtime_sec,
                        mtime_nsec,
                    },
                    None => AppendEvent::Failed,
                },
                AppendStep::AppendName => {
                    append_event(self.append(NAMES_FILENAME, &session.name_record()))
                }
                AppendStep::AppendHash => {
                    append_event(self.append(NAME_HASHES_FILENAME, &session.hash_record()))
                }
                AppendStep::AppendMtimes => {
                    append_event(self.append(MTIMES_FILENAME, &session.batch_bytes()))
                }
                AppendStep::RewriteMtimes => match self.rewrite(session.batch()) {
                    Ok((newest_sec, newest_nsec)) => AppendEvent::Rewritten {
                        newest_sec,
                        newest_nsec,
                    },
                    Err(error) => AppendEvent::FailedWith(error),
                },
                AppendStep::SyncFiles => AppendEvent::Failed,
                AppendStep::TrimFiles => append_event(self.trim(session.trimmed_sizes())),
                AppendStep::WriteHeader => match self.write_header(session.header()) {
                    Ok(()) => AppendEvent::Succeeded,
                    Err(error) => AppendEvent::FailedWith(error),
                },
                AppendStep::Finished => return Ok(session.summary()),
                AppendStep::Failed(error) => return Err(error),
            };
            session = incremental_append_new_files(session, event);
        }
    }

    fn update(&mut self, watched: &Watched) -> Result<UpdateSummary, ChronoIndexError> {
        let mut run = UpdateRun::begin(watched.path.clone());
        loop {
            let event = match run.step {
                UpdateStep::EnsureIndexDirectory => update_event(self.ensure_index_directory()),
                UpdateStep::ReadHeader
                | UpdateStep::ReadHeaderAfterAppend
                | UpdateStep::ReadHeaderAfterBuild(_) => UpdateEvent::Header(self.header_read()),
                UpdateStep::MeasureDataFiles => UpdateEvent::Sizes {
                    names: self.size(NAMES_FILENAME),
                    mtimes: self.size(MTIMES_FILENAME),
                },
                UpdateStep::ProbeDirectory => {
                    if watched.exists {
                        let mut probe = LiveDirectoryProbe::new();
                        for position in 0..watched.entries.len() {
                            probe = probe_live_directory(probe, &watched.listing(position));
                        }
                        UpdateEvent::Probed {
                            live_file_count: probe.live_file_count(),
                            live_signal_hash: probe.live_signal_hash(),
                        }
                    } else {
                        UpdateEvent::Failed
                    }
                }
                UpdateStep::Append => {
                    let committed = run.committed.as_ref().expect("header").clone();
                    match self.append_new_files(watched, &committed) {
                        Ok(summary) => UpdateEvent::Appended(summary),
                        Err(error) => UpdateEvent::FailedWith(error),
                    }
                }
                UpdateStep::ColdBuild(_) => match self.cold_build(watched) {
                    Ok(summary) => UpdateEvent::Built(summary),
                    Err(error) => UpdateEvent::FailedWith(error),
                },
                UpdateStep::Finished(summary) => return Ok(summary),
                UpdateStep::Failed(error) => return Err(error),
            };
            run = create_or_update_chrono_index(run, event);
        }
    }

    fn lookup(
        &self,
        position: u64,
        buffer: &mut [u8; MAX_FULL_PATH_LEN],
    ) -> Result<Option<ChronoLookupResult>, ChronoIndexError> {
        lookup_abs_file_path_at_mtime_chronological_index(
            self.header_read(),
            position,
            |offset| self.bytes_at(MTIMES_FILENAME, offset),
            |offset| self.bytes_at(NAMES_FILENAME, offset),
            buffer,
        )
    }

    fn path_at(&self, position: u64) -> Vec<u8> {
        let mut buffer = [0u8; MAX_FULL_PATH_LEN];
        let found = self.lookup(position, &mut buffer).expect("ok").expect("present");
        buffer[..found.path_byte_length].to_vec()
    }

    fn hash_to(&self, position: u64) -> Result<u64, ChronoIndexError> {
        chrono_sort_hash_to_n(
            self.header_read(),
            position,
            |offset| self.bytes_at(MTIMES_FILENAME, offset),
            |offset| self.bytes_at(NAMES_FILENAME, offset),
        )
    }

    fn check_hash(&self, position: u64, previous: u64) -> Result<bool, ChronoIndexError> {
        check_chronosort_hash_to_n(
            self.header_read(),
            position,
            previous,
            |offset| self.bytes_at(MTIMES_FILENAME, offset),
            |offset| self.bytes_at(NAMES_FILENAME, offset),
        )
    }

    fn count(&self) -> Result<u64, ChronoIndexError> {
        count_committed_files(self.header_read())
    }
}

fn scratch(name: &str) -> String {
    format!("scratch/{}", name)
}

fn scan_event(succeeded: bool) -> ScanEvent {
    if succeeded {
        ScanEvent::Succeeded
    } else {
        ScanEvent::Failed
    }
}

fn merge_event(succeeded: bool) -> MergeEvent {
    if succeeded {
        MergeEvent::Succeeded
    } else {
        MergeEvent::Failed
    }
}

fn sort_event(succeeded: bool) -> SortEvent {
    if succeeded {
        SortEvent::Succeeded
    } else {
        SortEvent::Failed
    }
}

fn build_event(succeeded: bool) -> ColdBuildEvent {
    if succeeded {
        ColdBuildEvent::Succeeded
    } else {
        ColdBuildEvent::Failed
    }
}

fn sidecar_event(succeeded: bool) -> SidecarEvent {
    if succeeded {
        SidecarEvent::Succeeded
    } else {
        SidecarEvent::Failed
    }
}

fn rewrite_event(succeeded: bool) -> RewriteEvent {
    if succeeded {
        RewriteEvent::Succeeded
    } else {
        RewriteEvent::Failed
    }
}

fn append_event(succeeded: bool) -> AppendEvent {
    if succeeded {
        AppendEvent::Succeeded
    } else {
        AppendEvent::Failed
    }
}

fn update_event(succeeded: bool) -> UpdateEvent {
    if succeeded {
        UpdateEvent::Succeeded
    } else {
        UpdateEvent::Failed
    }
}

fn assert_sorted(records: &[MtimeRecord]) {
    for pair in records.windows(2) {
        assert!(pair[0].is_strictly_before(pair[1]), "mtimes.bin not sorted");
    }
}

// ---------------------------------------------------------------------------
// Directories and header
// ---------------------------------------------------------------------------

#[test]
fn ensure_index_directory_is_idempotent() {
    let mut disk = Disk::new();
    let first = disk.ensure_index_directory();
    assert!(ensure_index_directory_exists(first).is_ok());
    // Second call must also succeed.
    let second = disk.ensure_index_directory();
    assert!(ensure_index_directory_exists(second).is_ok());
    assert!(disk.index_directory);
}

#[test]
fn ensure_index_directory_reports_failure() {
    assert_eq!(
        ensure_index_directory_exists(false),
        Err(ChronoIndexError::IndexDirIo)
    );
}

#[test]
fn purge_of_absent_state_succeeds() {
    assert_eq!(purge_index_state(Removal::Removed), Ok(()));
    assert_eq!(purge_index_state(Removal::NotFound), Ok(()));
    assert_eq!(
        purge_index_state(Removal::Failed),
        Err(ChronoIndexError::IndexDirIo)
    );
    assert_eq!(purge_scratch_only(Removal::Removed), Ok(()));
    assert_eq!(purge_scratch_only(Removal::NotFound), Ok(()));
    assert_eq!(
        purge_scratch_only(Removal::Failed),
        Err(ChronoIndexError::IndexDirIo)
    );
}

#[test]
fn read_header_returns_none_when_absent() {
    let disk = Disk::new();
    let read_result = disk.header_read().expect("read should succeed with None");
    assert!(read_result.is_none());
}

#[test]
fn read_header_reports_truncated_file() {
    let mut disk = Disk::new();
    disk.append(HEADER_FILENAME, b"CHRIDX01");
    assert_eq!(
        disk.header_read().err(),
        Some(ChronoIndexError::HeaderReadIo)
    );
}

#[test]
fn write_then_read_header_round_trips_on_disk() {
    let mut disk = Disk::new();
    let mut original = ChronoIndexHeader::new_for_parent(b"/data/observed").expect("valid path");
    original.file_count = 42;
    original.signal_hash = 0x1122_3344_5566_7788;
    original.last_mtime_sec = 1_700_123_456;
    original.last_mtime_nsec = 250_000_000;
    original.invariant_breach_count = 2;

    disk.write_header(&original).expect("write ok");

    let recovered = disk.header();
    assert_eq!(recovered.file_count, 42);
    assert_eq!(recovered.signal_hash, 0x1122_3344_5566_7788);
    assert_eq!(recovered.last_mtime_sec, 1_700_123_456);
    assert_eq!(recovered.last_mtime_nsec, 250_000_000);
    assert_eq!(recovered.invariant_breach_count, 2);
    assert_eq!(recovered.parent_path_slice(), b"/data/observed");
    assert!(!disk.files.contains_key(STAGED_HEADER));
}

#[test]
fn failed_header_write_keeps_old_header() {
    for (operation, error) in [
        ("create header.bin.tmp", ChronoIndexError::HeaderWriteIo),
        ("append header.bin.tmp", ChronoIndexError::HeaderWriteIo),
        ("sync header.bin.tmp", ChronoIndexError::HeaderWriteIo),
        ("rename header.bin", ChronoIndexError::RenameIo),
    ] {
        let mut disk = Disk::new();
        let mut header = ChronoIndexHeader::new_for_parent(b"/d").expect("valid path");
        header.file_count = 1;
        disk.write_header(&header).expect("write ok");
        header.file_count = 2;
        disk.fault(operation);
        assert_eq!(disk.write_header(&header), Err(error));
        assert_eq!(disk.header().file_count, 1);
        assert!(!disk.files.contains_key(STAGED_HEADER));
    }
}

// ---------------------------------------------------------------------------
// Cold build
// ---------------------------------------------------------------------------

#[test]
fn cold_build_on_empty_dir_produces_empty_index() {
    let mut disk = Disk::new();
    let watched = watched_with("/watched/empty", &[]);

    let summary = disk.cold_build(&watched).expect("build ok");
    assert_eq!(summary.files_indexed, 0);

    let header = disk.header();
    assert_eq!(header.file_count, 0);
    assert_eq!(header.signal_hash, 0);
    // last_mtime sentinel preserved
    assert_eq!(header.last_mtime_sec, i64::MIN);
    assert_eq!(header.last_mtime_nsec, 0);

    // mtimes.bin should exist and be empty.
    assert_eq!(disk.size(MTIMES_FILENAME), Some(0));
}

#[test]
fn cold_build_small_dir_produces_sorted_mtimes() {
    let mut disk = Disk::new();
    let watched = watched_with(
        "/watched/small",
        &["alpha.txt", "bravo.txt", "charlie.txt", "delta.txt"],
    );

    let summary = disk.cold_build(&watched).expect("build ok");
    assert_eq!(summary.files_indexed, 4);
    assert_eq!(summary.entries_skipped_overlong_name, 0);

    let header = disk.header();
    assert_eq!(header.file_count, 4);
    assert_ne!(header.signal_hash, 0);

    // Verify mtimes.bin is sorted ascending.
    assert_eq!(
        disk.size(MTIMES_FILENAME),
        Some(4 * MTIME_RECORD_SIZE as u64)
    );
    let records = disk.mtimes();
    assert_sorted(&records);

    // header.last_mtime_* must equal the last record.
    let last = records.last().expect("at least one record");
    assert_eq!(header.last_mtime_sec, last.mtime_sec);
    assert_eq!(header.last_mtime_nsec, last.mtime_nsec);

    // Scratch directory must have been cleaned up.
    assert!(disk.files.keys().all(|name| !name.starts_with("scratch/")));
}

#[test]
fn cold_build_larger_dir_exercises_external_sort() {
    let mut disk = Disk::new();
    let names: Vec<String> = (0..50u32).map(|i| format!("file_{:04}.dat", i)).collect();
    let names_ref: Vec<&str> = names.iter().map(|name| name.as_str()).collect();
    let watched = watched_with("/watched/medium", &names_ref);

    let summary = disk.cold_build(&watched).expect("build ok");
    assert_eq!(summary.files_indexed, 50);
    assert_eq!(disk.header().file_count, 50);

    // Verify full sort order across the file.
    let records = disk.mtimes();
    assert_eq!(records.len(), 50);
    assert_sorted(&records);
}

#[test]
fn external_sort_cascades_over_more_runs_than_one_merge_takes() {
    let mut disk = Disk::new();
    let count = (EXTERNAL_SORT_CHUNK_RECORDS * 17 + 5) as u64;
    let mut records = Vec::new();
    let mut state: u64 = 99;
    for id in 0..count {
        state = state
            .wrapping_mul(6364136223846793005)
            .wrapping_add(1442695040888963407);
        records.push(MtimeRecord {
            mtime_sec: ((state >> 40) % 1000) as i64 - 500,
            mtime_nsec: ((state >> 20) % 7) as i32,
            record_id: id,
        });
    }
    disk.append(UNSORTED, &encode_mtime_records(&records));
    disk.sort(count).expect("sort ok");
    records.sort_by_key(|r| (r.mtime_sec, r.mtime_nsec, r.record_id));
    assert!(decode_mtime_records(&disk.files[STAGED_MTIMES]) == records);
    // Eighteen runs took two rounds, and all runs are gone.
    assert!(disk
        .operations
        .contains(&"create scratch/merge_r0000_g0000000001.bin".to_string()));
    assert!(disk
        .operations
        .contains(&"create scratch/merge_r0001_g0000000000.bin".to_string()));
    assert!(disk
        .files
        .keys()
        .all(|name| !name.contains("run_") && !name.contains("merge_")));
}

#[test]
fn external_sort_of_full_chunks_stops_at_end_of_input() {
    let mut disk = Disk::new();
    let count = EXTERNAL_SORT_CHUNK_RECORDS as u64 * 2;
    let records: Vec<MtimeRecord> = (0..count)
        .map(|id| MtimeRecord {
            mtime_sec: -(id as i64),
            mtime_nsec: 0,
            record_id: id,
        })
        .collect();
    disk.append(UNSORTED, &encode_mtime_records(&records));
    disk.sort(count).expect("sort ok");
    let sorted = decode_mtime_records(&disk.files[STAGED_MTIMES]);
    assert_eq!(sorted.len() as u64, count);
    assert_sorted(&sorted);
}

#[test]
fn external_sort_reports_each_failure() {
    let record = MtimeRecord {
        mtime_sec: 1,
        mtime_nsec: 0,
        record_id: 0,
    };
    for (operation, error) in [
        ("open scratch/mtimes_unsorted.bin", ChronoIndexError::BuildIo),
        ("read scratch/mtimes_unsorted.bin", ChronoIndexError::BuildIo),
        ("append scratch/run_00000000.bin", ChronoIndexError::BuildIo),
        ("rename mtimes.bin.tmp", ChronoIndexError::RenameIo),
    ] {
        let mut disk = Disk::new();
        disk.append(UNSORTED, &encode_mtime_records(&[record]));
        disk.fault(operation);
        assert_eq!(disk.sort(1), Err(error));
        assert!(disk.files.keys().all(|name| !name.contains("run_")));
    }
    // An input that does not hold as many records as announced.
    let later = MtimeRecord {
        mtime_sec: 2,
        mtime_nsec: 0,
        record_id: 1,
    };
    for (records, announced) in [
        (vec![], 1),
        (vec![record], 2),
        (vec![record, later], 1),
        (vec![record, later], 3),
    ] {
        let mut disk = Disk::new();
        disk.append(UNSORTED, &encode_mtime_records(&records));
        assert_eq!(disk.sort(announced), Err(ChronoIndexError::BuildIo));
        assert_eq!(disk.files.len(), 1);
    }
    // A record that is cut short does not count.
    let mut disk = Disk::new();
    disk.append(UNSORTED, &encode_mtime_records(&[record, later])[..39]);
    assert_eq!(disk.sort(2), Err(ChronoIndexError::BuildIo));
    let mut disk = Disk::new();
    disk.append(UNSORTED, &encode_mtime_records(&[record, later]));
    assert_eq!(disk.sort(2), Ok(()));
    // Nothing to sort.
    let mut disk = Disk::new();
    assert_eq!(disk.sort(0), Ok(()));
    assert_eq!(disk.size(STAGED_MTIMES), Some(0));
    disk.fault("create mtimes.bin.tmp");
    assert_eq!(disk.sort(0), Err(ChronoIndexError::BuildIo));
}

#[test]
fn failed_merge_removes_all_runs() {
    let count = EXTERNAL_SORT_CHUNK_RECORDS as u64 + 1;
    let records: Vec<MtimeRecord> = (0..count)
        .map(|id| MtimeRecord {
            mtime_sec: 0,
            mtime_nsec: 0,
            record_id: id,
        })
        .collect();
    for operation in [
        "read scratch/run_00000001.bin",
        "create scratch/merge_r0000_g0000000000.bin",
        "append scratch/merge_r0000_g0000000000.bin",
        "sync scratch/merge_r0000_g0000000000.bin",
    ] {
        let mut disk = Disk::new();
        disk.append(UNSORTED, &encode_mtime_records(&records));
        disk.fault(operation);
        assert_eq!(disk.sort(count), Err(ChronoIndexError::BuildIo));
        assert_eq!(disk.files.len(), 1);
    }
}

#[test]
fn merge_takes_equal_times_by_record_id_and_skips_empty_runs() {
    let mut disk = Disk::new();
    let record = |mtime_sec, record_id| MtimeRecord {
        mtime_sec,
        mtime_nsec: 0,
        record_id,
    };
    disk.append("a", &encode_mtime_records(&[record(1, 5), record(3, 0)]));
    disk.append("b", &[]);
    disk.append("c", &encode_mtime_records(&[record(1, 4), record(2, 9)]));
    let inputs = ["a".to_string(), "b".to_string(), "c".to_string()];
    assert!(disk.merge(&inputs, "out"));
    assert_eq!(
        decode_mtime_records(&disk.files["out"]),
        vec![record(1, 4), record(1, 5), record(2, 9), record(3, 0)]
    );
    assert!(disk.merge(&[], "none"));
    assert_eq!(disk.size("none"), Some(0));
}

#[test]
fn merge_refuses_more_inputs_than_the_fan_out() {
    assert!(RunMerge::begin(16).is_ok());
    assert_eq!(
        RunMerge::begin(17).err(),
        Some(ChronoIndexError::BuildIo)
    );
}

#[test]
fn cold_build_skips_overlong_basenames_without_halting() {
    let mut disk = Disk::new();
    // Construct an overlong filename (65 chars).
    let overlong: String = "x".repeat(MAX_BASENAME_LEN + 1);
    let watched = watched_with(
        "/watched/overlong",
        &["ok_short.txt", overlong.as_str(), "also_ok.txt"],
    );

    let summary = disk.cold_build(&watched).expect("build ok");
    assert_eq!(summary.files_indexed, 2);
    assert_eq!(summary.entries_skipped_overlong_name, 1);
    assert_eq!(disk.header().file_count, 2);
}

#[test]
fn cold_build_skips_non_regular_entries() {
    let mut disk = Disk::new();
    let mut watched = watched_with("/watched/non_regular", &["real_file.txt"]);
    // Add a subdirectory inside watched.
    watched.add_of_kind("a_subdirectory", Kind::Subdirectory);

    let summary = disk.cold_build(&watched).expect("build ok");
    assert_eq!(summary.files_indexed, 1);
    assert_eq!(summary.entries_skipped_non_regular, 1);
}

#[test]
fn cold_build_skips_entries_that_cannot_be_examined() {
    let mut disk = Disk::new();
    let mut watched = watched_with("/watched/unreadable", &["good"]);
    watched.add_of_kind("lost", Kind::Unreadable);
    watched.add_with_mtime("gone", None);

    let summary = disk.cold_build(&watched).expect("build ok");
    assert_eq!(summary.files_indexed, 1);
    assert_eq!(summary.entries_skipped_stat_failed, 2);
    assert_eq!(disk.header().signal_hash, fnv1a_64(b"good"));
}

#[test]
fn cold_build_rejects_nonexistent_parent() {
    let mut disk = Disk::new();
    let mut nonexistent = watched_with(
        "/definitely_not_a_real_dir_chrono_index_test_xyz_123",
        &[],
    );
    nonexistent.exists = false;

    let result = disk.cold_build(&nonexistent);
    assert!(result.is_err());
    assert_eq!(result.err(), Some(ChronoIndexError::BuildIo));

    // No header should have been written.
    assert!(!disk.files.contains_key(HEADER_FILENAME));
}

#[test]
fn cold_build_rejects_parent_path_that_no_header_holds() {
    let mut disk = Disk::new();
    assert_eq!(
        disk.cold_build(&watched_with("", &["a"])),
        Err(ChronoIndexError::ParentPathInvalid)
    );
    let too_long = "p".repeat(MAX_PARENT_PATH_LEN + 1);
    assert_eq!(
        disk.cold_build(&watched_with(&too_long, &["a"])),
        Err(ChronoIndexError::ParentPathTooLong)
    );
    assert!(disk.files.is_empty());
}

#[test]
fn cold_build_of_path_that_no_header_holds_removes_scratch_directory() {
    let mut build = ColdBuild::begin(b"");
    build = cold_build_index(build, ColdBuildEvent::Succeeded);
    assert_eq!(build.step, ColdBuildStep::EnsureScratchDirectory);
    build = cold_build_index(build, ColdBuildEvent::Succeeded);
    assert_eq!(
        build.step,
        ColdBuildStep::CleanUp {
            staged_names: false,
            staged_mtimes: false,
            set_aside: false,
            outcome: Err(ChronoIndexError::ParentPathInvalid),
        }
    );
    build = cold_build_index(build, ColdBuildEvent::Succeeded);
    assert_eq!(
        build.step,
        ColdBuildStep::Failed(ChronoIndexError::ParentPathInvalid)
    );
}

#[test]
fn failed_cold_build_leaves_no_new_header_and_no_staged_files() {
    let watched = watched_with("/watched/faults", &["a", "b"]);
    for (operation, error) in [
        ("create index directory", ChronoIndexError::IndexDirIo),
        ("create scratch directory", ChronoIndexError::BuildIo),
        ("create names.bin.tmp", ChronoIndexError::BuildIo),
        (
            "create scratch/mtimes_unsorted.bin",
            ChronoIndexError::BuildIo,
        ),
        ("append names.bin.tmp", ChronoIndexError::BuildIo),
        (
            "append scratch/mtimes_unsorted.bin",
            ChronoIndexError::BuildIo,
        ),
        ("sync names.bin.tmp", ChronoIndexError::BuildIo),
        ("sync scratch/mtimes_unsorted.bin", ChronoIndexError::BuildIo),
        ("rename mtimes.bin.tmp", ChronoIndexError::RenameIo),
        ("read newest", ChronoIndexError::BuildIo),
        ("rename names.bin", ChronoIndexError::RenameIo),
        ("rename mtimes.bin", ChronoIndexError::RenameIo),
        ("create header.bin.tmp", ChronoIndexError::HeaderWriteIo),
        ("sync header.bin.tmp", ChronoIndexError::HeaderWriteIo),
        ("rename header.bin", ChronoIndexError::RenameIo),
    ] {
        // Where there was no index, there is none afterwards.
        let mut disk = Disk::new();
        disk.fault(operation);
        assert_eq!(disk.cold_build(&watched), Err(error), "{}", operation);
        assert!(disk.files.is_empty(), "{}", operation);

        // Where there was one, it is as it was, with as many files as the new
        // one would have.
        let mut disk = Disk::new();
        let earlier = watched_with("/watched/faults", &["x", "y"]);
        let _ = disk.cold_build(&earlier).expect("first build");
        let before = disk.index_contents();
        let path = disk.path_at(1);
        let hash = disk.hash_to(1);
        disk.fault(operation);
        assert_eq!(disk.cold_build(&watched), Err(error), "{}", operation);
        assert!(disk.index_contents() == before, "{}", operation);
        assert_eq!(disk.path_at(1), path);
        assert_eq!(disk.hash_to(1), hash);
        assert!(disk.files.len() == 3, "{}", operation);

        // The next build succeeds.
        disk.faults.clear();
        let summary = disk.cold_build(&watched).expect("second build");
        assert_eq!(summary.files_indexed, 2);
        assert_eq!(disk.path_at(1), b"/watched/faults/b");
        assert!(disk.files.len() == 3, "{}", operation);
    }
}

#[test]
fn cold_build_commits_where_old_data_files_cannot_be_kept() {
    for operations in [
        &["set aside names.bin"][..],
        &["set aside mtimes.bin"][..],
        &["set aside names.bin", "set aside mtimes.bin"][..],
    ] {
        let mut disk = Disk::new();
        let _ = disk
            .cold_build(&watched_with("/w", &["x"]))
            .expect("first build");
        for operation in operations {
            disk.fault(operation);
        }
        let summary = disk
            .cold_build(&watched_with("/w", &["a", "b"]))
            .expect("second build");
        assert_eq!(summary.files_indexed, 2);
        assert_eq!(disk.path_at(0), b"/w/a");
        assert_eq!(disk.path_at(1), b"/w/b");
        assert_eq!(disk.files.len(), 3);
    }
}

#[test]
fn data_file_that_was_not_kept_is_not_put_back() {
    let mut disk = Disk::new();
    let _ = disk
        .cold_build(&watched_with("/w", &["x"]))
        .expect("first build");
    let before = disk.index_contents();
    disk.fault("set aside names.bin");
    disk.fault("rename header.bin #2");
    assert_eq!(
        disk.cold_build(&watched_with("/w", &["a", "b"])),
        Err(ChronoIndexError::RenameIo)
    );
    let after = disk.index_contents();
    assert!(after[0] == before[0] && after[2] == before[2]);
    assert!(after[1] != before[1]);
    // It has another size than before, and so the next update rebuilds.
    disk.faults.clear();
    let summary = disk
        .update(&watched_with("/w", &["a", "b"]))
        .expect("update ok");
    assert_eq!(summary.outcome, UpdateOutcome::RebuiltDueToInconsistency);
    assert_eq!(disk.path_at(1), b"/w/b");
}

#[test]
fn build_that_fails_after_old_files_were_not_kept_cleans_up() {
    let mut build = ColdBuild::begin(b"/w");
    build.step = ColdBuildStep::SetAsideNames;
    build = cold_build_index(build, ColdBuildEvent::Failed);
    assert_eq!(build.old_names, OldFile::NotKept);
    assert_eq!(build.step, ColdBuildStep::SetAsideMtimes);
    build = cold_build_index(build, ColdBuildEvent::Failed);
    assert_eq!(build.old_mtimes, OldFile::NotKept);
    assert_eq!(build.step, ColdBuildStep::PromoteNames);
    build = cold_build_index(build, ColdBuildEvent::Succeeded);
    build = cold_build_index(build, ColdBuildEvent::Succeeded);
    assert_eq!(build.step, ColdBuildStep::WriteHeader);
    assert!(!build.restore_failed);
    build = cold_build_index(
        build,
        ColdBuildEvent::FailedWith(ChronoIndexError::HeaderWriteIo),
    );
    assert!(build.restore_failed);
    assert_eq!(
        build.step,
        ColdBuildStep::CleanUp {
            staged_names: false,
            staged_mtimes: false,
            set_aside: false,
            outcome: Err(ChronoIndexError::HeaderWriteIo),
        }
    );
}

#[test]
fn cold_build_leaves_exactly_the_bytes_of_what_it_scanned() {
    let mut disk = Disk::new();
    let mut watched = watched_with("/w", &[]);
    watched.add_with_mtime("late", Some((30, 7)));
    watched.add_with_mtime("early", Some((10, 0)));
    watched.add_with_mtime("middle", Some((20, 0)));
    let _ = disk.cold_build(&watched).expect("build ok");
    let mut names = Vec::new();
    // The directory lists the newest entry first.
    for name in ["middle", "early", "late"] {
        names.extend_from_slice(&pack_basename_record(name.as_bytes()).expect("fits"));
    }
    let record = |mtime_sec, mtime_nsec, record_id| MtimeRecord {
        mtime_sec,
        mtime_nsec,
        record_id,
    };
    let mtimes = encode_mtime_records(&[record(10, 0, 1), record(20, 0, 0), record(30, 7, 2)]);
    assert!(disk.files[NAMES_FILENAME] == names);
    assert!(disk.files[MTIMES_FILENAME] == mtimes);
    let mut header = [0u8; HEADER_SIZE];
    disk.header().serialize_into(&mut header);
    assert!(disk.files[HEADER_FILENAME] == header);
}

#[test]
fn data_file_that_cannot_be_put_back_stays_set_aside() {
    let mut disk = Disk::new();
    let _ = disk
        .cold_build(&watched_with("/w", &["x"]))
        .expect("first build");
    let before = disk.index_contents();
    disk.fault("rename header.bin #2");
    disk.fault("put back names.bin");
    assert_eq!(
        disk.cold_build(&watched_with("/w", &["a", "b"])),
        Err(ChronoIndexError::RenameIo)
    );
    let after = disk.index_contents();
    assert!(after[0] == before[0] && after[2] == before[2]);
    assert!(disk.files.get(OLD_NAMES) == before[1].as_ref());
}

#[test]
fn cold_build_renames_data_files_before_it_writes_the_header() {
    let mut disk = Disk::new();
    disk.cold_build(&watched_with("/w", &["a"])).expect("build ok");
    let place = |operation: &str| {
        disk.operations
            .iter()
            .position(|done| done == operation)
            .expect("done")
    };
    assert!(place("rename names.bin") < place("rename mtimes.bin"));
    assert!(place("rename mtimes.bin") < place("create header.bin.tmp"));
}

#[test]
fn cold_build_records_signal_hash_as_xor_of_basename_fnv1a() {
    let mut disk = Disk::new();
    let watched = watched_with("/watched/signal", &["one.dat", "two.dat", "three.dat"]);

    let _ = disk.cold_build(&watched).expect("build ok");

    // Recompute expected XOR independently and compare.
    let expected_signal = fnv1a_64(b"one.dat") ^ fnv1a_64(b"two.dat") ^ fnv1a_64(b"three.dat");
    assert_eq!(disk.header().signal_hash, expected_signal);
}

#[test]
fn cold_build_writes_names_in_record_id_order() {
    let mut disk = Disk::new();
    let watched = watched_with("/watched/names_layout", &["aaa.txt", "bbb.txt", "ccc.txt"]);

    let summary = disk.cold_build(&watched).expect("build ok");
    assert_eq!(summary.files_indexed, 3);

    let mut seen_basenames: Vec<Vec<u8>> = Vec::new();
    for record in disk.mtimes() {
        seen_basenames.push(disk.basename_at(record.record_id));
    }
    // In chronological order, though the directory listed them the other way.
    assert_eq!(
        seen_basenames,
        vec![
            b"aaa.txt".to_vec(),
            b"bbb.txt".to_vec(),
            b"ccc.txt".to_vec()
        ]
    );
    assert_eq!(disk.basename_at(0), b"ccc.txt");
}

#[test]
fn cold_build_overwrites_previous_index() {
    let mut disk = Disk::new();
    let mut watched = watched_with("/watched/rebuild_a", &["first.txt"]);

    let summary_a = disk.cold_build(&watched).expect("build a");
    assert_eq!(summary_a.files_indexed, 1);

    // Add another file and rebuild.
    watched.add("second.txt");
    let summary_b = disk.cold_build(&watched).expect("build b");
    assert_eq!(summary_b.files_indexed, 2);
    assert_eq!(disk.header().file_count, 2);
}

// ---------------------------------------------------------------------------
// Append
// ---------------------------------------------------------------------------

#[test]
fn append_adds_single_new_file_to_already_built_index() {
    let mut disk = Disk::new();
    let mut watched = watched_with("/watched/single_append", &["first.txt", "second.txt"]);
    let _ = disk.cold_build(&watched).expect("cold build");
    let header_after_build = disk.header();
    assert_eq!(header_after_build.file_count, 2);

    // Add a new file with strictly newer mtime.
    watched.add("third.txt");

    let summary = disk
        .append_new_files(&watched, &header_after_build)
        .expect("append ok");
    assert_eq!(summary.files_appended, 1);
    assert_eq!(summary.invariant_breaches_this_call, 0);

    let header_after_append = disk.header();
    assert_eq!(header_after_append.file_count, 3);
    assert!(header_after_append.last_mtime_sec >= header_after_build.last_mtime_sec);

    // mtimes.bin must remain sorted.
    let records = disk.mtimes();
    assert_eq!(records.len(), 3);
    assert_sorted(&records);

    // The newest record must point to "third.txt".
    let last = *records.last().expect("at least one");
    assert_eq!(disk.basename_at(last.record_id), b"third.txt");
}

#[test]
fn append_handles_multiple_new_files_in_one_call() {
    let mut disk = Disk::new();
    let mut watched = watched_with("/watched/multi_append", &["a.dat"]);
    let _ = disk.cold_build(&watched).expect("cold build");
    let header_after_build = disk.header();

    for new_name in &["b.dat", "c.dat", "d.dat", "e.dat"] {
        watched.add(new_name);
    }

    let summary = disk
        .append_new_files(&watched, &header_after_build)
        .expect("append ok");
    assert_eq!(summary.files_appended, 4);
    assert_eq!(disk.header().file_count, 5);

    let records = disk.mtimes();
    assert_eq!(records.len(), 5);
    assert_sorted(&records);
}

#[test]
fn append_is_idempotent_when_no_new_files() {
    let mut disk = Disk::new();
    let watched = watched_with("/watched/noop_append", &["one.x", "two.x", "three.x"]);
    let _ = disk.cold_build(&watched).expect("cold build");
    let header_before = disk.header();

    let summary = disk
        .append_new_files(&watched, &header_before)
        .expect("append ok");
    assert_eq!(summary.files_appended, 0);

    let header_after = disk.header();
    assert_eq!(header_after.file_count, header_before.file_count);
    assert_eq!(header_after.signal_hash, header_before.signal_hash);
}

#[test]
fn append_signal_hash_xor_accumulates_correctly() {
    let mut disk = Disk::new();
    let mut watched = watched_with("/watched/signal_xor", &["alpha"]);
    let _ = disk.cold_build(&watched).expect("cold build");
    let header_after_build = disk.header();
    let expected_initial = fnv1a_64(b"alpha");
    assert_eq!(header_after_build.signal_hash, expected_initial);

    watched.add("beta");
    watched.add("gamma");

    let _ = disk
        .append_new_files(&watched, &header_after_build)
        .expect("append ok");

    let expected_final = fnv1a_64(b"alpha") ^ fnv1a_64(b"beta") ^ fnv1a_64(b"gamma");
    assert_eq!(disk.header().signal_hash, expected_final);
}

#[test]
fn append_rejects_wrong_parent_path() {
    let mut disk = Disk::new();
    let watched_a = watched_with("/watched/wrong_parent_a", &["x"]);
    let watched_b = watched_with("/watched/wrong_parent_b", &["y"]);
    let _ = disk.cold_build(&watched_a).expect("cold build");
    let header = disk.header();

    let result = disk.append_new_files(&watched_b, &header);
    assert_eq!(result.err(), Some(ChronoIndexError::ParentPathInvalid));
    let result = disk.append_new_files(&watched_with("", &[]), &header);
    assert_eq!(result.err(), Some(ChronoIndexError::ParentPathInvalid));
    let too_long = "p".repeat(MAX_PARENT_PATH_LEN + 1);
    let result = disk.append_new_files(&watched_with(&too_long, &[]), &header);
    assert_eq!(result.err(), Some(ChronoIndexError::ParentPathTooLong));
}

#[test]
fn append_skips_overlong_basenames() {
    let mut disk = Disk::new();
    let mut watched = watched_with("/watched/overlong_append", &["normal.txt"]);
    let _ = disk.cold_build(&watched).expect("cold build");
    let header = disk.header();

    // Add one valid + one overlong.
    watched.add("valid.txt");
    let overlong: String = "z".repeat(MAX_BASENAME_LEN + 1);
    watched.add(overlong.as_str());

    let summary = disk.append_new_files(&watched, &header).expect("append ok");
    assert_eq!(summary.files_appended, 1);
    assert_eq!(summary.entries_skipped_overlong_name, 1);
}

#[test]
fn append_skips_subdirectory_entries() {
    let mut disk = Disk::new();
    let mut watched = watched_with("/watched/subdir_skip", &["file.txt"]);
    let _ = disk.cold_build(&watched).expect("cold build");
    let header = disk.header();

    watched.add_of_kind("a_sub", Kind::Subdirectory);
    watched.add_of_kind("lost", Kind::Unreadable);
    watched.add_with_mtime("gone", None);
    watched.add("newfile.txt");

    let summary = disk.append_new_files(&watched, &header).expect("append ok");
    assert_eq!(summary.files_appended, 1);
    assert_eq!(summary.entries_skipped_non_regular, 1);
    assert_eq!(summary.entries_skipped_stat_failed, 2);
}

#[test]
fn name_hashes_sidecar_built_lazily_and_matches_names() {
    let mut disk = Disk::new();
    let watched = watched_with("/watched/sidecar", &["aa", "bb", "cc"]);
    let _ = disk.cold_build(&watched).expect("cold build");

    // Sidecar should not yet exist after cold build.
    assert!(
        !disk.files.contains_key(NAME_HASHES_FILENAME),
        "sidecar should be lazy"
    );

    // Triggering append (with no new files) should build it.
    let header = disk.header();
    let _ = disk
        .append_new_files(&watched, &header)
        .expect("append ok (noop)");
    assert_eq!(
        disk.size(NAME_HASHES_FILENAME),
        Some(3 * NAME_HASH_RECORD_SIZE as u64)
    );

    // Each hash in the sidecar must match the corresponding name.
    for record_id in 0..3u64 {
        let hash_buf: [u8; NAME_HASH_RECORD_SIZE] = disk
            .bytes_at(
                NAME_HASHES_FILENAME,
                record_id * NAME_HASH_RECORD_SIZE as u64,
            )
            .expect("hash");
        let stored_hash = u64::from_le_bytes(hash_buf);
        assert_eq!(stored_hash, fnv1a_64(&disk.basename_at(record_id)));
    }
}

#[test]
fn append_after_build_keeps_mtimes_sorted_across_many_batches() {
    let mut disk = Disk::new();
    let mut watched = watched_with("/watched/many_batches", &["seed.txt"]);
    let _ = disk.cold_build(&watched).expect("cold build");
    let header = disk.header();

    let extras: usize = (APPEND_BATCH_RECORDS / 32).max(8);
    for i in 0..extras {
        watched.add(&format!("extra_{:05}.dat", i));
    }

    let summary = disk.append_new_files(&watched, &header).expect("append ok");
    assert_eq!(summary.files_appended as usize, extras);

    let records = disk.mtimes();
    assert_eq!(records.len(), 1 + extras);
    assert_sorted(&records);
}

#[test]
fn append_of_batches_that_go_back_in_time_stays_sorted() {
    let mut disk = Disk::new();
    let mut watched = watched_with("/watched/back_in_time", &["seed.txt"]);
    let _ = disk.cold_build(&watched).expect("cold build");
    let header = disk.header();

    // More than two full batches. The directory lists the newest first, so
    // that every batch but the first is older than the one before.
    let extras: usize = APPEND_BATCH_RECORDS * 2 + 10;
    for i in 0..extras {
        watched.add(&format!("extra_{:05}.dat", i));
    }

    let summary = disk.append_new_files(&watched, &header).expect("append ok");
    assert_eq!(summary.files_appended as usize, extras);
    assert_eq!(
        summary.invariant_breaches_this_call as usize,
        extras - APPEND_BATCH_RECORDS
    );

    let after = disk.header();
    assert_eq!(after.invariant_breach_count, 2);
    assert_eq!(after.file_count as usize, 1 + extras);
    let records = disk.mtimes();
    assert_eq!(records.len(), 1 + extras);
    assert_sorted(&records);
    let last = records.last().expect("record");
    assert_eq!(
        (after.last_mtime_sec, after.last_mtime_nsec),
        (last.mtime_sec, last.mtime_nsec)
    );
}

#[test]
fn append_round_trip_then_second_append_works() {
    let mut disk = Disk::new();
    let mut watched = watched_with("/watched/two_appends", &["seed"]);
    let _ = disk.cold_build(&watched).expect("cold build");

    // First append round.
    watched.add("round1_a");
    watched.add("round1_b");
    let header_after_build = disk.header();
    let summary_1 = disk
        .append_new_files(&watched, &header_after_build)
        .expect("append 1 ok");
    assert_eq!(summary_1.files_appended, 2);

    // Second append round, starting from the updated header.
    watched.add("round2_a");
    let header_after_first = disk.header();
    assert_eq!(header_after_first.file_count, 3);
    let summary_2 = disk
        .append_new_files(&watched, &header_after_first)
        .expect("append 2 ok");
    assert_eq!(summary_2.files_appended, 1);

    // Final state must be sorted and contain all four entries.
    assert_eq!(disk.header().file_count, 4);
    let records = disk.mtimes();
    assert_eq!(records.len(), 4);
    assert_sorted(&records);
}

#[test]
fn append_to_empty_index_never_rewrites() {
    let mut disk = Disk::new();
    let mut watched = watched_with("/watched/from_empty", &[]);
    let _ = disk.cold_build(&watched).expect("cold build");
    watched.add_with_mtime("old", Some((-5, 0)));
    watched.add_with_mtime("older", Some((i64::MIN, 0)));
    let header = disk.header();
    let summary = disk.append_new_files(&watched, &header).expect("append ok");
    assert_eq!(summary.files_appended, 2);
    assert_eq!(summary.invariant_breaches_this_call, 0);
    assert_eq!(disk.header().invariant_breach_count, 0);
    assert_eq!(disk.header().last_mtime_sec, -5);
    assert_sorted(&disk.mtimes());
}

#[test]
fn append_of_equal_mtime_is_no_breach() {
    let mut disk = Disk::new();
    let mut watched = watched_with("/watched/equal", &[]);
    watched.add_with_mtime("a", Some((100, 7)));
    let _ = disk.cold_build(&watched).expect("cold build");
    watched.add_with_mtime("b", Some((100, 7)));
    let header = disk.header();
    let summary = disk.append_new_files(&watched, &header).expect("append ok");
    assert_eq!(summary.invariant_breaches_this_call, 0);
    assert_sorted(&disk.mtimes());
    assert_eq!(disk.path_at(0), b"/watched/equal/a");
    assert_eq!(disk.path_at(1), b"/watched/equal/b");
}

#[test]
fn append_counts_each_file_that_is_out_of_order() {
    let mut disk = Disk::new();
    let mut watched = watched_with("/watched/late", &[]);
    watched.add_with_mtime("m", Some((100, 0)));
    let _ = disk.cold_build(&watched).expect("cold build");
    watched.add_with_mtime("late_1", Some((50, 0)));
    watched.add_with_mtime("late_2", Some((99, 999_999_999)));
    watched.add_with_mtime("new", Some((101, 0)));
    let header = disk.header();
    let summary = disk.append_new_files(&watched, &header).expect("append ok");
    assert_eq!(summary.files_appended, 3);
    assert_eq!(summary.invariant_breaches_this_call, 2);
    let after = disk.header();
    assert_eq!(after.invariant_breach_count, 1);
    assert_eq!(after.last_mtime_sec, 101);
    assert_eq!(disk.path_at(0), b"/watched/late/late_1");
    assert_eq!(disk.path_at(1), b"/watched/late/late_2");
    assert_eq!(disk.path_at(2), b"/watched/late/m");
    assert_eq!(disk.path_at(3), b"/watched/late/new");
}

#[test]
fn append_slow_path_handles_out_of_order_mtime_without_halting() {
    let mut disk = Disk::new();
    let record = |mtime_sec, record_id| MtimeRecord {
        mtime_sec,
        mtime_nsec: 0,
        record_id,
    };
    // Two in-order records.
    disk.append(
        MTIMES_FILENAME,
        &encode_mtime_records(&[record(100, 0), record(200, 1)]),
    );

    // Out-of-order batch: a record at mtime_sec=50, which is older
    // than every record currently in the file.
    let batch = [record(50, 2)];
    let (new_last_sec, new_last_nsec) = disk.rewrite(&batch).expect("merge insert ok");
    // The newest record is still the original mtime_sec=200 one.
    assert_eq!(new_last_sec, 200);
    assert_eq!(new_last_nsec, 0);

    // The file must now contain three records, sorted.
    let records = disk.mtimes();
    assert_eq!(records.len(), 3);
    assert_eq!(records[0].mtime_sec, 50);
    assert_eq!(records[1].mtime_sec, 100);
    assert_eq!(records[2].mtime_sec, 200);
}

#[test]
fn rewrite_refuses_an_empty_batch() {
    let mut disk = Disk::new();
    disk.append(MTIMES_FILENAME, &[]);
    assert_eq!(disk.rewrite(&[]), Err(ChronoIndexError::AppendIo));
}

#[test]
fn failed_rewrite_leaves_file_as_it_was() {
    let record = |mtime_sec, record_id| MtimeRecord {
        mtime_sec,
        mtime_nsec: 0,
        record_id,
    };
    for (operation, error) in [
        ("open mtimes.bin", ChronoIndexError::AppendIo),
        ("create mtimes.bin.tmp", ChronoIndexError::AppendIo),
        ("read mtimes.bin", ChronoIndexError::AppendIo),
        ("append mtimes.bin.tmp", ChronoIndexError::AppendIo),
        ("sync mtimes.bin.tmp", ChronoIndexError::AppendIo),
        ("rename mtimes.bin", ChronoIndexError::RenameIo),
    ] {
        let mut disk = Disk::new();
        let existing = [record(100, 0), record(200, 1)];
        disk.append(MTIMES_FILENAME, &encode_mtime_records(&existing));
        disk.fault(operation);
        assert_eq!(disk.rewrite(&[record(50, 2)]), Err(error));
        assert_eq!(disk.mtimes(), existing);
        assert!(!disk.files.contains_key(STAGED_MTIMES));
    }
}

#[test]
fn failed_append_commits_what_is_complete() {
    // Three new files are listed; the operation on the third fails.
    for (operation, committed) in [
        ("append names.bin #3", 3),
        ("append name_hashes.bin #3", 3),
        ("search sidecar #3", 3),
        // With the batch, all of the new files are given up.
        ("append mtimes.bin", 1),
    ] {
        let mut disk = Disk::new();
        let mut watched = watched_with("/watched/append_faults", &[]);
        watched.add("a");
        let _ = disk.cold_build(&watched).expect("cold build");
        watched.entries.clear();
        watched.add("b");
        watched.add("c");
        watched.add("d");
        let header = disk.header();
        disk.fault(operation);
        assert_eq!(
            disk.append_new_files(&watched, &header),
            Err(ChronoIndexError::AppendIo),
            "{}",
            operation
        );
        assert_eq!(disk.header().file_count, committed, "{}", operation);
        disk.assert_consistent();

        // The next append takes in the rest.
        disk.faults.clear();
        let header = disk.header();
        let summary = disk.append_new_files(&watched, &header).expect("append ok");
        assert_eq!(summary.files_appended, 4 - committed);
        assert_eq!(disk.header().file_count, 4);
        disk.assert_consistent();
    }
}

#[test]
fn failed_rewrite_gives_up_the_batch() {
    let mut disk = Disk::new();
    let mut watched = watched_with("/watched/rewrite_fault", &["a"]);
    let _ = disk.cold_build(&watched).expect("cold build");
    watched.add_with_mtime("late", Some((5, 0)));
    let header = disk.header();
    disk.fault("rename mtimes.bin #2");
    assert_eq!(
        disk.append_new_files(&watched, &header),
        Err(ChronoIndexError::RenameIo)
    );
    let after = disk.header();
    assert_eq!(after.file_count, 1);
    assert_eq!(after.invariant_breach_count, 0);
    disk.assert_consistent();
}

#[test]
fn second_batch_that_fails_leaves_the_first() {
    let mut disk = Disk::new();
    let mut watched = watched_with("/watched/second_batch", &["seed"]);
    let _ = disk.cold_build(&watched).expect("cold build");
    for i in 0..APPEND_BATCH_RECORDS + 10 {
        watched.add_with_mtime(&format!("f{:04}", i), Some((2_000_000_000, 0)));
    }
    let header = disk.header();
    disk.fault("append mtimes.bin #2");
    assert_eq!(
        disk.append_new_files(&watched, &header),
        Err(ChronoIndexError::AppendIo)
    );
    assert_eq!(disk.header().file_count as usize, 1 + APPEND_BATCH_RECORDS);
    disk.assert_consistent();
}

#[test]
fn append_that_cannot_be_trimmed_leaves_the_header() {
    let mut disk = Disk::new();
    let mut watched = watched_with("/watched/trim_fault", &["a"]);
    let _ = disk.cold_build(&watched).expect("cold build");
    watched.add("b");
    let header = disk.header();
    disk.fault("append name_hashes.bin");
    disk.fault("trim");
    disk.operations.clear();
    disk.ensure_sidecar(1).expect("sidecar");
    assert_eq!(
        disk.append_new_files(&watched, &header),
        Err(ChronoIndexError::AppendIo)
    );
    assert!(!disk
        .operations
        .contains(&"create header.bin.tmp".to_string()));
    // The next update finds files that do not fit the header and rebuilds.
    disk.faults.clear();
    let summary = disk.update(&watched).expect("update ok");
    assert_eq!(summary.outcome, UpdateOutcome::RebuiltDueToInconsistency);
    assert_eq!(summary.final_file_count, 2);
}

#[test]
fn failed_append_is_noticed_or_leaves_the_index() {
    for (operations, added) in [
        // A part of a name record stays behind.
        (&["append names.bin", "trim"][..], true),
        // A whole name record stays behind.
        (&["append name_hashes.bin", "trim"][..], true),
        // So do records of modification times.
        (&["append mtimes.bin", "trim"][..], true),
        // All is written but the header.
        (&["create header.bin.tmp"][..], true),
        (&["rename header.bin #2"][..], true),
        // Everything is cut back, and the header cannot be written.
        (&["append mtimes.bin", "create header.bin.tmp"][..], false),
        // Nothing was written.
        (&["search sidecar"][..], false),
    ] {
        let mut disk = Disk::new();
        let mut watched = watched_with("/w", &["a"]);
        let _ = disk.cold_build(&watched).expect("cold build");
        watched.add("b");
        let header = disk.header();
        disk.ensure_sidecar(1).expect("sidecar");
        let before = disk.index_contents();
        for operation in operations {
            disk.fault(operation);
        }
        assert!(disk.append_new_files(&watched, &header).is_err());
        let after = disk.index_contents();
        assert!(after[0] == before[0], "{:?}", operations);
        let matching = data_files_match_header_count(
            disk.size(NAMES_FILENAME),
            disk.size(MTIMES_FILENAME),
            &header,
        );
        assert_eq!(matching, !added, "{:?}", operations);
        assert_eq!(after == before, !added, "{:?}", operations);

        // The next update makes it good.
        disk.faults.clear();
        let summary = disk.update(&watched).expect("update ok");
        let outcome = if added {
            UpdateOutcome::RebuiltDueToInconsistency
        } else {
            UpdateOutcome::IncrementalAppendCompleted
        };
        assert_eq!(summary.outcome, outcome, "{:?}", operations);
        assert_eq!(summary.final_file_count, 2);
        assert_eq!(disk.path_at(1), b"/w/b");
    }
}

#[test]
fn append_without_directory_or_sidecar_changes_nothing() {
    let mut disk = Disk::new();
    let mut watched = watched_with("/watched/gone", &["a"]);
    let _ = disk.cold_build(&watched).expect("cold build");
    let header = disk.header();
    disk.fault("rename name_hashes.bin");
    assert_eq!(
        disk.append_new_files(&watched, &header),
        Err(ChronoIndexError::RenameIo)
    );
    disk.faults.clear();
    watched.exists = false;
    assert_eq!(
        disk.append_new_files(&watched, &header),
        Err(ChronoIndexError::AppendIo)
    );
    assert_eq!(disk.header().file_count, 1);
    disk.assert_consistent();
}

#[test]
fn failed_header_write_fails_the_append() {
    let mut disk = Disk::new();
    let mut watched = watched_with("/watched/commit_fault", &["a"]);
    let _ = disk.cold_build(&watched).expect("cold build");
    watched.add("b");
    let header = disk.header();
    disk.fault("rename header.bin");
    assert_eq!(
        disk.append_new_files(&watched, &header),
        Err(ChronoIndexError::RenameIo)
    );
    // The next update finds files that do not fit the header and rebuilds.
    disk.faults.clear();
    let summary = disk.update(&watched).expect("update ok");
    assert_eq!(summary.outcome, UpdateOutcome::RebuiltDueToInconsistency);
    assert_eq!(summary.final_file_count, 2);
}

#[test]
fn sidecar_is_not_built_from_names_that_disagree_with_the_header() {
    let mut disk = Disk::new();
    let watched = watched_with("/watched/sidecar_fault", &["a", "b"]);
    let _ = disk.cold_build(&watched).expect("cold build");
    assert_eq!(disk.ensure_sidecar(1), Err(ChronoIndexError::AppendIo));
    assert_eq!(disk.ensure_sidecar(3), Err(ChronoIndexError::AppendIo));
    assert!(!disk.files.contains_key(STAGED_HASHES));
    assert!(!disk.files.contains_key(NAME_HASHES_FILENAME));
    for (operation, error) in [
        ("open names.bin", ChronoIndexError::AppendIo),
        ("create name_hashes.bin.tmp", ChronoIndexError::AppendIo),
        ("append name_hashes.bin.tmp", ChronoIndexError::AppendIo),
        ("sync name_hashes.bin.tmp", ChronoIndexError::AppendIo),
        ("rename name_hashes.bin", ChronoIndexError::RenameIo),
    ] {
        disk.faults = vec![operation.to_string()];
        assert_eq!(disk.ensure_sidecar(2), Err(error));
        assert!(!disk.files.contains_key(STAGED_HASHES));
    }
    disk.faults.clear();
    assert_eq!(disk.ensure_sidecar(2), Ok(()));
    // A stale sidecar of an index without files is emptied.
    assert_eq!(disk.ensure_sidecar(0), Ok(()));
    assert_eq!(disk.size(NAME_HASHES_FILENAME), Some(0));
}

#[test]
fn name_hash_sidecar_lookup_finds_existing_and_misses_new() {
    let mut disk = Disk::new();
    let watched = watched_with("/watched/sidecar_lookup", &["present_one", "present_two"]);
    let _ = disk.cold_build(&watched).expect("cold build");
    // Build the sidecar by triggering an append (no new files).
    let header = disk.header();
    let _ = disk
        .append_new_files(&watched, &header)
        .expect("noop append");

    // Lookup an existing basename hash → must be present.
    let sidecar = &disk.files[NAME_HASHES_FILENAME];
    let present_hash = fnv1a_64(b"present_one");
    assert!(name_hash_is_present_in_sidecar(sidecar, present_hash));

    // Lookup a basename that does not exist → must be absent.
    let absent_hash = fnv1a_64(b"definitely_not_there_xyz");
    assert!(!name_hash_is_present_in_sidecar(sidecar, absent_hash));

    // A search by pieces finds the same; a partial record does not count.
    assert!(name_hash_is_present_in_sidecar(&sidecar[..8], present_hash)
        || name_hash_is_present_in_sidecar(&sidecar[8..], present_hash));
    assert!(!name_hash_is_present_in_sidecar(
        &present_hash.to_le_bytes()[..7],
        present_hash
    ));
}

// ---------------------------------------------------------------------------
// Update
// ---------------------------------------------------------------------------

#[test]
fn update_index_on_empty_state_performs_cold_build() {
    let mut disk = Disk::new();
    let watched = watched_with("/watched/first_update", &["a.txt", "b.txt"]);

    let summary = disk.update(&watched).expect("update ok");
    assert_eq!(summary.outcome, UpdateOutcome::ColdBuildCompleted);
    assert_eq!(summary.final_file_count, 2);
    assert_eq!(summary.cold_build_summary.files_indexed, 2);
    assert_eq!(summary.append_summary.files_appended, 0);
}

#[test]
fn update_index_no_changes_returns_noop_outcome() {
    let mut disk = Disk::new();
    let watched = watched_with("/watched/noop_update", &["x", "y"]);

    let first = disk.update(&watched).expect("first ok");
    assert_eq!(first.outcome, UpdateOutcome::ColdBuildCompleted);

    let files_before = disk.files.clone();
    let second = disk.update(&watched).expect("second ok");
    assert_eq!(second.outcome, UpdateOutcome::NoChangesDetected);
    assert_eq!(second.final_file_count, 2);
    assert!(disk.files == files_before);
}

#[test]
fn update_does_not_depend_on_the_order_of_the_listing() {
    let mut disk = Disk::new();
    let mut watched = watched_with("/watched/reordered", &["x", "y", "z"]);
    let _ = disk.update(&watched).expect("first ok");
    watched.entries.rotate_left(1);
    let second = disk.update(&watched).expect("second ok");
    assert_eq!(second.outcome, UpdateOutcome::NoChangesDetected);
    watched.add("w");
    watched.entries.reverse();
    let third = disk.update(&watched).expect("third ok");
    assert_eq!(third.outcome, UpdateOutcome::IncrementalAppendCompleted);
    assert_eq!(third.final_file_count, 4);
    disk.assert_consistent();
}

#[test]
fn second_append_over_unchanged_directory_changes_nothing() {
    let mut disk = Disk::new();
    let mut watched = watched_with("/watched/second_append", &["a"]);
    let _ = disk.cold_build(&watched).expect("cold build");
    watched.add("b");
    watched.add_with_mtime("late", Some((5, 0)));
    watched.add_of_kind("sub", Kind::Subdirectory);
    let header = disk.header();
    let first = disk.append_new_files(&watched, &header).expect("first ok");
    assert_eq!(first.files_appended, 2);
    assert_eq!(first.invariant_breaches_this_call, 1);
    let files = disk.files.clone();

    watched.entries.reverse();
    let header = disk.header();
    let second = disk.append_new_files(&watched, &header).expect("second ok");
    assert_eq!(second.files_appended, 0);
    assert_eq!(second.invariant_breaches_this_call, 0);
    assert_eq!(second.entries_skipped_non_regular, 1);
    assert!(disk.files == files);
}

#[test]
fn newer_files_in_several_batches_keep_earlier_hashes() {
    let mut disk = Disk::new();
    let mut watched = watched_with("/watched/newer_batches", &["p", "q"]);
    let _ = disk.update(&watched).expect("build");
    let stored = disk.hash_to(1).expect("hash");
    // Listed newest first, so that later batches make rewrites necessary.
    for i in 0..APPEND_BATCH_RECORDS * 2 {
        watched.add(&format!("n{:04}", i));
    }
    let summary = disk.update(&watched).expect("append");
    assert_eq!(summary.outcome, UpdateOutcome::IncrementalAppendCompleted);
    assert!(summary.append_summary.invariant_breaches_this_call > 0);
    assert_eq!(disk.check_hash(1, stored), Ok(true));
    assert_eq!(disk.path_at(2), b"/watched/newer_batches/n0000");
}

#[test]
fn append_takes_in_no_name_twice() {
    let mut disk = Disk::new();
    let mut watched = watched_with("/watched/twice", &["a"]);
    let _ = disk.cold_build(&watched).expect("cold build");
    watched.add("b");
    watched.add("b");
    let header = disk.header();
    let summary = disk.append_new_files(&watched, &header).expect("append ok");
    assert_eq!(summary.files_appended, 1);
    assert_eq!(disk.header().file_count, 2);
    disk.assert_consistent();
}

#[test]
fn update_index_growth_triggers_incremental_append() {
    let mut disk = Disk::new();
    let mut watched = watched_with("/watched/growth", &["seed"]);
    let _ = disk.update(&watched).expect("cold build via update");

    watched.add("grown_one");
    watched.add("grown_two");

    let summary = disk.update(&watched).expect("append via update");
    assert_eq!(summary.outcome, UpdateOutcome::IncrementalAppendCompleted);
    assert_eq!(summary.final_file_count, 3);
    assert_eq!(summary.append_summary.files_appended, 2);
    assert_eq!(summary.cold_build_summary.files_indexed, 0);
}

#[test]
fn update_index_rebuilds_when_data_file_size_disagrees_with_header() {
    let mut disk = Disk::new();
    let watched = watched_with("/watched/inconsistent", &["a", "b", "c"]);
    let _ = disk.update(&watched).expect("first ok");

    // Corrupt by truncating names.bin to half size.
    let names = disk.files.get_mut(NAMES_FILENAME).expect("names");
    let half = names.len() / 2;
    names.truncate(half);

    let summary = disk.update(&watched).expect("rebuild via update");
    assert_eq!(summary.outcome, UpdateOutcome::RebuiltDueToInconsistency);
    assert_eq!(summary.final_file_count, 3);
}

#[test]
fn update_index_rebuilds_when_parent_path_changed() {
    let mut disk = Disk::new();
    let watched_a = watched_with("/watched/reparent_a", &["aa"]);
    let watched_b = watched_with("/watched/reparent_b", &["bb"]);

    let _ = disk.update(&watched_a).expect("first ok");

    // Now point the same temp_root at a different parent directory.
    let summary = disk.update(&watched_b).expect("rebuild ok");
    assert_eq!(summary.outcome, UpdateOutcome::RebuiltDueToInconsistency);
    assert_eq!(summary.final_file_count, 1);
}

#[test]
fn update_rebuilds_when_header_cannot_be_used() {
    let watched = watched_with("/watched/bad_header", &["a"]);
    for contents in [b"short".to_vec(), vec![0u8; HEADER_SIZE]] {
        let mut disk = Disk::new();
        let _ = disk.update(&watched).expect("first ok");
        disk.files.insert(HEADER_FILENAME.to_string(), contents);
        let summary = disk.update(&watched).expect("rebuild ok");
        assert_eq!(summary.outcome, UpdateOutcome::RebuiltDueToInconsistency);
        assert_eq!(summary.final_file_count, 1);
    }
}

#[test]
fn update_rebuilds_when_directory_shrank_or_was_renamed_in() {
    let mut disk = Disk::new();
    let _ = disk
        .update(&watched_with("/w", &["a", "b", "c"]))
        .expect("first ok");
    let shrunk = disk.update(&watched_with("/w", &["a", "b"])).expect("ok");
    assert_eq!(shrunk.outcome, UpdateOutcome::RebuiltDueToInconsistency);
    assert_eq!(shrunk.final_file_count, 2);
    let renamed = disk.update(&watched_with("/w", &["a", "z"])).expect("ok");
    assert_eq!(renamed.outcome, UpdateOutcome::RebuiltDueToInconsistency);
    assert_eq!(renamed.final_file_count, 2);
}

#[test]
fn update_rebuilds_when_append_fails() {
    let mut disk = Disk::new();
    let mut watched = watched_with("/watched/append_fault", &["a"]);
    let _ = disk.update(&watched).expect("first ok");
    watched.add("b");
    disk.fault("append mtimes.bin");
    let summary = disk.update(&watched).expect("rebuild ok");
    assert_eq!(summary.outcome, UpdateOutcome::RebuiltDueToInconsistency);
    assert_eq!(summary.final_file_count, 2);
    assert_eq!(summary.append_summary.files_appended, 0);
}

#[test]
fn update_rebuilds_when_append_does_not_reach_the_live_directory() {
    let mut disk = Disk::new();
    let mut watched = watched_with("/watched/replaced", &["a", "b"]);
    let _ = disk.update(&watched).expect("first ok");
    // One file is gone and two are new: the append cannot lead to what the
    // directory holds.
    watched.entries.retain(|entry| entry.name != b"a");
    watched.add("c");
    watched.add("d");
    let summary = disk.update(&watched).expect("rebuild ok");
    assert_eq!(summary.outcome, UpdateOutcome::RebuiltDueToInconsistency);
    assert_eq!(summary.final_file_count, 3);
    assert_eq!(summary.append_summary.files_appended, 2);
    assert_eq!(disk.update(&watched).expect("ok").outcome, UpdateOutcome::NoChangesDetected);
}

#[test]
fn update_reports_what_no_rebuild_can_mend() {
    let mut disk = Disk::new();
    disk.fault("create index directory");
    assert_eq!(
        disk.update(&watched_with("/w", &["a"])).err(),
        Some(ChronoIndexError::IndexDirIo)
    );
    let mut disk = Disk::new();
    let mut watched = watched_with("/w", &["a"]);
    watched.exists = false;
    assert_eq!(disk.update(&watched).err(), Some(ChronoIndexError::BuildIo));
    watched.exists = true;
    let _ = disk.update(&watched).expect("build ok");
    watched.exists = false;
    assert_eq!(disk.update(&watched).err(), Some(ChronoIndexError::BuildIo));
    assert_eq!(
        disk.update(&watched_with("", &["a"])).err(),
        Some(ChronoIndexError::ParentPathInvalid)
    );
}

#[test]
fn probe_counts_what_an_index_would_hold() {
    let overlong = "x".repeat(MAX_BASENAME_LEN + 1);
    let entries = [
        DirectoryEntry::Regular(b"a".to_vec()),
        DirectoryEntry::NotRegular,
        DirectoryEntry::Regular(overlong.into_bytes()),
        DirectoryEntry::Unreadable,
        DirectoryEntry::Regular(b"b".to_vec()),
    ];
    let mut probe = LiveDirectoryProbe::new();
    for entry in &entries {
        probe = probe_live_directory(probe, entry);
    }
    assert_eq!(probe.live_file_count(), 2);
    assert_eq!(probe.live_signal_hash(), fnv1a_64(b"b") ^ fnv1a_64(b"a"));
    assert_eq!(probe.entries_skipped_overlong_name(), 1);
    assert_eq!(probe.entries_skipped_stat_failed(), 1);
    assert_eq!(probe.entries_skipped_non_regular(), 1);
}

// ---------------------------------------------------------------------------
// Lookup
// ---------------------------------------------------------------------------

#[test]
fn lookup_position_zero_returns_chronologically_earliest_file() {
    let mut disk = Disk::new();
    let watched = watched_with("/watched/zero", &["first.txt", "second.txt", "third.txt"]);
    let _ = disk.update(&watched).expect("build");

    let mut buf = [0u8; MAX_FULL_PATH_LEN];
    let result = disk.lookup(0, &mut buf).expect("ok").expect("present");

    let path_bytes = &buf[..result.path_byte_length];
    assert!(path_bytes.ends_with(b"/first.txt"));
    assert_eq!(path_bytes, b"/watched/zero/first.txt");
}

#[test]
fn lookup_past_end_returns_none() {
    let mut disk = Disk::new();
    let watched = watched_with("/watched/past_end", &["only"]);
    let _ = disk.update(&watched).expect("build");

    let mut buf = [7u8; MAX_FULL_PATH_LEN];
    let r = disk.lookup(5, &mut buf).expect("ok");
    assert!(r.is_none());
    assert!(buf.iter().all(|byte| *byte == 7));
}

#[test]
fn lookup_without_index_or_with_damaged_files_fails() {
    let mut disk = Disk::new();
    let mut buf = [0u8; MAX_FULL_PATH_LEN];
    assert_eq!(
        disk.lookup(0, &mut buf),
        Err(ChronoIndexError::LookupIo)
    );
    let _ = disk.update(&watched_with("/w", &["a", "b"])).expect("build");
    let mtimes = disk.files[MTIMES_FILENAME].clone();
    // A record id that no name has.
    let mut damaged = mtimes.clone();
    damaged[12] = 200;
    disk.files.insert(MTIMES_FILENAME.to_string(), damaged);
    assert_eq!(
        disk.lookup(0, &mut buf),
        Err(ChronoIndexError::LookupIo)
    );
    assert_eq!(disk.hash_to(0), Err(ChronoIndexError::LookupIo));
    // Files that are too short.
    disk.files.insert(MTIMES_FILENAME.to_string(), Vec::new());
    assert_eq!(
        disk.lookup(0, &mut buf),
        Err(ChronoIndexError::LookupIo)
    );
    disk.files.insert(MTIMES_FILENAME.to_string(), mtimes);
    disk.files.insert(NAMES_FILENAME.to_string(), Vec::new());
    assert_eq!(
        disk.lookup(0, &mut buf),
        Err(ChronoIndexError::LookupIo)
    );
    assert_eq!(disk.hash_to(1), Err(ChronoIndexError::LookupIo));
    // A header that cannot be read.
    disk.files.insert(HEADER_FILENAME.to_string(), Vec::new());
    assert_eq!(
        disk.lookup(0, &mut buf),
        Err(ChronoIndexError::HeaderReadIo)
    );
    assert_eq!(disk.count(), Err(ChronoIndexError::HeaderReadIo));
    assert_eq!(disk.hash_to(0), Err(ChronoIndexError::LookupIo));
    assert_eq!(disk.check_hash(0, 0), Err(ChronoIndexError::LookupIo));
}

#[test]
fn lookup_gives_every_file_once_and_the_same_each_time() {
    let mut disk = Disk::new();
    let names = ["e", "d", "c", "b", "a"];
    let _ = disk.update(&watched_with("/w", &names)).expect("build");
    let mut found: Vec<Vec<u8>> = (0..5).map(|position| disk.path_at(position)).collect();
    assert_eq!(found[4], disk.path_at(4));
    assert_eq!(found[0], b"/w/e");
    found.sort();
    assert_eq!(
        found,
        vec![
            b"/w/a".to_vec(),
            b"/w/b".to_vec(),
            b"/w/c".to_vec(),
            b"/w/d".to_vec(),
            b"/w/e".to_vec()
        ]
    );
}

#[test]
fn count_committed_files_reports_header_count() {
    let mut disk = Disk::new();
    let watched = watched_with("/watched/count", &["a", "b"]);

    // Before any update, no header → 0.
    assert_eq!(disk.count().expect("ok"), 0);

    let _ = disk.update(&watched).expect("build");
    assert_eq!(disk.count().expect("ok"), 2);
}

#[test]
fn lookup_returns_paths_in_ascending_mtime_order() {
    let mut disk = Disk::new();
    let watched = watched_with("/watched/ascending", &["p0", "p1", "p2", "p3"]);
    let _ = disk.update(&watched).expect("build");

    let total = disk.count().expect("ok");
    assert_eq!(total, 4);

    let mut buf = [0u8; MAX_FULL_PATH_LEN];
    let mut previous: Option<(i64, i32)> = None;
    for position in 0..total {
        let r = disk.lookup(position, &mut buf).expect("ok").expect("present");
        let current = (r.looked_up_file_mtime_sec, r.looked_up_file_mtime_nsec);
        if let Some(before) = previous {
            assert!(current >= before, "positions must be non-decreasing in mtime");
        }
        previous = Some(current);
    }
}

// ---------------------------------------------------------------------------
// Sequence hash
// ---------------------------------------------------------------------------

#[test]
fn hash_to_n_is_deterministic_across_repeated_calls() {
    let mut disk = Disk::new();
    let watched = watched_with("/watched/deterministic", &["a.txt", "b.txt", "c.txt"]);
    let _ = disk.update(&watched).expect("build");

    let hash_first = disk.hash_to(2).expect("hash ok first");
    let hash_second = disk.hash_to(2).expect("hash ok second");
    assert_eq!(
        hash_first, hash_second,
        "repeated calls must return equal hash"
    );
}

#[test]
fn hash_to_n_is_fnv_of_times_and_names() {
    let mut disk = Disk::new();
    let mut watched = watched_with("/w", &[]);
    watched.add_with_mtime("ab", Some((-1, 3)));
    watched.add_with_mtime("c", Some((1_000, 0)));
    let _ = disk.update(&watched).expect("build");
    let mut fed: Vec<u8> = Vec::new();
    fed.extend_from_slice(&(-1i64).to_le_bytes());
    fed.extend_from_slice(&3i32.to_le_bytes());
    fed.extend_from_slice(b"ab");
    fed.push(0xFF);
    assert_eq!(disk.hash_to(0), Ok(fnv1a_64(&fed)));
    fed.extend_from_slice(&1_000i64.to_le_bytes());
    fed.extend_from_slice(&0i32.to_le_bytes());
    fed.extend_from_slice(b"c");
    fed.push(0xFF);
    assert_eq!(disk.hash_to(1), Ok(fnv1a_64(&fed)));
}

#[test]
fn hash_to_n_differs_for_different_up_to_positions() {
    let mut disk = Disk::new();
    let watched = watched_with(
        "/watched/diff_positions",
        &["early.dat", "middle.dat", "late.dat"],
    );
    let _ = disk.update(&watched).expect("build");

    let hash_0 = disk.hash_to(0).expect("hash pos 0");
    let hash_1 = disk.hash_to(1).expect("hash pos 1");
    let hash_2 = disk.hash_to(2).expect("hash pos 2");

    assert_ne!(hash_0, hash_1);
    assert_ne!(hash_1, hash_2);
    assert_ne!(hash_0, hash_2);
}

#[test]
fn hash_to_n_rejects_position_at_or_past_file_count() {
    let mut disk = Disk::new();
    let watched = watched_with("/watched/out_of_range", &["only.txt"]);
    let _ = disk.update(&watched).expect("build");
    // file_count == 1, so valid positions are only 0.
    // position 1 must fail.
    assert_eq!(disk.hash_to(1).err(), Some(ChronoIndexError::LookupIo));
    // position u64::MAX must also fail.
    assert_eq!(
        disk.hash_to(u64::MAX).err(),
        Some(ChronoIndexError::LookupIo)
    );
}

#[test]
fn hash_to_n_rejects_empty_index() {
    // No index built yet → Err.
    let mut disk = Disk::new();
    assert!(
        disk.hash_to(0).is_err(),
        "hash on absent index must return Err"
    );
    let _ = disk.update(&watched_with("/w", &[])).expect("build");
    assert_eq!(disk.hash_to(0), Err(ChronoIndexError::LookupIo));
}

#[test]
fn hash_to_n_changes_when_new_file_inserted_before_existing_file() {
    let mut disk = Disk::new();

    // Directory A with one file.
    let watched_a = watched_with("/watched/pshift_a", &["alpha.txt"]);
    let _ = disk.update(&watched_a).expect("build a");
    let hash_alpha = disk.hash_to(0).expect("hash alpha");

    // Now index a completely different directory with a different file.
    // This triggers a rebuild (different parent path).
    let watched_b = watched_with("/watched/pshift_b", &["beta.txt"]);
    let _ = disk.update(&watched_b).expect("build b");
    let hash_beta = disk.hash_to(0).expect("hash beta");

    assert_ne!(
        hash_alpha, hash_beta,
        "different file at position 0 must produce different hash"
    );
}

#[test]
fn hash_to_n_is_order_sensitive_not_set_sensitive() {
    let mut disk_a = Disk::new();
    let watched_a = watched_with("/watched/order_sensitive", &["first.txt", "second.txt"]);
    let _ = disk_a.update(&watched_a).expect("build a");

    let mut disk_b = Disk::new();
    let watched_b = watched_with("/watched/order_sensitive", &["second.txt", "first.txt"]);
    let _ = disk_b.update(&watched_b).expect("build b");

    assert_ne!(disk_a.path_at(0), disk_b.path_at(0));
    assert_eq!(disk_a.header().signal_hash, disk_b.header().signal_hash);
    let hash_a = disk_a.hash_to(1).expect("hash a");
    let hash_b = disk_b.hash_to(1).expect("hash b");
    assert_ne!(
        hash_a, hash_b,
        "same files in different order must produce different hash"
    );
}

#[test]
fn hash_to_n_covers_only_up_to_n_not_beyond() {
    let mut disk = Disk::new();
    let mut watched = watched_with("/watched/prefix_stable", &["file0.dat", "file1.dat"]);
    let _ = disk.update(&watched).expect("build");

    // Record hash at position 0 and position 1.
    let hash_at_0 = disk.hash_to(0).expect("hash 0");
    let hash_at_1 = disk.hash_to(1).expect("hash 1");

    // Add a new file (appended to the end: position 2).
    watched.add("file2.dat");
    let _ = disk.update(&watched).expect("append");

    // Hash at position 0 and 1 must be unchanged.
    assert_eq!(hash_at_0, disk.hash_to(0).expect("hash 0 after"));
    assert_eq!(hash_at_1, disk.hash_to(1).expect("hash 1 after"));

    // Hash at position 2 (the new file) must now be computable.
    assert!(
        disk.hash_to(2).is_ok(),
        "position 2 must be queryable after append"
    );
}

#[test]
fn check_returns_true_when_sequence_is_unchanged() {
    let mut disk = Disk::new();
    let watched = watched_with("/watched/check_true", &["move1", "move2", "move3"]);
    let _ = disk.update(&watched).expect("build");

    // Record hash for positions 0..=2.
    let stored_hash = disk.hash_to(2).expect("hash ok");

    // No change to the directory; check must return true.
    let unchanged = disk.check_hash(2, stored_hash).expect("check ok");
    assert!(unchanged, "unchanged sequence must yield Ok(true)");
}

#[test]
fn check_returns_false_when_stored_hash_does_not_match_current() {
    let mut disk = Disk::new();
    let watched = watched_with("/watched/check_false", &["a", "b"]);
    let _ = disk.update(&watched).expect("build");

    let real_hash = disk.hash_to(1).expect("hash ok");
    let wrong_hash = real_hash.wrapping_add(1);

    let changed = disk.check_hash(1, wrong_hash).expect("check ok");
    assert!(!changed, "mismatched previous_hash must yield Ok(false)");
}

#[test]
fn check_returns_false_after_rebuild_changes_position_content() {
    let mut disk = Disk::new();
    let watched_a = watched_with("/watched/check_rebuild_a", &["alpha"]);
    let _ = disk.update(&watched_a).expect("build a");
    let hash_before_rebuild = disk.hash_to(0).expect("hash before");

    // Rebuild against a different watched directory.
    let watched_b = watched_with("/watched/check_rebuild_b", &["beta"]);
    let _ = disk.update(&watched_b).expect("build b");

    // check against the pre-rebuild hash must return false.
    let result = disk.check_hash(0, hash_before_rebuild).expect("check ok");
    assert!(
        !result,
        "hash after rebuild with different content must not match pre-rebuild hash"
    );
}

#[test]
fn check_returns_false_after_a_late_file_slid_in() {
    let mut disk = Disk::new();
    let mut watched = watched_with("/watched/late_move", &[]);
    watched.add_with_mtime("move1", Some((100, 0)));
    watched.add_with_mtime("move3", Some((300, 0)));
    let _ = disk.update(&watched).expect("build");
    let stored = disk.hash_to(1).expect("hash");
    watched.add_with_mtime("move2", Some((200, 0)));
    let summary = disk.update(&watched).expect("append");
    assert_eq!(summary.outcome, UpdateOutcome::IncrementalAppendCompleted);
    assert_eq!(disk.check_hash(1, stored), Ok(false));
    assert_eq!(disk.path_at(1), b"/watched/late_move/move2");
}

#[test]
fn check_returns_err_when_position_out_of_range() {
    let mut disk = Disk::new();
    let watched = watched_with("/watched/check_oob", &["sole"]);
    let _ = disk.update(&watched).expect("build");

    let result = disk.check_hash(5, 0xDEAD);
    assert_eq!(result.err(), Some(ChronoIndexError::LookupIo));
}

#[test]
fn check_plan_b_pattern_works_across_append_then_recheck() {
    let mut disk = Disk::new();
    let mut watched = watched_with("/watched/plan_b_pattern", &["move01", "move02", "move03"]);
    let _ = disk.update(&watched).expect("build");
    // K = 3, last position = 2.
    let stored_hash_at_2 = disk.hash_to(2).expect("initial hash");

    // Append move04.
    watched.add("move04");
    let _ = disk.update(&watched).expect("append");

    // Positions 0..=2 are unchanged: check must return true.
    let prefix_stable = disk.check_hash(2, stored_hash_at_2).expect("check ok");
    assert!(
        prefix_stable,
        "pure append must not change hash of prefix positions"
    );

    // Store hash for position 3 (the new file).
    let stored_hash_at_3 = disk.hash_to(3).expect("hash at 3");
    let still_same = disk.check_hash(3, stored_hash_at_3).expect("check 3 ok");
    assert!(still_same, "freshly stored hash must match immediately");
}

#[test]
fn error_code_for_hash_functions_is_lookup_io() {
    let disk = Disk::new();
    // No index built.
    assert_eq!(disk.hash_to(0).err(), Some(ChronoIndexError::LookupIo));
    assert_eq!(
        disk.check_hash(0, 0).err(),
        Some(ChronoIndexError::LookupIo)
    );
}
