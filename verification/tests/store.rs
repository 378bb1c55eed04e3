use std::collections::BTreeMap;

use ossfs::block_index::DiskCache;
use ossfs::checksum::{content_md5, crc64ecma};
use ossfs::disk_cache::{block_file, BlockFile, BlockRead};
use ossfs::entry::DirEntry;
use ossfs::listing::{list_page, stat_next, ObjectInfo, StatReply, StatState};
use ossfs::object_fs::{
    count_tree_entries, EtagStep, FsError, GetReply, ObjectFs, ReadStep, RenameKind,
};
use ossfs::settings::{OssConfig, DISK_CACHE_BLOCK_SIZE};
use ossfs::upload::{
    after_parts, crc_for, cut_part, finish_upload, md5_for, multipart_plan, PartReader, UploadEnd, UploadPart,
    UploadStep,
};

const MIB: usize = 1024 * 1024;

fn config() -> OssConfig {
    OssConfig {
        bucket: "b".into(),
        region: "r".into(),
        endpoint: None,
        force_path_style: false,
        prefix: String::new(),
        max_concurrent_requests: None,
        read_only: false,
        uid: 0,
        gid: 0,
        dir_mode: 0o755,
        file_mode: 0o644,
        allow_other: false,
        umask: 0,
        allow_rename_dir: true,
        rename_dir_limit: None,
        max_upload_bytes: None,
        read_ahead_bytes: None,
        ignore_fsync: true,
        max_dirty_bytes: None,
        verify_crc64: false,
        storage_class: None,
        content_md5: false,
        notsup_compat_dir: false,
        connect_timeout_secs: None,
        readwrite_timeout_secs: None,
        retries: None,
        multipart_size: None,
        multipart_concurrency: None,
        disk_cache_reserve_diskfree: 0,
        disk_cache_dir: None,
        disk_cache_max_bytes: 0,
        disk_cache_block_size: None,
        disk_cache_prefetch_blocks: 1,
        disk_cache_prefetch_concurrency: 4,
        disk_cache_verify_etag: false,
        disk_cache_etag_ttl_secs: 10,
        negative_cache_ttl_secs: 5,
        negative_cache_max_entries: 4096,
        stat_cache_ttl_secs: 3,
        stat_cache_max_entries: 4096,
        total_mem_limit: None,
        read_cache_max_bytes: None,
        credential_process: None,
    }
}

/// The files of a disk cache, kept in memory.
struct Disk {
    cache: DiskCache,
    files: BTreeMap<String, Vec<u8>>,
    tags: BTreeMap<String, String>,
}

impl Disk {
    fn read_block(&mut self, key: &str, block: u64) -> Option<Vec<u8>> {
        let raw = self.files.get(&block_file(key, block))?;
        match self.cache.read_block(key, block, raw) {
            BlockFile::Data { data } => Some(data),
            _ => None,
        }
    }

    fn write_block(&mut self, key: &str, block: u64, data: &[u8]) {
        if let Some(raw) = self.cache.write_block(key, data, None) {
            assert!(!self.cache.commit_block(key, block, raw.len() as u64), "nothing has to leave");
            self.files.insert(block_file(key, block), raw);
        }
    }

    fn invalidate(&mut self, key: &str) {
        self.cache.invalidate(key);
        let cache = &self.cache;
        self.files.retain(|name, _| !cache.is_block_of(name, key));
        self.tags.remove(key);
    }
}

#[derive(Clone, Debug, PartialEq)]
struct Put {
    key: String,
    body: Vec<u8>,
    md5: Option<String>,
}

/// A mount and a store that is kept in memory.
struct Mount {
    fs: ObjectFs,
    entries: Vec<(String, bool)>,
    objects: BTreeMap<String, Vec<u8>>,
    requests: Vec<String>,
    puts: Vec<Put>,
    creates: usize,
    parts: Vec<(i32, Vec<u8>)>,
    etag: String,
    reported: Option<u64>,
    disk: Option<Disk>,
    now: u64,
}

impl Mount {
    fn with(entries: &[(&str, bool)]) -> Mount {
        Mount {
            fs: ObjectFs::connect(config(), 0),
            entries: entries.iter().map(|(k, d)| (k.to_string(), *d)).collect(),
            objects: BTreeMap::new(),
            requests: Vec::new(),
            puts: Vec::new(),
            creates: 0,
            parts: Vec::new(),
            etag: "mock".into(),
            reported: None,
            disk: None,
            now: 0,
        }
    }

    fn new() -> Mount {
        Mount::with(&[])
    }

    fn cached(block_size: usize) -> Mount {
        let mut m = Mount::new();
        m.disk = Some(Disk {
            cache: DiskCache::new(64 * MIB, block_size as u64, 0),
            files: BTreeMap::new(),
            tags: BTreeMap::new(),
        });
        m
    }

    fn count(&self, what: &str) -> usize {
        self.requests.iter().filter(|r| r.starts_with(what)).count()
    }

    fn list(&mut self, dir: &str) -> Vec<DirEntry> {
        let prefix = self.fs.list(dir);
        self.requests.push(format!("LIST {prefix}"));
        let commons: Vec<String> = self.entries.iter().filter(|e| e.1).map(|e| e.0.clone()).collect();
        let objects: Vec<ObjectInfo> = self
            .entries
            .iter()
            .filter(|e| !e.1)
            .map(|e| ObjectInfo { key: e.0.clone(), size: Some(5), modified_secs: Some(1) })
            .collect();
        let mut out = Vec::new();
        list_page(&prefix, self.fs.settings.notsup_compat_dir, &commons, &objects, &mut out);
        out
    }

    fn look_up(&mut self, path: &str) -> Option<DirEntry> {
        let mut state = self.fs.begin_lookup(path);
        loop {
            let found = match &state {
                StatState::Object { key } | StatState::Marker { key } => {
                    self.requests.push(format!("HEAD {key}"));
                    self.objects.get(key).map(|o| o.len() as i64)
                }
                StatState::Children { prefix } => {
                    self.requests.push(format!("LIST {prefix} max-keys=1"));
                    self.entries.iter().find(|e| e.0.starts_with(prefix.as_str())).map(|_| 0)
                }
                StatState::Done { .. } => break,
                StatState::Failed => panic!("the store answers"),
            };
            let reply = match found {
                Some(size) => StatReply::Found { size: Some(size), modified_secs: Some(1) },
                None => StatReply::Missing,
            };
            state = stat_next("", path, state, reply);
        }
        match state {
            StatState::Done { result } => result,
            other => panic!("{other:?}"),
        }
    }

    fn stat(&mut self, path: &str) -> Option<DirEntry> {
        if let Some(known) = self.fs.stat(path, self.now) {
            return known;
        }
        let result = self.look_up(path);
        self.fs.finish_stat(path, &result, self.now);
        result
    }

    fn get(&mut self, key: &str, offset: u64, len: usize) -> Result<Vec<u8>, FsError> {
        let range = self.fs.begin_get(offset, len);
        self.requests.push(format!("GET {key} {range}"));
        let reply = match self.objects.get(key) {
            None => GetReply::Error { status: 404, body: String::new() },
            Some(o) if offset as usize >= o.len() => GetReply::Error { status: 416, body: String::new() },
            Some(o) => {
                let from = offset as usize;
                GetReply::Body { data: o[from..from.saturating_add(len).min(o.len())].to_vec() }
            }
        };
        self.fs.finish_get(reply)
    }

    fn check_tag(&mut self, key: &str) {
        if !self.fs.settings.disk_cache_verify_etag || !self.fs.etag_check_due(key, self.now) {
            return;
        }
        self.requests.push(format!("HEAD {key}"));
        let disk = self.disk.as_mut().expect("a disk cache");
        let kept = disk.tags.get(key).cloned();
        let step = self.fs.verify_disk_cache_etag(key, kept.as_deref(), Some(&self.etag), self.now);
        if step == EtagStep::Replace {
            disk.invalidate(key);
            disk.tags.insert(key.to_string(), self.etag.clone());
        }
    }

    fn read_range(&mut self, path: &str, offset: u64, len: usize) -> Result<Vec<u8>, FsError> {
        let (key, fetch, sequential) = match self.fs.read_range(path, offset, len, self.now) {
            ReadStep::Done { data } => return Ok(data),
            ReadStep::Fetch { key, len, sequential } => (key, len, sequential),
        };
        let data = if self.disk.is_some() {
            self.read_blocks(&key, offset, fetch, sequential)?
        } else {
            self.get(&key, offset, fetch)?
        };
        Ok(self.fs.finish_read(path, offset, len, fetch, data, self.now))
    }

    fn read_blocks(&mut self, key: &str, offset: u64, len: usize, sequential: bool) -> Result<Vec<u8>, FsError> {
        self.check_tag(key);
        let block_size = self.disk.as_ref().unwrap().cache.block_size;
        let mut read = BlockRead::begin(offset, len, block_size);
        while let Some(block) = read.next_block() {
            let kept = self.disk.as_mut().unwrap().read_block(key, block);
            self.fs.note_block(kept.is_some());
            let data = match kept {
                Some(data) => data,
                None => {
                    let data = self.get(key, block * block_size, block_size as usize)?;
                    if !data.is_empty() {
                        self.disk.as_mut().unwrap().write_block(key, block, &data);
                    }
                    data
                }
            };
            read.feed(&data);
        }
        for block in self.fs.prefetch_plan(sequential, read.reached_end(), read.last_block()) {
            if self.fs.begin_prefetch(key, block) {
                let data = self.get(key, block * block_size, block_size as usize);
                self.fs.end_prefetch(key, block, data.is_err());
                self.disk.as_mut().unwrap().write_block(key, block, &data?);
            }
        }
        Ok(read.finish())
    }

    fn put(&mut self, key: &str, body: &[u8]) -> UploadEnd {
        let md5 = md5_for(self.fs.settings.content_md5, body);
        let expected = crc_for(self.fs.settings.verify_crc64, body);
        self.puts.push(Put { key: key.to_string(), body: body.to_vec(), md5 });
        finish_upload(true, expected, self.reported, &mut self.fs.metrics)
    }

    fn complete(&mut self, parts: Vec<UploadPart>, expected: Option<u64>) -> UploadEnd {
        self.creates += 1;
        let tags = parts.iter().map(|p| (p.number, format!("tag{}", p.number))).collect();
        self.parts = parts.into_iter().map(|p| (p.number, p.data)).collect();
        match after_parts(tags, false) {
            UploadStep::Complete { parts } => assert_eq!(parts.len(), self.parts.len()),
            UploadStep::Abort => panic!("every part was taken"),
        }
        finish_upload(true, expected, self.reported, &mut self.fs.metrics)
    }

    fn write(&mut self, path: &str, data: &Vec<u8>) -> Result<UploadEnd, FsError> {
        let plan = self.fs.write(path, data.len())?;
        if let Some(disk) = self.disk.as_mut() {
            disk.invalidate(&plan.key);
        }
        if !plan.multipart {
            return Ok(self.put(&plan.key, data));
        }
        let ranges = multipart_plan(data.len() as u64, self.fs.settings.multipart_part_size);
        let parts = ranges.into_iter().map(|r| cut_part(data, r, self.fs.settings.content_md5)).collect();
        let expected = crc_for(self.fs.settings.verify_crc64, data);
        Ok(self.complete(parts, expected))
    }

    fn write_from_file(&mut self, path: &str, file: &[u8]) -> Result<UploadEnd, FsError> {
        let plan = self.fs.write_from_file(path, file.len() as u64)?;
        if !plan.multipart {
            return Ok(self.put(&plan.key, file));
        }
        let s = &self.fs.settings;
        let mut reader = PartReader::new(file.len() as u64, s.multipart_part_size, s.verify_crc64, s.content_md5);
        let mut rest = file;
        let mut parts = Vec::new();
        while let Some(len) = reader.next_len() {
            assert!(len <= s.multipart_part_size, "the file is never held as a whole");
            let (chunk, left) = rest.split_at(len);
            parts.push(reader.part(chunk.to_vec()));
            rest = left;
        }
        assert!(rest.is_empty());
        Ok(self.complete(parts, reader.finish()))
    }

    fn rename(&mut self, old: &str, new: &str) -> Result<(), FsError> {
        let plan = self.fs.rename(old, new)?;
        let found = self.look_up(old);
        match self.fs.rename_kind(&found, false, true)? {
            RenameKind::File => {}
            RenameKind::Dir { limit } => {
                if let Some(limit) = limit {
                    let below = self.entries.iter().filter(|e| e.0.starts_with(&plan.old_key)).count();
                    count_tree_entries(0, below as u64, limit)?;
                }
            }
        }
        self.requests.push(format!("COPY {} {}", plan.old_key, plan.new_key));
        Ok(())
    }
}

fn pattern(len: usize, modulus: usize) -> Vec<u8> {
    (0..len).map(|i| (i % modulus) as u8).collect()
}

#[test]
fn rename_dir_disabled_rejects_directory_rename() {
    let mut m = Mount::with(&[("dir/a.txt", false)]);
    m.fs.settings.allow_rename_dir = false;
    assert_eq!(m.rename("/dir", "/newdir"), Err(FsError::RenameDisabled));
    assert_eq!(m.count("COPY"), 0);
}

#[test]
fn rename_dir_limit_exceeded_rejects_before_copy() {
    let mut m = Mount::with(&[("dir/a.txt", false), ("dir/b.txt", false)]);
    m.fs.settings.rename_dir_limit = Some(1);
    assert_eq!(m.rename("/dir", "/newdir"), Err(FsError::RenameLimit { count: 2, limit: 1 }));
    assert_eq!(m.count("COPY"), 0);
}

#[test]
fn stat_probes_implied_dir_with_max_keys_1() {
    let mut m = Mount::with(&[("implied/f.txt", false)]);
    let entry = m.stat("/implied").expect("implied directory should exist via probe");
    assert!(entry.is_dir, "probe must report an implied directory");
    assert!(m.count("LIST") > 0, "expected a probe LIST request");
    assert!(m.requests.iter().any(|r| r.contains("max-keys=1")));
}

#[test]
fn stat_missing_path_returns_none_via_probe() {
    let mut m = Mount::new();
    assert!(m.stat("/nope").is_none(), "missing path must be None");
    assert!(!m.requests.is_empty());
}

#[test]
fn list_parses_common_prefixes_and_objects() {
    let mut m = Mount::with(&[("docs/sub/", true), ("docs/a.txt", false)]);
    let names: Vec<(String, bool)> = m.list("/docs").iter().map(|e| (e.name.clone(), e.is_dir)).collect();
    assert_eq!(names, vec![("sub".to_string(), true), ("a.txt".to_string(), false)]);
    assert_eq!(m.requests.len(), 1);
}

#[test]
fn list_skips_legacy_folder_markers_when_enabled() {
    let mut m = Mount::with(&[("docs/sub_$folder$", false), ("docs/a.txt", false)]);
    m.fs.settings.notsup_compat_dir = true;
    let names: Vec<String> = m.list("/docs").iter().map(|e| e.name.clone()).collect();
    assert_eq!(names, vec!["a.txt".to_string()]);
}

#[test]
fn list_keeps_legacy_folder_markers_when_disabled() {
    let mut m = Mount::with(&[("docs/sub_$folder$", false), ("docs/a.txt", false)]);
    let names: Vec<String> = m.list("/docs").iter().map(|e| e.name.clone()).collect();
    assert_eq!(names, vec!["sub_$folder$".to_string(), "a.txt".to_string()]);
}

#[test]
fn write_small_object_uses_single_put() {
    let mut m = Mount::new();
    let data = vec![0x5Au8; 1024];
    assert_eq!(m.write("/small.bin", &data), Ok(UploadEnd::Done));
    assert_eq!((m.puts.len(), m.creates), (1, 0), "small write must be a single request");
    assert_eq!(m.puts[0], Put { key: "small.bin".into(), body: data, md5: None });
}

#[test]
fn write_small_object_sets_content_md5() {
    let mut m = Mount::new();
    m.fs.settings.content_md5 = true;
    let data = vec![0x5Au8; 1024];
    m.write("/small-md5.bin", &data).expect("write");
    assert_eq!(m.puts.len(), 1);
    assert_eq!(m.puts[0].md5.as_deref(), Some(content_md5(&data).as_str()));
}

#[test]
fn write_small_object_verifies_crc64() {
    let mut m = Mount::new();
    m.fs.settings.verify_crc64 = true;
    let data = vec![0x5Au8; 1024];
    m.reported = Some(crc64ecma(&data));
    assert_eq!(m.write("/small-crc.bin", &data), Ok(UploadEnd::Done));
}

#[test]
fn write_small_object_rejects_crc64_mismatch() {
    let mut m = Mount::new();
    m.fs.settings.verify_crc64 = true;
    let data = vec![0x5Au8; 1024];
    let wrong = crc64ecma(&data).wrapping_add(1);
    m.reported = Some(wrong);
    assert_eq!(m.write("/small-bad.bin", &data), Ok(UploadEnd::Corrupt { actual: wrong }));
    assert_eq!(m.fs.metrics().crc64_mismatches, 1);
}

fn reassembled(m: &Mount) -> Vec<u8> {
    let mut parts = m.parts.clone();
    parts.sort_by_key(|(n, _)| *n);
    parts.into_iter().flat_map(|(_, b)| b).collect()
}

#[test]
fn write_large_object_uses_multipart_and_reassembles() {
    let mut m = Mount::new();
    let data = pattern(20 * MIB, 256);
    assert_eq!(m.write("/large.bin", &data), Ok(UploadEnd::Done));
    assert_eq!(m.creates, 1, "exactly one initiate-multipart");
    assert!(m.puts.is_empty());
    assert_eq!(m.parts.iter().map(|p| p.0).collect::<Vec<i32>>(), vec![1, 2, 3]);
    assert_eq!(reassembled(&m), data, "multipart parts must reassemble in order");
}

#[test]
fn write_from_file_streams_multipart_without_whole_buffer() {
    let mut m = Mount::new();
    let data = pattern(20 * MIB, 256);
    assert_eq!(m.write_from_file("/large.bin", &data), Ok(UploadEnd::Done));
    assert_eq!(m.creates, 1, "exactly one initiate-multipart");
    assert_eq!(reassembled(&m), data, "multipart parts must reassemble in order");
}

#[test]
fn write_from_file_small_uses_single_put() {
    let mut m = Mount::new();
    let data = vec![0x5Au8; 1024];
    assert_eq!(m.write_from_file("/small.bin", &data), Ok(UploadEnd::Done));
    assert_eq!((m.puts.len(), m.creates), (1, 0), "small file must be a single PUT");
    assert_eq!(m.puts[0].body, data);
}

#[test]
fn a_file_read_part_by_part_has_its_checksum_compared() {
    let mut m = Mount::new();
    m.fs.settings.verify_crc64 = true;
    m.fs.settings.content_md5 = true;
    let data = pattern(17 * MIB, 251);
    m.reported = Some(crc64ecma(&data));
    assert_eq!(m.write_from_file("/large.bin", &data), Ok(UploadEnd::Done));
    m.reported = Some(1);
    assert_eq!(m.write_from_file("/large.bin", &data), Ok(UploadEnd::Corrupt { actual: 1 }));
    let mut reader = PartReader::new(12, 5, false, true);
    assert_eq!(reader.next_len(), Some(5));
    let part = reader.part(b"hello".to_vec());
    assert_eq!((part.number, part.md5.as_deref()), (1, Some("XUFAKrxLKna5cZ2REBfFkg==")));
    reader.part(b"world".to_vec());
    assert_eq!(reader.next_len(), Some(2));
    assert_eq!(reader.part(b"ab".to_vec()).number, 3);
    assert_eq!(reader.next_len(), None);
    assert_eq!(reader.finish(), None);
    assert_eq!(PartReader::new(0, 5, true, false).next_len(), None);
    assert_eq!(PartReader::new(0, 5, true, false).finish(), Some(crc64ecma(b"")));
}

#[test]
fn streaming_upload_reassembles() {
    let mut m = Mount::new();
    let (key, mut up) = m.fs.begin_streaming_upload("/large.bin").unwrap();
    assert_eq!(key, "large.bin");
    let data = pattern(20 * MIB, 256);
    let mut parts = up.write(&data);
    let (last, crc) = up.finish();
    parts.extend(last);
    assert_eq!(m.complete(parts, crc), UploadEnd::Done);
    assert_eq!(m.creates, 1);
    assert_eq!(reassembled(&m), data);
}

#[test]
fn write_large_object_honors_custom_part_size() {
    let mut m = Mount::new();
    m.fs.settings.multipart_part_size = 6 * MIB;
    let data: Vec<u8> = vec![0xAAu8; 20 * MIB];
    m.write("/large-custom.bin", &data).expect("write");
    assert_eq!(m.parts.len(), 4, "20 MiB with a 6 MiB part size must upload 4 parts");
}

#[test]
fn write_large_object_verifies_crc64() {
    let mut m = Mount::new();
    m.fs.settings.verify_crc64 = true;
    let data = pattern(20 * MIB, 256);
    m.reported = Some(crc64ecma(&data));
    assert_eq!(m.write("/large-crc.bin", &data), Ok(UploadEnd::Done));
}

#[test]
fn disk_cache_serves_repeat_reads_without_s3() {
    let mut m = Mount::cached(DISK_CACHE_BLOCK_SIZE);
    let data = pattern(5 * MIB, 251);
    m.objects.insert("big.bin".into(), data.clone());
    let off = 4 * MIB - 8;
    let first = m.read_range("/big.bin", off as u64, 16).expect("read");
    assert_eq!(first, data[off..off + 16]);
    assert_eq!(m.count("GET"), 2); // crosses a block boundary
    let second = m.read_range("/big.bin", off as u64, 16).expect("read");
    assert_eq!(second, data[off..off + 16]);
    assert_eq!(m.count("GET"), 2, "second read must hit disk cache");
}

#[test]
fn disk_cache_prefetches_next_block_on_sequential_read() {
    let mut m = Mount::cached(4 * MIB);
    m.fs.settings.read_ahead_window = 8 * MIB;
    m.objects.insert("seq.bin".into(), pattern(13 * MIB, 256));
    m.read_range("/seq.bin", 0, 1024).expect("read");
    m.read_range("/seq.bin", 1024, 1024).expect("read");
    assert!(
        m.disk.as_mut().unwrap().read_block("seq.bin", 2).is_some(),
        "sequential read should prefetch the next block"
    );
}

#[test]
fn disk_cache_etag_verification_invalidates_on_change() {
    let mut m = Mount::cached(4 * MIB);
    m.fs.settings.disk_cache_verify_etag = true;
    m.objects.insert("e.bin".into(), pattern(5 * MIB, 256));
    m.read_range("/e.bin", 0, 1024).expect("read");
    m.read_range("/e.bin", 0, 1024).expect("hit");
    assert_eq!(m.count("GET"), 1);

    m.fs.etag_checked.clear();
    m.etag = "changed".into();
    m.read_range("/e.bin", 0, 1024).expect("refetch");
    assert_eq!(m.count("GET"), 2);
}

#[test]
fn disk_cache_etag_ttl_skips_repeated_head() {
    let mut m = Mount::cached(4 * MIB);
    m.fs.settings.disk_cache_verify_etag = true;
    m.objects.insert("t.bin".into(), pattern(5 * MIB, 256));
    m.read_range("/t.bin", 0, 1024).expect("read");
    m.read_range("/t.bin", 0, 1024).expect("hit");
    assert_eq!(m.count("HEAD"), 1);
}

#[test]
fn disk_cache_invalidated_by_write() {
    let mut m = Mount::cached(DISK_CACHE_BLOCK_SIZE);
    let data: Vec<u8> = (0..1024usize).map(|i| i as u8).collect();
    m.objects.insert("small.bin".into(), data.clone());
    m.read_range("/small.bin", 0, 1024).expect("read");
    assert_eq!(m.count("GET"), 1);
    m.write("/small.bin", &data).expect("write");
    m.read_range("/small.bin", 0, 1024).expect("read");
    assert_eq!(m.count("GET"), 2, "write must invalidate the cached block");
}

#[test]
fn metrics_count_reads_writes_and_caches() {
    let mut m = Mount::cached(DISK_CACHE_BLOCK_SIZE);
    m.objects.insert("a.bin".into(), vec![0xAAu8; 1024]);
    m.read_range("/a.bin", 0, 1024).expect("read");
    m.read_range("/a.bin", 0, 1024).expect("read");
    m.write("/a.bin", &vec![1, 2, 3]).expect("write");
    let s = m.fs.metrics();
    assert_eq!(s.reads, 2);
    assert_eq!(s.disk_cache_hits, 1);
    assert_eq!(s.writes, 1);
    assert_eq!(s.s3_gets, 1);
    assert_eq!(s.s3_puts, 1);
    assert_eq!(s.upload_bytes_total, 3);
    assert_eq!(s.download_bytes_total, 1024);
}

#[test]
fn s3_errors_increment_on_get_failure() {
    let mut m = Mount::new();
    assert_eq!(m.read_range("/missing.bin", 0, 16), Err(FsError::Store));
    assert_eq!(m.fs.metrics().s3_get_errors, 1);
}

#[test]
fn stat_missing_path_is_negatively_cached() {
    let mut m = Mount::new();
    assert!(m.stat("/nope").is_none());
    let before = m.requests.len();
    assert!(m.stat("/nope").is_none());
    assert_eq!(before, m.requests.len(), "second stat must hit the negative cache");
}
