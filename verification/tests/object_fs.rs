use ossfs::caches::{FsCaches, TimedMap};
use ossfs::entry::DirEntry;
use ossfs::listing::{
    is_s3_invalid_range, is_s3_not_found, list_page, next_page, next_page_token, range_header, read_fetch_len,
    stat_next, stat_run, ObjectInfo, PageLost, StatReply, StatState,
};
use ossfs::object_fs::{
    copy_source, copy_target, count_tree_entries, tree_copies, with_slash, EtagStep, Failure, FsError, GetReply,
    ObjectFs, ReadStep, RenameKind,
};
use ossfs::paths::list_prefix;
use ossfs::settings::{OssConfig, MAX_STAT_ENTRIES};

fn config() -> OssConfig {
    OssConfig {
        bucket: "b".into(),
        region: "r".into(),
        endpoint: None,
        force_path_style: false,
        prefix: String::new(),
        max_concurrent_requests: None,
        read_only: false,
        uid: 0,
        gid: 0,
        dir_mode: 0o755,
        file_mode: 0o644,
        allow_other: false,
        umask: 0,
        allow_rename_dir: true,
        rename_dir_limit: None,
        max_upload_bytes: None,
        read_ahead_bytes: None,
        ignore_fsync: true,
        max_dirty_bytes: None,
        verify_crc64: false,
        storage_class: None,
        content_md5: false,
        notsup_compat_dir: false,
        connect_timeout_secs: None,
        readwrite_timeout_secs: None,
        retries: None,
        multipart_size: None,
        multipart_concurrency: None,
        disk_cache_reserve_diskfree: 0,
        disk_cache_dir: None,
        disk_cache_max_bytes: 0,
        disk_cache_block_size: None,
        disk_cache_prefetch_blocks: 1,
        disk_cache_prefetch_concurrency: 4,
        disk_cache_verify_etag: false,
        disk_cache_etag_ttl_secs: 10,
        negative_cache_ttl_secs: 5,
        negative_cache_max_entries: 4096,
        stat_cache_ttl_secs: 3,
        stat_cache_max_entries: 4096,
        total_mem_limit: None,
        read_cache_max_bytes: None,
        credential_process: None,
    }
}

fn mount() -> ObjectFs {
    ObjectFs::connect(config(), 0)
}

fn file(name: &str, size: u64) -> DirEntry {
    DirEntry { name: name.to_string(), is_dir: false, size, mtime_secs: 1 }
}

#[test]
fn key_for_applies_prefix() {
    let mut c = config();
    c.prefix = "ossfs/".into();
    let fs = ObjectFs::connect(c, 0);
    assert_eq!(fs.key_for("/docs/a.txt"), "ossfs/docs/a.txt");
    assert_eq!(fs.key_for("/docs/"), "ossfs/docs/");
    assert_eq!(fs.key_for("/"), "ossfs");

    let fs2 = mount();
    assert_eq!(fs2.key_for("/docs/a.txt"), "docs/a.txt");
    assert_eq!(list_prefix(&fs2.settings.prefix, "/docs"), "docs/");
    assert_eq!(list_prefix(&fs2.settings.prefix, "/"), "");
}

#[test]
fn read_only_rejects_all_mutations() {
    let mut c = config();
    c.read_only = true;
    let mut fs = ObjectFs::connect(c, 0);
    assert!(fs.ensure_writable().is_err());
    assert!(fs.write("/a", 1).is_err());
    assert!(fs.mkdir("/d").is_err());
    assert!(fs.delete("/a").is_err());
    assert!(fs.delete_dir_recursive("/d").is_err());
    assert!(fs.rename("/a", "/b").is_err());
    assert_eq!(fs.write_from_file("/a", 1).unwrap_err(), FsError::ReadOnly);
    assert!(matches!(fs.begin_streaming_upload("/a"), Err(FsError::ReadOnly)));
    assert!(fs.read_only());
    assert_eq!(fs.metrics().writes, 3, "refused writes are counted");
}

#[test]
fn read_fetch_len_prefetches_only_on_sequential_reads() {
    assert_eq!(read_fetch_len(4096, 8 * 1024, false), 4096);
    assert_eq!(read_fetch_len(4096, 8 * 1024, true), 8 * 1024);
    assert_eq!(read_fetch_len(8 * 1024, 8 * 1024, true), 8 * 1024);
    assert_eq!(read_fetch_len(4096, 0, true), 4096);
}

#[test]
fn read_cache_hit_and_invalidation() {
    let mut caches = FsCaches::new();
    let data: Vec<u8> = (0..1024u32).map(|v| v as u8).collect();
    caches.reads.insert("/a", 0, data, 1, 64 * 1024 * 1024);
    assert_eq!(caches.reads.hit("/a", 10, 4, 2), Some(vec![10, 11, 12, 13]));
    assert_eq!(caches.reads.hit("/a", 2048, 4, 2), None);
    caches.invalidate_read_cache("/a");
    assert_eq!(caches.reads.hit("/a", 10, 4, 2), None);
}

#[test]
fn the_read_cache_drops_what_was_used_longest_ago() {
    let mut caches = FsCaches::new();
    caches.reads.insert("/a", 0, vec![1; 40], 1, 100);
    caches.reads.insert("/b", 0, vec![2; 40], 2, 100);
    assert!(caches.reads.hit("/a", 0, 1, 3).is_some());
    caches.reads.insert("/c", 0, vec![3; 40], 4, 100);
    assert_eq!(caches.reads.bytes, 80);
    assert!(caches.reads.hit("/a", 0, 1, 5).is_some());
    assert!(caches.reads.hit("/b", 0, 1, 5).is_none());
    caches.reads.insert("/huge", 0, vec![0; 101], 6, 100);
    assert!(caches.reads.hit("/huge", 0, 1, 7).is_none());
    assert_eq!(caches.reads.bytes, 80);
}

#[test]
fn stat_returns_cached_entry_without_s3() {
    let mut fs = mount();
    fs.finish_stat("/a.txt", &Some(file("a.txt", 5)), 1_000);
    let got = fs.stat("/a.txt", 1_500).expect("cached stat");
    assert_eq!(got, Some(file("a.txt", 5)));
    assert_eq!(fs.metrics().stat_positive_cache_hits, 1);
    assert_eq!(fs.metrics().stat_cache_hits, 1);
}

#[test]
fn stat_misses_cache_and_caches_result() {
    let mut fs = mount();
    fs.finish_stat("/a.txt", &Some(file("a.txt", 5)), 0);
    assert!(fs.stat("/a.txt", 3_600_000).is_none(), "an expired entry is not returned");
    assert!(fs.stat("/a.txt", 3_000).is_none(), "an entry expires at the end of its time");
    assert!(fs.stat("/a.txt", 2_999).is_some());
}

#[test]
fn missing_paths_are_cached_for_a_time() {
    let mut fs = mount();
    assert!(fs.stat("/nope", 0).is_none());
    fs.finish_stat("/nope", &None, 0);
    assert_eq!(fs.stat("/nope", 4_999), Some(None));
    assert_eq!(fs.metrics().stat_negative_cache_hits, 1);
    assert!(fs.stat("/nope", 5_000).is_none());
}

#[test]
fn stat_cache_invalidate_removes_entry() {
    let mut fs = mount();
    fs.finish_stat("/a.txt", &Some(file("a.txt", 5)), 0);
    fs.caches.invalidate_stat("/a.txt");
    assert!(!fs.caches.stats.contains_key("/a.txt"));
    fs.caches.invalidate_stat("/never-cached"); // must not panic
}

#[test]
fn stat_cache_evicts_all_when_over_bound() {
    let mut fs = mount();
    let entry = file("f", 1);
    for i in 0..MAX_STAT_ENTRIES {
        fs.finish_stat(&format!("/f{i}"), &Some(entry.clone()), i as u64);
    }
    assert_eq!(fs.caches.stats.len(), MAX_STAT_ENTRIES);
    fs.finish_stat("/overflow", &Some(entry.clone()), MAX_STAT_ENTRIES as u64);
    assert_eq!(fs.caches.stats.len(), MAX_STAT_ENTRIES);
    assert!(!fs.caches.stats.contains_key("/f0"));
    assert!(fs.caches.stats.contains_key("/overflow"));
}

#[test]
fn timed_maps_replace_without_dropping() {
    let mut m: TimedMap<u8> = TimedMap::new();
    m.insert_bounded("a", 1, 10, 2);
    m.insert_bounded("b", 2, 11, 2);
    m.insert_bounded("a", 3, 12, 2);
    assert_eq!(m.len(), 2);
    assert_eq!(m.get_fresh("a", 13, 5), Some(&3));
    m.insert_bounded("c", 4, 13, 2);
    assert!(!m.contains_key("b"));
    m.set("d", 5, 14);
    assert_eq!(m.len(), 3);
    m.clear();
    assert_eq!(m.len(), 0);
}

#[test]
fn trashed_paths_are_dropped_from_the_caches() {
    let mut c = FsCaches::new();
    for p in ["/docs", "/docs/", "/docs/a.txt", "/docsx", "/other"] {
        c.stats.insert_bounded(p, file("f", 1), 0, 100);
        c.negative.insert_bounded(p, (), 0, 100);
    }
    c.invalidate_trash_cached("/docs", true);
    assert!(!c.stats.contains_key("/docs"));
    assert!(!c.stats.contains_key("/docs/"));
    assert!(!c.stats.contains_key("/docs/a.txt"));
    assert!(c.stats.contains_key("/docsx"));
    assert!(!c.negative.contains_key("/docs/a.txt"));
    c.invalidate_trash_cached("/other", false);
    assert!(!c.stats.contains_key("/other"));
    c.clear_stats();
    assert_eq!(c.stats.len(), 0);
}

fn object(key: &str, size: i64) -> ObjectInfo {
    ObjectInfo { key: key.to_string(), size: Some(size), modified_secs: Some(7) }
}

fn listed(prefix: &str, skip: bool, commons: &[&str], objects: Vec<ObjectInfo>) -> Vec<(String, bool, u64)> {
    let mut out = Vec::new();
    let commons: Vec<String> = commons.iter().map(|s| s.to_string()).collect();
    list_page(prefix, skip, &commons, &objects, &mut out);
    out.into_iter().map(|e| (e.name, e.is_dir, e.size)).collect()
}

#[test]
fn listings_leave_out_markers_and_what_lies_deeper() {
    let got = listed("d/", false, &["d/sub/", "d/"], vec![object("d/", 0), object("d/a.txt", 3), object("d/x/", 0)]);
    assert_eq!(got, vec![("sub".to_string(), true, 0), ("a.txt".to_string(), false, 3)]);
}

#[test]
fn a_negative_size_is_shown_as_zero() {
    let got = listed("", false, &[], vec![object("old_$folder$", 0), object("a", -1)]);
    assert_eq!(got, vec![("old_$folder$".to_string(), false, 0), ("a".to_string(), false, 0)]);
}

#[test]
fn listings_go_on_while_there_is_a_token() {
    assert_eq!(next_page(Some(true), Some("t".into())).as_deref(), Some("t"));
    assert_eq!(next_page(Some(true), None), None);
    assert_eq!(next_page(Some(false), Some("t".into())), None);
    assert_eq!(next_page(None, Some("t".into())), None);
    assert_eq!(next_page_token(Some(true), Some("t".into())), Ok(Some("t".to_string())));
    assert_eq!(next_page_token(Some(true), None), Err(PageLost {}), "the rest must not be passed over");
    assert_eq!(next_page_token(Some(false), Some("t".into())), Ok(None));
    assert_eq!(next_page_token(None, None), Ok(None));
}

#[test]
fn a_lookup_asks_for_object_marker_and_children() {
    let mut fs = mount();
    let first = fs.begin_lookup("/docs");
    assert!(matches!(&first, StatState::Object { key } if key == "docs"));
    let second = stat_next("", "/docs", first, StatReply::Missing);
    assert!(matches!(&second, StatState::Marker { key } if key == "docs/"));
    let third = stat_next("", "/docs", second, StatReply::Missing);
    assert!(matches!(&third, StatState::Children { prefix } if prefix == "docs/"));
    let last = stat_next("", "/docs", third, StatReply::Found { size: None, modified_secs: None });
    match last {
        StatState::Done { result: Some(e) } => {
            assert_eq!((e.name.as_str(), e.is_dir, e.size), ("docs", true, 0));
        }
        other => panic!("{other:?}"),
    }
    assert_eq!(fs.metrics().s3_stat_heads, 1);
}

#[test]
fn stat_tells_files_from_directories() {
    let found = StatReply::Found { size: Some(9), modified_secs: Some(3) };
    match stat_run("p/", "/a", found, StatReply::Missing, StatReply::Missing) {
        StatState::Done { result: Some(e) } => assert_eq!((e.name.as_str(), e.is_dir, e.size, e.mtime_secs), ("a", false, 9, 3)),
        other => panic!("{other:?}"),
    }
    match stat_run("p/", "/a", StatReply::Missing, found, StatReply::Missing) {
        StatState::Done { result: Some(e) } => assert!(e.is_dir),
        other => panic!("{other:?}"),
    }
    assert!(matches!(stat_run("p/", "/a", StatReply::Error, found, found), StatState::Failed));
    match stat_run("p/", "/", StatReply::Error, StatReply::Error, StatReply::Error) {
        StatState::Done { result: Some(e) } => assert!(e.is_dir && e.name.is_empty()),
        other => panic!("{other:?}"),
    }
}

#[test]
fn ranges_are_asked_for_by_first_and_last_byte() {
    assert_eq!(range_header(0, usize::MAX), "bytes=0-");
    assert_eq!(range_header(0, 1), "bytes=0-0");
    assert_eq!(range_header(10, 5), "bytes=10-14");
    assert_eq!(range_header(u64::MAX, 5), "bytes=18446744073709551615-18446744073709551614");
    assert!(is_s3_not_found(404) && !is_s3_not_found(403));
    assert!(is_s3_invalid_range(416, ""));
    assert!(is_s3_invalid_range(400, "<Code>InvalidRange</Code>"));
    assert!(!is_s3_invalid_range(400, "InvalidArgument"));
}

#[test]
fn failed_gets_are_counted() {
    let mut fs = mount();
    fs.begin_get(0, 10);
    let r = fs.finish_get(GetReply::Error { status: 500, body: String::new() });
    assert_eq!(r.unwrap_err(), FsError::Store);
    let m = fs.metrics();
    assert_eq!((m.s3_gets, m.s3_errors, m.s3_get_errors), (1, 1, 1));
    let r = fs.finish_get(GetReply::Error { status: 416, body: String::new() });
    assert_eq!(r.unwrap(), Vec::<u8>::new());
    assert_eq!(fs.metrics().s3_errors, 1);
}

#[test]
fn every_failure_has_its_counter() {
    let mut fs = mount();
    for f in [Failure::Get, Failure::List, Failure::Put, Failure::Delete, Failure::Multipart] {
        fs.note_failure(f);
    }
    fs.note_throttled();
    let m = fs.metrics();
    assert_eq!(m.s3_errors, 5);
    assert_eq!(
        (m.s3_get_errors, m.s3_list_errors, m.s3_put_errors, m.s3_delete_errors, m.s3_multipart_errors),
        (1, 1, 1, 1, 1)
    );
    assert_eq!(m.list_throttled, 1);
}

fn fetch(content: &[u8], offset: u64, len: usize) -> Vec<u8> {
    let from = (offset as usize).min(content.len());
    let to = from.saturating_add(len).min(content.len());
    content[from..to].to_vec()
}

fn read(fs: &mut ObjectFs, content: &[u8], offset: u64, len: usize, now: u64) -> Vec<u8> {
    match fs.read_range("/f", offset, len, now) {
        ReadStep::Done { data } => data,
        ReadStep::Fetch { key, len: want, .. } => {
            assert_eq!(key, "f");
            let data = fetch(content, offset, want);
            fs.finish_read("/f", offset, len, want, data, now)
        }
    }
}

#[test]
fn reads_give_the_bytes_of_the_object_cached_or_not() {
    let mut c = config();
    c.read_ahead_bytes = Some(64);
    let mut fs = ObjectFs::connect(c, 0);
    let content: Vec<u8> = (0..200u32).map(|i| i as u8).collect();
    assert_eq!(read(&mut fs, &content, 0, 10, 1), content[0..10]);
    assert_eq!(read(&mut fs, &content, 10, 10, 2), content[10..20]);
    assert_eq!(fs.metrics().read_cache_hits, 0);
    assert_eq!(read(&mut fs, &content, 20, 10, 3), content[20..30]);
    assert_eq!(fs.metrics().read_cache_hits, 1, "the window is served from memory");
    assert_eq!(read(&mut fs, &content, 195, 10, 4), content[195..200]);
    assert_eq!(read(&mut fs, &content, 500, 10, 5), Vec::<u8>::new());
    assert_eq!(read(&mut fs, &content, 0, 0, 6), Vec::<u8>::new());
    assert_eq!(fs.metrics().reads, 6);
}

#[test]
fn operations_are_counted() {
    let mut fs = mount();
    assert!(matches!(fs.read_range("/f", 0, 4, 0), ReadStep::Fetch { len: 4, sequential: false, .. }));
    fs.begin_get(0, 4);
    fs.finish_get(GetReply::Body { data: vec![1, 2, 3] }).unwrap();
    let plan = fs.write("/f", 3).unwrap();
    assert_eq!((plan.key.as_str(), plan.units, plan.multipart), ("f", 0, false));
    fs.list("/");
    fs.note_block(true);
    fs.note_block(false);
    let m = fs.metrics();
    assert_eq!((m.reads, m.writes, m.s3_gets, m.s3_puts, m.s3_lists), (1, 1, 1, 1, 1));
    assert_eq!((m.download_bytes_total, m.upload_bytes_total), (3, 3));
    assert_eq!((m.disk_cache_hits, m.disk_cache_misses), (1, 1));
    assert_eq!((m.read_cache_hits, m.read_cache_misses), (0, 0));
}

#[test]
fn writes_forget_what_was_cached() {
    let mut fs = mount();
    fs.finish_stat("/f", &Some(file("f", 5)), 0);
    fs.finish_stat("/g", &Some(file("g", 5)), 0);
    fs.write("/f", 16 * 1024 * 1024).unwrap();
    assert!(fs.stat("/f", 1).is_none());
    assert!(fs.stat("/g", 1).is_some());
    let plan = fs.write_from_file("/f", 16 * 1024 * 1024 + 1).unwrap();
    assert!(plan.multipart);
}

#[test]
fn directories_are_made_and_deleted_by_their_markers() {
    let mut c = config();
    c.prefix = "p".into();
    let mut fs = ObjectFs::connect(c, 0);
    assert_eq!(fs.mkdir("/d").unwrap().key, "p/d/");
    assert_eq!(fs.mkdir("/d/").unwrap().key, "p/d/");
    let plan = fs.delete_dir_recursive("/d").unwrap();
    assert_eq!((plan.prefix.as_str(), plan.marker.as_str()), ("p/d/", "p/d/"));
    assert_eq!(fs.delete("/d/f").unwrap(), "p/d/f");
    assert_eq!(with_slash("/a"), "/a/");
}

fn dir(name: &str) -> Option<DirEntry> {
    Some(DirEntry { name: name.to_string(), is_dir: true, size: 0, mtime_secs: 0 })
}

#[test]
fn renames_of_directories_can_be_disabled() {
    let mut c = config();
    c.allow_rename_dir = false;
    let fs = ObjectFs::connect(c, 0);
    assert_eq!(fs.rename_kind(&dir("d"), false, true), Err(FsError::RenameDisabled));
    assert_eq!(fs.rename_kind(&Some(file("f", 1)), false, true), Ok(RenameKind::File));
    assert_eq!(fs.rename_kind(&None, false, true), Ok(RenameKind::File));
}

#[test]
fn trees_are_counted_up_to_the_limit() {
    let mut c = config();
    c.rename_dir_limit = Some(2);
    let fs = ObjectFs::connect(c, 0);
    assert_eq!(fs.rename_kind(&dir("d"), false, true), Ok(RenameKind::Dir { limit: Some(2) }));
    assert_eq!(count_tree_entries(0, 2, 2), Ok(2));
    assert_eq!(count_tree_entries(2, 1, 2), Err(FsError::RenameLimit { count: 3, limit: 2 }));
}

#[test]
fn rename_respects_what_is_at_the_new_place() {
    let mut fs = mount();
    assert_eq!(fs.rename_kind(&dir("d"), true, false), Err(FsError::TargetExists));
    assert_eq!(fs.rename_kind(&dir("d"), true, true), Ok(RenameKind::Dir { limit: None }));
    let plan = fs.rename("/a", "/b").unwrap();
    assert_eq!((plan.old_key.as_str(), plan.new_key.as_str()), ("a", "b"));
    assert_eq!(copy_target("a", "b/", "a/x/y.txt"), "b/x/y.txt");
    assert_eq!(copy_target("a", "b", "a/"), "b/");
    assert_eq!(copy_source("bucket", "a/x"), "bucket/a/x");
}

#[test]
fn renaming_a_directory_copies_what_is_there() {
    let page = vec!["a/".to_string(), "a/x".to_string(), "a/d/y".to_string()];
    let copies = tree_copies("a", "b", &page);
    let pairs: Vec<(&str, &str)> = copies.iter().map(|c| (c.0.as_str(), c.1.as_str())).collect();
    assert_eq!(pairs, vec![("a/", "b/"), ("a/x", "b/x"), ("a/d/y", "b/d/y")]);
    let page = vec!["a/x".to_string()];
    let copies = tree_copies("a/", "b/", &page);
    assert_eq!(copies, vec![("a/x".to_string(), "b/x".to_string())], "no marker where there is none");
    assert!(tree_copies("a", "b", &vec![]).is_empty());
}

#[test]
fn checks_of_tags_hold_for_a_time() {
    let mut fs = mount();
    assert!(fs.etag_check_due("t.bin", 0));
    assert_eq!(fs.verify_disk_cache_etag("t.bin", None, Some("e1"), 0), EtagStep::Replace);
    assert!(!fs.etag_check_due("t.bin", 9_999));
    assert!(fs.etag_check_due("t.bin", 10_000));
    assert_eq!(fs.verify_disk_cache_etag("t.bin", Some("e1"), Some("e1"), 10_000), EtagStep::Current);
    assert!(!fs.etag_check_due("t.bin", 10_001), "a check that found no change counts too");
    assert_eq!(fs.metrics().s3_etag_heads, 4);
}

#[test]
fn changed_tags_replace_what_is_cached() {
    let mut fs = mount();
    assert_eq!(fs.verify_disk_cache_etag("e.bin", Some("old"), Some("changed"), 0), EtagStep::Replace);
    assert_eq!(fs.verify_disk_cache_etag("x.bin", Some("old"), None, 0), EtagStep::Unknown);
    assert_eq!(fs.verify_disk_cache_etag("x.bin", Some("old"), Some(""), 0), EtagStep::Unknown);
    assert!(fs.etag_check_due("x.bin", 1), "a check that could not be made does not count");
}

#[test]
fn blocks_ahead_are_fetched_once() {
    let mut c = config();
    c.disk_cache_prefetch_blocks = 2;
    let mut fs = ObjectFs::connect(c, 0);
    assert_eq!(fs.prefetch_plan(true, false, 1), vec![2, 3]);
    assert_eq!(fs.prefetch_plan(false, false, 1), Vec::<u64>::new());
    assert_eq!(fs.prefetch_plan(true, true, 1), Vec::<u64>::new());
    assert_eq!(fs.prefetch_plan(true, false, u64::MAX - 1), vec![u64::MAX]);
    assert!(fs.begin_prefetch("seq.bin", 2));
    assert!(!fs.begin_prefetch("seq.bin", 2), "a block is fetched once at a time");
    assert_eq!(fs.metrics().prefetch_inflight, 1);
    fs.end_prefetch("seq.bin", 2, false);
    assert!(fs.begin_prefetch("seq.bin", 2));
    fs.end_prefetch("seq.bin", 2, true);
    let m = fs.metrics();
    assert_eq!((m.prefetch_started, m.prefetch_skipped, m.prefetch_failed, m.prefetch_inflight), (2, 1, 1, 0));
}

#[test]
fn a_mount_shows_its_settings() {
    let mut c = config();
    c.allow_other = true;
    c.uid = 7;
    c.max_dirty_bytes = Some(1 << 20);
    c.readwrite_timeout_secs = Some(5);
    let fs = ObjectFs::connect(c, 0);
    assert!(fs.allow_other() && fs.ignore_fsync());
    assert_eq!(fs.mount_attr().uid, 7);
    assert_eq!(fs.dirty_budget().unwrap().max_units(), 1);
    assert_eq!(fs.operation_timeout(), 5);
    assert_eq!(mount().operation_timeout(), 600);
    assert!(mount().dirty_budget().is_none());
}
