use ossfs::budget::{BudgetError, DirtyBudget};
use ossfs::content::WRITE_SPOOL_THRESHOLD;
use ossfs::entry::DirEntry;
use ossfs::load::{Load, LoadAction, LoadEvent};
use ossfs::paths::win_path_to_posix;
use ossfs::refresh::{
    RefreshState, FILE_ACTION_ADDED, FILE_ACTION_MODIFIED, FILE_ACTION_REMOVED, FILE_NOTIFY_CHANGE_CONTENT,
    FILE_NOTIFY_CHANGE_DIR_NAME, FILE_NOTIFY_CHANGE_FILE_NAME, MAX_TRACKED_DIRS,
};
use ossfs::upload::StreamingUpload;
use ossfs::win_file::{CleanupStep, FileError, OssFileContext, SaveStep, SizeStep, WinRead, WinWrite};
use ossfs::win_mount::{
    build_volume_params, create_file, create_kind, directory_dots, directory_start, file_info_from, open_file,
    security_attributes, sized_info, status_of, wildcard_match, CreateKind, OpenError, OssMountContext,
};

fn entry(name: &str) -> DirEntry {
    DirEntry { name: name.to_string(), is_dir: false, size: 0, mtime_secs: 0 }
}

fn entries(prefix: &str, n: usize) -> Vec<DirEntry> {
    (0..n).map(|i| entry(&format!("{prefix}{i}"))).collect()
}

#[test]
fn snapshot_budget_evicts_largest_non_root() {
    let mut state = RefreshState::new();
    state.snapshot_budget = 100;
    state.store_snapshot("/", &vec![entry("root.txt")]);

    let big: Vec<DirEntry> = (0..60).map(|i| entry(&format!("f{i}"))).collect();
    let mid: Vec<DirEntry> = (0..40).map(|i| entry(&format!("g{i}"))).collect();
    let small: Vec<DirEntry> = (0..30).map(|i| entry(&format!("h{i}"))).collect();
    state.store_snapshot("/big", &big);
    state.store_snapshot("/mid", &mid);
    state.store_snapshot("/small", &small);

    // 60 + 40 + 30 = 130 > 100 budget -> the largest (60) is evicted.
    assert!(state.snapshot_entries() <= 100, "budget exceeded");
    assert!(!state.snapshots.contains_key("/big"));
    assert!(!state.seeded.contains_key("/big"));
    // Root baseline is always kept.
    assert!(state.snapshots.contains_key("/"));
    assert!(state.snapshots.contains_key("/mid"));
    assert!(state.snapshots.contains_key("/small"));
}

#[test]
fn snapshots_stay_within_the_budget() {
    let listing = |n: usize| (0..n).map(|i| entry(&format!("f{i}"))).collect::<Vec<_>>();
    let mut state = RefreshState::new();
    state.snapshot_budget = 5;
    state.store_snapshot("/", &listing(4));
    state.store_snapshot("/a", &listing(1));
    assert_eq!(state.snapshot_entries(), 5);
    state.store_snapshot("/b", &listing(2));
    assert_eq!(state.snapshot_entries(), 5, "only the largest had to make room");
    assert!(state.snapshots.contains_key("/") && state.snapshots.contains_key("/a"));
    assert!(!state.snapshots.contains_key("/b") && !state.seeded.contains_key("/b"));
    state.store_snapshot("/a", &listing(6));
    assert_eq!(state.snapshot_entries(), 4);
    assert!(!state.snapshots.contains_key("/a") && !state.seeded.contains_key("/a"));
}

#[test]
fn snapshot_skips_directory_larger_than_budget() {
    let mut state = RefreshState::new();
    state.snapshot_budget = 10;
    let huge: Vec<DirEntry> = (0..11).map(|i| entry(&format!("f{i}"))).collect();
    state.store_snapshot("/huge", &huge);
    assert!(!state.snapshots.contains_key("/huge"));
    assert!(!state.seeded.contains_key("/huge"));
}

#[test]
fn refresh_growth_evicts_largest_when_total_exceeds_budget() {
    let mut state = RefreshState::new();
    state.snapshot_budget = 100;
    let a60: Vec<DirEntry> = (0..60).map(|i| entry(&format!("a{i}"))).collect();
    let b40: Vec<DirEntry> = (0..40).map(|i| entry(&format!("b{i}"))).collect();
    state.store_snapshot("/a", &a60);
    state.store_snapshot("/b", &b40);
    assert_eq!(state.snapshot_entries(), 100);
    // /b grows to 50 -> total 110 > 100 -> the largest non-root (/a, 60) goes.
    let b50: Vec<DirEntry> = (0..50).map(|i| entry(&format!("b{i}"))).collect();
    state.store_snapshot("/b", &b50);
    assert!(state.snapshot_entries() <= 100, "budget exceeded after growth");
    assert!(!state.snapshots.contains_key("/a"));
    assert!(state.snapshots.contains_key("/b"));
}

#[test]
fn refresh_growth_past_single_dir_cap_drops_snapshot() {
    let mut state = RefreshState::new();
    state.snapshot_budget = 20;
    let small: Vec<DirEntry> = (0..5).map(|i| entry(&format!("a{i}"))).collect();
    state.store_snapshot("/d", &small);
    assert!(state.snapshots.contains_key("/d"));
    // The directory grows past the whole budget: the baseline is dropped.
    let big: Vec<DirEntry> = (0..30).map(|i| entry(&format!("b{i}"))).collect();
    state.store_snapshot("/d", &big);
    assert!(!state.snapshots.contains_key("/d"));
    assert!(!state.seeded.contains_key("/d"));
    assert!(state.snapshot_entries() <= 20);
}

#[test]
fn record_browsed_keeps_dirs_bounded() {
    let mut state = RefreshState::new();
    for i in 0..MAX_TRACKED_DIRS {
        let dir = format!("/d{i}");
        state.record_browsed(&dir);
        state.store_snapshot(&dir, &vec![entry(&format!("f{i}"))]);
    }
    assert!(state.dirs.len() <= MAX_TRACKED_DIRS);
    // The oldest are dropped from the list and from what is remembered.
    assert!(!state.dirs.contains(&"/d0".to_string()));
    assert!(!state.snapshots.contains_key("/d0"));
    assert!(state.dirs.contains(&"/".to_string()));
}

#[test]
fn the_root_is_never_dropped() {
    let mut state = RefreshState::new();
    state.record_browsed("/a");
    state.record_browsed("/");
    assert_eq!(state.dirs, vec!["/a".to_string(), "/".to_string()]);
    for i in 0..3 * MAX_TRACKED_DIRS {
        state.record_browsed(&format!("/d{i}"));
    }
    assert_eq!(state.dirs.len(), MAX_TRACKED_DIRS);
    assert!(state.dirs.contains(&"/".to_string()));
    assert!(!state.dirs.contains(&"/a".to_string()));
}

#[test]
fn changes_are_told_once() {
    let mut state = RefreshState::new();
    let mut listing = entries("f", 2);
    listing.push(DirEntry { name: "sub".into(), is_dir: true, size: 0, mtime_secs: 0 });
    assert!(state.refresh_dir("/d", &listing).is_empty(), "the first listing is the baseline");
    assert!(state.refresh_dir("/d", &listing).is_empty());
    listing[0].size = 9;
    listing.remove(2);
    listing.push(entry("new"));
    let changes: Vec<(String, u32, u32)> =
        state.refresh_dir("/d", &listing).into_iter().map(|c| (c.path, c.action, c.filter)).collect();
    assert_eq!(
        changes,
        vec![
            ("/d/f0".to_string(), FILE_ACTION_MODIFIED, FILE_NOTIFY_CHANGE_CONTENT),
            ("/d/new".to_string(), FILE_ACTION_ADDED, FILE_NOTIFY_CHANGE_FILE_NAME),
            ("/d/sub".to_string(), FILE_ACTION_REMOVED, FILE_NOTIFY_CHANGE_DIR_NAME),
        ]
    );
    assert!(state.refresh_dir("/d", &listing).is_empty());
    assert!(state.refresh_dir("/empty", &vec![]).is_empty());
    assert_eq!(state.refresh_dir("/empty", &entries("x", 1)).len(), 1, "an empty baseline is one");
}

fn mount(max_dirty: usize) -> OssMountContext {
    OssMountContext {
        refresh: RefreshState::new(),
        dirty_budget: DirtyBudget::new(max_dirty),
        read_only: false,
        operation_timeout: 1,
    }
}

fn test_file_with(path: &str, loaded: bool) -> OssFileContext {
    OssFileContext::new(path, false, true, loaded)
}

fn test_file(path: &str) -> OssFileContext {
    test_file_with(path, true)
}

fn big_data() -> Vec<u8> {
    (0..(WRITE_SPOOL_THRESHOLD + 1024 * 1024)).map(|i| (i % 251) as u8).collect()
}

/// Writes to a file, and passes large content on to an upload and a spool.
fn write(file: &mut OssFileContext, offset: u64, to_eof: bool, data: &[u8], spool: &mut Vec<u8>) -> Result<u64, FileError> {
    match file.write(offset, to_eof, data) {
        WinWrite::Nothing => Ok(0),
        WinWrite::Streamed { size, .. } => {
            spool.extend_from_slice(data);
            file.spool_appended(data.len() as u64);
            Ok(size)
        }
        WinWrite::Load { .. } => panic!("the content is to be fetched first"),
        WinWrite::StartStream { anchor } => {
            let mut upload = StreamingUpload::new(true, false);
            let mut splice = file.begin_splice(anchor, data);
            spool.clear();
            while let Some(piece) = file.next_piece(&mut splice, data) {
                upload.write(&piece);
                spool.extend_from_slice(&piece);
            }
            Ok(file.stream_started(file.path[1..].to_string(), upload, anchor, data.len()))
        }
        WinWrite::Buffered { size } => Ok(size),
        WinWrite::Refused { error } => Err(error),
    }
}

#[test]
fn flush_then_cleanup_uploads_small_buffer_exactly_once() {
    let mut file = test_file("/f");
    let data = b"hello ossfs".to_vec();
    assert_eq!(write(&mut file, 0, false, &data, &mut Vec::new()), Ok(data.len() as u64));
    assert!(file.dirty);
    assert!(matches!(file.save("f"), SaveStep::Put));
    assert_eq!(file.write_buf.as_deref(), Some(&data[..]));
    file.saved();
    assert!(!file.dirty);
    assert_eq!(file.cleanup(false), CleanupStep::Nothing);
    assert!(matches!(file.save("f"), SaveStep::Nothing));
}

#[test]
fn reserve_dirty_fails_fast_when_budget_exhausted() {
    let mut ctx = mount(1 << 20);
    let units = ctx.dirty_budget.as_ref().unwrap().max_units();
    let hog = ctx.dirty_budget.as_mut().unwrap().try_acquire_units(units).unwrap();
    let mut file = test_file("/f");
    assert!(matches!(ctx.reserve_dirty(&mut file, 1 << 20), Err(BudgetError::Busy)));
    assert!(matches!(ctx.write(&mut file, 0, false, b"x"), Err(BudgetError::Busy)));
    assert!(!file.dirty && file.held.units == 0);
    ctx.dirty_budget.as_mut().unwrap().release(hog);
    let (step, _permit) = ctx.write(&mut file, 0, false, b"x").unwrap();
    assert!(matches!(step, WinWrite::Buffered { size: 1 }));
    assert_eq!(file.held.units, 1);
    assert!(matches!(ctx.reserve_dirty(&mut file, 2 << 20), Err(BudgetError::TooLarge)));
    let budget = ctx.dirty_budget.as_ref().unwrap();
    assert_eq!((budget.max_units(), budget.available_units()), (units, units - 1));
    assert!(mount(0).reserve_dirty(&mut file, usize::MAX).is_ok());
}

#[test]
fn flush_then_cleanup_after_streaming_does_not_put_empty_object() {
    let mut file = test_file("/big");
    let big = vec![0xABu8; WRITE_SPOOL_THRESHOLD + 1024 * 1024];
    assert_eq!(write(&mut file, 0, false, &big, &mut Vec::new()), Ok(big.len() as u64));
    match file.save("big") {
        SaveStep::Finish { last, crc } => {
            assert_eq!(last.unwrap().number, 2);
            assert_eq!(crc, Some(ossfs::checksum::crc64ecma(&big)));
        }
        other => panic!("{other:?}"),
    }
    file.stream_saved();
    assert!(!file.dirty && !file.spooled && !file.loaded);
    assert_eq!(file.cleanup(false), CleanupStep::Nothing);
    assert!(matches!(file.save("big"), SaveStep::Nothing));
}

#[test]
fn overwrite_lazy_load_rejects_oversized_object_before_download() {
    let mut ctx = mount(1 << 20);
    let mut file = test_file_with("/f", false);
    let (step, _) = ctx.write(&mut file, 0, false, b"x").unwrap();
    assert!(matches!(step, WinWrite::Load { spool: false }));
    let mut load = Load::new(true, true, 0, file.logical_size as usize);
    assert_eq!(load.step(LoadEvent::Begin), LoadAction::AskSize);
    let bytes = 10 * 1024 * 1024;
    assert_eq!(load.step(LoadEvent::Size { bytes }), LoadAction::Reserve { bytes });
    assert!(matches!(ctx.reserve_dirty(&mut file, bytes), Err(BudgetError::TooLarge)));
    assert_eq!(load.step(LoadEvent::Denied), LoadAction::Fail);
}

#[test]
fn rename_retargets_handle_path() {
    let mut file = test_file("/a");
    file.retarget(&win_path_to_posix("\\b"));
    assert_eq!(file.path, "/b");
}

#[test]
fn an_upload_under_way_does_not_bring_back_a_renamed_object() {
    let mut file = test_file("/a");
    let big = big_data();
    let mut spool = Vec::new();
    write(&mut file, 0, false, &big, &mut spool).unwrap();
    file.retarget("/b");
    assert!(matches!(file.save("b"), SaveStep::Retarget { spool: true }));
    assert_eq!(spool, big, "the spool file holds everything");
    file.stream_saved();
    assert!(!file.dirty);
}

#[test]
fn streaming_write_out_of_order_rejected() {
    let mut file = test_file("/big");
    let big = big_data();
    let mut spool = Vec::new();
    assert_eq!(write(&mut file, 0, false, &big, &mut spool), Ok(big.len() as u64));
    assert_eq!(
        write(&mut file, 0, false, b"xx", &mut spool),
        Err(FileError::OutOfOrder { at: 0, size: big.len() as u64 })
    );
    assert_eq!(write(&mut file, 5, true, b"xx", &mut spool), Ok(big.len() as u64 + 2));
    assert_eq!(write(&mut file, big.len() as u64 + 2, false, b"y", &mut spool), Ok(big.len() as u64 + 3));
    assert_eq!(file.spool_size, spool.len() as u64);
}

#[test]
fn truncate_zero_aborts_inflight_stream() {
    let mut file = test_file("/big");
    write(&mut file, 0, false, &big_data(), &mut Vec::new()).unwrap();
    assert_eq!(
        file.set_file_size(0),
        Ok(SizeStep { abort: true, remove_spool: true, resize_spool: false })
    );
    assert!(matches!(file.save("big"), SaveStep::Put));
    assert_eq!(file.write_buf.as_deref(), Some(&[][..]));
}

#[test]
fn set_file_size_expand_on_unloaded_handle_preserves_content() {
    let mut file = test_file_with("/f", false);
    assert_eq!(
        file.set_file_size(10),
        Ok(SizeStep { abort: false, remove_spool: false, resize_spool: false })
    );
    assert!(matches!(file.save("f"), SaveStep::Resize { load: true, size: 10 }));
    let mut expected = b"hello".to_vec();
    expected.resize(10, 0);
    assert_eq!(file.sized_content(Some(b"hello".to_vec())), expected);
}

#[test]
fn a_write_after_the_size_was_set_is_kept() {
    let big: Vec<u8> = (0..WRITE_SPOOL_THRESHOLD + 10).map(|i| (i % 241) as u8).collect();
    let mut file = test_file("/f");
    let mut spool = Vec::new();
    write(&mut file, 0, false, &big, &mut spool).unwrap();
    assert_eq!(
        file.set_file_size(100),
        Ok(SizeStep { abort: true, remove_spool: false, resize_spool: true })
    );
    spool.truncate(100);
    assert!(matches!(file.read(0, 10), WinRead::Spool));
    assert!(matches!(file.write(10, false, b"xy"), WinWrite::Load { spool: true }));
    file.seed(spool).unwrap();
    assert!(!file.spooled);
    assert!(matches!(file.write(10, false, b"xy"), WinWrite::Buffered { size: 12 }));
    let mut expected = big[..100].to_vec();
    expected[10..12].copy_from_slice(b"xy");
    match file.read(0, 1000) {
        WinRead::Memory { data } => assert_eq!(data, expected),
        other => panic!("{other:?}"),
    }
    assert!(matches!(file.save("f"), SaveStep::Put));
    assert_eq!(file.write_buf.as_deref(), Some(&expected[..]));
}

#[test]
fn streaming_handle_reads_back_spooled_bytes() {
    let mut file = test_file("/big");
    let big = big_data();
    let mut spool = Vec::new();
    write(&mut file, 0, false, &big, &mut spool).unwrap();
    assert!(matches!(file.read(0, 4096), WinRead::Spool));
    assert_eq!(spool[..4096], big[..4096], "head read-back must match");
    assert_eq!(spool[1024..1024 + 4096], big[1024..1024 + 4096], "mid read-back must match");
    assert_eq!(file.size(), Some(big.len() as u64));
}

#[test]
fn set_file_size_zero_on_unloaded_handle_still_truncates() {
    let mut file = test_file_with("/f", false);
    file.set_file_size(0).unwrap();
    assert!(matches!(file.save("f"), SaveStep::Put));
    assert_eq!(file.write_buf.as_deref(), Some(&[][..]));
}

#[test]
fn partial_overwrite_preserves_tail() {
    let mut file = test_file_with("/f", false);
    assert!(matches!(file.write(0, false, b"XXXXX"), WinWrite::Load { spool: false }));
    file.seed(b"0123456789ABCDEFGHIJ".to_vec()).unwrap();
    write(&mut file, 0, false, b"XXXXX", &mut Vec::new()).unwrap();
    assert!(matches!(file.save("f"), SaveStep::Put));
    assert_eq!(file.write_buf.as_deref(), Some(&b"XXXXX56789ABCDEFGHIJ"[..]));
}

#[test]
fn set_file_size_beyond_threshold_fails_without_materializing() {
    let mut file = test_file_with("/f", false);
    file.set_file_size(WRITE_SPOOL_THRESHOLD as u64 + 1024).unwrap();
    match file.save("f") {
        SaveStep::Refused { error } => {
            assert_eq!(error, FileError::TooLong { size: WRITE_SPOOL_THRESHOLD as u64 + 1024 })
        }
        other => panic!("{other:?}"),
    }
}

#[test]
fn a_size_that_was_set_holds_when_the_content_is_fetched() {
    let mut file = test_file_with("/f", false);
    file.set_file_size(3).unwrap();
    file.seed(b"hello".to_vec()).unwrap();
    assert_eq!(file.write_buf.as_deref(), Some(&b"hel"[..]));
    let mut reader = OssFileContext::new("/f", false, false, false);
    assert_eq!(reader.seed(b"x".to_vec()), Err(FileError::AccessDenied));
    let mut dir = OssFileContext::new("/d", true, false, true);
    assert_eq!(dir.set_file_size(1), Err(FileError::IsDirectory));
    assert_eq!(dir.overwrite(), Err(FileError::IsDirectory));
}

#[test]
fn a_large_overwrite_keeps_what_is_around_it() {
    let mut file = test_file("/f");
    file.write_buf = Some(vec![1u8; 10]);
    file.logical_size = 10;
    let mut spool = Vec::new();
    let data = vec![2u8; WRITE_SPOOL_THRESHOLD];
    let size = write(&mut file, 20, false, &data, &mut spool).unwrap();
    assert_eq!(size, 20 + data.len() as u64);
    assert_eq!(spool[..10], [1u8; 10]);
    assert_eq!(spool[10..20], [0u8; 10]);
    assert_eq!(spool[20..], data[..]);
}

#[test]
fn failed_uploads_are_not_replaced_by_nothing() {
    let mut file = test_file("/f");
    write(&mut file, 0, false, &big_data(), &mut Vec::new()).unwrap();
    assert!(matches!(file.save("f"), SaveStep::Finish { .. }));
    file.save_failed();
    assert!(matches!(file.save("f"), SaveStep::Refused { error: FileError::StreamFailed }));
}

#[test]
fn letting_go_deletes_or_saves() {
    let mut file = test_file("/f");
    assert_eq!(file.cleanup(false), CleanupStep::Nothing);
    write(&mut file, 0, false, &big_data(), &mut Vec::new()).unwrap();
    assert_eq!(file.cleanup(false), CleanupStep::Save);
    file.set_delete(true);
    assert_eq!(file.cleanup(false), CleanupStep::Delete { is_dir: false, abort: true, remove_spool: true });
    assert_eq!(file.close(), SizeStep { abort: false, remove_spool: false, resize_spool: false });
    let mut file = test_file("/f");
    write(&mut file, 0, false, &big_data(), &mut Vec::new()).unwrap();
    file.set_file_size(5).unwrap();
    assert!(matches!(file.save("f"), SaveStep::FromSpool));
    file.spool_saved();
    assert!(!file.dirty && !file.spooled);
    let reader = OssFileContext::new("/f", false, false, false);
    assert!(matches!(reader.read(0, 1), WinRead::Object));
    assert!(matches!(reader.read(0, 0), WinRead::Nothing));
    assert_eq!(reader.size(), None);
}

#[test]
fn wildcards_match_names() {
    assert!(wildcard_match("*", ""));
    assert!(wildcard_match("*", "anything"));
    assert!(wildcard_match("a*.t?t", "abc.txt"));
    assert!(wildcard_match("a*.t?t", "a.txt"));
    assert!(!wildcard_match("a*.t?t", "b.txt"));
    assert!(!wildcard_match("?", ""));
    assert!(wildcard_match("plain", "plain"));
    assert!(!wildcard_match("plain", "plains"));
}

#[test]
fn files_are_opened_and_created() {
    let dir = DirEntry { name: "d".into(), is_dir: true, size: 0, mtime_secs: 0 };
    let open = |found: &Option<DirEntry>, options: u32, access: u32, ro: bool| open_file("/x", found, options, access, ro).err();
    assert_eq!(open(&None, 0, 0, false), Some(OpenError::NotFound));
    assert_eq!(open(&Some(entry("f")), 1, 0, false), Some(OpenError::FileIsADirectory));
    assert_eq!(open(&Some(dir.clone()), 0x40, 0, false), Some(OpenError::NotADirectory));
    assert_eq!(open(&Some(entry("f")), 0, 2, true), Some(OpenError::AccessDenied));
    let f = open_file("/x", &Some(entry("f")), 0, 0x4000_0000, false).unwrap();
    assert!(f.write_buf.is_some() && !f.loaded);
    assert!(open_file("/x", &Some(entry("f")), 0, 1, true).unwrap().write_buf.is_none());
    assert!(open_file("/x", &Some(dir.clone()), 1, 2, false).unwrap().write_buf.is_none());
    assert_eq!(create_kind(1, true), Err(OpenError::AccessDenied));
    assert_eq!(create_kind(1, false), Ok(CreateKind::Directory));
    assert_eq!(create_kind(0, false), Ok(CreateKind::File));
    let (f, size, make) = create_file("/x", CreateKind::File, &None);
    assert!(f.loaded && make && size == 0);
    let mut old = entry("f");
    old.size = 9;
    let (f, size, make) = create_file("/x", CreateKind::File, &Some(old));
    assert!(!f.loaded && !make && size == 9);
    let (f, _, make) = create_file("/x", CreateKind::Directory, &None);
    assert!(f.is_dir && f.write_buf.is_none() && !make);
    assert_eq!(status_of(OpenError::NotFound), 2);
    assert_eq!(status_of(OpenError::AccessDenied), 5);
    assert_eq!(status_of(OpenError::FileIsADirectory), 0xC000_00BA);
    assert_eq!(status_of(OpenError::NotADirectory), 0xC000_0103);
    assert_eq!(security_attributes(&None, false), Err(OpenError::NotFound));
    assert_eq!(security_attributes(&Some(dir), true), Ok(0x10));
    assert_eq!(security_attributes(&Some(entry("f")), true), Ok(0x21));
    assert_eq!(security_attributes(&Some(entry("f")), false), Ok(0x20));
}

#[test]
fn the_system_is_told_sizes_and_times() {
    let mut e = entry("f");
    e.size = 5;
    e.mtime_secs = 1;
    let info = file_info_from(&e, 77);
    assert_eq!((info.file_size, info.allocation_size, info.index_number, info.hard_links), (5, 5, 77, 1));
    assert_eq!((info.file_attributes, info.last_write_time), (0x20, 116_444_736_010_000_000));
    assert_eq!(sized_info(true, 3, 1).file_attributes, 0x10);
    let p = build_volume_params(true);
    assert!(p.read_only && p.case_sensitive_search && !p.persistent_acls);
    assert_eq!((p.sector_size, p.sectors_per_allocation_unit, p.file_info_timeout), (512, 8, 1000));
}

#[test]
fn listings_resume_behind_the_last_entry() {
    let list = entries("f", 3);
    assert_eq!(directory_start(&list, None), 0);
    assert_eq!(directory_start(&list, Some("f1")), 2);
    assert_eq!(directory_start(&list, Some("gone")), 0);
    assert_eq!(directory_dots("/", 0, None), (false, false));
    assert_eq!(directory_dots("/d", 1, None), (false, false));
    assert_eq!(directory_dots("/d", 0, None), (true, true));
    assert_eq!(directory_dots("/d", 0, Some("..")), (false, true));
}

#[test]
fn browsing_is_remembered() {
    let mut ctx = mount(0);
    ctx.record_browsed("/d", &entries("f", 2));
    assert_eq!(ctx.refresh.dirs, vec!["/".to_string(), "/d".to_string()]);
    assert_eq!(ctx.refresh.snapshot_entries(), 2);
    assert_eq!(test_file("/a").index(), ossfs::checksum::file_index("/a"));
}
