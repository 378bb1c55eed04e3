use ossfs::checksum::{inode_for_path, ROOT_INODE};
use ossfs::content::WRITE_SPOOL_THRESHOLD;
use ossfs::entry::{DirEntry, MountAttr};
use ossfs::fuse_file::{FlushStep, OpenFile, TruncateStep, WriteStep};
use ossfs::fuse_table::{create_plan, mknod_check, unlink_check, CreatePlan, FuseError, OssFs, MAX_TRACKED_DIRS};

fn table() -> OssFs {
    OssFs::new(MountAttr::default(), true, 1000, 100)
}

fn file(name: &str, size: u64) -> DirEntry {
    DirEntry { name: name.to_string(), is_dir: false, size, mtime_secs: 7 }
}

fn dir(name: &str) -> DirEntry {
    DirEntry { name: name.to_string(), is_dir: true, size: 0, mtime_secs: 0 }
}

fn write(f: &mut OpenFile, offset: u64, data: &[u8]) -> WriteStep {
    f.write(offset, data, true, false)
}

#[test]
fn paths_are_known_by_their_numbers() {
    let mut t = table();
    assert_eq!(t.path_of(ROOT_INODE).as_deref(), Some("/"));
    assert_eq!(t.path_of(99), None);
    let ino = t.register_inode("/a");
    assert_eq!(ino, inode_for_path("/a"));
    assert_eq!(t.path_of(ino).as_deref(), Some("/a"));
}

#[test]
fn attributes_follow_the_entry() {
    let mut t = table();
    let a = t.attr_of("/f", &file("f", 513));
    assert_eq!((a.size, a.blocks, a.nlink, a.perm, a.is_dir), (513, 2, 1, 0o644, false));
    assert_eq!((a.uid, a.gid, a.blksize, a.time_secs), (1000, 100, 4096, 7));
    let a = t.attr_of("/d", &dir("d"));
    assert_eq!((a.nlink, a.perm, a.is_dir, a.blocks), (2, 0o755, true, 0));
    let a = t.attr_of("/huge", &file("huge", u64::MAX));
    assert_eq!(a.blocks, u64::MAX / 512);
}

#[test]
fn an_open_file_shows_its_own_size() {
    let mut t = table();
    let mut f = OpenFile::create("/f", false);
    assert!(matches!(write(&mut f, 0, b"hello"), WriteStep::Buffered));
    t.insert_file(f);
    assert_eq!(t.effective_attr("/f", &file("f", 1)).size, 5);
    assert_eq!(t.effective_attr("/g", &file("g", 1)).size, 1);
    let mut u = OpenFile::open("/u", false, true);
    assert!(matches!(u.truncate("/u", 9), TruncateStep::Load));
    t.insert_file(u);
    assert_eq!(t.effective_attr("/u", &file("u", 1)).size, 1, "before the content was fetched the object counts");
}

#[test]
fn handles_are_given_once() {
    let mut t = table();
    let a = t.insert_file(OpenFile::open("/a", false, false));
    let b = t.insert_file(OpenFile::open("/b", false, false));
    assert_eq!((a, b), (1, 2));
    assert_eq!(t.find(b), Some(1));
    assert_eq!(t.remove_file(a).unwrap().path, "/a");
    assert!(t.remove_file(a).is_none());
    assert_eq!(t.find(b), Some(0));
    assert_eq!(t.insert_file(OpenFile::open("/c", true, true)), 3);
}

#[test]
fn unlinked_files_are_never_saved() {
    let mut t = table();
    let fh = t.insert_file(OpenFile::create("/f", false));
    let other = t.insert_file(OpenFile::create("/g", false));
    let at = t.find(fh).unwrap();
    write(&mut t.files[at].1, 0, b"x");
    let at = t.find(other).unwrap();
    write(&mut t.files[at].1, 0, b"y");
    t.unlink("/f");
    let at = t.find(fh).unwrap();
    assert!(matches!(t.files[at].1.flush(), FlushStep::Nothing));
    let at = t.find(other).unwrap();
    assert!(matches!(t.files[at].1.flush(), FlushStep::Put));
}

#[test]
fn renames_take_open_files_along() {
    let mut t = table();
    for p in ["/a", "/a/x", "/ab", "/b"] {
        t.insert_file(OpenFile::open(p, false, true));
    }
    t.rename("/a", "/new");
    let paths: Vec<&str> = t.files.iter().map(|f| f.1.path.as_str()).collect();
    assert_eq!(paths, vec!["/new", "/new/x", "/ab", "/b"]);
    assert_eq!(t.path_of(inode_for_path("/new")).as_deref(), Some("/new"));
}

#[test]
fn directories_are_listed_in_order() {
    let mut t = table();
    let items = t.readdir("/d", &vec![file("b", 1), dir("A"), file("a", 2)]);
    let names: Vec<&str> = items.iter().map(|i| i.name.as_str()).collect();
    assert_eq!(names, vec![".", "..", "A", "a", "b"]);
    assert_eq!(items[0].attr.ino, inode_for_path("/d"));
    assert_eq!(items[1].attr.ino, ROOT_INODE);
    assert_eq!(items[3].attr.ino, inode_for_path("/d/a"));
    assert!(items[2].attr.is_dir && !items[3].attr.is_dir);
    assert_eq!(t.path_of(inode_for_path("/d")).as_deref(), Some("/d"));
    assert_eq!(t.path_of(inode_for_path("/d/A")).as_deref(), Some("/d/A"));
    assert_eq!(t.path_of(inode_for_path("/d/b")).as_deref(), Some("/d/b"));
    assert_eq!(t.path_of(inode_for_path("/d/c")), None);
    let items = t.readdir("/e", &vec![file("a", 1), file("!", 1), file("#x", 1)]);
    let names: Vec<&str> = items.iter().map(|i| i.name.as_str()).collect();
    assert_eq!(names, vec![".", "..", "!", "#x", "a"], "the directory itself comes first");
    let root = t.readdir("/", &vec![]);
    assert_eq!((root[0].attr.ino, root[1].attr.ino), (ROOT_INODE, ROOT_INODE));
}

#[test]
fn tracked_directories_are_bounded() {
    let mut t = table();
    for i in 0..MAX_TRACKED_DIRS as u64 - 1 {
        t.track_dir(i + 10);
    }
    assert_eq!(t.dirs.len(), MAX_TRACKED_DIRS);
    t.track_dir(10);
    assert_eq!(t.dirs.len(), MAX_TRACKED_DIRS);
    t.track_dir(1_000_000);
    assert_eq!(t.dirs.len(), 1);
    assert!(t.dirs.contains(&ROOT_INODE));
}

#[test]
fn requests_are_checked() {
    assert_eq!(unlink_check(&None), Err(FuseError::NotFound));
    assert_eq!(unlink_check(&Some(dir("d"))), Err(FuseError::IsDirectory));
    assert_eq!(unlink_check(&Some(file("f", 1))), Ok(()));
    assert_eq!(mknod_check(0o100644), Ok(()));
    assert_eq!(mknod_check(0o010644), Err(FuseError::NotPermitted));
    assert_eq!(create_plan(&None, false), Ok(CreatePlan { make: true, needs_existing: false, size: 0 }));
    assert_eq!(
        create_plan(&Some(file("f", 9)), false),
        Ok(CreatePlan { make: false, needs_existing: true, size: 9 })
    );
    assert_eq!(
        create_plan(&Some(file("f", 9)), true),
        Ok(CreatePlan { make: false, needs_existing: false, size: 0 })
    );
    assert_eq!(create_plan(&Some(dir("d")), true), Err(FuseError::IsDirectory));
}

#[test]
fn writes_go_over_the_content() {
    let mut f = OpenFile::open("/f", false, true);
    assert!(f.needs_load());
    assert_eq!(f.read(0, 4), None, "before the content was fetched the object is read");
    f.seed(b"0123456789".to_vec());
    f.seed(b"other".to_vec());
    assert!(matches!(write(&mut f, 2, b"xx"), WriteStep::Buffered));
    assert_eq!(f.read(0, 6).as_deref(), Some(&b"01xx45"[..]));
    assert_eq!(f.read(8, 100).as_deref(), Some(&b"89"[..]));
    assert!(matches!(f.flush(), FlushStep::Put));
    f.flushed();
    assert!(!f.dirty && f.needs_load());
    assert!(matches!(f.flush(), FlushStep::Nothing));
}

#[test]
fn read_only_handles_refuse_writes() {
    let mut f = OpenFile::open("/f", false, false);
    assert!(matches!(write(&mut f, 0, b"x"), WriteStep::Denied));
    assert!(!f.dirty);
    assert!(matches!(f.truncate("/f", 3), TruncateStep::Elsewhere));
    let large = vec![0u8; WRITE_SPOOL_THRESHOLD + 1];
    assert!(!f.starts_stream(0, large.len()));
    assert!(matches!(write(&mut f, 0, &large), WriteStep::Denied));
}

#[test]
fn large_files_are_uploaded_while_they_are_written() {
    let mut f = OpenFile::create("/big", false);
    let piece: Vec<u8> = (0..3 * 1024 * 1024usize).map(|i| (i % 251) as u8).collect();
    let mut sent = Vec::new();
    let mut whole = Vec::new();
    for i in 0..7u64 {
        match write(&mut f, i * piece.len() as u64, &piece) {
            WriteStep::Streamed { parts } | WriteStep::StartStream { parts } => sent.extend(parts),
            WriteStep::Buffered => assert!(((i as usize + 1) * piece.len()) <= WRITE_SPOOL_THRESHOLD),
            WriteStep::Denied | WriteStep::Load => panic!("open for writing"),
        }
        whole.extend_from_slice(&piece);
    }
    assert_eq!(f.size(), Some(whole.len() as u64));
    match f.flush() {
        FlushStep::Finish { last, crc } => {
            sent.extend(last);
            assert_eq!(crc, Some(ossfs::checksum::crc64ecma(&whole)));
        }
        other => panic!("{other:?}"),
    }
    let numbers: Vec<i32> = sent.iter().map(|p| p.number).collect();
    assert_eq!(numbers, vec![1, 2, 3]);
    assert_eq!(sent.iter().flat_map(|p| p.data.iter().copied()).collect::<Vec<u8>>(), whole);
    f.flush_failed();
    assert!(matches!(f.flush(), FlushStep::Refuse), "what was streamed is gone from memory");
}

#[test]
fn truncating_to_nothing_needs_no_content() {
    let mut f = OpenFile::open("/f", false, true);
    assert!(!f.truncate_needs_load("/f", 0));
    assert!(f.truncate_needs_load("/f", 3));
    assert!(!f.truncate_needs_load("/other", 3));
    assert!(matches!(f.truncate("/f", 3), TruncateStep::Load));
    assert!(!f.dirty);
    assert!(matches!(f.truncate("/f", 0), TruncateStep::Resized { abort: false, .. }));
    assert!(f.loaded && f.dirty);
    assert_eq!(f.size(), Some(0));
    assert!(matches!(f.truncate("/other", 0), TruncateStep::Elsewhere));
}

#[test]
fn truncating_changes_what_is_read_and_saved() {
    let mut f = OpenFile::open("/f", false, true);
    f.seed(b"0123456789".to_vec());
    assert!(matches!(f.truncate("/f", 4), TruncateStep::Resized { abort: false, .. }));
    assert_eq!(f.size(), Some(4));
    assert_eq!(f.read(0, 100).as_deref(), Some(&b"0123"[..]));
    assert!(matches!(write(&mut f, 4, b"xy"), WriteStep::Buffered));
    assert_eq!(f.size(), Some(6));
    assert!(matches!(f.truncate("/f", 8), TruncateStep::Resized { abort: false, .. }));
    assert_eq!(f.size(), Some(8));
    assert!(matches!(f.flush(), FlushStep::Put));
    assert_eq!(f.write_buf.as_deref(), Some(&b"0123xy\0\0"[..]));
    assert!(matches!(f.truncate("/f", 0), TruncateStep::Resized { abort: false, .. }));
    assert_eq!((f.size(), f.read(0, 9)), (Some(0), Some(vec![])));
    let mut t = table();
    assert!(matches!(f.truncate("/f", 3), TruncateStep::Resized { abort: false, .. }));
    t.insert_file(f);
    assert_eq!(t.effective_attr("/f", &file("f", 10)).size, 3);
}

#[test]
fn writes_wait_for_the_content() {
    let mut f = OpenFile::open("/f", false, true);
    assert!(matches!(write(&mut f, 0, b"x"), WriteStep::Load));
    assert!(!f.dirty);
    assert!(!f.starts_stream(0, WRITE_SPOOL_THRESHOLD + 1));
}

fn streamed(f: &mut OpenFile, offset: u64, data: &[u8]) -> Vec<u8> {
    match write(f, offset, data) {
        WriteStep::StartStream { parts } | WriteStep::Streamed { parts } => {
            parts.iter().flat_map(|p| p.data.iter().copied()).collect()
        }
        other => panic!("{other:?}"),
    }
}

fn finished(f: &mut OpenFile, mut sent: Vec<u8>) -> Vec<u8> {
    match f.flush() {
        FlushStep::Finish { last, crc } => {
            sent.extend(last.into_iter().flat_map(|p| p.data));
            assert_eq!(crc, Some(ossfs::checksum::crc64ecma(&sent)));
            sent
        }
        other => panic!("{other:?}"),
    }
}

#[test]
fn large_writes_go_to_their_place() {
    let data: Vec<u8> = (0..WRITE_SPOOL_THRESHOLD).map(|i| (i % 253) as u8).collect();
    let mut f = OpenFile::open("/f", false, true);
    f.seed(b"0123456789".to_vec());
    assert!(f.starts_stream(4, data.len()));
    let sent = streamed(&mut f, 4, &data);
    let mut expected = b"0123".to_vec();
    expected.extend_from_slice(&data);
    assert_eq!(f.size(), Some(expected.len() as u64));
    assert_eq!(finished(&mut f, sent), expected);

    let mut f = OpenFile::create("/sparse", false);
    let sent = streamed(&mut f, WRITE_SPOOL_THRESHOLD as u64, b"end");
    let mut expected = vec![0u8; WRITE_SPOOL_THRESHOLD];
    expected.extend_from_slice(b"end");
    assert_eq!(finished(&mut f, sent), expected);
}

#[test]
fn an_upload_takes_only_what_continues_it() {
    let data = vec![7u8; WRITE_SPOOL_THRESHOLD + 1];
    let mut f = OpenFile::create("/f", false);
    let mut sent = streamed(&mut f, 0, &data);
    let end = data.len() as u64;
    assert!(matches!(write(&mut f, end - 1, b"x"), WriteStep::Denied));
    assert!(matches!(write(&mut f, end + 1, b"x"), WriteStep::Denied));
    assert!(matches!(write(&mut f, 0, b"x"), WriteStep::Denied));
    assert_eq!(f.size(), Some(end));
    sent.extend(streamed(&mut f, end, b"yz"));
    assert_eq!(f.size(), Some(end + 2));
    let mut expected = data.clone();
    expected.extend_from_slice(b"yz");
    assert_eq!(finished(&mut f, sent), expected);
}

#[test]
fn truncating_fills_up_a_running_upload() {
    let data = vec![7u8; WRITE_SPOOL_THRESHOLD + 1];
    let mut f = OpenFile::create("/f", false);
    let mut sent = streamed(&mut f, 0, &data);
    let end = data.len() as u64;
    let more = 2 * WRITE_SPOOL_THRESHOLD as u64 + 5;
    match f.truncate("/f", end) {
        TruncateStep::Resized { abort: false, parts } => assert!(parts.is_empty()),
        other => panic!("{other:?}"),
    }
    match f.truncate("/f", end + more) {
        TruncateStep::Resized { abort: false, parts } => {
            assert_eq!(parts.iter().map(|p| p.number).collect::<Vec<i32>>(), vec![2, 3]);
            sent.extend(parts.into_iter().flat_map(|p| p.data));
        }
        other => panic!("{other:?}"),
    }
    assert_eq!(f.size(), Some(end + more));
    sent.extend(streamed(&mut f, end + more, b"end"));
    let mut expected = data.clone();
    expected.resize((end + more) as usize, 0);
    expected.extend_from_slice(b"end");
    assert_eq!(finished(&mut f, sent), expected);
    assert!(matches!(f.truncate("/f", 1), TruncateStep::Resized { .. }), "no upload is running any more");
}

#[test]
fn truncating_cuts_an_upload_once_it_is_saved() {
    let data: Vec<u8> = (0..WRITE_SPOOL_THRESHOLD + 1).map(|i| (i % 249) as u8).collect();
    let mut f = OpenFile::create("/f", false);
    let sent = streamed(&mut f, 0, &data);
    assert!(matches!(f.truncate("/f", 100), TruncateStep::Save));
    assert_eq!(f.size(), Some(data.len() as u64), "nothing has changed yet");
    let object = finished(&mut f, sent);
    f.flushed();
    assert!(f.truncate_needs_load("/f", 100));
    assert!(matches!(f.truncate("/f", 100), TruncateStep::Load));
    f.seed(object);
    assert!(matches!(f.truncate("/f", 100), TruncateStep::Resized { abort: false, .. }));
    assert_eq!(f.size(), Some(100));
    assert!(matches!(f.flush(), FlushStep::Put));
    assert_eq!(f.write_buf.as_deref(), Some(&data[..100]));
}

#[test]
fn an_upload_that_is_never_saved_is_not_cut() {
    let data = vec![7u8; WRITE_SPOOL_THRESHOLD + 1];
    for failed in [false, true] {
        let mut f = OpenFile::create("/f", false);
        streamed(&mut f, 0, &data);
        if failed {
            f.flush_failed();
        } else {
            f.unlink("/f");
        }
        assert!(matches!(f.truncate("/f", 100), TruncateStep::Refused));
        assert!(matches!(f.truncate("/f", u64::MAX), TruncateStep::Refused));
        assert!(matches!(f.truncate("/f", 0), TruncateStep::Resized { abort: true, .. }));
    }
}

#[test]
fn truncating_to_nothing_gives_an_upload_up() {
    let data = vec![7u8; WRITE_SPOOL_THRESHOLD + 1];
    let mut f = OpenFile::create("/f", false);
    streamed(&mut f, 0, &data);
    assert!(matches!(f.truncate("/f", 0), TruncateStep::Resized { abort: true, .. }));
    assert!(f.stream.is_none());
    assert_eq!(f.size(), Some(0));
    assert!(matches!(write(&mut f, 0, b"new"), WriteStep::Buffered));
    assert!(matches!(f.flush(), FlushStep::Put));
    assert_eq!(f.read(0, 9).as_deref(), Some(&b"new"[..]));
}
