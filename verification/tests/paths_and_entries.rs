use std::time::{Duration, UNIX_EPOCH};

use ossfs::checksum::{
    content_md5, crc64ecma, file_index, fnv1a64, hex_decode, hex_encode, inode_for_path, Crc64Ecma, ROOT_INODE,
};
use ossfs::entry::{effective_mode, effective_owner, epoch, is_regular_file_mode, sort_entries, DirEntry, MountAttr};
use ossfs::mount::{
    lock_name, mount_wait, mounted_at, notice_len, runtime_record_name, unmount_event_name, MountWait, MOUNT_WAIT_MS,
};
use ossfs::numeral::{hex_text, parse_hex_number, parse_number, to_le_bytes, to_utf16, NumCastExt};
use ossfs::paths::{
    basename, dir_object_prefix, i_view_path, join_path, key_for, key_view_path, list_prefix, parent_path,
    posix_to_win_path, rel_key, strip_mount_prefix, win_path_to_posix,
};
use ossfs::text::{equal_ignoring_case, place, replace, split_text, text_lines, trim_white, Place};

#[test]
fn rel_key_maps_paths() {
    assert_eq!(rel_key("/"), "");
    assert_eq!(rel_key("/a"), "a");
    assert_eq!(rel_key("/a/b.txt"), "a/b.txt");
    assert_eq!(rel_key("/a/"), "a/");
    assert_eq!(rel_key("//a//b"), "a//b");
}

#[test]
fn basename_and_parent() {
    assert_eq!(basename("/a/b.txt"), "b.txt");
    assert_eq!(basename("/a/"), "a");
    assert_eq!(basename("/"), "/");
    assert_eq!(parent_path("/a/b"), "/a");
    assert_eq!(parent_path("/a"), "/");
    assert_eq!(parent_path("/"), "/");
}

#[test]
fn join_path_handles_root_and_nested() {
    assert_eq!(join_path("/", "a.txt"), "/a.txt");
    assert_eq!(join_path("/docs", "a.txt"), "/docs/a.txt");
    assert_eq!(join_path("/a/b", "c"), "/a/b/c");
}

#[test]
fn inode_for_path_is_stable_and_distinct() {
    let a = inode_for_path("/docs/report.txt");
    let b = inode_for_path("/docs/report.txt");
    assert_eq!(a, b, "same path must map to the same inode");
    assert_ne!(a, ROOT_INODE, "non-root paths must not collide with root");
    assert_ne!(a, inode_for_path("/docs/report2.txt"));
    assert_eq!(inode_for_path("/"), ROOT_INODE);
    assert_ne!(inode_for_path("/"), 0);
}

#[test]
fn is_regular_file_mode_detects_regular_files() {
    assert!(is_regular_file_mode(0o100644));
    assert!(!is_regular_file_mode(0o040755)); // directory
    assert!(!is_regular_file_mode(0o120777)); // symlink
}

#[test]
fn epoch_maps_nonpositive_to_unix_epoch() {
    let at = |secs: i64| UNIX_EPOCH + Duration::from_secs(epoch(secs));
    assert_eq!(at(0), UNIX_EPOCH);
    assert_eq!(at(-5), UNIX_EPOCH);
    assert_eq!(at(1_700_000_000), UNIX_EPOCH + Duration::from_secs(1_700_000_000));
}

#[test]
fn effective_owner_and_mode_resolve_defaults() {
    assert_eq!(effective_owner(0, 1000), 1000);
    assert_eq!(effective_owner(42, 1000), 42);
    assert_eq!(effective_mode(true, 0o755, 0o644, 0), 0o755);
    assert_eq!(effective_mode(false, 0o755, 0o644, 0), 0o644);
    assert_eq!(effective_mode(false, 0o755, 0o644, 0o022), 0o644);
    assert_eq!(effective_mode(true, 0o777, 0o666, 0o022), 0o755);
}

#[test]
fn mount_attr_defaults_to_the_mounting_user() {
    assert_eq!(
        MountAttr::default(),
        MountAttr { uid: 0, gid: 0, dir_mode: 0o755, file_mode: 0o644, umask: 0 }
    );
}

#[test]
fn crc64ecma_matches_known_vectors() {
    assert_eq!(crc64ecma(b"123456789"), 0x995DC9BBDF1939FA);
    assert_eq!(crc64ecma(b"a"), 0x330284772E652B05);
}

#[test]
fn crc64_is_the_same_piece_by_piece() {
    let data: Vec<u8> = (0..1000u32).map(|i| (i * 7 % 251) as u8).collect();
    let mut crc = Crc64Ecma::new();
    crc.update(&data[..137]);
    crc.update(&[]);
    crc.update(&data[137..]);
    assert_eq!(crc.finalize(), crc64ecma(&data));
}

#[test]
fn known_hashes() {
    assert_eq!(fnv1a64(""), 0xcbf2_9ce4_8422_2325);
    assert_eq!(fnv1a64("a"), 0xaf63_dc4c_8601_ec8c);
    assert_eq!(file_index(""), 0x9E37_79B9);
    assert_eq!(file_index("a"), 0x9E37_79B9u64 * 31 + 97);
    assert_eq!(content_md5(b""), "1B2M2Y8AsgTpgAmY7PhCfg==");
    assert_eq!(content_md5(b"hello"), "XUFAKrxLKna5cZ2REBfFkg==");
}

#[test]
fn hex_keys_round_trip() {
    assert_eq!(hex_encode("aZ/"), "615a2f");
    for key in ["", "docs/a.txt", "文档/报告.txt", "a\nb"] {
        assert_eq!(hex_decode(&hex_encode(key)).as_deref(), Some(key));
    }
    assert_eq!(hex_decode("6"), None);
    assert_eq!(hex_decode("zz"), None);
    assert_eq!(hex_decode("ff"), None, "not UTF-8");
}

#[test]
fn keys_carry_the_prefix() {
    assert_eq!(key_for("ossfs/", "/docs/a.txt"), "ossfs/docs/a.txt");
    assert_eq!(key_for("ossfs/", "/"), "ossfs");
    assert_eq!(list_prefix("ossfs/", "/"), "ossfs/");
    assert_eq!(list_prefix("ossfs/", "/docs"), "ossfs/docs/");
    assert_eq!(dir_object_prefix("a/b"), "a/b/");
    assert_eq!(dir_object_prefix("a/b/"), "a/b/");
    assert_eq!(strip_mount_prefix("ossfs/", "ossfs/docs/a.txt"), "docs/a.txt");
    assert_eq!(strip_mount_prefix("ossfs/", "other/a.txt"), "other/a.txt");
    assert_eq!(key_view_path("ossfs/", "ossfs/docs/a.txt"), "/docs/a.txt");
    assert_eq!(i_view_path("p/", "p/docs/a.txt"), "C:\\docs\\a.txt");
}

#[test]
fn windows_paths_map_to_posix_and_back() {
    assert_eq!(win_path_to_posix(""), "/");
    assert_eq!(win_path_to_posix("\\"), "/");
    assert_eq!(win_path_to_posix("\\docs\\a.txt"), "/docs/a.txt");
    assert_eq!(posix_to_win_path("/docs/a.txt"), "\\docs\\a.txt");
    assert_eq!(win_path_to_posix(&posix_to_win_path("/docs/a.txt")), "/docs/a.txt");
}

#[test]
fn entries_sort_by_name_and_keep_their_order() {
    let e = |name: &str, size: u64| DirEntry { name: name.to_string(), is_dir: false, size, mtime_secs: 0 };
    let sorted = sort_entries(vec![e("b", 1), e("a", 2), e("b", 3), e("", 4), e("B", 5)]);
    let got: Vec<(String, u64)> = sorted.into_iter().map(|e| (e.name, e.size)).collect();
    let want: Vec<(String, u64)> = vec![
        (String::new(), 4),
        ("B".to_string(), 5),
        ("a".to_string(), 2),
        ("b".to_string(), 1),
        ("b".to_string(), 3),
    ];
    assert_eq!(got, want);
}

#[test]
fn texts_compare_and_split() {
    assert_eq!(place("a", "b"), Place::Before);
    assert_eq!(place("é", "z"), Place::After);
    assert_eq!(place("same", "same"), Place::Same);
    assert_eq!(split_text("a//b", '/'), vec!["a".to_string(), String::new(), "b".to_string()]);
    assert_eq!(text_lines("a\r\nb\n\nc"), vec!["a", "b", "", "c"]);
    assert!(text_lines("").is_empty());
    assert_eq!(replace("a\\b\\", '\\', '/'), "a/b/");
    assert_eq!(trim_white(" \u{2003}x y\t\n"), "x y");
    assert!(equal_ignoring_case("aBc-1", "AbC-1"));
    assert!(!equal_ignoring_case("é", "É"));
}

#[test]
fn numbers_parse_and_print() {
    assert_eq!(parse_number("18446744073709551615"), Some(u64::MAX));
    assert_eq!(parse_number("18446744073709551616"), None);
    assert_eq!(parse_number("+7"), Some(7));
    assert_eq!(parse_number("-7"), None);
    assert_eq!(parse_number(""), None);
    assert_eq!(hex_text(0x1f, 8), "0000001f");
    assert_eq!(parse_hex_number("0000001F"), Some(31));
    assert_eq!(parse_hex_number("xyz"), None);
    assert_eq!(to_le_bytes(0x0102_0304, 4), vec![4, 3, 2, 1]);
    assert_eq!(to_utf16("a😀"), "a😀".encode_utf16().collect::<Vec<u16>>());
    assert_eq!(7u64.as_u32(), 7);
    assert_eq!(7u64.as_usize(), 7);
    assert_eq!(7u64.as_i64(), 7);
}

#[test]
fn mount_names() {
    assert_eq!(lock_name("/mnt/my disk-1_ä"), "_mnt_my_disk-1__.lock");
    assert_eq!(mounted_at("/dev/disk1 on  /mnt (fuse)").as_deref(), Some("/mnt"));
    assert_eq!(mounted_at("dev on"), None);
    assert_eq!(mounted_at(""), None);
    assert_eq!(runtime_record_name(42), "42.json");
    assert_eq!(unmount_event_name(42), "Local\\ossfs-unmount-42");
    assert_eq!(notice_len(12, 5), Some(22));
    assert_eq!(notice_len(12, 32_762), None);
}

#[test]
fn a_new_mount_is_waited_for() {
    assert_eq!(mount_wait(true, true, MOUNT_WAIT_MS), MountWait::Done);
    assert_eq!(mount_wait(false, true, 0), MountWait::Failed);
    assert_eq!(mount_wait(false, false, 7_999), MountWait::Wait);
    assert_eq!(mount_wait(false, false, 8_000), MountWait::Late);
}
