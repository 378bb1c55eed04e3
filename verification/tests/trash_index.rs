use ossfs::date::{date_partition_utc, Date};
use ossfs::keymap::KeyMap;
use ossfs::system_trash::{
    etag_eq, filenum_100ns, i_to_r_name, is_i_entry, r_to_i_name, synthesized_i_bytes, synthesized_i_len,
    unix_to_filetime, SystemTrash, SystemTrashMatch, SystemTrashPlatform,
};
use ossfs::tombstone::{decode_tombstone_key, encode_tombstone_key, TombstoneIndex};
use ossfs::trash::{
    TrashRefreshMode, TrashState, TRASH_GC_INTERVAL_SECS, TRASH_INDEX_ALERT_THRESHOLD, TRASH_RETENTION_DAYS,
};

fn d(ymd: (i32, u32, u32)) -> Date {
    Date::parse(&format!("{:04}-{:02}-{:02}", ymd.0, ymd.1, ymd.2)).unwrap()
}

fn index_with_dirs(dirs: &[&str]) -> TombstoneIndex {
    let mut idx = TombstoneIndex::default();
    for dir in dirs {
        idx.insert(dir, true, d((2026, 8, 16)));
    }
    idx
}

fn entries(m: &KeyMap<Date>) -> Vec<(String, Date)> {
    (0..m.len()).map(|i| (m.entry_at(i).0.clone(), m.entry_at(i).1)).collect()
}

fn state() -> TrashState {
    TrashState::new(
        ".trash/".to_string(),
        TrashRefreshMode::Lazy,
        30_000,
        600_000,
        TRASH_GC_INTERVAL_SECS * 1000,
        TRASH_RETENTION_DAYS,
        0,
    )
}

fn state_with_system(sys: SystemTrash) -> TrashState {
    let mut state = state();
    state.system = Some(sys);
    state
}

fn win_state() -> TrashState {
    state_with_system(SystemTrash {
        dir_name: "$Recycle.Bin".into(),
        platform: SystemTrashPlatform::WindowsRecycleBin,
        macos_uid_dirs: vec![],
        current_uid: 0,
    })
}

fn mac_state() -> TrashState {
    state_with_system(SystemTrash {
        dir_name: ".Trashes".into(),
        platform: SystemTrashPlatform::MacOsTrashes,
        macos_uid_dirs: vec![501],
        current_uid: 1000,
    })
}

#[test]
fn match_system_trash_matrix() {
    // Up to two levels are matched; what is deeper is user data.
    let s = win_state();
    assert_eq!(s.match_system_trash("/$Recycle.Bin"), Some(SystemTrashMatch::Dir { level: 0 }));
    assert_eq!(s.match_system_trash("/$Recycle.Bin/S-1-5-21-1"), Some(SystemTrashMatch::Dir { level: 1 }));
    assert_eq!(
        s.match_system_trash("/$Recycle.Bin/S-1-5-21-1/$R4de00001a.txt"),
        Some(SystemTrashMatch::Entry { entry_name: "$R4de00001a.txt".into() })
    );
    assert_eq!(s.match_system_trash("/$Recycle.Bin/S-1-5-21-1/$R4de00001a.txt/sub"), None);
    // Slashes at the end, the root and the empty path.
    assert_eq!(s.match_system_trash("/$Recycle.Bin/"), Some(SystemTrashMatch::Dir { level: 0 }));
    assert_eq!(s.match_system_trash("/$Recycle.Bin/S-1/"), Some(SystemTrashMatch::Dir { level: 1 }));
    assert_eq!(s.match_system_trash("/"), None);
    assert_eq!(s.match_system_trash(""), None);
    // Names that only begin or end like the directory.
    assert_eq!(s.match_system_trash("/$Recycle.Binx"), None);
    assert_eq!(s.match_system_trash("/x$Recycle.Bin"), None);
    assert_eq!(s.match_system_trash("/.trash/2026-08-16/a.txt"), None);
    assert_eq!(s.match_system_trash("/docs/a.txt"), None);
    // The same on macOS.
    let m = mac_state();
    assert_eq!(m.match_system_trash("/.Trashes"), Some(SystemTrashMatch::Dir { level: 0 }));
    assert_eq!(m.match_system_trash("/.Trashes/501"), Some(SystemTrashMatch::Dir { level: 1 }));
    assert_eq!(
        m.match_system_trash("/.Trashes/501/a.txt"),
        Some(SystemTrashMatch::Entry { entry_name: "a.txt".into() })
    );
    assert_eq!(m.match_system_trash("/.Trashesx/501/a.txt"), None);
    assert_eq!(m.match_system_trash("/.Trashes/501/a/b"), None);
    // Another name for the directory.
    let custom = state_with_system(SystemTrash {
        dir_name: "CustomBin".into(),
        platform: SystemTrashPlatform::WindowsRecycleBin,
        macos_uid_dirs: vec![],
        current_uid: 0,
    });
    assert_eq!(custom.match_system_trash("/CustomBin/S-1"), Some(SystemTrashMatch::Dir { level: 1 }));
    assert_eq!(custom.match_system_trash("/$Recycle.Bin"), None);
    // Without a recycle bin nothing matches.
    let closed = state();
    assert_eq!(closed.match_system_trash("/$Recycle.Bin"), None);
    assert_eq!(closed.match_system_trash("/.Trashes/501"), None);
    assert!(!closed.is_system_trash_path("/$Recycle.Bin"));
    assert!(s.is_system_trash_path("/$Recycle.Bin"));
    assert!(s.is_system_trash_path("/$Recycle.Bin/S-1"));
    assert!(s.is_system_trash_path("/$Recycle.Bin/S-1/$R1.txt"));
    assert!(!s.is_system_trash_path("/$Recycle.Bin/S-1/$R1.txt/x"));
}

#[test]
fn macos_match_filters_uid_scope() {
    let m = mac_state();
    assert_eq!(
        m.match_system_trash("/.Trashes/501/a.txt"),
        Some(SystemTrashMatch::Entry { entry_name: "a.txt".into() })
    );
    assert_eq!(m.match_system_trash("/.Trashes/501"), Some(SystemTrashMatch::Dir { level: 1 }));
    assert_eq!(m.match_system_trash("/.Trashes/999"), None);
    assert_eq!(m.match_system_trash("/.Trashes/999/a.txt"), None);
    assert_eq!(m.match_system_trash("/.Trashes/x/a.txt"), None);
    assert_eq!(m.match_system_trash("/.Trashes"), Some(SystemTrashMatch::Dir { level: 0 }));
    let s = win_state();
    assert_eq!(
        s.match_system_trash("/$Recycle.Bin/S-1-5-21-1/$R1.txt"),
        Some(SystemTrashMatch::Entry { entry_name: "$R1.txt".into() })
    );
}

#[test]
fn without_user_ids_the_current_user_is_shown() {
    let m = state_with_system(SystemTrash {
        dir_name: ".Trashes".into(),
        platform: SystemTrashPlatform::MacOsTrashes,
        macos_uid_dirs: vec![],
        current_uid: 1000,
    });
    assert_eq!(m.match_system_trash("/.Trashes/1000"), Some(SystemTrashMatch::Dir { level: 1 }));
    assert_eq!(m.match_system_trash("/.Trashes/501"), None);
}

#[test]
fn record_seen_sid_windows_only() {
    let mut s = win_state();
    s.record_seen_sid("/$Recycle.Bin/S-1-5-21-1");
    s.record_seen_sid("/$Recycle.Bin/S-1-5-21-2/");
    s.record_seen_sid("/$Recycle.Bin"); // level 0 is not recorded
    s.record_seen_sid("/docs"); // nor is anything outside
    assert_eq!(s.seen_sids.len(), 2);
    assert!(s.seen_sids.contains_key("S-1-5-21-1"));
    assert!(s.seen_sids.contains_key("S-1-5-21-2"));
    let mut m = mac_state();
    m.record_seen_sid("/.Trashes/501");
    assert!(m.seen_sids.is_empty());
}

#[test]
fn is_covered_matrix() {
    let mut idx = TombstoneIndex::default();
    idx.insert("docs/a.txt", false, d((2026, 8, 16)));
    assert!(idx.is_covered("docs/a.txt"));
    assert!(!idx.is_covered("docs/b.txt"));

    let idx = index_with_dirs(&["docs/"]);
    assert!(idx.is_covered("docs/a.txt"));
    assert!(idx.is_covered("docs/sub/b.txt"));
    let idx = index_with_dirs(&["a/"]);
    assert!(idx.is_covered("a/b/c.txt"));
    // Names that only begin like a directory are not covered.
    let idx = index_with_dirs(&["docs/"]);
    assert!(!idx.is_covered("docsx/a.txt"));
    let idx = index_with_dirs(&["d/"]);
    assert!(!idx.is_covered("docs/a.txt"));
    // A directory is covered with and without the slash at its end.
    let idx = index_with_dirs(&["docs/"]);
    assert!(idx.is_covered("docs"));
    assert!(idx.is_covered("docs/"));
    let idx = TombstoneIndex::default();
    assert!(!idx.is_covered("docs/a.txt"));
    assert!(!idx.is_covered("docs"));
    assert!(!idx.is_covered(""));
}

#[test]
fn is_covered_comparisons_bounded_by_depth_log() {
    let mut idx = TombstoneIndex::default();
    for i in 0..1000 {
        idx.insert(&format!("common/prefix/shared/dir{i:04}/"), true, d((2026, 8, 16)));
    }
    // Below the common prefix, but not covered.
    let key = "common/prefix/shared/dir1000/x.txt";
    let depth = key.matches('/').count() as u128;
    let (covered, comps) = idx.covered_probe(key);
    assert!(!covered);
    assert!(comps <= depth * 12 + 12, "{comps} comparisons at depth {depth}");
    assert!(comps >= depth * 7, "{comps} comparisons at depth {depth}");
}

#[test]
fn index_alert_threshold_executable() {
    assert_eq!(TRASH_INDEX_ALERT_THRESHOLD, 500_000);
    assert!(!TrashState::index_size_alert(500_000));
    assert!(TrashState::index_size_alert(500_001));
    let mut idx = TombstoneIndex::default();
    for i in 0..500_001 {
        idx.files.insert(format!("f{i:06}"), d_16());
    }
    assert_eq!(idx.len(), 500_001);
    assert!(TrashState::index_size_alert(idx.len()));
    let mut state = state();
    assert!(state.store_index_entries(idx.len()));
    assert_eq!(state.index_entries, 500_001);
}

fn d_16() -> Date {
    date_partition_utc(1_786_838_400).unwrap()
}

#[test]
fn dirs_sorted_invariant() {
    let mut idx = TombstoneIndex::default();
    for dir in ["z/", "a/", "m/", "b/", "a/"] {
        idx.insert(dir, true, d((2026, 8, 16)));
    }
    let dirs = entries(&idx.dirs);
    for i in 1..dirs.len() {
        assert!(dirs[i - 1].0 < dirs[i].0, "dirs must stay sorted: {dirs:?}");
    }
    assert_eq!(dirs.len(), 4, "entering a key again changes nothing");
    let mut idx = TombstoneIndex::default();
    idx.insert("docs", true, d((2026, 8, 16)));
    assert_eq!(entries(&idx.dirs), vec![("docs/".to_string(), d((2026, 8, 16)))]);
    let mut seed = 0x5eed_u64;
    let mut idx = TombstoneIndex::default();
    for _ in 0..200 {
        seed = seed.wrapping_mul(6364136223846793005).wrapping_add(1442695040888963407);
        let n = (seed % 30) as usize;
        idx.insert(&format!("dir{n}/sub"), true, d((2026, 8, 16)));
    }
    let dirs = entries(&idx.dirs);
    for i in 1..dirs.len() {
        assert!(dirs[i - 1].0 < dirs[i].0, "sorted invariant");
    }
}

#[test]
fn remove_flips_coverage() {
    let mut idx = TombstoneIndex::default();
    idx.insert("a.txt", false, d((2026, 8, 16)));
    assert!(idx.is_covered("a.txt"));
    idx.remove("a.txt", false);
    assert!(!idx.is_covered("a.txt"));
    idx.remove("a.txt", false);
    idx.remove("zzz", false);
    assert!(!idx.is_covered("a.txt"));

    let mut idx = index_with_dirs(&["docs/"]);
    assert!(idx.is_covered("docs/a.txt"));
    idx.remove("docs", true);
    assert!(!idx.is_covered("docs/a.txt"));
    idx.remove("docs", true);
    assert!(!idx.is_covered("docs/a.txt"));

    let mut idx = TombstoneIndex::default();
    idx.insert("x", false, d((2026, 8, 16)));
    idx.insert("x", true, d((2026, 8, 16)));
    assert!(idx.is_covered("x"));
    idx.remove("x", false);
    assert!(idx.is_covered("x"), "the directory still covers");
    idx.remove("x", true);
    assert!(!idx.is_covered("x"));
}

#[test]
fn rebuild_replaces_and_dedups() {
    let mut idx = index_with_dirs(&["old/"]);
    idx.insert("old.txt", false, d((2026, 8, 16)));
    let tombstones = vec![
        ("docs/a.txt".to_string(), false, d((2026, 8, 16))),
        ("docs/".to_string(), true, d((2026, 8, 16))),
        ("docs/a.txt".to_string(), false, d((2026, 8, 16))),
        ("z/".to_string(), true, d((2026, 8, 16))),
        ("docs".to_string(), true, d((2026, 8, 16))),
        ("a/".to_string(), true, d((2026, 8, 16))),
    ];
    idx.rebuild(&tombstones);
    assert!(!idx.is_covered("old.txt"));
    assert!(idx.is_covered("docs/a.txt"));
    assert_eq!(
        entries(&idx.dirs),
        vec![
            ("a/".to_string(), d((2026, 8, 16))),
            ("docs/".to_string(), d((2026, 8, 16))),
            ("z/".to_string(), d((2026, 8, 16))),
        ]
    );
    assert_eq!(idx.files.len(), 1);
}

#[test]
fn index_keeps_latest_date_per_key() {
    let mut idx = TombstoneIndex::default();
    idx.insert("docs/a.txt", false, d((2026, 8, 15)));
    idx.insert("docs/a.txt", false, d((2026, 8, 16)));
    assert_eq!(idx.files.get("docs/a.txt"), Some(&d((2026, 8, 16))));
    idx.insert("docs/b.txt", false, d((2026, 8, 16)));
    idx.insert("docs/b.txt", false, d((2026, 8, 15)));
    assert_eq!(idx.files.get("docs/b.txt"), Some(&d((2026, 8, 16))));
    idx.insert("docs", true, d((2026, 8, 15)));
    idx.insert("docs", true, d((2026, 8, 16)));
    assert_eq!(entries(&idx.dirs), vec![("docs/".to_string(), d((2026, 8, 16)))]);
    let mut idx = TombstoneIndex::default();
    idx.rebuild(&vec![
        ("x/".to_string(), true, d((2026, 8, 15))),
        ("x/".to_string(), true, d((2026, 8, 16))),
    ]);
    assert_eq!(entries(&idx.dirs), vec![("x/".to_string(), d((2026, 8, 16)))]);
    idx.remove("x", true);
    assert!(idx.dirs.is_empty());
}

#[test]
fn entries_carry_dates() {
    let mut idx = TombstoneIndex::default();
    idx.insert("a.txt", false, d((2026, 8, 16)));
    idx.insert("docs", true, d((2026, 8, 15)));
    let mut entries = idx.entries();
    entries.sort();
    assert_eq!(
        entries,
        vec![
            ("a.txt".to_string(), false, d((2026, 8, 16))),
            ("docs/".to_string(), true, d((2026, 8, 15))),
        ]
    );
}

#[test]
fn tombstone_key_roundtrip() {
    let date = d((2026, 8, 16));
    for key in [
        "a b.txt",
        "c+d.txt",
        "e%f.txt",
        "g#h.txt",
        "文档/报告.txt",
        "multi/segment/path.txt",
        "a/../b",
    ] {
        let enc = encode_tombstone_key(".trash/", date, key, false);
        assert_eq!(enc, format!(".trash/2026-08-16/{key}"));
        let dec = decode_tombstone_key(".trash/", &enc).expect("roundtrip");
        assert_eq!(dec.date, date);
        assert_eq!(dec.original_key, key);
        assert!(!dec.is_dir);
    }
    let enc = encode_tombstone_key("ossfs/.trash/", date, "docs/a.txt", false);
    assert_eq!(enc, "ossfs/.trash/2026-08-16/docs/a.txt");
    let dec = decode_tombstone_key("ossfs/.trash/", &enc).unwrap();
    assert_eq!(dec.original_key, "docs/a.txt");
    assert!(!dec.is_dir);
    let enc = encode_tombstone_key(".trash/", date, "docs/", true);
    assert_eq!(enc, ".trash/2026-08-16/docs/");
    let dec = decode_tombstone_key(".trash/", &enc).unwrap();
    assert!(dec.is_dir);
    assert_eq!(dec.original_key, "docs/");
    let enc = encode_tombstone_key(".trash/", date, "docs", true);
    assert_eq!(enc, ".trash/2026-08-16/docs/");
    for bad in [
        "x/2026-08-16/a.txt",      // another prefix
        "2026-08-16/a.txt",        // no prefix
        ".trash/2026-08-16",       // no key
        ".trash/2026-13-99/a.txt", // no such month
        ".trash/today/a.txt",      // no date
        ".trash/2026-08-16/",      // an empty key
        ".trash/",                 // nothing
    ] {
        assert!(decode_tombstone_key(".trash/", bad).is_none(), "must reject {bad:?}");
    }
}

#[test]
fn tombstone_index_is_file_covered_and_entries() {
    let mut idx = TombstoneIndex::default();
    idx.insert("a.txt", false, d((2026, 8, 16)));
    idx.insert("docs", true, d((2026, 8, 16)));
    assert!(idx.is_file_covered("a.txt"));
    assert!(!idx.is_file_covered("docs"));
    assert!(!idx.is_file_covered("docs/x.txt"));
    let mut entries = idx.entries();
    entries.sort();
    assert_eq!(
        entries,
        vec![
            ("a.txt".to_string(), false, d((2026, 8, 16))),
            ("docs/".to_string(), true, d((2026, 8, 16))),
        ]
    );
    assert_eq!(idx.len(), 2);
}

fn unix_at(rfc3339: &str) -> i64 {
    let dt: chrono::DateTime<chrono::Utc> = rfc3339.parse().unwrap();
    dt.timestamp().max(0)
}

#[test]
fn date_partition_utc_crosses_day_boundary() {
    // 07:59 on the 17th in China is still the 16th in UTC.
    assert_eq!(date_partition_utc(unix_at("2026-08-16T23:59:00Z")), Some(d((2026, 8, 16))));
    assert_eq!(date_partition_utc(unix_at("2026-08-17T00:00:01Z")), Some(d((2026, 8, 17))));
}

#[test]
fn dates_are_written_with_four_digits_or_a_sign() {
    let day = |n: i64| date_partition_utc((n - 719_163) * 86_400);
    assert_eq!(day(1).unwrap().text(), "0001-01-01");
    assert_eq!(day(0).unwrap().text(), "0000-12-31");
    assert_eq!(day(-366).unwrap().text(), "-0001-12-31");
    assert_eq!(day(3_652_059).unwrap().text(), "9999-12-31");
    assert_eq!(day(3_652_060).unwrap().text(), "+10000-01-01");
    assert_eq!(day(-95_746_129).unwrap().text(), "-262143-01-01");
    assert_eq!(day(95_745_399).unwrap().text(), "+262142-12-31");
    assert_eq!((day(-95_746_130), day(95_745_400)), (None, None));
    for text in ["0000-02-29", "-0001-12-31", "+10000-01-01", "-262143-01-01", "+262142-12-31"] {
        assert_eq!(Date::parse(text).unwrap().text(), text);
    }
    assert_eq!(Date::parse("-262144-12-31"), None);
    assert_eq!(Date::parse("2026-8-6"), Some(d((2026, 8, 6))), "leading zeros may be left out");
    assert!(d((2025, 12, 31)).text() < d((2026, 1, 1)).text());
}

#[test]
fn dates_before_the_epoch_and_out_of_range() {
    assert_eq!(date_partition_utc(-1), Some(d((1969, 12, 31))));
    assert_eq!(date_partition_utc(i64::MAX), None);
    assert_eq!(date_partition_utc(i64::MIN), None);
    assert_eq!(d((2026, 8, 16)).text(), "2026-08-16");
    assert_eq!(d((2026, 8, 16)).midnight(), unix_at("2026-08-16T00:00:00Z"));
    assert_eq!(d((2026, 3, 1)).minus_days(1), Some(d((2026, 2, 28))));
    assert!(d((2026, 3, 1)).later_than(&d((2026, 2, 28))));
    for bad in ["2026-02-30", "2026-13-01", "2026-00-10", "2026-08-00", "2026-13-99", "today", "2026-08-1a", "", "--"] {
        assert_eq!(Date::parse(bad), None, "{bad:?}");
    }
    // A year beyond four digits is written with a sign and read back.
    let far = date_partition_utc(400_000_000_000).unwrap();
    assert!(far.text().starts_with('+'), "{}", far.text());
    assert_eq!(Date::parse(&far.text()), Some(far));
    let early = date_partition_utc(-70_000_000_000).unwrap();
    assert!(early.text().starts_with('-'), "{}", early.text());
    assert_eq!(Date::parse(&early.text()), Some(early));
}

#[test]
fn differences_of_indexes() {
    let mut a = TombstoneIndex::default();
    a.insert("same", false, d((2026, 8, 16)));
    a.insert("gone", false, d((2026, 8, 16)));
    let mut b = TombstoneIndex::default();
    b.insert("same", false, d((2026, 8, 16)));
    b.insert("new/", true, d((2026, 8, 16)));
    let diff = a.diff(&b);
    assert_eq!(diff.added.iter().map(|t| t.0.as_str()).collect::<Vec<_>>(), vec!["new/"]);
    assert_eq!(diff.removed.iter().map(|t| t.0.as_str()).collect::<Vec<_>>(), vec!["gone"]);
    let none = a.diff(&a);
    assert!(none.added.is_empty() && none.removed.is_empty());
}

#[test]
fn synthesized_i_len_counts_utf16_units() {
    let ascii = "C:\\docs\\a.txt";
    assert_eq!(synthesized_i_len(ascii), 8 + 8 + 8 + 4 + 2 * ascii.chars().count());
    let emoji = "C:\\文档\\😀.txt";
    let units = emoji.encode_utf16().count();
    assert_eq!(synthesized_i_len(emoji), 8 + 8 + 8 + 4 + 2 * units);
    assert!(units > emoji.chars().count());
}

#[test]
fn records_have_their_layout() {
    let bytes = synthesized_i_bytes(0x0102, 7, "a😀");
    assert_eq!(bytes.len(), synthesized_i_len("a😀"));
    assert_eq!(bytes[..8], [1, 0, 0, 0, 0, 0, 0, 0]);
    assert_eq!(bytes[8..10], [2, 1]);
    assert_eq!(bytes[16], 7);
    assert_eq!(bytes[24..28], [3, 0, 0, 0]);
    assert_eq!(bytes[28..30], [b'a', 0]);
    assert_eq!(unix_to_filetime(0), 0);
    assert_eq!(unix_to_filetime(-5), 0);
    assert_eq!(unix_to_filetime(1), 116_444_736_010_000_000);
    assert_eq!(filenum_100ns(d((1970, 1, 1))), 116_444_736_000_000_000);
    assert_eq!(filenum_100ns(d((1601, 1, 1))), 0);
}

#[test]
fn record_names_and_tags() {
    assert!(is_i_entry("$I4de00001a.txt"));
    assert!(!is_i_entry("$R4de00001a.txt"));
    assert_eq!(i_to_r_name("$I4de00001a.txt").as_deref(), Some("$R4de00001a.txt"));
    assert_eq!(r_to_i_name("$R4de00001a.txt").as_deref(), Some("$I4de00001a.txt"));
    assert_eq!(r_to_i_name("plain.txt"), None);
    assert!(etag_eq("\"AbC\"", "abc"));
    assert!(!etag_eq("\"abc\"", "abd"));
}
