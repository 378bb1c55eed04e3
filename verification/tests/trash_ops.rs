use ossfs::caches::FsCaches;
use ossfs::collect::{
    delete_batches, find_tombstone, needs_body, oldest_hit, partition_name, purge_keys, sort_partitions,
    tombs_of_keys, trash_list_entry, trash_restore,
};
use ossfs::date::Date;
use ossfs::entry::DirEntry;
use ossfs::gc::{doomed_objects, gc_cutoff, gc_partition, tomb_is_dir, trash_gc, GcBatch, GcFile, ListedObject};
use ossfs::metrics::Metrics;
use ossfs::recycle::NameFill;
use ossfs::restore::{
    permanent_delete_file, purge_resolved, purge_unresolved, tombs_of_key, OriginalObject, PurgeStep, RestoreAction,
    RestoreError,
};
use ossfs::system_trash::{SystemTrash, SystemTrashPlatform};
use ossfs::tombstone::encode_tombstone_key;
use ossfs::trash::{FullScan, PollEnd, RefreshStep, TrashRefreshMode, TrashState, TRASH_RETENTION_DAYS};
use ossfs::trash_ops::{clamp_size, etags_agree, GcOptions, GcReport, HeadInfo, RestoreOutcome};
use ossfs::trash_view::{
    is_conditional_write_failed, set_recycle_i, DirPlan, Resolution, StatPlan, TombstoneBody, MAX_RECYCLE_I_BYTES,
};

fn d(text: &str) -> Date {
    Date::parse(text).unwrap()
}

fn state(mode: TrashRefreshMode) -> TrashState {
    TrashState::new(".trash/".to_string(), mode, 30_000, 600_000, 86_400_000, TRASH_RETENTION_DAYS, 0)
}

fn win_state() -> TrashState {
    let mut s = state(TrashRefreshMode::Lazy);
    s.system = Some(SystemTrash {
        dir_name: "$Recycle.Bin".into(),
        platform: SystemTrashPlatform::WindowsRecycleBin,
        macos_uid_dirs: vec![],
        current_uid: 0,
    });
    s
}

fn body(recycle_name: Option<&str>, etag: Option<&str>, size: Option<u64>) -> TombstoneBody {
    TombstoneBody {
        etag: etag.map(str::to_string),
        size,
        is_dir: false,
        recycle_name: recycle_name.map(str::to_string),
        recycle_i: None,
    }
}

fn seed(s: &mut TrashState, key: &str, name: Option<&str>) {
    s.index.insert(key, false, d("2026-08-16"));
    if let Some(name) = name {
        let tomb = encode_tombstone_key(&s.prefix, d("2026-08-16"), key, false);
        s.recycle_names.assign(&tomb, key, name);
    }
}

#[test]
fn i_entry_has_r_tombstone_matrix() {
    let mut trash = win_state();
    assert!(!trash.i_entry_has_r_tombstone("$I4de00001a.txt"));
    trash.recycle_names.by_name.insert("$R4de00001a.txt".into(), "k".into());
    assert!(trash.i_entry_has_r_tombstone("$I4de00001a.txt"));
    trash.recycle_names.by_name.insert("$RDEADBEEF.bin".into(), "k".into());
    assert!(trash.i_entry_has_r_tombstone("$IDEADBEEF.bin"));
    assert!(!trash.i_entry_has_r_tombstone("$R4de00001a.txt"));
    assert!(!trash.i_entry_has_r_tombstone("$Ixyz.txt"));
    assert!(!trash.i_entry_has_r_tombstone("plain.txt"));
}

#[test]
fn apply_added_discards_stale_generation_snapshot() {
    let mut state = state(TrashRefreshMode::Lazy);
    let mut caches = FsCaches::new();
    let stale_gen = state.generation;
    state.generation += 1;
    let applied = state.apply_added(
        &mut caches,
        "",
        &vec![("x.txt".to_string(), false, d("2026-08-16"))],
        &vec![],
        stale_gen,
    );
    assert!(!applied);
    assert!(!state.index.is_covered("x.txt"));
    let cur_gen = state.generation;
    let applied = state.apply_added(
        &mut caches,
        "",
        &vec![("y.txt".to_string(), false, d("2026-08-16"))],
        &vec![],
        cur_gen,
    );
    assert!(applied);
    assert!(state.index.is_covered("y.txt"));
}

#[test]
fn a_record_is_kept_beside_what_the_tombstone_told() {
    let mut trash = win_state();
    seed(&mut trash, "docs/a.txt", Some("$R4de00001a.txt"));
    match trash.resolve_entry("$R4de00001a.txt") {
        Resolution::Found(e) => {
            assert_eq!(e.tomb_key, ".trash/2026-08-16/docs/a.txt");
            assert_eq!((e.original_key.as_str(), e.is_dir), ("docs/a.txt", false));
        }
        _ => panic!("the name is known"),
    }
    let bytes = vec![0x01u8, 0, 0, 0, 0x11, 0x22];
    let back = set_recycle_i(body(Some("$R4de00001a.txt"), Some("\"e-tag-1\""), Some(42)), &bytes);
    assert_eq!(back.recycle_i.as_deref(), Some(&bytes[..]));
    assert_eq!(back.etag.as_deref(), Some("\"e-tag-1\""));
    assert_eq!(back.size, Some(42));
    assert_eq!(back.recycle_name.as_deref(), Some("$R4de00001a.txt"));
    let back = set_recycle_i(back, &vec![9, 9]);
    assert_eq!(back.recycle_i.as_deref(), Some(&[9, 9][..]));
}

#[test]
fn long_records_are_cut() {
    let big = vec![0xABu8; MAX_RECYCLE_I_BYTES + 100];
    let back = set_recycle_i(body(None, None, None), &big);
    assert_eq!(back.recycle_i.unwrap().len(), MAX_RECYCLE_I_BYTES);
}

#[test]
fn a_failed_condition_is_told_from_other_failures() {
    assert!(is_conditional_write_failed(412));
    assert!(!is_conditional_write_failed(200));
    assert!(!is_conditional_write_failed(500));
}

#[test]
fn names_are_learned_while_looking_for_one() {
    let mut trash = win_state();
    seed(&mut trash, "docs/a.txt", None);
    assert!(matches!(trash.resolve_entry("$R4de00001a.txt"), Resolution::Scan));
    let e = trash.index.entries().remove(0);
    assert_eq!(trash.tomb_of_entry(&e), ".trash/2026-08-16/docs/a.txt");
    let hit = trash.scan_step(&e, Some("$R4de00001a.txt"), "$R4de00001a.txt").expect("the name matches");
    assert_eq!(hit.original_key, "docs/a.txt");
    assert_eq!(
        trash.recycle_names.tomb_of("$R4de00001a.txt").as_deref(),
        Some(".trash/2026-08-16/docs/a.txt")
    );
    assert!(matches!(trash.resolve_entry("$R4de00001a.txt"), Resolution::Found(_)));
}

#[test]
fn soft_deletes_hide_and_are_counted() {
    let mut trash = win_state();
    let mut caches = FsCaches::new();
    let mut metrics = Metrics::new();
    caches.stats.insert_bounded(
        "/docs/a.txt",
        DirEntry { name: "a.txt".into(), is_dir: false, size: 1, mtime_secs: 0 },
        0,
        10,
    );
    let key = trash.begin_soft_delete_file("p/", "/docs/a.txt").unwrap();
    assert_eq!(key, "p/docs/a.txt");
    assert!(trash.plan_file_tombstone(&key, None, d("2026-08-16"), None).is_none());
    let head = HeadInfo { etag: Some("e".into()), size: Some(-3) };
    let (tomb, tomb_body) =
        trash.plan_file_tombstone(&key, Some(head), d("2026-08-16"), Some("$R1.txt".into())).unwrap();
    assert_eq!(tomb, ".trash/2026-08-16/p/docs/a.txt");
    assert_eq!((tomb_body.size, tomb_body.is_dir), (Some(0), false));
    trash.commit_soft_delete_file(
        &mut caches,
        &mut metrics,
        "/docs/a.txt",
        &key,
        &tomb,
        d("2026-08-16"),
        &Some("$R1.txt".into()),
    );
    assert!(trash.index.is_covered(&key));
    assert!(!caches.stats.contains_key("/docs/a.txt"));
    assert_eq!(metrics.trash_tombstones_written, 1);
    assert_eq!(trash.recycle_names.name_of(&key).as_deref(), Some("$R1.txt"));
    assert!(trash.begin_soft_delete_file("p/", "/docs/a.txt").is_none(), "already in the trash");

    let (dir_key, tomb, dir_body) = trash.plan_dir_tombstone("p/", "/docs", d("2026-08-16"), None).unwrap();
    assert_eq!((dir_key.as_str(), tomb.as_str()), ("p/docs/", ".trash/2026-08-16/p/docs/"));
    assert!(dir_body.is_dir && dir_body.etag.is_none());
    trash.commit_soft_delete_dir(&mut caches, &mut metrics, "/docs", &dir_key, &tomb, d("2026-08-16"), &None);
    assert!(trash.index.is_covered("p/docs/other.txt"));
    assert_eq!(trash.index_entries, 2);
}

#[test]
fn refreshes_take_turns() {
    let mut s = state(TrashRefreshMode::Eager);
    assert_eq!(s.begin_refresh(1), RefreshStep::Incremental);
    assert_eq!(s.begin_refresh(2), RefreshStep::Skip);
    s.end_refresh();
    assert_eq!(s.begin_refresh(600_000), RefreshStep::Rebuild);
    s.end_refresh();
    assert!(s.full_rebuild_due(600_000) && !s.full_rebuild_due(599_999));
    assert!(s.begin_eager(1_000_000));
    assert!(!s.begin_eager(1_000_999));
}

#[test]
fn an_incremental_refresh_enters_what_is_new() {
    let mut s = win_state();
    let mut caches = FsCaches::new();
    let mut metrics = Metrics::new();
    let mut scan = s.begin_poll(d("2026-08-16"));
    assert_eq!(scan.today_prefix, ".trash/2026-08-16/");
    scan.today_page(".trash/", &vec![".trash/2026-08-16/a.txt".to_string(), ".trash/junk".to_string()]);
    scan.other_page(".trash/", &vec![".trash/2026-08-15/b/".to_string()]);
    let fills = vec![NameFill {
        tomb_key: ".trash/2026-08-16/a.txt".into(),
        name: "$R1.txt".into(),
        key: "a.txt".into(),
    }];
    let gen_now = s.generation;
    let end = s.finish_poll(&mut caches, &mut metrics, "", scan, &fills, gen_now, 5);
    assert!(matches!(end, PollEnd::Done));
    assert!(s.index.is_covered("a.txt") && s.index.is_covered("b/x"));
    assert_eq!(s.recycle_names.name_of("a.txt").as_deref(), Some("$R1.txt"));
    assert_eq!(s.cursor.as_deref(), Some(".trash/2026-08-15/b/"), "the last key outside of today's partition");
}

#[test]
fn a_rebuild_replaces_the_index() {
    let mut s = win_state();
    let mut caches = FsCaches::new();
    let mut metrics = Metrics::new();
    s.index.insert("old.txt", false, d("2026-08-01"));
    let mut scan = FullScan::new();
    scan.page(".trash/", &vec![".trash/2026-08-16/a.txt".to_string(), ".trash/2026-08-16/dir/".to_string()]);
    let index = scan.index();
    let diff = s.index.diff(&index);
    s.commit_rebuild(&mut caches, &mut metrics, "", index, scan.last_key, &diff, &vec![], 77);
    assert!(!s.index.is_covered("old.txt"));
    assert!(s.index.is_covered("dir/x") && s.index.is_covered("a.txt"));
    assert_eq!((s.last_full_rebuild, metrics.trash_refresh_rebuilds), (77, 1));
}

#[test]
fn the_recycle_bin_is_listed_and_looked_up() {
    let mut s = win_state();
    seed(&mut s, "docs/a.txt", Some("$R4de00001a.txt"));
    s.record_seen_sid("/$Recycle.Bin/S-1");
    match s.synthesize_dir_entries("", "/$Recycle.Bin") {
        DirPlan::Done(list) => assert_eq!(list.iter().map(|e| e.name.as_str()).collect::<Vec<_>>(), vec!["S-1"]),
        DirPlan::Part(_) => panic!("the root is listed at once"),
    }
    let pending = match s.synthesize_dir_entries("", "/$Recycle.Bin/S-1") {
        DirPlan::Part(p) => p,
        DirPlan::Done(_) => panic!("a part is listed by its entries"),
    };
    assert_eq!((pending.len(), pending[0].cold), (1, false));
    let names: Vec<String> = s.finish_part("", &pending).into_iter().map(|e| e.name).collect();
    assert!(names.contains(&"$R4de00001a.txt".to_string()), "{names:?}");
    let plan = s.synthesize_stat("/$Recycle.Bin/S-1/$R4de00001a.txt");
    assert!(matches!(&plan, StatPlan::ReadSize { .. }));
    let e = s.finish_stat("", plan, Some(&body(None, None, Some(42)))).unwrap();
    assert_eq!((e.name.as_str(), e.size, e.is_dir), ("$R4de00001a.txt", 42, false));
    assert!(matches!(s.synthesize_stat("/$Recycle.Bin/S-1/nope"), StatPlan::Absent));
}

#[test]
fn records_are_made_up_or_captured() {
    let mut s = win_state();
    seed(&mut s, "docs/a.txt", Some("$R4de00001a.txt"));
    let entry = match s.resolve_entry("$R4de00001a.txt") {
        Resolution::Found(e) => e,
        _ => panic!("known"),
    };
    let made_up = s.synthesize_i_file("", &entry, &body(None, None, Some(42))).unwrap();
    assert_eq!(made_up[8], 42);
    let captured = set_recycle_i(body(None, None, Some(42)), &vec![5, 6]);
    assert_eq!(s.synthesize_i_file("", &entry, &captured), Some(vec![5, 6]));
}

#[test]
fn restores_choose_between_clearing_and_copying() {
    let mut s = win_state();
    seed(&mut s, "docs/a.txt", Some("$R4de00001a.txt"));
    assert_eq!(s.restore_source("/docs/a.txt"), Err(RestoreError::NotAnEntry));
    assert_eq!(s.restore_source("/$Recycle.Bin/S-1/$I4de00001a.txt"), Err(RestoreError::IsRecord));
    assert_eq!(s.restore_source("/$Recycle.Bin/S-1/$R4de00001a.txt").as_deref(), Ok("$R4de00001a.txt"));
    assert!(matches!(s.plan_restore("", None, "/docs/a.txt"), Err(RestoreError::EntryNotFound)));
    let back = s.plan_restore("", Some("docs/a.txt".into()), "/docs/a.txt").unwrap();
    assert!(back.same_place);
    assert!(matches!(
        back.next(OriginalObject::File { size: Some(1) }, true, 0, None),
        Ok(RestoreAction::ClearSource { .. })
    ));
    let moved = s.plan_restore("", Some("docs/a.txt".into()), "/other.txt").unwrap();
    assert_eq!(moved.next(OriginalObject::File { size: Some(1) }, true, 0, None), Ok(RestoreAction::CopyObject));
    assert!(matches!(
        moved.next(OriginalObject::File { size: Some(6 << 30) }, true, 0, None),
        Ok(RestoreAction::CopyParts { .. })
    ));
    assert!(matches!(
        s.plan_restore("", Some("docs/".into()), "/docs/sub"),
        Err(RestoreError::OwnSubtree)
    ));
    s.index.insert("gone/", true, d("2026-08-16"));
    assert!(matches!(
        s.plan_restore("", Some("docs/a.txt".into()), "/gone/a.txt"),
        Err(RestoreError::TargetInTrash)
    ));
    assert!(s.is_ancestor_covered("gone/a/b"));
}

#[test]
fn purging_spares_what_was_changed() {
    assert!(matches!(purge_unresolved("", "/x", true, true), Some(PurgeStep::Nothing)));
    assert!(matches!(purge_unresolved("p/", "/x", false, false), Some(PurgeStep::DeleteReal { key }) if key == "p/x"));
    assert!(purge_unresolved("", "/x", false, true).is_none());
    assert!(matches!(purge_resolved("", "d/", true, false), PurgeStep::ClearOnly));
    assert!(matches!(purge_resolved("p/", "p/d/", true, true), PurgeStep::DeleteTree { path } if path == "/d"));
    let tag = |s: &str| Some(Some(s.to_string()));
    assert!(permanent_delete_file(&None, &tag("a")));
    assert!(permanent_delete_file(&tag("a"), &tag("\"A\"")));
    assert!(!permanent_delete_file(&tag("a"), &tag("b")));
    assert!(!permanent_delete_file(&tag("a"), &None));
    assert!(etags_agree(&None, &Some("x".into())));
    assert!(!etags_agree(&Some("x".into()), &None));
    assert_eq!((clamp_size(-1), clamp_size(7)), (0, 7));
}

#[test]
fn tombstones_are_found_among_listed_names() {
    let page: Vec<String> = [
        ".trash/2026-08-16/docs/a.txt",
        ".trash/2026-08-15/docs/a.txt/",
        ".trash/2026-08-16/docs/b.txt",
        ".trash/junk",
    ]
    .iter()
    .map(|s| s.to_string())
    .collect();
    let mut out = Vec::new();
    tombs_of_key(".trash/", &page, "docs/a.txt", &mut out);
    tombs_of_key(".trash/", &page, "docs/a.txt/", &mut out);
    assert_eq!(out, page[..2]);
    let bare = purge_keys(&vec![("docs/b.txt".to_string(), false, d("2026-08-16"))]);
    let mut out = Vec::new();
    tombs_of_keys(".trash/", &page, &bare, &mut out);
    assert_eq!(out, vec![".trash/2026-08-16/docs/b.txt".to_string()]);
    let mut hits = Vec::new();
    find_tombstone(".trash/", &page, "docs/a.txt", &mut hits);
    find_tombstone(".trash/", &page, "docs/a.txt/", &mut hits);
    assert_eq!(hits.len(), 2);
    assert_eq!(oldest_hit(&hits).map(|h| h.0.text()), Some("2026-08-15".to_string()));
    assert_eq!(oldest_hit(&vec![]), None);
    assert_eq!(tomb_is_dir(".trash/", &page[1]), Some(true));
    assert_eq!(tomb_is_dir(".trash/", &page[3]), None);
    assert!(needs_body(".trash/", &page[0]) && !needs_body(".trash/", &page[1]));
    let entry = trash_list_entry(".trash/", "", &page[0], Some(body(None, Some("e"), Some(3)))).unwrap();
    assert_eq!((entry.path.as_str(), entry.size, entry.is_dir), ("docs/a.txt", Some(3), false));
}

#[test]
fn deletions_come_in_batches() {
    let keys: Vec<String> = (0..2500).map(|i| format!("k{i}")).collect();
    let batches = delete_batches(&keys);
    assert_eq!(batches.iter().map(|b| b.len()).collect::<Vec<_>>(), vec![1000, 1000, 500]);
    assert_eq!(batches.concat(), keys);
    assert!(delete_batches(&vec![]).is_empty());
}

#[test]
fn restoring_by_command_reports_what_it_found() {
    let tag = |s: &str| Some(Some(s.to_string()));
    assert_eq!(trash_restore(false, 1, &None, &tag("a")), RestoreOutcome::OriginalGone);
    assert_eq!(
        trash_restore(false, 2, &tag("b"), &tag("a")),
        RestoreOutcome::Restored { etag_mismatch: true, multiple_versions: true }
    );
    assert_eq!(
        trash_restore(true, 1, &None, &None),
        RestoreOutcome::Restored { etag_mismatch: false, multiple_versions: false }
    );
    assert_eq!(partition_name(".trash/", ".trash/2026-08-16/").as_deref(), Some("2026-08-16"));
    assert_eq!(partition_name(".trash/", ".trash/"), None);
    let parts = vec!["2026-08-15".to_string(), "2026-08-16".to_string(), "2026-08-15".to_string()];
    assert_eq!(sort_partitions(&parts), vec!["2026-08-16".to_string(), "2026-08-15".to_string()]);
}

#[test]
fn collections_keep_to_the_retention() {
    let today = d("2026-08-16");
    let opts = |before: Option<&str>| GcOptions { before: before.map(d), dry_run: false };
    assert!(trash_gc(true, today, &opts(None), 30).is_none(), "a read-only mount collects nothing");
    assert_eq!(trash_gc(false, today, &opts(None), 30), Some(d("2026-07-17")));
    assert_eq!(trash_gc(false, today, &opts(Some("2026-07-01")), 30), Some(d("2026-07-01")));
    assert_eq!(gc_cutoff(today, Some(d("2026-08-30")), 30), d("2026-07-17"));
    assert_eq!(gc_partition("2026-07-16", d("2026-07-17")), Some(d("2026-07-16")));
    assert_eq!(gc_partition("2026-07-17", d("2026-07-17")), None);
    assert_eq!(gc_partition("junk", d("2026-07-17")), None);
}

#[test]
fn collections_delete_what_was_not_changed() {
    let mut trash = win_state();
    let mut caches = FsCaches::new();
    let mut metrics = Metrics::new();
    let mut report = GcReport::default();
    let mut batch = GcBatch::new();
    seed(&mut trash, "a", None);
    seed(&mut trash, "b", None);
    let part = ".trash/2026-08-16/";
    let tag = |s: &str| Some(Some(s.to_string()));
    let mut step = |tomb: &str, etag: &Option<Option<String>>, head: &Option<Option<String>>| {
        batch.step(&mut report, &mut metrics, part, tomb, etag, head)
    };
    assert_eq!(step(".trash/2026-08-16/a", &tag("x"), &tag("x")), GcFile::Remove);
    assert_eq!(step(".trash/2026-08-16/b", &tag("x"), &tag("y")), GcFile::KeepChanged);
    assert_eq!(step(".trash/2026-08-16/c", &tag("x"), &None), GcFile::TombstoneOnly);
    assert_eq!(step(".trash/2026-08-16/e", &None, &None), GcFile::Gone);
    assert_eq!((report.files_removed, report.files_skipped_etag, report.files_tombstone_only), (1, 1, 1));
    assert_eq!(metrics.trash_gc_etag_skips, 1);
    trash.finish_gc_files(&mut caches, &mut report, "", &batch, false);
    assert!(!trash.index.is_covered("a") && trash.index.is_covered("b"));
    assert_eq!(report.tombstones_deleted, 2);
    let before = trash.generation;
    trash.finish_gc(true);
    assert_eq!(trash.generation, before);
    trash.finish_gc(false);
    assert!(trash.is_stale(before));
}

#[test]
fn a_collected_directory_spares_what_came_later() {
    let objects = vec![
        ListedObject { key: "d/old".into(), modified_secs: Some(d("2026-08-15").midnight()) },
        ListedObject { key: "d/new".into(), modified_secs: Some(d("2026-08-18").midnight()) },
    ];
    let mut out = Vec::new();
    doomed_objects(&objects, d("2026-08-16"), &mut out);
    assert_eq!(out, vec!["d/old".to_string()]);
}
