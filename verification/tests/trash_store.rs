use std::collections::BTreeMap;

use ossfs::caches::FsCaches;
use ossfs::collect::{
    delete_batches, find_tombstone, latest_left, oldest_hit, purge_keys, tombs_of_keys, trash_restore,
};
use ossfs::date::Date;
use ossfs::entry::DirEntry;
use ossfs::gc::{doomed_objects, gc_partition, trash_gc, GcBatch, GcFile, ListedObject};
use ossfs::metrics::Metrics;
use ossfs::paths::key_for;
use ossfs::restore::{
    permanent_delete_file, purge_resolved, restore_invalidate, tombs_of_key, OriginalObject, PurgeStep,
    RestoreAction,
};
use ossfs::system_trash::{i_to_r_name, SystemTrash, SystemTrashPlatform};
use ossfs::tombstone::{decode_tombstone_key, encode_tombstone_key, to_dir_form};
use ossfs::trash::{TrashRefreshMode, TrashState, TRASH_RETENTION_DAYS};
use ossfs::trash_ops::{GcOptions, GcReport, HeadInfo, RestoreOutcome};
use ossfs::trash_view::{
    is_conditional_write_failed, set_recycle_i, DirPlan, Resolution, ResolvedEntry, TombstoneBody,
    MAX_RECYCLE_I_BYTES,
};

fn d(text: &str) -> Date {
    Date::parse(text).unwrap()
}

fn win_state() -> TrashState {
    let mut s = TrashState::new(
        ".trash/".to_string(),
        TrashRefreshMode::Lazy,
        30_000,
        600_000,
        86_400_000,
        TRASH_RETENTION_DAYS,
        0,
    );
    s.system = Some(SystemTrash {
        dir_name: "$Recycle.Bin".into(),
        platform: SystemTrashPlatform::WindowsRecycleBin,
        macos_uid_dirs: vec![],
        current_uid: 0,
    });
    s
}

struct Object {
    etag: String,
    size: i64,
    modified_secs: i64,
}

/// A trash and a store that is kept in memory.
struct Bin {
    trash: TrashState,
    caches: FsCaches,
    metrics: Metrics,
    objects: BTreeMap<String, Object>,
    tombs: BTreeMap<String, TombstoneBody>,
    puts: Vec<String>,
    reads: usize,
    precondition_fails: bool,
    today: Date,
}

fn copy(b: &TombstoneBody) -> TombstoneBody {
    TombstoneBody {
        etag: b.etag.clone(),
        size: b.size,
        is_dir: b.is_dir,
        recycle_name: b.recycle_name.clone(),
        recycle_i: b.recycle_i.clone(),
    }
}

impl Bin {
    fn new() -> Bin {
        Bin {
            trash: win_state(),
            caches: FsCaches::new(),
            metrics: Metrics::new(),
            objects: BTreeMap::new(),
            tombs: BTreeMap::new(),
            puts: Vec::new(),
            reads: 0,
            precondition_fails: false,
            today: d("2026-08-16"),
        }
    }

    fn object(&mut self, key: &str, etag: &str, day: &str) {
        let modified_secs = d(day).midnight();
        self.objects.insert(key.to_string(), Object { etag: etag.to_string(), size: 5, modified_secs });
    }

    fn seed(&mut self, key: &str, name: Option<&str>, etag: Option<&str>, size: Option<u64>) {
        self.trash.index.insert(key, false, d("2026-08-16"));
        let tomb_key = encode_tombstone_key(&self.trash.prefix, d("2026-08-16"), key, false);
        if let Some(name) = name {
            self.trash.recycle_names.by_name.insert(name.to_string(), tomb_key.clone());
            self.trash.recycle_names.by_key.insert(key.to_string(), name.to_string());
        }
        let body = TombstoneBody {
            etag: etag.map(str::to_string),
            size,
            is_dir: false,
            recycle_name: name.map(str::to_string),
            recycle_i: None,
        };
        self.tombs.insert(tomb_key, body);
    }

    fn read_tombstone(&mut self, tomb_key: &str) -> Option<TombstoneBody> {
        self.reads += 1;
        self.tombs.get(tomb_key).map(copy)
    }

    fn resolve(&mut self, name: &str) -> Option<ResolvedEntry> {
        match self.trash.resolve_entry(name) {
            Resolution::Found(e) => return Some(e),
            Resolution::Missing => return None,
            Resolution::Scan => {}
        }
        for e in &self.trash.unnamed_entries() {
            let tomb_key = self.trash.tomb_of_entry(e);
            let Some(body) = self.read_tombstone(&tomb_key) else { continue };
            let found = self.trash.scan_step(e, body.recycle_name.as_deref(), name);
            if found.is_some() {
                return found;
            }
        }
        None
    }

    fn set_recycle_i(&mut self, entry_name: &str, bytes: Vec<u8>) {
        let Some(name) = i_to_r_name(entry_name) else { return };
        let Some(entry) = self.resolve(&name) else { return };
        let Some(body) = self.read_tombstone(&entry.tomb_key) else { return };
        let status = if self.precondition_fails { 412 } else { 200 };
        if !is_conditional_write_failed(status) {
            self.puts.push(entry.tomb_key.clone());
            self.tombs.insert(entry.tomb_key, set_recycle_i(body, &bytes));
        }
    }

    fn record(&self) -> Option<&[u8]> {
        self.tombs[".trash/2026-08-16/docs/a.txt"].recycle_i.as_deref()
    }

    fn soft_delete(&mut self, path: &str, name: Option<&str>) {
        let Some(key) = self.trash.begin_soft_delete_file("", path) else { return };
        let head = self.objects.get(&key).map(|o| HeadInfo { etag: Some(o.etag.clone()), size: Some(o.size) });
        let name = name.map(str::to_string);
        let planned = self.trash.plan_file_tombstone(&key, head, self.today, name.clone());
        let Some((tomb_key, body)) = planned else { return };
        self.tombs.insert(tomb_key.clone(), body);
        self.trash.commit_soft_delete_file(
            &mut self.caches,
            &mut self.metrics,
            path,
            &key,
            &tomb_key,
            self.today,
            &name,
        );
    }

    fn soft_delete_dir(&mut self, dir: &str) {
        let Some((key, tomb_key, body)) = self.trash.plan_dir_tombstone("", dir, self.today, None) else { return };
        self.tombs.insert(tomb_key.clone(), body);
        self.trash.commit_soft_delete_dir(
            &mut self.caches,
            &mut self.metrics,
            dir,
            &key,
            &tomb_key,
            self.today,
            &None,
        );
    }

    fn names(&self) -> Vec<String> {
        self.tombs.keys().cloned().collect()
    }

    fn clear_both_forms(&mut self, key: &str) {
        let dir_key = to_dir_form(key);
        let mut tombs = Vec::new();
        for form in [dir_key.trim_end_matches('/'), dir_key.as_str()] {
            tombs_of_key(&self.trash.prefix, &self.names(), form, &mut tombs);
        }
        for t in &tombs {
            self.tombs.remove(t);
        }
        self.trash.commit_clear(key, &tombs);
    }

    fn head(&self, key: &str) -> Option<Option<String>> {
        self.objects.get(key).map(|o| Some(o.etag.clone()))
    }

    fn purge_original(&mut self, key: &str, is_dir: bool, tomb_key: &str) {
        let there = !is_dir || self.tombs.contains_key(tomb_key);
        match purge_resolved("", key, is_dir, there) {
            PurgeStep::DeleteTree { path } => {
                let prefix = format!("{}/", key_for("", &path));
                self.objects.retain(|k, _| !k.starts_with(&prefix));
            }
            PurgeStep::CheckFile => {
                let head = self.head(key);
                let tag = self.tombs.get(tomb_key).map(|b| b.etag.clone());
                if permanent_delete_file(&head, &tag) {
                    self.objects.remove(key);
                }
            }
            PurgeStep::ClearOnly => {}
            other => panic!("{other:?}"),
        }
    }

    fn purge_all(&mut self) {
        let entries = self.trash.index.entries();
        for e in &entries {
            let tomb_key = self.trash.tomb_of_entry(e);
            self.purge_original(&e.0, e.1, &tomb_key);
        }
        let keys = purge_keys(&entries);
        let mut doomed = Vec::new();
        tombs_of_keys(&self.trash.prefix, &self.names(), &keys, &mut doomed);
        for batch in delete_batches(&doomed) {
            for t in &batch {
                self.tombs.remove(t);
            }
        }
        self.trash.commit_purge(&mut self.caches, "", &entries, &doomed);
    }

    fn restore(&mut self, path: &str, date: Option<Date>) -> RestoreOutcome {
        let key = key_for("", path);
        let dir_key = to_dir_form(&key);
        let mut hits = Vec::new();
        for form in [dir_key.trim_end_matches('/'), dir_key.as_str()] {
            find_tombstone(&self.trash.prefix, &self.names(), form, &mut hits);
        }
        let all = hits.clone();
        if let Some(date) = date {
            hits.retain(|h| h.0 == date);
        }
        let Some((date, is_dir)) = oldest_hit(&hits) else { return RestoreOutcome::NoTombstone };
        let tomb_key = self.trash.restored_tomb(&key, date, is_dir);
        let head = if is_dir { None } else { self.head(&key) };
        let tag = self.tombs.get(&tomb_key).map(|b| b.etag.clone());
        let outcome = trash_restore(is_dir, hits.len(), &head, &tag);
        self.tombs.remove(&tomb_key);
        let left = latest_left(&all, date, is_dir);
        self.trash.commit_restore(&mut self.caches, path, &key, is_dir, &tomb_key, left);
        outcome
    }

    fn gc(&mut self, opts: GcOptions) -> GcReport {
        let mut report = GcReport::default();
        let Some(cutoff) = trash_gc(false, self.today, &opts, self.trash.retention_days) else { return report };
        let mut partitions: Vec<String> =
            self.names().iter().map(|n| n.split('/').nth(1).unwrap().to_string()).collect();
        partitions.dedup();
        for partition in partitions {
            let Some(date) = gc_partition(&partition, cutoff) else { continue };
            let prefix = format!("{}{partition}/", self.trash.prefix);
            let names: Vec<String> = self.names().into_iter().filter(|n| n.starts_with(&prefix)).collect();
            let mut batch = GcBatch::new();
            for name in names.iter().filter(|n| !n.ends_with('/')) {
                let key = decode_tombstone_key(&self.trash.prefix, name).unwrap().original_key;
                let tag = self.tombs.get(name).map(|b| b.etag.clone());
                let head = self.head(&key);
                let step = batch.step(&mut report, &mut self.metrics, &prefix, name, &tag, &head);
                if step == GcFile::Remove && !opts.dry_run {
                    self.objects.remove(&key);
                }
            }
            if !opts.dry_run {
                for t in &batch.tomb_keys {
                    self.tombs.remove(t);
                }
            }
            self.trash.finish_gc_files(&mut self.caches, &mut report, "", &batch, opts.dry_run);
            for name in names.iter().filter(|n| n.ends_with('/')) {
                let key = decode_tombstone_key(&self.trash.prefix, name).unwrap().original_key;
                let listed: Vec<ListedObject> = self
                    .objects
                    .iter()
                    .filter(|(k, _)| k.starts_with(&key))
                    .map(|(k, o)| ListedObject { key: k.clone(), modified_secs: Some(o.modified_secs) })
                    .collect();
                let mut doomed = Vec::new();
                doomed_objects(&listed, date, &mut doomed);
                if !opts.dry_run {
                    for k in &doomed {
                        self.objects.remove(k);
                    }
                    self.tombs.remove(name);
                }
                let n = doomed.len() as u64;
                self.trash.finish_gc_dir(&mut self.caches, &mut report, "", &key, date, n, opts.dry_run);
            }
        }
        self.trash.finish_gc(opts.dry_run);
        report
    }
}

#[test]
fn set_recycle_i_condition_failed_does_not_resurrect_ghost() {
    let mut bin = Bin::new();
    bin.seed("docs/a.txt", Some("$R4de00001a.txt"), None, None);
    bin.precondition_fails = true;
    bin.set_recycle_i("$I4de00001a.txt", vec![0x01, 0x02]);
    assert_eq!(bin.record(), None);
    bin.precondition_fails = false;
    bin.set_recycle_i("$I4de00001a.txt", vec![0x03]);
    assert_eq!(bin.record(), Some(&[0x03][..]));
}

#[test]
fn set_recycle_i_updates_tombstone_body_preserving_etag_size() {
    let mut bin = Bin::new();
    bin.seed("docs/a.txt", Some("$R4de00001a.txt"), Some("\"e-tag-1\""), Some(42));
    let bytes = vec![0x01u8, 0, 0, 0, 0x11, 0x22];
    bin.set_recycle_i("$I4de00001a.txt", bytes.clone());
    assert_eq!(bin.record(), Some(&bytes[..]));
    let back = &bin.tombs[".trash/2026-08-16/docs/a.txt"];
    assert_eq!(back.etag.as_deref(), Some("\"e-tag-1\""));
    assert_eq!(back.size, Some(42));
    assert_eq!(back.recycle_name.as_deref(), Some("$R4de00001a.txt"));
    assert_eq!(bin.puts.len(), 1);
    assert!(!bin.puts[0].contains("$I4de00001a"));
    bin.set_recycle_i("$I4de00001a.txt", vec![9, 9]);
    assert_eq!(bin.record(), Some(&[9, 9][..]));
}

#[test]
fn set_recycle_i_truncates_over_4k() {
    let mut bin = Bin::new();
    bin.seed("docs/a.txt", Some("$R4de00001a.txt"), None, None);
    bin.set_recycle_i("$I4de00001a.txt", vec![0xABu8; MAX_RECYCLE_I_BYTES + 100]);
    assert_eq!(bin.record().unwrap().len(), MAX_RECYCLE_I_BYTES);
}

#[test]
fn set_recycle_i_missing_tombstone_is_noop() {
    let mut bin = Bin::new();
    bin.set_recycle_i("$Ideadbeef.txt", vec![1, 2, 3]);
    assert_eq!((bin.reads, bin.puts.len()), (0, 0));
    bin.set_recycle_i("random.txt", vec![1]);
    assert_eq!((bin.reads, bin.puts.len()), (0, 0));
}

#[test]
fn set_recycle_i_cold_scan_fills_by_key_uncovered() {
    let mut bin = Bin::new();
    bin.seed("docs/a.txt", Some("$R4de00001a.txt"), None, None);
    bin.trash.recycle_names.by_name.clear();
    bin.trash.recycle_names.by_key.clear();
    let bytes = vec![7u8, 7, 7];
    bin.set_recycle_i("$I4de00001a.txt", bytes.clone());
    assert_eq!(bin.record(), Some(&bytes[..]));
    assert!(bin.trash.recycle_names.by_name.contains_key("$R4de00001a.txt"));
}

#[test]
fn what_is_deleted_comes_back() {
    let mut bin = Bin::new();
    bin.object("docs/a.txt", "e1", "2026-08-01");
    bin.soft_delete("/docs/missing.txt", None);
    assert!(bin.trash.index.is_empty(), "what does not exist leaves no tombstone");
    bin.soft_delete("/docs/a.txt", Some("$R1.txt"));
    assert!(bin.trash.index.is_covered("docs/a.txt"));
    assert_eq!(
        bin.restore("/docs/a.txt", None),
        RestoreOutcome::Restored { etag_mismatch: false, multiple_versions: false }
    );
    assert!(!bin.trash.index.is_covered("docs/a.txt"));
    assert!(bin.trash.recycle_names.tomb_of("$R1.txt").is_none());
    assert_eq!(bin.restore("/docs/a.txt", None), RestoreOutcome::NoTombstone);

    bin.soft_delete("/docs/a.txt", None);
    bin.object("docs/a.txt", "e2", "2026-08-16");
    assert_eq!(
        bin.restore("/docs/a.txt", Some(d("2026-08-16"))),
        RestoreOutcome::Restored { etag_mismatch: true, multiple_versions: false }
    );
    bin.soft_delete("/docs/a.txt", None);
    bin.objects.clear();
    assert_eq!(bin.restore("/docs/a.txt", None), RestoreOutcome::OriginalGone);
    bin.soft_delete_dir("/docs");
    assert!(bin.trash.index.is_covered("docs/x/y"));
    assert_eq!(
        bin.restore("/docs", None),
        RestoreOutcome::Restored { etag_mismatch: false, multiple_versions: false }
    );
    assert!(bin.trash.index.is_empty() && bin.tombs.is_empty());
    assert_eq!(bin.trash.index_entries, 0);
}

#[test]
fn a_key_stays_hidden_while_tombstones_of_it_are_left() {
    let mut bin = Bin::new();
    bin.object("a.txt", "e1", "2026-08-01");
    for day in ["2026-08-10", "2026-08-12", "2026-08-16"] {
        let tomb_key = encode_tombstone_key(&bin.trash.prefix, d(day), "a.txt", false);
        let body = TombstoneBody { etag: None, size: None, is_dir: false, recycle_name: None, recycle_i: None };
        bin.tombs.insert(tomb_key, body);
        bin.trash.index.insert("a.txt", false, d(day));
    }
    let several = RestoreOutcome::Restored { etag_mismatch: false, multiple_versions: true };
    let single = RestoreOutcome::Restored { etag_mismatch: false, multiple_versions: false };
    let date = |bin: &Bin| bin.trash.index.entries().iter().map(|e| e.2).collect::<Vec<Date>>();
    assert_eq!(bin.restore("/a.txt", None), several);
    assert_eq!(bin.names(), vec![".trash/2026-08-12/a.txt", ".trash/2026-08-16/a.txt"]);
    assert!(bin.trash.index.is_covered("a.txt"));
    assert_eq!(date(&bin), vec![d("2026-08-16")]);
    assert_eq!(bin.restore("/a.txt", Some(d("2026-08-16"))), single);
    assert!(bin.trash.index.is_covered("a.txt"));
    assert_eq!(date(&bin), vec![d("2026-08-12")]);
    assert_eq!(bin.restore("/a.txt", None), single);
    assert!(bin.trash.index.is_empty() && bin.tombs.is_empty());
}

#[test]
fn a_directory_stays_hidden_while_a_later_tombstone_is_left() {
    let mut bin = Bin::new();
    let (first, second) = (d("2026-08-10"), d("2026-08-12"));
    bin.trash.index.insert("docs", true, second);
    bin.trash.index.insert("other", true, first);
    let mut report = GcReport::default();
    bin.trash.finish_gc_dir(&mut bin.caches, &mut report, "", "docs/", first, 0, false);
    assert!(bin.trash.index.is_covered("docs/x.txt"));
    bin.trash.finish_gc_dir(&mut bin.caches, &mut report, "", "other/", first, 0, false);
    assert!(!bin.trash.index.is_covered("other/x.txt"));
    bin.trash.finish_gc_dir(&mut bin.caches, &mut report, "", "docs/", second, 0, false);
    assert!(bin.trash.index.is_empty());
    assert_eq!((report.dirs_removed, report.tombstones_deleted), (3, 3));
}

#[test]
fn only_tombstones_of_the_same_kind_are_left() {
    let hits = vec![(d("2026-08-10"), false), (d("2026-08-12"), true), (d("2026-08-11"), false)];
    assert_eq!(latest_left(&hits, d("2026-08-10"), false), Some(d("2026-08-11")));
    assert_eq!(latest_left(&hits, d("2026-08-11"), false), Some(d("2026-08-10")));
    assert_eq!(latest_left(&hits, d("2026-08-12"), true), None);
    assert_eq!(latest_left(&vec![], d("2026-08-12"), true), None);
}

#[test]
fn tombstones_whose_names_are_known_are_not_read_again() {
    let mut bin = Bin::new();
    bin.seed("docs/a.txt", Some("$R1.txt"), None, None);
    bin.seed("docs/b.txt", Some("$R2.txt"), None, None);
    bin.seed("docs/c.txt", None, None, None);
    bin.trash.recycle_names.by_name.remove("$R2.txt");
    bin.trash.recycle_names.by_key.remove("docs/b.txt");
    let unnamed: Vec<String> = bin.trash.unnamed_entries().into_iter().map(|e| e.0).collect();
    assert_eq!(unnamed, vec!["docs/b.txt", "docs/c.txt"]);
    assert!(bin.resolve("$R9.txt").is_none());
    assert_eq!(bin.reads, 2);
    assert_eq!(bin.resolve("$R2.txt").unwrap().original_key, "docs/b.txt");
    assert_eq!(bin.reads, 2, "the name was learned in the search before");
    assert!(bin.resolve("$R9.txt").is_none());
    assert_eq!(bin.reads, 3);
}

#[test]
fn emptying_the_trash_leaves_nothing_hidden() {
    let mut bin = Bin::new();
    for key in ["a.txt", "changed.txt", "dir/x.txt", "dir/y/z.txt", "kept.txt"] {
        bin.object(key, "e1", "2026-08-01");
    }
    bin.soft_delete("/a.txt", Some("$R1.txt"));
    bin.soft_delete("/changed.txt", None);
    bin.soft_delete_dir("/dir");
    bin.object("changed.txt", "e2", "2026-08-16");
    assert_eq!(bin.trash.index.len(), 3);
    bin.caches.stats.insert_bounded(
        "/dir/x.txt",
        DirEntry { name: "x.txt".into(), is_dir: false, size: 5, mtime_secs: 0 },
        0,
        10,
    );
    bin.purge_all();
    assert!(bin.trash.index.is_empty() && bin.tombs.is_empty());
    assert!(bin.trash.recycle_names.tomb_of("$R1.txt").is_none());
    assert_eq!(bin.objects.keys().cloned().collect::<Vec<_>>(), vec!["changed.txt", "kept.txt"]);
    assert!(!bin.caches.stats.contains_key("/dir/x.txt"));
}

#[test]
fn collections_delete_what_is_old_and_unchanged() {
    let mut bin = Bin::new();
    bin.today = d("2026-06-01");
    for key in ["old.txt", "changed.txt", "gone.txt", "dir/x.txt"] {
        bin.object(key, "e1", "2026-05-01");
    }
    for path in ["/old.txt", "/changed.txt", "/gone.txt"] {
        bin.soft_delete(path, None);
    }
    bin.soft_delete_dir("/dir");
    bin.today = d("2026-08-16");
    bin.object("recent.txt", "e1", "2026-08-01");
    bin.soft_delete("/recent.txt", None);
    bin.object("changed.txt", "e2", "2026-08-02");
    bin.object("dir/new.txt", "e1", "2026-08-02");
    bin.objects.remove("gone.txt");

    let dry = bin.gc(GcOptions { before: None, dry_run: true });
    assert_eq!((dry.files_removed, dry.files_tombstone_only, dry.files_skipped_etag), (1, 1, 1));
    assert_eq!((bin.tombs.len(), bin.trash.index.len(), bin.trash.generation), (5, 5, 0));

    let report = bin.gc(GcOptions { before: None, dry_run: false });
    assert_eq!((report.files_removed, report.files_tombstone_only, report.files_skipped_etag), (1, 1, 1));
    assert_eq!((report.dirs_removed, report.objects_deleted, report.tombstones_deleted), (1, 1, 3));
    assert_eq!(bin.trash.generation, 1);
    assert_eq!(
        bin.objects.keys().cloned().collect::<Vec<_>>(),
        vec!["changed.txt", "dir/new.txt", "recent.txt"]
    );
    assert!(!bin.trash.index.is_covered("old.txt") && !bin.trash.index.is_covered("dir/new.txt"));
    assert!(bin.trash.index.is_covered("changed.txt") && bin.trash.index.is_covered("recent.txt"));
    assert_eq!(bin.metrics.trash_gc_etag_skips, 2);
}

#[test]
fn moving_out_of_the_bin_restores() {
    let mut bin = Bin::new();
    bin.object("docs/a.txt", "e1", "2026-08-01");
    let name = bin.trash.soft_delete_via_system("", "/docs/a.txt", "$R1.txt").expect("not yet deleted");
    bin.soft_delete("/docs/a.txt", name.as_deref());
    assert!(bin.trash.soft_delete_via_system("", "/docs/a.txt", "$R2.txt").is_none(), "already in the trash");
    let source = bin.trash.restore_source("/$Recycle.Bin/S-1/$R1.txt").unwrap();
    let original = bin.resolve(&source).map(|r| r.original_key);
    let plan = bin.trash.plan_restore("", original, "/docs/a.txt").unwrap();
    match plan.next(OriginalObject::File { size: Some(5) }, true, 0, None).unwrap() {
        RestoreAction::ClearSource { outcome } => assert_eq!(
            outcome,
            RestoreOutcome::Restored { etag_mismatch: false, multiple_versions: false }
        ),
        other => panic!("{other:?}"),
    }
    assert!(bin.trash.needs_clearing(&plan.original_key));
    bin.clear_both_forms(&plan.original_key);
    assert!(!bin.trash.needs_clearing(&plan.original_key) && bin.tombs.is_empty());
    for path in ["/$Recycle.Bin/S-1/$R1.txt", "/docs/a.txt", "/other"] {
        let entry = DirEntry { name: "f".into(), is_dir: false, size: 5, mtime_secs: 0 };
        bin.caches.stats.insert_bounded(path, entry, 0, 10);
    }
    restore_invalidate(&mut bin.caches, "/$Recycle.Bin/S-1/$R1.txt", "/docs/a.txt", false);
    assert_eq!(bin.caches.stats.len(), 1);
    assert!(bin.caches.stats.contains_key("/other"));
}

#[test]
fn names_of_a_part_are_read_from_tombstones() {
    let mut bin = Bin::new();
    bin.seed("docs/a.txt", Some("$R1.txt"), None, None);
    bin.seed("docs/b.txt", None, None, None);
    bin.trash.recycle_names.by_name.clear();
    bin.trash.recycle_names.by_key.clear();
    let mut pending = match bin.trash.synthesize_dir_entries("", "/$Recycle.Bin/S-1") {
        DirPlan::Part(pending) => pending,
        DirPlan::Done(_) => panic!("tombstones are to be read"),
    };
    for at in 0..pending.len() {
        assert!(pending[at].cold);
        let tomb = encode_tombstone_key(".trash/", pending[at].date, &pending[at].key, false);
        let name = bin.read_tombstone(&tomb).and_then(|b| b.recycle_name);
        bin.trash.fill_part(&mut pending, at, name.as_deref());
    }
    let shown = bin.trash.finish_part("", &pending);
    assert_eq!(
        shown.iter().map(|e| e.name.as_str()).collect::<Vec<_>>(),
        vec!["$I1.txt", "$R1.txt", "b.txt"]
    );
    assert_eq!(bin.trash.recycle_names.name_of("docs/a.txt").as_deref(), Some("$R1.txt"));
}
