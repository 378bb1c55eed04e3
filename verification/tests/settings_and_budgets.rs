use ossfs::budget::{
    acquire_upload_budget, reserve_now, upload_budget_units, BudgetError, DirtyBudget, Reservation, ReserveStep,
    UploadNeed, BUDGET_UNIT,
};
use ossfs::fuse_table::{reserve_rmw_budget, truncate_peak};
use ossfs::load::{Load, LoadAction, LoadEvent};
use ossfs::object_fs::ObjectFs;
use ossfs::settings::{
    effective_max_concurrent_requests, effective_memory_budgets, min_free_bytes, request_timeout, s3_max_attempts,
    OssConfig, Settings, MAX_CONCURRENT_S3_REQUESTS, READ_CACHE_MAX_BYTES,
};

fn config() -> OssConfig {
    OssConfig {
        bucket: "b".into(),
        region: "cn-shanghai".into(),
        endpoint: None,
        force_path_style: false,
        prefix: "ossfs".into(),
        max_concurrent_requests: None,
        read_only: false,
        uid: 0,
        gid: 0,
        dir_mode: 0o755,
        file_mode: 0o644,
        allow_other: false,
        umask: 0,
        allow_rename_dir: true,
        rename_dir_limit: Some(2_000_000),
        max_upload_bytes: None,
        read_ahead_bytes: None,
        ignore_fsync: true,
        max_dirty_bytes: None,
        verify_crc64: false,
        storage_class: None,
        content_md5: false,
        notsup_compat_dir: false,
        connect_timeout_secs: None,
        readwrite_timeout_secs: None,
        retries: None,
        multipart_size: None,
        multipart_concurrency: None,
        disk_cache_reserve_diskfree: 0,
        disk_cache_dir: None,
        disk_cache_max_bytes: 0,
        disk_cache_block_size: None,
        disk_cache_prefetch_blocks: 1,
        disk_cache_prefetch_concurrency: 4,
        disk_cache_verify_etag: false,
        disk_cache_etag_ttl_secs: 10,
        negative_cache_ttl_secs: 5,
        negative_cache_max_entries: 4096,
        stat_cache_ttl_secs: 3,
        stat_cache_max_entries: 4096,
        total_mem_limit: None,
        read_cache_max_bytes: None,
        credential_process: None,
    }
}

/// The part of a total that a ratio comes to.
fn share(total: Option<usize>, ratio: f64) -> usize {
    (total.unwrap_or(0) as f64 * ratio) as usize
}

#[test]
fn config_normalizes_prefix() {
    let cfg = config().normalize();
    assert_eq!(cfg.prefix, "ossfs/");
    let _ = request_timeout();
}

#[test]
fn an_empty_or_finished_prefix_stays() {
    let mut cfg = config();
    cfg.prefix = String::new();
    assert_eq!(cfg.normalize().prefix, "");
    let mut cfg = config();
    cfg.prefix = "a/".into();
    assert_eq!(cfg.normalize().prefix, "a/");
}

#[test]
fn total_mem_limit_derives_budgets() {
    let budgets = |total: Option<usize>, ratio: f64, up, dirty, read| {
        let b = effective_memory_budgets(total, share(total, ratio), up, dirty, read);
        (b.upload, b.dirty, b.read_cache)
    };
    assert_eq!(
        budgets(Some(64 * 1024 * 1024), 0.5, None, None, None),
        (Some(16 * 1024 * 1024), Some(16 * 1024 * 1024), 32 * 1024 * 1024)
    );
    assert_eq!(budgets(None, 0.5, Some(5), Some(7), Some(9)), (Some(5), Some(7), 9));
    assert_eq!(budgets(None, 0.5, None, None, None), (None, None, READ_CACHE_MAX_BYTES));
}

#[test]
fn s3_max_attempts_maps_retries_to_total_attempts() {
    assert_eq!(s3_max_attempts(0), 1);
    assert_eq!(s3_max_attempts(1), 2);
    assert_eq!(s3_max_attempts(2), 3);
    assert_eq!(s3_max_attempts(u32::MAX), u32::MAX);
}

#[test]
fn min_free_bytes_uses_max_of_reserve_and_ratio() {
    let floor = |reserve: u64, ratio: Option<f64>, total: u64| {
        min_free_bytes(reserve, ratio.map(|r| (total as f64 * r) as u64).unwrap_or(0))
    };
    assert_eq!(floor(0, None, 1000), 0);
    assert_eq!(floor(100, None, 1000), 100);
    assert_eq!(floor(0, Some(0.1), 1000), 100);
    assert_eq!(floor(50, Some(0.1), 1000), 100);
    assert_eq!(floor(200, Some(0.1), 1000), 200);
}

#[test]
fn max_concurrent_requests_default_and_override() {
    assert_eq!(effective_max_concurrent_requests(None), MAX_CONCURRENT_S3_REQUESTS);
    assert_eq!(effective_max_concurrent_requests(Some(0)), MAX_CONCURRENT_S3_REQUESTS);
    assert_eq!(effective_max_concurrent_requests(Some(4)), 4);
}

#[test]
fn settings_resolve_usual_values() {
    let s = Settings::resolve(config(), 0);
    assert_eq!(s.prefix, "ossfs/");
    assert_eq!(s.max_concurrent_requests, 32);
    assert_eq!(s.rename_dir_limit, Some(2_000_000));
    assert_eq!(s.upload_budget_units, None);
    assert_eq!(s.max_dirty_bytes, 0);
    assert_eq!(s.read_cache_max_bytes, 64 * 1024 * 1024);
    assert!(!s.disk_cache);
    assert_eq!(s.disk_cache_block_size, 4 * 1024 * 1024);
    assert_eq!((s.etag_ttl, s.negative_ttl, s.stat_ttl), (10_000, 5_000, 3_000));
    assert_eq!(s.multipart_part_size, 8 * 1024 * 1024);
    assert_eq!(s.multipart_concurrency, 4);
    assert_eq!((s.connect_timeout_secs, s.readwrite_timeout_secs, s.max_attempts), (None, None, None));
}

#[test]
fn settings_resolve_zeros_and_extremes() {
    let mut c = config();
    c.rename_dir_limit = Some(0);
    c.connect_timeout_secs = Some(0);
    c.readwrite_timeout_secs = Some(0);
    c.retries = Some(2);
    c.multipart_size = Some(1);
    c.multipart_concurrency = Some(0);
    c.disk_cache_dir = Some("/cache".into());
    c.disk_cache_max_bytes = 1;
    c.disk_cache_block_size = Some(0);
    c.disk_cache_prefetch_concurrency = 0;
    c.stat_cache_ttl_secs = 0;
    c.stat_cache_max_entries = 0;
    c.max_upload_bytes = Some(BUDGET_UNIT + 1);
    let s = Settings::resolve(c, 0);
    assert_eq!(s.rename_dir_limit, None);
    assert_eq!((s.connect_timeout_secs, s.readwrite_timeout_secs), (Some(10), Some(600)));
    assert_eq!(s.max_attempts, Some(3));
    assert_eq!(s.multipart_part_size, 5 * 1024 * 1024);
    assert_eq!(s.multipart_concurrency, 1);
    assert!(s.disk_cache);
    assert_eq!(s.disk_cache_block_size, 4 * 1024 * 1024);
    assert_eq!(s.disk_cache_prefetch_concurrency, 4);
    assert_eq!((s.stat_ttl, s.stat_max_entries), (1_000, 1));
    assert_eq!(s.upload_budget_units, Some(2));
}

#[test]
fn dirty_budget_rounds_up_and_disables_on_zero() {
    assert!(DirtyBudget::new(0).is_none());
    let budget = DirtyBudget::new(BUDGET_UNIT + 1).unwrap();
    assert_eq!(budget.max_units(), 2);
}

#[test]
fn dirty_budget_acquire_and_drop_releases_permits() {
    let mut budget = DirtyBudget::new(2 * BUDGET_UNIT).unwrap();
    assert_eq!(budget.max_units(), 2);
    let permit = budget.acquire_units(2).unwrap();
    assert_eq!(budget.available_units(), 0);
    assert!(matches!(budget.acquire_units(1), Err(BudgetError::Busy)));
    assert!(budget.acquire_units(0).is_ok());
    budget.release(permit);
    assert_eq!(budget.available_units(), 2);
}

#[test]
fn a_handle_keeps_what_it_ever_needed() {
    let mut budget = DirtyBudget::new(4 * BUDGET_UNIT).unwrap();
    assert_eq!(budget.unit(), BUDGET_UNIT);
    let mut held = Reservation::new();
    assert_eq!(
        held.reserve_dirty(Some(&budget), BUDGET_UNIT + 1),
        Ok(ReserveStep::Take { more: 2, total: 2 })
    );
    let first = reserve_now(&mut budget, &mut held, BUDGET_UNIT + 1).unwrap();
    assert_eq!((held.units, budget.available_units()), (2, 2));
    reserve_now(&mut budget, &mut held, 1).unwrap();
    assert_eq!((held.units, budget.available_units()), (2, 2));
    assert!(matches!(reserve_now(&mut budget, &mut held, 5 * BUDGET_UNIT), Err(BudgetError::TooLarge)));
    let mut other = Reservation::new();
    assert!(matches!(reserve_now(&mut budget, &mut other, 3 * BUDGET_UNIT), Err(BudgetError::Busy)));
    assert_eq!(other.units, 0);
    budget.release(first);
    assert_eq!(budget.available_units(), 4);
    assert_eq!(held.reserve_dirty(None, usize::MAX), Ok(ReserveStep::Enough));
}

#[test]
fn upload_budget_rejects_object_larger_than_limit() {
    let mut c = config();
    c.prefix = String::new();
    c.max_upload_bytes = Some(BUDGET_UNIT);
    let mut fs = ObjectFs::connect(c, 0);
    let data = vec![0u8; 2 * BUDGET_UNIT];
    let err = fs.write("/large.bin", data.len()).unwrap_err();
    assert_eq!(err, ossfs::object_fs::FsError::TooLarge { budget_bytes: BUDGET_UNIT });
}

#[test]
fn upload_budget_counts_whole_units() {
    assert_eq!(upload_budget_units(None), None);
    assert_eq!(upload_budget_units(Some(0)), None);
    assert_eq!(upload_budget_units(Some(1)), Some(1));
    assert_eq!(acquire_upload_budget(10, None), UploadNeed::Free);
    assert_eq!(acquire_upload_budget(0, Some(1)), UploadNeed::Free);
    assert_eq!(acquire_upload_budget(BUDGET_UNIT + 1, Some(2)), UploadNeed::Units { units: 2 });
    assert_eq!(
        acquire_upload_budget(2 * BUDGET_UNIT + 1, Some(2)),
        UploadNeed::TooLarge { budget_bytes: 2 * BUDGET_UNIT }
    );
}

#[test]
fn truncate_unopened_rejects_oversized_rmw_before_download() {
    let mut budget = DirtyBudget::new(1 << 20);
    let mut load = Load::new(true, false, 1024, 0);
    assert_eq!(load.step(LoadEvent::Begin), LoadAction::AskSize);
    let action = load.step(LoadEvent::Size { bytes: 5 * 1024 * 1024 });
    assert_eq!(action, LoadAction::Reserve { bytes: truncate_peak(5 * 1024 * 1024, 1024) as usize });
    assert!(matches!(reserve_rmw_budget(&mut budget, 5 * 1024 * 1024), Err(BudgetError::TooLarge)));
    assert_eq!(load.step(LoadEvent::Denied), LoadAction::Fail);
    assert_eq!(load.step(LoadEvent::Granted), LoadAction::Fail, "nothing is fetched after a denial");
}

#[test]
fn truncate_unopened_within_budget_reads_modifies_writes() {
    let mut budget = DirtyBudget::new(64 << 20);
    let mut load = Load::new(true, false, 512, 0);
    load.step(LoadEvent::Begin);
    assert_eq!(load.step(LoadEvent::Size { bytes: 1024 * 1024 }), LoadAction::Reserve { bytes: 1024 * 1024 });
    assert!(reserve_rmw_budget(&mut budget, 1024 * 1024).is_ok());
    assert_eq!(budget.as_ref().unwrap().available_units(), 63);
    assert_eq!(load.step(LoadEvent::Granted), LoadAction::Fetch);
    assert_eq!(load.step(LoadEvent::Fetched { len: 1024 * 1024 }), LoadAction::Use);
    let data = ossfs::content::resize(vec![0x11u8; 1024 * 1024], 512);
    assert_eq!(data, vec![0x11u8; 512]);
}

#[test]
fn a_busy_budget_refuses_to_change_an_object() {
    let mut budget = DirtyBudget::new(2 << 20);
    let held = budget.as_mut().unwrap().try_acquire_units(2).unwrap();
    assert!(matches!(reserve_rmw_budget(&mut budget, 1), Err(BudgetError::Busy)));
    budget.as_mut().unwrap().release(held);
    assert!(reserve_rmw_budget(&mut budget, 1).is_ok());
    let mut none: Option<DirtyBudget> = None;
    assert!(reserve_rmw_budget(&mut none, usize::MAX).is_ok());
}

#[test]
fn a_load_asks_for_what_it_takes() {
    // With a budget: the size, what was fetched, and the size that was set.
    let mut load = Load::new(true, true, 0, 100);
    assert_eq!(load.step(LoadEvent::Begin), LoadAction::AskSize);
    assert_eq!(load.step(LoadEvent::Size { bytes: 7 }), LoadAction::Reserve { bytes: 7 });
    assert_eq!(load.step(LoadEvent::Granted), LoadAction::Fetch);
    assert_eq!(load.step(LoadEvent::Fetched { len: 9 }), LoadAction::Reserve { bytes: 9 });
    assert_eq!(load.step(LoadEvent::Granted), LoadAction::Reserve { bytes: 100 });
    assert_eq!(load.step(LoadEvent::Granted), LoadAction::Use);
    // Without one the object is fetched at once.
    let mut load = Load::new(false, true, 0, 0);
    assert_eq!(load.step(LoadEvent::Begin), LoadAction::Fetch);
    assert_eq!(load.step(LoadEvent::Fetched { len: 9 }), LoadAction::Use);
    let mut load = Load::new(false, true, 0, 0);
    load.step(LoadEvent::Begin);
    assert_eq!(load.step(LoadEvent::FetchFailed), LoadAction::Fail);
}
