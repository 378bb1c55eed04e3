//! The configuration of a mount, and what follows from it.

use vstd::prelude::*;
use vstd::string::*;

use crate::budget::{capacity_of, upload_budget_units};
use crate::entry::MountAttr;
use crate::text::{ends_with, ends_with_char};

verus! {

/// The lifetime of cached attributes in seconds.
pub const STAT_TTL_SECS: u64 = 3;

/// The number of cached attributes.
pub const MAX_STAT_ENTRIES: usize = 4096;

/// The lifetime of the knowledge that a path is missing, in seconds.
pub const NEGATIVE_CACHE_TTL_SECS: u64 = 5;

/// The number of paths known to be missing.
pub const MAX_NEGATIVE_ENTRIES: usize = 4096;

/// The number of requests in flight where none is configured.
pub const MAX_CONCURRENT_S3_REQUESTS: usize = 32;

/// The size above which an object is uploaded in parts.
pub const MULTIPART_THRESHOLD: u64 = 16_777_216;

/// The size of a part where none is configured.
pub const MULTIPART_PART_SIZE: usize = 8_388_608;

/// The smallest part that a store accepts.
pub const MULTIPART_MIN_PART_SIZE: usize = 5_242_880;

/// The number of parts uploaded at a time where none is configured.
pub const MULTIPART_UPLOAD_CONCURRENCY: usize = 4;

/// The bytes of the read-ahead cache where none are configured.
pub const READ_CACHE_MAX_BYTES: usize = 67_108_864;

/// The size of a block of the disk cache where none is configured.
pub const DISK_CACHE_BLOCK_SIZE: usize = 4_194_304;

/// The number of blocks read ahead at a time where none is configured.
pub const DISK_CACHE_PREFETCH_CONCURRENCY: usize = 4;

/// The seconds to wait for a connection.
pub const CONNECT_TIMEOUT_SECS: u64 = 10;

/// The seconds to wait for data.
pub const READWRITE_TIMEOUT_SECS: u64 = 600;

/// The deadline of one request in seconds.
pub const REQUEST_TIMEOUT_SECS: u64 = 30;

/// The configuration of a mount.
#[derive(Debug)]
pub struct OssConfig {
    pub bucket: String,
    pub region: String,
    /// The address of the store, where it is not the one of its region.
    pub endpoint: Option<String>,
    pub force_path_style: bool,
    /// The part of the keys before the path; empty, or with a slash at its end.
    pub prefix: String,
    /// Requests in flight; none or zero for the usual number.
    pub max_concurrent_requests: Option<usize>,
    pub read_only: bool,
    /// The owner to show; zero for the mounting user.
    pub uid: u32,
    pub gid: u32,
    pub dir_mode: u32,
    pub file_mode: u32,
    pub allow_other: bool,
    pub umask: u32,
    pub allow_rename_dir: bool,
    /// The most objects that one directory rename copies; none or zero for no
    /// limit.
    pub rename_dir_limit: Option<u64>,
    /// Bytes of uploads at a time; none or zero for no limit.
    pub max_upload_bytes: Option<usize>,
    /// The read-ahead window; none or zero for no reading ahead.
    pub read_ahead_bytes: Option<usize>,
    pub ignore_fsync: bool,
    /// Bytes of unsaved writes at a time; none or zero for no limit.
    pub max_dirty_bytes: Option<usize>,
    pub credential_process: Option<String>,
    /// Seconds to wait for a connection; zero for the usual time.
    pub connect_timeout_secs: Option<u64>,
    /// Seconds to wait for data; zero for the usual time.
    pub readwrite_timeout_secs: Option<u64>,
    /// Attempts after the first one.
    pub retries: Option<u32>,
    pub verify_crc64: bool,
    pub content_md5: bool,
    /// Leave out the markers of directories that other tools wrote.
    pub notsup_compat_dir: bool,
    pub storage_class: Option<String>,
    /// The size of a part; never below what a store accepts.
    pub multipart_size: Option<usize>,
    pub multipart_concurrency: Option<usize>,
    pub disk_cache_dir: Option<String>,
    /// The memory for reading and writing together; none or zero for the
    /// single limits.
    pub total_mem_limit: Option<usize>,
    pub read_cache_max_bytes: Option<usize>,
    /// The bytes of the disk cache; zero for no disk cache.
    pub disk_cache_max_bytes: usize,
    /// The size of a block; none or zero for the usual one.
    pub disk_cache_block_size: Option<usize>,
    pub disk_cache_reserve_diskfree: u64,
    /// Blocks read ahead after a sequential read; zero for none.
    pub disk_cache_prefetch_blocks: usize,
    /// Blocks read ahead at a time; zero for the usual number.
    pub disk_cache_prefetch_concurrency: usize,
    pub disk_cache_verify_etag: bool,
    pub disk_cache_etag_ttl_secs: u64,
    pub negative_cache_ttl_secs: u64,
    pub negative_cache_max_entries: usize,
    pub stat_cache_ttl_secs: u64,
    pub stat_cache_max_entries: usize,
}

/// A prefix with a slash at its end, unless it is empty.
pub open spec fn normal_prefix(prefix: Seq<char>) -> Seq<char> {
    if prefix.len() > 0 && !ends_with_char(prefix, '/') {
        prefix.push('/')
    } else {
        prefix
    }
}

impl OssConfig {
    /// The configuration with its prefix in normal form.
    pub fn normalize(self) -> (r: OssConfig)
        ensures
            r.prefix@ == normal_prefix(self.prefix@),
            r == (OssConfig { prefix: r.prefix, ..self }),
    {
        let mut config = self;
        if !config.prefix.as_str().is_empty() && !ends_with(config.prefix.as_str(), '/') {
            config.prefix.push('/');
        }
        config
    }
}

/// A prefix in normal form stays as it is.
pub proof fn law_normal_prefix(prefix: Seq<char>)
    ensures
        normal_prefix(normal_prefix(prefix)) == normal_prefix(prefix),
        normal_prefix(prefix).len() == 0 || ends_with_char(normal_prefix(prefix), '/'),
{
}

/// A number that is at least one.
pub open spec fn at_least_one(n: int) -> int {
    if n < 1 {
        1
    } else {
        n
    }
}

/// A configured number, where it is not zero, or the usual one.
pub open spec fn or_usual(configured: Option<usize>, usual: usize) -> usize {
    match configured {
        Some(n) => if n > 0 {
            n
        } else {
            usual
        },
        None => usual,
    }
}

/// The number of requests in flight.
pub fn effective_max_concurrent_requests(configured: Option<usize>) -> (r: usize)
    ensures
        r == or_usual(configured, MAX_CONCURRENT_S3_REQUESTS),
{
    match configured {
        Some(n) => if n > 0 {
            n
        } else {
            MAX_CONCURRENT_S3_REQUESTS
        },
        None => MAX_CONCURRENT_S3_REQUESTS,
    }
}

/// The attempts in all, with so many after the first one.
pub fn s3_max_attempts(retries: u32) -> (r: u32)
    ensures
        r == if retries == u32::MAX { u32::MAX as int } else { retries + 1 },
        r >= 1,
{
    retries.saturating_add(1)
}

/// The deadline of one request in seconds.
pub fn request_timeout() -> (secs: u64)
    ensures
        secs == REQUEST_TIMEOUT_SECS,
{
    REQUEST_TIMEOUT_SECS
}

/// The memory for uploads, for unsaved writes, and for reading ahead.
#[derive(Debug, Clone, Copy, PartialEq, Eq, Structural)]
pub struct MemoryBudgets {
    pub upload: Option<usize>,
    pub dirty: Option<usize>,
    pub read_cache: usize,
}

/// The memory that each purpose gets. A total limit wins over the single
/// ones: `read_share` of it goes to reading, and uploads and unsaved writes
/// get half of the rest each.
pub open spec fn memory_budgets(
    total: Option<usize>,
    read_share: usize,
    upload: Option<usize>,
    dirty: Option<usize>,
    read_cache: Option<usize>,
) -> MemoryBudgets {
    match total {
        Some(t) => if t > 0 {
            let rest = if t >= read_share { t - read_share } else { 0 };
            MemoryBudgets {
                upload: Some((rest / 2) as usize),
                dirty: Some((rest / 2) as usize),
                read_cache: read_share,
            }
        } else {
            single_budgets(upload, dirty, read_cache)
        },
        None => single_budgets(upload, dirty, read_cache),
    }
}

/// The memory that each purpose gets without a total limit.
pub open spec fn single_budgets(upload: Option<usize>, dirty: Option<usize>, read_cache: Option<usize>) -> MemoryBudgets {
    MemoryBudgets {
        upload,
        dirty,
        read_cache: match read_cache {
            Some(n) => n,
            None => READ_CACHE_MAX_BYTES,
        },
    }
}

/// The memory that each purpose gets.
pub fn effective_memory_budgets(
    total: Option<usize>,
    read_share: usize,
    upload: Option<usize>,
    dirty: Option<usize>,
    read_cache: Option<usize>,
) -> (r: MemoryBudgets)
    ensures
        r == memory_budgets(total, read_share, upload, dirty, read_cache),
{
    match total {
        Some(t) => if t > 0 {
            let rest: usize = t.saturating_sub(read_share);
            return MemoryBudgets {
                upload: Some(rest / 2),
                dirty: Some(rest / 2),
                read_cache: read_share,
            };
        },
        None => {},
    }
    let cache: usize = match read_cache {
        Some(n) => n,
        None => READ_CACHE_MAX_BYTES,
    };
    MemoryBudgets { upload, dirty, read_cache: cache }
}

/// A total limit is never exceeded by its parts.
pub proof fn law_memory_within_total(total: usize, read_share: usize, upload: Option<usize>, dirty: Option<usize>, read_cache: Option<usize>)
    requires
        0 < total,
        read_share <= total,
    ensures
        ({
            let b = memory_budgets(Some(total), read_share, upload, dirty, read_cache);
            b.read_cache + b.upload->0 + b.dirty->0 <= total
        }),
{
}

/// The free space to keep on the disk: the bytes configured, or those that
/// the configured share comes to, whichever are more.
pub fn min_free_bytes(reserve: u64, share: u64) -> (r: u64)
    ensures
        r == if reserve >= share { reserve } else { share },
{
    if reserve >= share {
        reserve
    } else {
        share
    }
}

/// What a mount works with.
#[derive(Debug)]
pub struct Settings {
    pub prefix: String,
    pub max_concurrent_requests: usize,
    pub read_only: bool,
    pub allow_other: bool,
    pub mount_attr: MountAttr,
    pub allow_rename_dir: bool,
    pub rename_dir_limit: Option<u64>,
    pub upload_budget_units: Option<usize>,
    pub max_dirty_bytes: usize,
    pub read_ahead_window: usize,
    pub read_cache_max_bytes: usize,
    pub disk_cache: bool,
    pub disk_cache_max_bytes: usize,
    pub disk_cache_block_size: usize,
    pub disk_cache_prefetch_blocks: usize,
    pub disk_cache_prefetch_concurrency: usize,
    pub disk_cache_verify_etag: bool,
    /// Lifetimes in milliseconds.
    pub etag_ttl: u64,
    pub negative_ttl: u64,
    pub stat_ttl: u64,
    pub negative_max_entries: usize,
    pub stat_max_entries: usize,
    pub ignore_fsync: bool,
    pub verify_crc64: bool,
    pub content_md5: bool,
    pub notsup_compat_dir: bool,
    pub multipart_part_size: usize,
    pub multipart_concurrency: usize,
    pub connect_timeout_secs: Option<u64>,
    pub readwrite_timeout_secs: Option<u64>,
    pub max_attempts: Option<u32>,
}

/// Seconds, at least one, in milliseconds, as far as a word can count.
pub open spec fn ttl_millis(secs: u64) -> u64 {
    if at_least_one(secs as int) * 1000 <= u64::MAX {
        (at_least_one(secs as int) * 1000) as u64
    } else {
        u64::MAX
    }
}

fn to_millis(secs: u64) -> (r: u64)
    ensures
        r == ttl_millis(secs),
{
    let s: u64 = if secs < 1 {
        1
    } else {
        secs
    };
    match s.checked_mul(1000) {
        Some(ms) => ms,
        None => u64::MAX,
    }
}

/// A configured time, where it is not zero, or the usual one.
pub open spec fn timeout_of(configured: Option<u64>, usual: u64) -> Option<u64> {
    match configured {
        Some(secs) => Some(if secs == 0 { usual } else { secs }),
        None => None,
    }
}

fn timeout(configured: Option<u64>, usual: u64) -> (r: Option<u64>)
    ensures
        r == timeout_of(configured, usual),
{
    match configured {
        Some(secs) => if secs == 0 {
            Some(usual)
        } else {
            Some(secs)
        },
        None => None,
    }
}

impl Settings {
    /// The settings follow from a configuration, `read_share` being the part
    /// of the total memory that goes to reading.
    pub open spec fn follow(&self, config: OssConfig, read_share: usize) -> bool {
        let mem = memory_budgets(
            config.total_mem_limit,
            read_share,
            config.max_upload_bytes,
            config.max_dirty_bytes,
            config.read_cache_max_bytes,
        );
        &&& self.prefix@ == normal_prefix(config.prefix@)
        &&& self.max_concurrent_requests == or_usual(
            config.max_concurrent_requests,
            MAX_CONCURRENT_S3_REQUESTS,
        )
        &&& self.read_only == config.read_only
        &&& self.allow_other == config.allow_other
        &&& self.mount_attr == (MountAttr {
            uid: config.uid,
            gid: config.gid,
            dir_mode: config.dir_mode,
            file_mode: config.file_mode,
            umask: config.umask,
        })
        &&& self.allow_rename_dir == config.allow_rename_dir
        &&& self.rename_dir_limit == if config.rename_dir_limit == Some(0u64) {
            None::<u64>
        } else {
            config.rename_dir_limit
        }
        &&& self.upload_budget_units == match mem.upload {
            Some(bytes) => if bytes == 0 {
                None::<usize>
            } else {
                Some(capacity_of(bytes as nat) as usize)
            },
            None => None::<usize>,
        }
        &&& self.max_dirty_bytes == match mem.dirty {
            Some(bytes) => bytes,
            None => 0,
        }
        &&& self.read_ahead_window == match config.read_ahead_bytes {
            Some(n) => n,
            None => 0,
        }
        &&& self.read_cache_max_bytes == mem.read_cache
        &&& self.disk_cache == (config.disk_cache_dir is Some && config.disk_cache_max_bytes > 0)
        &&& self.disk_cache_max_bytes == config.disk_cache_max_bytes
        &&& self.disk_cache_block_size == or_usual(config.disk_cache_block_size, DISK_CACHE_BLOCK_SIZE)
        &&& self.disk_cache_prefetch_blocks == config.disk_cache_prefetch_blocks
        &&& self.disk_cache_prefetch_concurrency == or_usual(
            Some(config.disk_cache_prefetch_concurrency),
            DISK_CACHE_PREFETCH_CONCURRENCY,
        )
        &&& self.disk_cache_verify_etag == config.disk_cache_verify_etag
        &&& self.etag_ttl == ttl_millis(config.disk_cache_etag_ttl_secs)
        &&& self.negative_ttl == ttl_millis(config.negative_cache_ttl_secs)
        &&& self.stat_ttl == ttl_millis(config.stat_cache_ttl_secs)
        &&& self.negative_max_entries == at_least_one(config.negative_cache_max_entries as int)
        &&& self.stat_max_entries == at_least_one(config.stat_cache_max_entries as int)
        &&& self.ignore_fsync == config.ignore_fsync
        &&& self.verify_crc64 == config.verify_crc64
        &&& self.content_md5 == config.content_md5
        &&& self.notsup_compat_dir == config.notsup_compat_dir
        &&& self.multipart_part_size == match config.multipart_size {
            Some(n) => if n < MULTIPART_MIN_PART_SIZE {
                MULTIPART_MIN_PART_SIZE
            } else {
                n
            },
            None => MULTIPART_PART_SIZE,
        }
        &&& self.multipart_concurrency == match config.multipart_concurrency {
            Some(n) => at_least_one(n as int),
            None => MULTIPART_UPLOAD_CONCURRENCY as int,
        }
        &&& self.connect_timeout_secs == timeout_of(config.connect_timeout_secs, CONNECT_TIMEOUT_SECS)
        &&& self.readwrite_timeout_secs == timeout_of(
            config.readwrite_timeout_secs,
            READWRITE_TIMEOUT_SECS,
        )
        &&& self.max_attempts == match config.retries {
            Some(n) => Some(if n == u32::MAX { u32::MAX } else { (n + 1) as u32 }),
            None => None::<u32>,
        }
    }

    /// What follows from a configuration, `read_share` being the part of the
    /// total memory that goes to reading.
    pub fn resolve(config: OssConfig, read_share: usize) -> (r: Settings)
        ensures
            r.follow(config, read_share),
    {
        let config = config.normalize();
        let mem = effective_memory_budgets(
            config.total_mem_limit,
            read_share,
            config.max_upload_bytes,
            config.max_dirty_bytes,
            config.read_cache_max_bytes,
        );
        let rename_dir_limit = match config.rename_dir_limit {
            Some(n) => if n == 0 {
                None
            } else {
                Some(n)
            },
            None => None,
        };
        let max_dirty_bytes: usize = match mem.dirty {
            Some(n) => n,
            None => 0,
        };
        let read_ahead_window: usize = match config.read_ahead_bytes {
            Some(n) => n,
            None => 0,
        };
        let disk_cache_block_size: usize = match config.disk_cache_block_size {
            Some(n) => if n > 0 {
                n
            } else {
                DISK_CACHE_BLOCK_SIZE
            },
            None => DISK_CACHE_BLOCK_SIZE,
        };
        let multipart_part_size: usize = match config.multipart_size {
            Some(n) => if n < MULTIPART_MIN_PART_SIZE {
                MULTIPART_MIN_PART_SIZE
            } else {
                n
            },
            None => MULTIPART_PART_SIZE,
        };
        let multipart_concurrency: usize = match config.multipart_concurrency {
            Some(n) => if n < 1 {
                1
            } else {
                n
            },
            None => MULTIPART_UPLOAD_CONCURRENCY,
        };
        let max_attempts = match config.retries {
            Some(n) => Some(s3_max_attempts(n)),
            None => None,
        };
        Settings {
            prefix: config.prefix,
            max_concurrent_requests: effective_max_concurrent_requests(config.max_concurrent_requests),
            read_only: config.read_only,
            allow_other: config.allow_other,
            mount_attr: MountAttr {
                uid: config.uid,
                gid: config.gid,
                dir_mode: config.dir_mode,
                file_mode: config.file_mode,
                umask: config.umask,
            },
            allow_rename_dir: config.allow_rename_dir,
            rename_dir_limit,
            upload_budget_units: upload_budget_units(mem.upload),
            max_dirty_bytes,
            read_ahead_window,
            read_cache_max_bytes: mem.read_cache,
            disk_cache: config.disk_cache_dir.is_some() && config.disk_cache_max_bytes > 0,
            disk_cache_max_bytes: config.disk_cache_max_bytes,
            disk_cache_block_size,
            disk_cache_prefetch_blocks: config.disk_cache_prefetch_blocks,
            disk_cache_prefetch_concurrency: if config.disk_cache_prefetch_concurrency > 0 {
                config.disk_cache_prefetch_concurrency
            } else {
                DISK_CACHE_PREFETCH_CONCURRENCY
            },
            disk_cache_verify_etag: config.disk_cache_verify_etag,
            etag_ttl: to_millis(config.disk_cache_etag_ttl_secs),
            negative_ttl: to_millis(config.negative_cache_ttl_secs),
            stat_ttl: to_millis(config.stat_cache_ttl_secs),
            negative_max_entries: if config.negative_cache_max_entries < 1 {
                1
            } else {
                config.negative_cache_max_entries
            },
            stat_max_entries: if config.stat_cache_max_entries < 1 {
                1
            } else {
                config.stat_cache_max_entries
            },
            ignore_fsync: config.ignore_fsync,
            verify_crc64: config.verify_crc64,
            content_md5: config.content_md5,
            notsup_compat_dir: config.notsup_compat_dir,
            multipart_part_size,
            multipart_concurrency,
            connect_timeout_secs: timeout(config.connect_timeout_secs, CONNECT_TIMEOUT_SECS),
            readwrite_timeout_secs: timeout(config.readwrite_timeout_secs, READWRITE_TIMEOUT_SECS),
            max_attempts,
        }
    }
}

/// What the usual values are, and what a configured value of zero means: the
/// usual one for what cannot be zero, and no limit for a limit.
pub proof fn law_usual_values(n: usize, secs: u64)
    ensures
        or_usual(None, n) == n,
        or_usual(Some(0), n) == n,
        n > 0 ==> or_usual(Some(n), 32) == n,
        timeout_of(None, secs) == None::<u64>,
        timeout_of(Some(0), secs) == Some(secs),
        secs > 0 ==> timeout_of(Some(secs), 1) == Some(secs),
        ttl_millis(0) == 1000,
        0 < secs <= 1_000_000_000 ==> ttl_millis(secs) == secs * 1000,
        at_least_one(0) == 1,
        n > 0 ==> at_least_one(n as int) == n,
{
}

/// The prefix of a mount ends with a slash, and is otherwise as configured; no
/// prefix stays none.
pub proof fn law_prefix_kept(prefix: Seq<char>)
    ensures
        prefix.len() > 0 && prefix.last() != '/' ==> normal_prefix(prefix) == prefix + seq!['/'],
        prefix.len() > 0 && prefix.last() == '/' ==> normal_prefix(prefix) == prefix,
        normal_prefix(Seq::empty()) == Seq::<char>::empty(),
{
    assert(prefix.push('/') =~= prefix + seq!['/']);
}

/// How memory is shared: where a total is set, reads have their share and the
/// rest is halved between uploads and unsaved writes; else each has its own.
pub proof fn law_memory_shared(total: usize, share: usize, upload: Option<usize>, dirty: Option<usize>, n: usize)
    requires
        0 < total,
        share <= total,
    ensures
        memory_budgets(Some(total), share, upload, dirty, Some(n)) == (MemoryBudgets {
            upload: Some(((total - share) / 2) as usize),
            dirty: Some(((total - share) / 2) as usize),
            read_cache: share,
        }),
        memory_budgets(None, share, upload, dirty, Some(n)) == (MemoryBudgets { upload, dirty, read_cache: n }),
        memory_budgets(Some(0), share, upload, dirty, Some(n)) == (MemoryBudgets { upload, dirty, read_cache: n }),
        memory_budgets(None, share, upload, dirty, None) == (MemoryBudgets { upload, dirty, read_cache: 67_108_864 }),
{
}

/// A mount does what its configuration says: each switch is on where it is
/// configured to be on, and each value is the configured one.
pub proof fn law_settings_follow(s: Settings, config: OssConfig, read_share: usize)
    requires
        s.follow(config, read_share),
    ensures
        s.read_only == config.read_only,
        s.allow_other == config.allow_other,
        s.allow_rename_dir == config.allow_rename_dir,
        s.ignore_fsync == config.ignore_fsync,
        s.verify_crc64 == config.verify_crc64,
        s.content_md5 == config.content_md5,
        s.notsup_compat_dir == config.notsup_compat_dir,
        s.disk_cache_verify_etag == config.disk_cache_verify_etag,
        s.mount_attr.uid == config.uid && s.mount_attr.gid == config.gid,
        s.mount_attr.dir_mode == config.dir_mode && s.mount_attr.file_mode == config.file_mode,
        s.mount_attr.umask == config.umask,
        config.prefix@.len() > 0 && config.prefix@.last() != '/' ==> s.prefix@ == config.prefix@ + seq!['/'],
        config.prefix@.len() == 0 || config.prefix@.last() == '/' ==> s.prefix@ == config.prefix@,
        config.rename_dir_limit == Some(0u64) || config.rename_dir_limit is None ==> s.rename_dir_limit is None,
        config.rename_dir_limit matches Some(n) ==> n > 0 ==> s.rename_dir_limit == Some(n),
        config.max_concurrent_requests matches Some(n) ==> n > 0 ==> s.max_concurrent_requests == n,
        config.max_concurrent_requests is None ==> s.max_concurrent_requests == 32,
        s.disk_cache <==> config.disk_cache_dir is Some && config.disk_cache_max_bytes > 0,
        s.disk_cache_max_bytes == config.disk_cache_max_bytes,
        config.disk_cache_block_size is None ==> s.disk_cache_block_size == 4_194_304,
        config.disk_cache_block_size matches Some(n) ==> n > 0 ==> s.disk_cache_block_size == n,
        s.disk_cache_block_size > 0,
        s.disk_cache_prefetch_blocks == config.disk_cache_prefetch_blocks,
        config.disk_cache_prefetch_concurrency > 0 ==> s.disk_cache_prefetch_concurrency
            == config.disk_cache_prefetch_concurrency,
        config.disk_cache_prefetch_concurrency == 0 ==> s.disk_cache_prefetch_concurrency == 4,
        config.read_ahead_bytes matches Some(n) ==> s.read_ahead_window == n,
        config.read_ahead_bytes is None ==> s.read_ahead_window == 0,
        config.multipart_size is None ==> s.multipart_part_size == 8_388_608,
        config.multipart_size matches Some(n) ==> n >= 5_242_880 ==> s.multipart_part_size == n,
        config.multipart_size matches Some(n) ==> n < 5_242_880 ==> s.multipart_part_size == 5_242_880,
        config.multipart_concurrency is None ==> s.multipart_concurrency == 4,
        config.multipart_concurrency matches Some(n) ==> n > 0 ==> s.multipart_concurrency == n,
        s.multipart_concurrency >= 1,
        config.connect_timeout_secs == Some(0u64) ==> s.connect_timeout_secs == Some(10u64),
        config.readwrite_timeout_secs == Some(0u64) ==> s.readwrite_timeout_secs == Some(600u64),
        config.connect_timeout_secs matches Some(n) ==> n > 0 ==> s.connect_timeout_secs == Some(n),
        config.readwrite_timeout_secs matches Some(n) ==> n > 0 ==> s.readwrite_timeout_secs == Some(n),
        config.retries matches Some(n) ==> n < u32::MAX ==> s.max_attempts == Some((n + 1) as u32),
        config.retries is None ==> s.max_attempts is None,
        0 < config.stat_cache_ttl_secs <= 1_000_000_000 ==> s.stat_ttl == config.stat_cache_ttl_secs * 1000,
        0 < config.negative_cache_ttl_secs <= 1_000_000_000 ==> s.negative_ttl == config.negative_cache_ttl_secs * 1000,
        0 < config.disk_cache_etag_ttl_secs <= 1_000_000_000 ==> s.etag_ttl == config.disk_cache_etag_ttl_secs * 1000,
        config.stat_cache_max_entries > 0 ==> s.stat_max_entries == config.stat_cache_max_entries,
        config.negative_cache_max_entries > 0 ==> s.negative_max_entries == config.negative_cache_max_entries,
        config.total_mem_limit is None ==> {
            &&& config.max_dirty_bytes matches Some(n) ==> s.max_dirty_bytes == n
            &&& config.max_dirty_bytes is None ==> s.max_dirty_bytes == 0
            &&& config.max_upload_bytes is None || config.max_upload_bytes == Some(0usize) ==> s.upload_budget_units is None
            &&& config.max_upload_bytes matches Some(n) ==> 0 < n <= 1_048_576_000_000 ==> s.upload_budget_units is Some
                && s.upload_budget_units->0 * 1_048_576 >= n && (s.upload_budget_units->0 - 1) * 1_048_576 < n
            &&& config.read_cache_max_bytes matches Some(n) ==> s.read_cache_max_bytes == n
        },
{
    law_prefix_kept(config.prefix@);
}

} // verus!
