//! A bucket as a file system: what each operation decides before and after
//! the store is asked.

use vstd::prelude::*;
use vstd::string::*;

use crate::budget::{acquire_upload_budget, capacity_of, upload_need, DirtyBudget, UploadNeed};
use crate::caches::{
    copy_range, law_windows_true, window_of, CachesView, FsCaches, ReadCacheEntry, Timed, TimedMap,
    MAX_READ_SEQ_ENTRIES,
};
use crate::disk_cache::bytes_between;
use crate::entry::{DirEntry, EntryView, MountAttr};
use crate::listing::{
    is_s3_invalid_range, range_end, range_header, range_text, read_fetch_len, root_entry, stat_begin, StatState,
};
use crate::metrics::{count, Metrics, MetricsSnapshot};
use crate::paths::{dir_object_prefix, dir_prefix_of, key_for, key_of, list_prefix, list_prefix_of};
use crate::settings::{OssConfig, Settings, MULTIPART_THRESHOLD, READWRITE_TIMEOUT_SECS};
use crate::upload::StreamingUpload;
use crate::text::{
    contains_text, copy_text, ends_with, ends_with_char, has_prefix, is_char, law_drop_tail_while, law_prefix_and_rest,
    same_text, strip_prefix,
    tail_from, trim_end, trim_end_char, views,
};

verus! {

/// Why an operation is refused.
#[derive(Debug, Clone, Copy, PartialEq, Eq, Structural)]
pub enum FsError {
    /// The mount is read-only.
    ReadOnly,
    /// The write is larger than the whole budget of so many bytes.
    TooLarge { budget_bytes: usize },
    /// Something is at the new place already.
    TargetExists,
    /// Directories may not be renamed.
    RenameDisabled,
    /// The directory holds more than may be renamed at once.
    RenameLimit { count: u64, limit: u64 },
    /// The store failed.
    Store,
}

/// What the store was asked for when it failed.
#[derive(Debug, Clone, Copy, PartialEq, Eq, Structural)]
pub enum Failure {
    Get,
    List,
    Put,
    Delete,
    Multipart,
}

/// The counters after a failure of the store.
pub open spec fn failed(m: Metrics, f: Failure) -> Metrics {
    let m = Metrics { s3_errors: u64::wrapping_add(m.s3_errors, 1), ..m };
    match f {
        Failure::Get => Metrics { s3_get_errors: u64::wrapping_add(m.s3_get_errors, 1), ..m },
        Failure::List => Metrics { s3_list_errors: u64::wrapping_add(m.s3_list_errors, 1), ..m },
        Failure::Put => Metrics { s3_put_errors: u64::wrapping_add(m.s3_put_errors, 1), ..m },
        Failure::Delete => Metrics { s3_delete_errors: u64::wrapping_add(m.s3_delete_errors, 1), ..m },
        Failure::Multipart => Metrics { s3_multipart_errors: u64::wrapping_add(m.s3_multipart_errors, 1), ..m },
    }
}

/// The counters after a write of so many bytes was begun.
pub open spec fn write_counted(m: Metrics, len: u64) -> Metrics {
    Metrics {
        writes: u64::wrapping_add(m.writes, 1),
        s3_puts: u64::wrapping_add(m.s3_puts, 1),
        upload_bytes_total: u64::wrapping_add(m.upload_bytes_total, len),
        ..m
    }
}

/// What is to be done for a read.
#[derive(Debug)]
pub enum ReadStep {
    /// These are the bytes.
    Done { data: Vec<u8> },
    /// So many bytes are to be fetched from the offset on.
    Fetch { key: String, len: usize, sequential: bool },
}

/// What the store answered to the request for a range.
#[derive(Debug)]
pub enum GetReply {
    Body { data: Vec<u8> },
    Error { status: u16, body: String },
}

/// How an object is to be written.
#[derive(Debug)]
pub struct WritePlan {
    pub key: String,
    /// The units of the budget that are held while it is written.
    pub units: usize,
    /// It is written in parts.
    pub multipart: bool,
}

/// What is to be deleted for a directory.
#[derive(Debug)]
pub struct DeletePlan {
    /// Everything below.
    pub prefix: String,
    /// The marker.
    pub marker: String,
}

/// What is to be renamed.
#[derive(Debug)]
pub struct RenamePlan {
    pub old_key: String,
    pub new_key: String,
}

/// How something is renamed.
#[derive(Debug, Clone, Copy, PartialEq, Eq, Structural)]
pub enum RenameKind {
    File,
    /// A directory, with the most entries that it may hold.
    Dir { limit: Option<u64> },
}

/// What the check of a tag found.
#[derive(Debug, Clone, Copy, PartialEq, Eq, Structural)]
pub enum EtagStep {
    /// The store told no tag.
    Unknown,
    /// What is cached is what the store holds.
    Current,
    /// What is cached is outdated: it is dropped, and the new tag is kept.
    Replace,
}

/// A path with a slash at its end.
pub open spec fn slashed(path: Seq<char>) -> Seq<char> {
    if ends_with_char(path, '/') {
        path
    } else {
        path + seq!['/']
    }
}

/// A path with a slash at its end.
pub fn with_slash(path: &str) -> (r: String)
    ensures
        r@ == slashed(path@),
{
    let mut r = copy_text(path);
    if !ends_with(path, '/') {
        r.push('/');
        proof {
            assert(r@ =~= path@ + seq!['/']);
        }
    }
    r
}

/// The caches without anything about a path.
pub open spec fn forgotten(c: CachesView, path: Seq<char>) -> CachesView {
    c.without_stat(path).without_reads(path)
}

/// Where reads of paths ended, with one more.
pub open spec fn read_noted(seqs: Map<Seq<char>, u64>, path: Seq<char>, end: u64) -> Map<Seq<char>, u64> {
    (if seqs.dom().len() >= MAX_READ_SEQ_ENTRIES {
        Map::<Seq<char>, u64>::empty()
    } else {
        seqs
    }).insert(path, end)
}

/// A mount: its settings, its caches and its counters.
pub struct ObjectFs {
    pub settings: Settings,
    pub caches: FsCaches,
    pub metrics: Metrics,
    pub dirty_budget: Option<DirtyBudget>,
    /// When the tags of objects were last checked.
    pub etag_checked: TimedMap<()>,
    /// The blocks that are being fetched ahead.
    pub prefetching: Vec<(String, u64)>,
}

impl ObjectFs {
    pub open spec fn wf(&self) -> bool {
        &&& self.caches.wf()
        &&& self.etag_checked.wf()
        &&& self.dirty_budget matches Some(b) ==> b.wf()
    }

    /// The blocks that are being fetched ahead.
    pub open spec fn ahead(&self) -> Seq<(Seq<char>, u64)> {
        crate::block_index::block_views(self.prefetching@)
    }

    /// A mount with empty caches.
    pub fn connect(config: OssConfig, read_share: usize) -> (r: ObjectFs)
        ensures
            r.wf(),
            r.settings.follow(config, read_share),
            r.caches@ == (CachesView {
                stats: Map::empty(),
                negative: Map::empty(),
                reads: Map::empty(),
                read_seq: Map::empty(),
            }),
            r.metrics == Metrics::zero(),
            r.dirty_budget is Some <==> r.settings.max_dirty_bytes > 0,
            r.dirty_budget matches Some(b) ==> b.spec_max() == capacity_of(r.settings.max_dirty_bytes as nat)
                && b.spec_available() == b.spec_max(),
            r.etag_checked@ == Map::<Seq<char>, Timed<()>>::empty(),
            r.ahead() == Seq::<(Seq<char>, u64)>::empty(),
    {
        let settings = Settings::resolve(config, read_share);
        let dirty_budget = DirtyBudget::new(settings.max_dirty_bytes);
        let r = ObjectFs {
            settings,
            caches: FsCaches::new(),
            metrics: Metrics::new(),
            dirty_budget,
            etag_checked: TimedMap::new(),
            prefetching: Vec::new(),
        };
        proof {
            assert(r.ahead() =~= Seq::<(Seq<char>, u64)>::empty());
        }
        r
    }

    /// Whether the mount is read-only.
    pub fn read_only(&self) -> (r: bool)
        ensures
            r == self.settings.read_only,
    {
        self.settings.read_only
    }

    /// Whether a request to save at once is ignored.
    pub fn ignore_fsync(&self) -> (r: bool)
        ensures
            r == self.settings.ignore_fsync,
    {
        self.settings.ignore_fsync
    }

    /// The counters, with the number of blocks that are being fetched ahead.
    pub fn metrics(&self) -> (r: MetricsSnapshot)
        ensures
            r == (MetricsSnapshot {
                prefetch_inflight: self.prefetching@.len() as usize,
                ..self.metrics.spec_snapshot()
            }),
    {
        let mut r = self.metrics.snapshot();
        r.prefetch_inflight = self.prefetching.len();
        r
    }

    /// The budget for unsaved writes, where there is one.
    pub fn dirty_budget(&self) -> (r: Option<&DirtyBudget>)
        ensures
            r is Some <==> self.dirty_budget is Some,
            r matches Some(b) ==> self.dirty_budget == Some(*b),
    {
        match &self.dirty_budget {
            Some(b) => Some(b),
            None => None,
        }
    }

    /// The owner and the modes that entries are shown with.
    pub fn mount_attr(&self) -> (r: MountAttr)
        ensures
            r == self.settings.mount_attr,
    {
        self.settings.mount_attr
    }

    /// Whether the mount is open to all users.
    pub fn allow_other(&self) -> (r: bool)
        ensures
            r == self.settings.allow_other,
    {
        self.settings.allow_other
    }

    /// The seconds after which an operation that does not come to an end
    /// fails.
    pub fn operation_timeout(&self) -> (secs: u64)
        ensures
            secs == match self.settings.readwrite_timeout_secs {
                Some(n) => n,
                None => READWRITE_TIMEOUT_SECS,
            },
    {
        match self.settings.readwrite_timeout_secs {
            Some(n) => n,
            None => READWRITE_TIMEOUT_SECS,
        }
    }

    /// The key of the object of a path.
    pub fn key_for(&self, path: &str) -> (r: String)
        ensures
            r@ == key_of(self.settings.prefix@, path@),
    {
        key_for(self.settings.prefix.as_str(), path)
    }

    /// Refuses to change anything on a read-only mount.
    pub fn ensure_writable(&self) -> (r: Result<(), FsError>)
        ensures
            self.settings.read_only ==> r == Err::<(), FsError>(FsError::ReadOnly),
            !self.settings.read_only ==> r == Ok::<(), FsError>(()),
    {
        if self.settings.read_only {
            Err(FsError::ReadOnly)
        } else {
            Ok(())
        }
    }

    /// Counts a failure of the store.
    pub fn note_failure(&mut self, f: Failure)
        ensures
            *final(self) == (ObjectFs { metrics: failed(old(self).metrics, f), ..*old(self) }),
    {
        count(&mut self.metrics.s3_errors, 1);
        match f {
            Failure::Get => count(&mut self.metrics.s3_get_errors, 1),
            Failure::List => count(&mut self.metrics.s3_list_errors, 1),
            Failure::Put => count(&mut self.metrics.s3_put_errors, 1),
            Failure::Delete => count(&mut self.metrics.s3_delete_errors, 1),
            Failure::Multipart => count(&mut self.metrics.s3_multipart_errors, 1),
        }
    }

    /// Counts a listing that had to wait.
    pub fn note_throttled(&mut self)
        ensures
            *final(self) == (ObjectFs {
                metrics: (Metrics {
                    list_throttled: u64::wrapping_add(old(self).metrics.list_throttled, 1),
                    ..old(self).metrics
                }),
                ..*old(self)
            }),
    {
        count(&mut self.metrics.list_throttled, 1);
    }

    /// Begins a listing, and returns the prefix to ask for.
    pub fn list(&mut self, dir: &str) -> (r: String)
        ensures
            r@ == list_prefix_of(old(self).settings.prefix@, dir@),
            *final(self) == (ObjectFs {
                metrics: (Metrics {
                    s3_lists: u64::wrapping_add(old(self).metrics.s3_lists, 1),
                    ..old(self).metrics
                }),
                ..*old(self)
            }),
    {
        count(&mut self.metrics.s3_lists, 1);
        list_prefix(self.settings.prefix.as_str(), dir)
    }

    /// What is known of a path without asking the store: its entry, that it
    /// does not exist, or nothing.
    pub fn stat(&mut self, path: &str, now: u64) -> (r: Option<Option<DirEntry>>)
        requires
            old(self).wf(),
        ensures
            final(self).wf(),
            ({
                let c = old(self).caches;
                let m = old(self).metrics;
                if c.stats.fresh(path@, now, old(self).settings.stat_ttl) {
                    &&& r matches Some(Some(e)) && e@ == c.stats@[path@].value@
                    &&& *final(self) == (ObjectFs {
                        metrics: (Metrics {
                            stat_cache_hits: u64::wrapping_add(m.stat_cache_hits, 1),
                            stat_positive_cache_hits: u64::wrapping_add(m.stat_positive_cache_hits, 1),
                            ..m
                        }),
                        ..*old(self)
                    })
                } else if c.negative.fresh(path@, now, old(self).settings.negative_ttl) {
                    &&& r matches Some(None)
                    &&& *final(self) == (ObjectFs {
                        metrics: (Metrics {
                            stat_cache_hits: u64::wrapping_add(m.stat_cache_hits, 1),
                            stat_negative_cache_hits: u64::wrapping_add(m.stat_negative_cache_hits, 1),
                            ..m
                        }),
                        ..*old(self)
                    })
                } else {
                    r is None && *final(self) == *old(self)
                }
            }),
    {
        let known = match self.caches.stats.get_fresh(path, now, self.settings.stat_ttl) {
            Some(e) => Some(e.copy()),
            None => None,
        };
        if let Some(e) = known {
            count(&mut self.metrics.stat_cache_hits, 1);
            count(&mut self.metrics.stat_positive_cache_hits, 1);
            return Some(Some(e));
        }
        let missing = self.caches.negative.get_fresh(path, now, self.settings.negative_ttl).is_some();
        if missing {
            count(&mut self.metrics.stat_cache_hits, 1);
            count(&mut self.metrics.stat_negative_cache_hits, 1);
            return Some(None);
        }
        None
    }

    /// Begins to look a path up in the store.
    pub fn begin_lookup(&mut self, path: &str) -> (r: StatState)
        ensures
            path@ == seq!['/'] ==> r.result() == Some(Ok::<Option<EntryView>, ()>(Some(root_entry()))),
            path@ != seq!['/'] ==> (r matches StatState::Object { key } && key@ == key_of(
                old(self).settings.prefix@,
                path@,
            )),
            *final(self) == (ObjectFs {
                metrics: (Metrics {
                    s3_heads: u64::wrapping_add(old(self).metrics.s3_heads, 1),
                    s3_stat_heads: u64::wrapping_add(old(self).metrics.s3_stat_heads, 1),
                    ..old(self).metrics
                }),
                ..*old(self)
            }),
    {
        count(&mut self.metrics.s3_heads, 1);
        count(&mut self.metrics.s3_stat_heads, 1);
        stat_begin(self.settings.prefix.as_str(), path)
    }

    /// Keeps what the store said about a path.
    pub fn finish_stat(&mut self, path: &str, result: &Option<DirEntry>, now: u64)
        requires
            old(self).wf(),
        ensures
            final(self).wf(),
            match *result {
                Some(e) => {
                    &&& exists|kept: DirEntry|
                        kept@ == e@ && #[trigger] old(self).caches.stats.entered(
                            path@,
                            (Timed { at: now, value: kept }),
                            old(self).settings.stat_max_entries as nat,
                            &final(self).caches.stats,
                        )
                    &&& *final(self) == (ObjectFs {
                        caches: (FsCaches { stats: final(self).caches.stats, ..old(self).caches }),
                        ..*old(self)
                    })
                },
                None => {
                    &&& old(self).caches.negative.entered(
                        path@,
                        (Timed { at: now, value: () }),
                        old(self).settings.negative_max_entries as nat,
                        &final(self).caches.negative,
                    )
                    &&& *final(self) == (ObjectFs {
                        caches: (FsCaches { negative: final(self).caches.negative, ..old(self).caches }),
                        ..*old(self)
                    })
                },
            },
    {
        match result {
            Some(e) => {
                let kept = e.copy();
                self.caches.stats.insert_bounded(path, kept, now, self.settings.stat_max_entries);
            },
            None => {
                self.caches.negative.insert_bounded(path, (), now, self.settings.negative_max_entries);
            },
        }
    }

    /// Begins a read of `len` bytes from `offset`.
    #[verifier::rlimit(40)]
    pub fn read_range(&mut self, path: &str, offset: u64, len: usize, now: u64) -> (r: ReadStep)
        requires
            old(self).wf(),
        ensures
            final(self).wf(),
            ({
                let c = old(self).caches;
                let window = old(self).settings.read_ahead_window;
                let m = Metrics { reads: u64::wrapping_add(old(self).metrics.reads, 1), ..old(self).metrics };
                if len == 0 {
                    &&& r matches ReadStep::Done { data } && data@.len() == 0
                    &&& *final(self) == (ObjectFs { metrics: m, ..*old(self) })
                } else if window > 0 && c.reads.holds(path@, offset, len) {
                    let w = c.reads@[path@];
                    &&& r matches ReadStep::Done { data } && data@ == w.data@.subrange(
                        offset - w.start,
                        offset - w.start + len,
                    )
                    &&& final(self).caches@ == (CachesView {
                        reads: c.reads@.insert(path@, (ReadCacheEntry { last_used: now, ..w })),
                        read_seq: read_noted(c.read_seq@, path@, range_end(offset, len) as u64),
                        ..c@
                    })
                    &&& *final(self) == (ObjectFs {
                        caches: final(self).caches,
                        metrics: (Metrics { read_cache_hits: u64::wrapping_add(m.read_cache_hits, 1), ..m }),
                        ..*old(self)
                    })
                } else {
                    let follows = window > 0 && c.read_seq@.dom().contains(path@) && c.read_seq@[path@] == offset;
                    &&& r matches ReadStep::Fetch { key, len: fetch, sequential } && key@ == key_of(
                        old(self).settings.prefix@,
                        path@,
                    ) && sequential == follows && fetch == if window > 0 && len < window && follows {
                        window
                    } else {
                        len
                    }
                    &&& final(self).caches@ == if window > 0 {
                        CachesView {
                            read_seq: read_noted(c.read_seq@, path@, range_end(offset, len) as u64),
                            ..c@
                        }
                    } else {
                        c@
                    }
                    &&& *final(self) == (ObjectFs {
                        caches: final(self).caches,
                        metrics: if window > 0 {
                            Metrics { read_cache_misses: u64::wrapping_add(m.read_cache_misses, 1), ..m }
                        } else {
                            m
                        },
                        ..*old(self)
                    })
                }
            }),
            forall|content: Seq<u8>|
                #![trigger window_of(old(self).caches@.reads, path@, content)]
                window_of(old(self).caches@.reads, path@, content) ==> window_of(
                    final(self).caches@.reads,
                    path@,
                    content,
                ) && (r matches ReadStep::Done { data } ==> data@ == bytes_between(
                    content,
                    offset as int,
                    offset + len,
                )),
    {
        count(&mut self.metrics.reads, 1);
        if len == 0 {
            proof {
                assert forall|content: Seq<u8>| #[trigger]
                    window_of(old(self).caches@.reads, path@, content) implies Seq::<u8>::empty() == bytes_between(
                    content,
                    offset as int,
                    offset + len,
                ) by {
                    assert(bytes_between(content, offset as int, offset as int) =~= Seq::<u8>::empty());
                }
            }
            return ReadStep::Done { data: Vec::new() };
        }
        let window: usize = self.settings.read_ahead_window;
        if window > 0 {
            if let Some(data) = self.caches.reads.hit(path, offset, len, now) {
                count(&mut self.metrics.read_cache_hits, 1);
                let end: u64 = offset.saturating_add(data.len() as u64);
                self.caches.note_read_end(path, end);
                proof {
                    let w = old(self).caches.reads@[path@];
                    assert forall|content: Seq<u8>| #[trigger]
                        window_of(old(self).caches@.reads, path@, content) implies data@ == bytes_between(
                        content,
                        offset as int,
                        offset + len,
                    ) && window_of(self.caches@.reads, path@, content) by {
                        assert(data@ =~= content.subrange(offset as int, offset + len));
                    }
                }
                return ReadStep::Done { data };
            }
            count(&mut self.metrics.read_cache_misses, 1);
        }
        let sequential = window > 0 && self.caches.is_sequential(path, offset);
        if window > 0 {
            self.caches.note_read_end(path, offset.saturating_add(len as u64));
        }
        let fetch: usize = read_fetch_len(len, window, sequential);
        ReadStep::Fetch { key: self.key_for(path), len: fetch, sequential }
    }

    /// Ends a read of `len` bytes for which `fetch` bytes were asked for and
    /// `data` came back: a window that was read ahead is kept.
    #[verifier::rlimit(40)]
    pub fn finish_read(&mut self, path: &str, offset: u64, len: usize, fetch: usize, data: Vec<u8>, now: u64) -> (r: Vec<u8>)
        requires
            old(self).wf(),
        ensures
            final(self).wf(),
            r@ == if data@.len() <= len {
                data@
            } else {
                data@.subrange(0, len as int)
            },
            ({
                let c = old(self).caches;
                let window = old(self).settings.read_ahead_window;
                &&& if window > 0 && fetch > len {
                    exists|kept: Vec<u8>|
                        kept@ == data@ && #[trigger] c.reads.inserted(
                            path@,
                            (ReadCacheEntry { start: offset, data: kept, last_used: now }),
                            old(self).settings.read_cache_max_bytes as nat,
                            &final(self).caches.reads,
                        )
                } else {
                    final(self).caches.reads@ == c.reads@
                }
                &&& final(self).caches@ == (CachesView {
                    reads: final(self).caches.reads@,
                    read_seq: if window > 0 {
                        read_noted(c.read_seq@, path@, range_end(offset, data@.len() as usize) as u64)
                    } else {
                        c.read_seq@
                    },
                    ..c@
                })
            }),
            *final(self) == (ObjectFs { caches: final(self).caches, ..*old(self) }),
            forall|other: Seq<char>, content: Seq<u8>|
                #![trigger window_of(old(self).caches@.reads, other, content)]
                window_of(old(self).caches@.reads, other, content) && (other == path@ ==> data@ == bytes_between(
                    content,
                    offset as int,
                    offset + fetch,
                )) ==> window_of(final(self).caches@.reads, other, content),
            forall|content: Seq<u8>|
                #![trigger bytes_between(content, offset as int, offset + fetch)]
                fetch >= len && data@ == bytes_between(content, offset as int, offset + fetch) ==> r@ == bytes_between(
                    content,
                    offset as int,
                    offset + len,
                ),
    {
        let window: usize = self.settings.read_ahead_window;
        let have: usize = data.len();
        if window > 0 && fetch > len {
            let kept = copy_range(&data, 0, have);
            proof {
                assert(kept@ =~= data@);
            }
            self.caches.reads.insert(path, offset, kept, now, self.settings.read_cache_max_bytes);
            proof {
                let w = ReadCacheEntry { start: offset, data: kept, last_used: now };
                assert forall|other: Seq<char>, content: Seq<u8>|
                    #![trigger window_of(old(self).caches@.reads, other, content)]
                    window_of(old(self).caches@.reads, other, content) && (other == path@ ==> data@ == bytes_between(
                        content,
                        offset as int,
                        offset + fetch,
                    )) implies window_of(self.caches.reads@, other, content) by {
                    law_windows_true(
                        old(self).caches.reads,
                        path@,
                        w,
                        self.settings.read_cache_max_bytes as nat,
                        self.caches.reads,
                        other,
                        content,
                    );
                }
            }
        }
        if window > 0 {
            self.caches.note_read_end(path, offset.saturating_add(have as u64));
        }
        let take: usize = if have <= len {
            have
        } else {
            len
        };
        let r = copy_range(&data, 0, take);
        proof {
            assert(data@.subrange(0, have as int) =~= data@);
            assert forall|content: Seq<u8>|
                #![trigger bytes_between(content, offset as int, offset + fetch)]
                fetch >= len && data@ == bytes_between(content, offset as int, offset + fetch) implies r@ == bytes_between(
                content,
                offset as int,
                offset + len,
            ) by {
                assert(r@ =~= bytes_between(content, offset as int, offset + len));
            }
        }
        r
    }

    /// Begins the request for a range, and returns the header that asks for
    /// it.
    pub fn begin_get(&mut self, offset: u64, len: usize) -> (r: String)
        ensures
            r@ == range_text(offset, len),
            *final(self) == (ObjectFs {
                metrics: (Metrics {
                    s3_gets: u64::wrapping_add(old(self).metrics.s3_gets, 1),
                    ..old(self).metrics
                }),
                ..*old(self)
            }),
    {
        count(&mut self.metrics.s3_gets, 1);
        range_header(offset, len)
    }

    /// What came of the request for a range. Behind the end of an object there
    /// is nothing.
    pub fn finish_get(&mut self, reply: GetReply) -> (r: Result<Vec<u8>, FsError>)
        ensures
            match reply {
                GetReply::Body { data } => {
                    &&& r == Ok::<Vec<u8>, FsError>(data)
                    &&& *final(self) == (ObjectFs {
                        metrics: (Metrics {
                            download_bytes_total: u64::wrapping_add(
                                old(self).metrics.download_bytes_total,
                                data@.len() as u64,
                            ),
                            ..old(self).metrics
                        }),
                        ..*old(self)
                    })
                },
                GetReply::Error { status, body } => if status == 416 || (status == 400 && contains_text(
                    body@,
                    "InvalidRange"@,
                )) {
                    (r matches Ok(data) && data@ == Seq::<u8>::empty()) && *final(self) == *old(self)
                } else {
                    &&& r == Err::<Vec<u8>, FsError>(FsError::Store)
                    &&& *final(self) == (ObjectFs {
                        metrics: failed(old(self).metrics, Failure::Get),
                        ..*old(self)
                    })
                },
            },
    {
        match reply {
            GetReply::Body { data } => {
                count(&mut self.metrics.download_bytes_total, data.len() as u64);
                Ok(data)
            },
            GetReply::Error { status, body } => if is_s3_invalid_range(status, body.as_str()) {
                Ok(Vec::new())
            } else {
                self.note_failure(Failure::Get);
                Err(FsError::Store)
            },
        }
    }

    /// Counts a block that was found in the disk cache or not.
    pub fn note_block(&mut self, hit: bool)
        ensures
            *final(self) == (ObjectFs {
                metrics: if hit {
                    Metrics {
                        disk_cache_hits: u64::wrapping_add(old(self).metrics.disk_cache_hits, 1),
                        ..old(self).metrics
                    }
                } else {
                    Metrics {
                        disk_cache_misses: u64::wrapping_add(old(self).metrics.disk_cache_misses, 1),
                        ..old(self).metrics
                    }
                },
                ..*old(self)
            }),
    {
        if hit {
            count(&mut self.metrics.disk_cache_hits, 1);
        } else {
            count(&mut self.metrics.disk_cache_misses, 1);
        }
    }

    /// The blocks to fetch ahead once a read came to `last_block`: where it
    /// continued the one before and the object goes on.
    pub fn prefetch_plan(&mut self, sequential: bool, eof: bool, last_block: u64) -> (r: Vec<u64>)
        ensures
            ({
                let n = old(self).settings.disk_cache_prefetch_blocks;
                if sequential && !eof && n > 0 {
                    &&& r@.len() == if last_block + n <= u64::MAX {
                        n as int
                    } else {
                        u64::MAX - last_block
                    }
                    &&& forall|i: int| 0 <= i < r@.len() ==> #[trigger] r@[i] == last_block + 1 + i
                    &&& *final(self) == (ObjectFs {
                        metrics: (Metrics {
                            prefetch_started: u64::wrapping_add(old(self).metrics.prefetch_started, 1),
                            ..old(self).metrics
                        }),
                        ..*old(self)
                    })
                } else {
                    r@.len() == 0 && *final(self) == *old(self)
                }
            }),
    {
        let n: usize = self.settings.disk_cache_prefetch_blocks;
        let mut out: Vec<u64> = Vec::new();
        if !sequential || eof || n == 0 {
            return out;
        }
        count(&mut self.metrics.prefetch_started, 1);
        let mut last: u64 = last_block;
        let mut i: usize = 0;
        while i < n && last < u64::MAX
            invariant
                i <= n,
                last == last_block + i,
                out@.len() == i,
                forall|k: int| 0 <= k < out@.len() ==> #[trigger] out@[k] == last_block + 1 + k,
            decreases n - i,
        {
            last = last + 1;
            out.push(last);
            i = i + 1;
        }
        out
    }

    /// Takes on a block to be fetched ahead, unless it is being fetched.
    pub fn begin_prefetch(&mut self, key: &str, block: u64) -> (r: bool)
        ensures
            r == !old(self).ahead().contains((key@, block)),
            r ==> final(self).ahead() == old(self).ahead().push((key@, block)) && *final(self) == (ObjectFs {
                prefetching: final(self).prefetching,
                ..*old(self)
            }),
            !r ==> *final(self) == (ObjectFs {
                metrics: (Metrics {
                    prefetch_skipped: u64::wrapping_add(old(self).metrics.prefetch_skipped, 1),
                    ..old(self).metrics
                }),
                ..*old(self)
            }),
    {
        let ghost all = self.ahead();
        let ghost x = (key@, block);
        let mut i: usize = 0;
        while i < self.prefetching.len()
            invariant
                i <= self.prefetching@.len(),
                *self == *old(self),
                all == self.ahead(),
                x == (key@, block),
                forall|k: int| 0 <= k < i ==> #[trigger] all[k] != x,
            decreases self.prefetching.len() - i,
        {
            proof {
                assert(all[i as int] == (self.prefetching@[i as int].0@, self.prefetching@[i as int].1));
            }
            if self.prefetching[i].1 == block && same_text(self.prefetching[i].0.as_str(), key) {
                count(&mut self.metrics.prefetch_skipped, 1);
                proof {
                    assert(all.contains(x));
                }
                return false;
            }
            i = i + 1;
        }
        let item = (copy_text(key), block);
        self.prefetching.push(item);
        proof {
            assert(self.ahead() =~= all.push(x));
        }
        true
    }

    /// Notes that a block has been fetched ahead, or could not be.
    pub fn end_prefetch(&mut self, key: &str, block: u64, failed: bool)
        ensures
            final(self).ahead() == crate::block_index::without_first(old(self).ahead(), (key@, block)),
            *final(self) == (ObjectFs {
                prefetching: final(self).prefetching,
                metrics: if failed {
                    Metrics {
                        prefetch_failed: u64::wrapping_add(old(self).metrics.prefetch_failed, 1),
                        ..old(self).metrics
                    }
                } else {
                    old(self).metrics
                },
                ..*old(self)
            }),
    {
        if failed {
            count(&mut self.metrics.prefetch_failed, 1);
        }
        crate::block_index::remove_first(&mut self.prefetching, key, block);
    }

    /// Whether the tag of an object is to be compared with the store before
    /// its cached blocks are served.
    pub fn etag_check_due(&mut self, key: &str, now: u64) -> (r: bool)
        requires
            old(self).wf(),
        ensures
            final(self).wf(),
            r == !old(self).etag_checked.fresh(key@, now, old(self).settings.etag_ttl),
            *final(self) == (ObjectFs {
                metrics: (Metrics {
                    s3_heads: u64::wrapping_add(old(self).metrics.s3_heads, 1),
                    s3_etag_heads: u64::wrapping_add(old(self).metrics.s3_etag_heads, 1),
                    ..old(self).metrics
                }),
                ..*old(self)
            }),
    {
        count(&mut self.metrics.s3_heads, 1);
        count(&mut self.metrics.s3_etag_heads, 1);
        self.etag_checked.get_fresh(key, now, self.settings.etag_ttl).is_none()
    }

    /// Compares the tag that the store told with the one that was kept. A
    /// check that could be made need not be made again for a while.
    pub fn verify_disk_cache_etag(&mut self, key: &str, kept: Option<&str>, told: Option<&str>, now: u64) -> (r: EtagStep)
        requires
            old(self).wf(),
        ensures
            final(self).wf(),
            match told {
                None => r == EtagStep::Unknown && *final(self) == *old(self),
                Some(tag) => if tag@.len() == 0 {
                    r == EtagStep::Unknown && *final(self) == *old(self)
                } else {
                    &&& r == if (kept matches Some(k) && k@ == tag@) {
                        EtagStep::Current
                    } else {
                        EtagStep::Replace
                    }
                    &&& final(self).etag_checked@ == old(self).etag_checked@.insert(
                        key@,
                        (Timed { at: now, value: () }),
                    )
                    &&& *final(self) == (ObjectFs { etag_checked: final(self).etag_checked, ..*old(self) })
                },
            },
    {
        let tag = match told {
            Some(tag) => tag,
            None => return EtagStep::Unknown,
        };
        if tag.unicode_len() == 0 {
            return EtagStep::Unknown;
        }
        self.etag_checked.set(key, (), now);
        let current = match kept {
            Some(k) => same_text(k, tag),
            None => false,
        };
        if current {
            EtagStep::Current
        } else {
            EtagStep::Replace
        }
    }

    /// What comes of a request to write `size` bytes, of which `len` count for
    /// the budget.
    pub open spec fn write_outcome(&self, path: Seq<char>, size: u64, len: usize, r: Result<WritePlan, FsError>) -> bool {
        if self.settings.read_only {
            r == Err::<WritePlan, FsError>(FsError::ReadOnly)
        } else {
            match upload_need(len as nat, self.settings.upload_budget_units) {
                UploadNeed::TooLarge { budget_bytes } => r == Err::<WritePlan, FsError>(
                    FsError::TooLarge { budget_bytes },
                ),
                need => r matches Ok(p) && p.key@ == key_of(self.settings.prefix@, path) && p.multipart == (size
                    > MULTIPART_THRESHOLD) && p.units == match need {
                    UploadNeed::Units { units } => units,
                    _ => 0,
                },
            }
        }
    }

    /// Begins to write `len` bytes to a path: what is cached of it is
    /// dropped.
    pub fn write(&mut self, path: &str, len: usize) -> (r: Result<WritePlan, FsError>)
        requires
            old(self).wf(),
        ensures
            final(self).wf(),
            old(self).write_outcome(path@, len as u64, len, r),
            *final(self) == (ObjectFs {
                metrics: write_counted(old(self).metrics, len as u64),
                caches: final(self).caches,
                ..*old(self)
            }),
            old(self).settings.read_only ==> final(self).caches == old(self).caches,
            !old(self).settings.read_only ==> final(self).caches@ == forgotten(old(self).caches@, path@),
    {
        self.write_from_file(path, len as u64)
    }

    /// Begins to write a file of `size` bytes to a path.
    pub fn write_from_file(&mut self, path: &str, size: u64) -> (r: Result<WritePlan, FsError>)
        requires
            old(self).wf(),
        ensures
            final(self).wf(),
            old(self).write_outcome(path@, size, size as usize, r),
            *final(self) == (ObjectFs {
                metrics: write_counted(old(self).metrics, size),
                caches: final(self).caches,
                ..*old(self)
            }),
            old(self).settings.read_only ==> final(self).caches == old(self).caches,
            !old(self).settings.read_only ==> final(self).caches@ == forgotten(old(self).caches@, path@),
    {
        count(&mut self.metrics.writes, 1);
        count(&mut self.metrics.s3_puts, 1);
        count(&mut self.metrics.upload_bytes_total, size);
        self.ensure_writable()?;
        self.caches.invalidate_stat(path);
        self.caches.invalidate_read_cache(path);
        let units: usize = match acquire_upload_budget(size as usize, self.settings.upload_budget_units) {
            UploadNeed::TooLarge { budget_bytes } => return Err(FsError::TooLarge { budget_bytes }),
            UploadNeed::Units { units } => units,
            UploadNeed::Free => 0,
        };
        Ok(WritePlan { key: self.key_for(path), units, multipart: crate::upload::wants_multipart(size) })
    }

    /// Begins an upload that is fed piece by piece, and returns the key of the
    /// object with it. A mount that is read-only refuses.
    pub fn begin_streaming_upload(&self, path: &str) -> (r: Result<(String, StreamingUpload), FsError>)
        ensures
            self.settings.read_only <==> r == Err::<(String, StreamingUpload), FsError>(FsError::ReadOnly),
            !self.settings.read_only <==> r is Ok,
            r matches Ok(begun) ==> {
                &&& begun.0@ == key_of(self.settings.prefix@, path@)
                &&& begun.1.wf()
                &&& begun.1.content() == Seq::<u8>::empty()
                &&& begun.1.sent() == 0
                &&& begun.1.verifies() == self.settings.verify_crc64
                &&& begun.1.sends_md5() == self.settings.content_md5
            },
    {
        self.ensure_writable()?;
        Ok((self.key_for(path), StreamingUpload::new(self.settings.verify_crc64, self.settings.content_md5)))
    }

    /// Begins to make a directory, which is an empty object with a slash at
    /// the end of its key.
    pub fn mkdir(&mut self, path: &str) -> (r: Result<WritePlan, FsError>)
        requires
            old(self).wf(),
        ensures
            final(self).wf(),
            *final(self) == (ObjectFs {
                metrics: write_counted(old(self).metrics, 0),
                caches: final(self).caches,
                ..*old(self)
            }),
            old(self).settings.read_only ==> r == Err::<WritePlan, FsError>(FsError::ReadOnly)
                && final(self).caches@ == old(self).caches@.without_stat(path@),
            !old(self).settings.read_only ==> {
                &&& final(self).caches@ == forgotten(old(self).caches@.without_stat(path@), slashed(path@))
                &&& r matches Ok(p) && p.key@ == key_of(old(self).settings.prefix@, slashed(path@)) && p.units == 0
                    && !p.multipart
            },
    {
        self.caches.invalidate_stat(path);
        let dir = with_slash(path);
        self.write(dir.as_str(), 0)
    }

    /// Begins to delete an object, and returns its key.
    pub fn delete(&mut self, path: &str) -> (r: Result<String, FsError>)
        requires
            old(self).wf(),
        ensures
            final(self).wf(),
            *final(self) == (ObjectFs { caches: final(self).caches, ..*old(self) }),
            old(self).settings.read_only ==> r == Err::<String, FsError>(FsError::ReadOnly)
                && final(self).caches == old(self).caches,
            !old(self).settings.read_only ==> {
                &&& final(self).caches@ == forgotten(old(self).caches@, path@)
                &&& r matches Ok(key) && key@ == key_of(old(self).settings.prefix@, path@)
            },
    {
        self.ensure_writable()?;
        self.caches.invalidate_stat(path);
        self.caches.invalidate_read_cache(path);
        Ok(self.key_for(path))
    }

    /// Begins to delete a directory with everything below it.
    pub fn delete_dir_recursive(&mut self, dir: &str) -> (r: Result<DeletePlan, FsError>)
        requires
            old(self).wf(),
        ensures
            final(self).wf(),
            *final(self) == (ObjectFs { caches: final(self).caches, ..*old(self) }),
            old(self).settings.read_only ==> r == Err::<DeletePlan, FsError>(FsError::ReadOnly)
                && final(self).caches == old(self).caches,
            !old(self).settings.read_only ==> {
                &&& final(self).caches@ == old(self).caches@.without_stat(dir@).without_all_reads()
                &&& r matches Ok(p) && p.prefix@ == list_prefix_of(old(self).settings.prefix@, dir@) && p.marker@
                    == key_of(old(self).settings.prefix@, slashed(dir@))
            },
    {
        self.ensure_writable()?;
        self.caches.invalidate_stat(dir);
        self.caches.clear_read_cache();
        let prefix = list_prefix(self.settings.prefix.as_str(), dir);
        let marker = with_slash(dir);
        let marker = self.key_for(marker.as_str());
        Ok(DeletePlan { prefix, marker })
    }

    /// Begins to rename something.
    pub fn rename(&mut self, old_path: &str, new_path: &str) -> (r: Result<RenamePlan, FsError>)
        requires
            old(self).wf(),
        ensures
            final(self).wf(),
            *final(self) == (ObjectFs { caches: final(self).caches, ..*old(self) }),
            old(self).settings.read_only ==> r == Err::<RenamePlan, FsError>(FsError::ReadOnly)
                && final(self).caches == old(self).caches,
            !old(self).settings.read_only ==> {
                &&& final(self).caches@ == old(self).caches@.without_stat(old_path@).without_stat(
                    new_path@,
                ).without_all_reads()
                &&& r matches Ok(p) && p.old_key@ == key_of(old(self).settings.prefix@, old_path@) && p.new_key@
                    == key_of(old(self).settings.prefix@, new_path@)
            },
    {
        self.ensure_writable()?;
        self.caches.invalidate_stat(old_path);
        self.caches.invalidate_stat(new_path);
        self.caches.clear_read_cache();
        Ok(RenamePlan { old_key: self.key_for(old_path), new_key: self.key_for(new_path) })
    }

    /// How something is renamed, once it is known what is there and whether
    /// something is at the new place; what is missing is taken for a file.
    pub fn rename_kind(&self, found: &Option<DirEntry>, taken: bool, replace: bool) -> (r: Result<RenameKind, FsError>)
        ensures
            taken && !replace ==> r == Err::<RenameKind, FsError>(FsError::TargetExists),
            !(taken && !replace) ==> (match *found {
                Some(e) => if !e.is_dir {
                    r == Ok::<RenameKind, FsError>(RenameKind::File)
                } else if !self.settings.allow_rename_dir {
                    r == Err::<RenameKind, FsError>(FsError::RenameDisabled)
                } else {
                    r == Ok::<RenameKind, FsError>(RenameKind::Dir { limit: self.settings.rename_dir_limit })
                },
                None => r == Ok::<RenameKind, FsError>(RenameKind::File),
            }),
    {
        if taken && !replace {
            return Err(FsError::TargetExists);
        }
        let is_dir = match found {
            Some(e) => e.is_dir,
            None => false,
        };
        if !is_dir {
            Ok(RenameKind::File)
        } else if !self.settings.allow_rename_dir {
            Err(FsError::RenameDisabled)
        } else {
            Ok(RenameKind::Dir { limit: self.settings.rename_dir_limit })
        }
    }
}

/// Counts the entries of a directory that is to be renamed, a page at a time;
/// too many are refused before anything is copied.
pub fn count_tree_entries(count: u64, page: u64, limit: u64) -> (r: Result<u64, FsError>)
    requires
        count <= limit,
    ensures
        count + page <= limit ==> r == Ok::<u64, FsError>((count + page) as u64),
        count + page > limit ==> (r matches Err(FsError::RenameLimit { count: c, limit: l }) && l == limit && c == if count
            + page <= u64::MAX {
            count + page
        } else {
            u64::MAX as int
        }),
{
    if page > limit - count {
        Err(FsError::RenameLimit { count: count.saturating_add(page), limit })
    } else {
        Ok(count + page)
    }
}

/// Where the object of a key below a directory is copied to when the directory
/// is renamed.
pub open spec fn copy_target_of(old_key: Seq<char>, new_key: Seq<char>, key: Seq<char>) -> Seq<char> {
    let prefix = dir_prefix_of(old_key);
    let rest = if has_prefix(key, prefix) {
        tail_from(key, prefix.len() as int)
    } else {
        key
    };
    trim_end(new_key, '/') + seq!['/'] + rest
}

/// Where the object of a key below a directory is copied to when the directory
/// is renamed.
pub fn copy_target(old_key: &str, new_key: &str, key: &str) -> (r: String)
    ensures
        r@ == copy_target_of(old_key@, new_key@, key@),
{
    let prefix = dir_object_prefix(old_key);
    let mut r = trim_end_char(new_key, '/');
    r.push('/');
    match strip_prefix(key, prefix.as_str()) {
        Some(rest) => r.append(rest.as_str()),
        None => r.append(key),
    }
    proof {
        assert(r@ =~= copy_target_of(old_key@, new_key@, key@));
    }
    r
}

/// What a copy names as its source.
pub fn copy_source(bucket: &str, key: &str) -> (r: String)
    ensures
        r@ == bucket@ + seq!['/'] + key@,
{
    let mut r = copy_text(bucket);
    r.push('/');
    r.append(key);
    proof {
        assert(r@ =~= bucket@ + seq!['/'] + key@);
    }
    r
}

/// What a page of the keys of a directory has copied: each key, and where it
/// goes.
pub open spec fn copies_of(old_key: Seq<char>, new_key: Seq<char>, page: Seq<Seq<char>>) -> Seq<(Seq<char>, Seq<char>)> {
    page.map_values(|key: Seq<char>| (key, copy_target_of(old_key, new_key, key)))
}

/// What copies say.
pub open spec fn copy_views(copies: Seq<(String, String)>) -> Seq<(Seq<char>, Seq<char>)> {
    copies.map_values(|c: (String, String)| (c.0@, c.1@))
}

/// What is copied where a directory is renamed, for a page of the keys below
/// it: every key that is there and no other, each to its place in the new
/// directory. The marker is copied with them where there is one.
pub fn tree_copies(old_key: &str, new_key: &str, page: &Vec<String>) -> (r: Vec<(String, String)>)
    ensures
        copy_views(r@) == copies_of(old_key@, new_key@, views(page@)),
{
    let ghost all = copies_of(old_key@, new_key@, views(page@));
    let mut r: Vec<(String, String)> = Vec::new();
    let mut i: usize = 0;
    while i < page.len()
        invariant
            i <= page@.len(),
            r@.len() == i,
            all == copies_of(old_key@, new_key@, views(page@)),
            forall|k: int| 0 <= k < i ==> ((#[trigger] r@[k]).0@, r@[k].1@) == all[k],
        decreases page.len() - i,
    {
        let key = page[i].as_str();
        r.push((copy_text(key), copy_target(old_key, new_key, key)));
        i = i + 1;
    }
    proof {
        assert(copy_views(r@) =~= all);
    }
    r
}

/// The marker of a directory is among the keys below it, and is copied to the
/// marker of the new one.
pub proof fn law_marker_copied(old_key: Seq<char>, new_key: Seq<char>)
    ensures
        has_prefix(dir_prefix_of(old_key), dir_prefix_of(old_key)),
        copy_target_of(old_key, new_key, dir_prefix_of(old_key)) == dir_prefix_of(new_key),
{
    let marker = dir_prefix_of(old_key);
    assert(marker.subrange(0, marker.len() as int) =~= marker);
    assert(copy_target_of(old_key, new_key, marker) =~= dir_prefix_of(new_key));
}

/// After a write or a deletion nothing that was known of the path before is
/// used any more: its attributes are looked up anew, and whatever the object
/// holds then, no window holds anything else. Other paths keep what is known
/// of them.
pub proof fn law_changes_are_seen(c: CachesView, path: Seq<char>, other: Seq<char>, content: Seq<u8>)
    ensures
        !forgotten(c, path).stats.dom().contains(path),
        !forgotten(c, path).negative.dom().contains(path),
        window_of(forgotten(c, path).reads, path, content),
        other != path ==> {
            &&& forgotten(c, path).stats.dom().contains(other) == c.stats.dom().contains(other)
            &&& forgotten(c, path).negative.dom().contains(other) == c.negative.dom().contains(other)
            &&& forgotten(c, path).reads.dom().contains(other) == c.reads.dom().contains(other)
            &&& window_of(forgotten(c, path).reads, other, content) == window_of(c.reads, other, content)
        },
{
}

/// A rename keeps apart what was apart: different keys below the directory are
/// copied to different keys below the new one, under the same names.
pub proof fn law_copies_apart(old_key: Seq<char>, new_key: Seq<char>, a: Seq<char>, b: Seq<char>)
    requires
        has_prefix(a, dir_prefix_of(old_key)),
        has_prefix(b, dir_prefix_of(old_key)),
    ensures
        has_prefix(copy_target_of(old_key, new_key, a), dir_prefix_of(new_key)),
        tail_from(copy_target_of(old_key, new_key, a), dir_prefix_of(new_key).len() as int) == tail_from(
            a,
            dir_prefix_of(old_key).len() as int,
        ),
        copy_target_of(old_key, new_key, a) == copy_target_of(old_key, new_key, b) ==> a == b,
{
    let from = dir_prefix_of(old_key);
    let to = dir_prefix_of(new_key);
    let n = from.len() as int;
    let m = to.len() as int;
    let ta = copy_target_of(old_key, new_key, a);
    let tb = copy_target_of(old_key, new_key, b);
    assert(ta =~= to + tail_from(a, n));
    assert(tb =~= to + tail_from(b, n));
    assert(ta.subrange(0, m) =~= to);
    assert(tail_from(ta, m) =~= tail_from(a, n));
    assert(tail_from(tb, m) =~= tail_from(b, n));
    assert(a =~= from + tail_from(a, n));
    assert(b =~= from + tail_from(b, n));
}

/// Where the objects of a directory go that is renamed: what follows the old
/// directory in the key follows the new one, whole and unchanged.
pub proof fn law_copied_to(old_key: Seq<char>, new_key: Seq<char>, rest: Seq<char>)
    requires
        old_key.len() > 0 && old_key.last() != '/',
        new_key.len() > 0 && new_key.last() != '/',
    ensures
        copy_target_of(old_key, new_key, old_key + seq!['/'] + rest) == new_key + seq!['/'] + rest,
        copy_target_of(old_key + seq!['/'], new_key + seq!['/'], old_key + seq!['/'] + rest) == new_key + seq!['/'] + rest,
{
    let none = Seq::<char>::empty();
    law_drop_tail_while(old_key, none, is_char('/'));
    law_drop_tail_while(old_key, seq!['/'], is_char('/'));
    law_drop_tail_while(new_key, none, is_char('/'));
    law_drop_tail_while(new_key, seq!['/'], is_char('/'));
    assert(old_key + none =~= old_key && new_key + none =~= new_key);
    law_prefix_and_rest(old_key + seq!['/'], rest);
}

/// Every listed key is copied once, in the order of the listing, and nothing
/// else is.
pub proof fn law_copies_all(old_key: Seq<char>, new_key: Seq<char>, page: Seq<Seq<char>>, i: int)
    requires
        0 <= i < page.len(),
    ensures
        copies_of(old_key, new_key, page).len() == page.len(),
        copies_of(old_key, new_key, page)[i].0 == page[i],
        copies_of(old_key, new_key, page)[i].1 == copy_target_of(old_key, new_key, page[i]),
{
}

/// A directory is known by a slash at its end.
pub proof fn law_slashed(path: Seq<char>)
    requires
        path.len() > 0,
        path.last() != '/',
    ensures
        slashed(path) == path + seq!['/'],
        slashed(path + seq!['/']) == path + seq!['/'],
{
}

/// A failure is counted among all failures and among those of its kind, and
/// nowhere else.
pub proof fn law_failure_counted(m: Metrics, f: Failure)
    ensures
        failed(m, f).s3_errors == u64::wrapping_add(m.s3_errors, 1),
        failed(m, f).s3_get_errors == if f is Get { u64::wrapping_add(m.s3_get_errors, 1) } else { m.s3_get_errors },
        failed(m, f).s3_list_errors == if f is List { u64::wrapping_add(m.s3_list_errors, 1) } else { m.s3_list_errors },
        failed(m, f).s3_put_errors == if f is Put { u64::wrapping_add(m.s3_put_errors, 1) } else { m.s3_put_errors },
        failed(m, f).s3_delete_errors == if f is Delete {
            u64::wrapping_add(m.s3_delete_errors, 1)
        } else {
            m.s3_delete_errors
        },
        failed(m, f).s3_multipart_errors == if f is Multipart {
            u64::wrapping_add(m.s3_multipart_errors, 1)
        } else {
            m.s3_multipart_errors
        },
        failed(m, f).reads == m.reads && failed(m, f).writes == m.writes,
{
}

/// A write is counted once, with its bytes.
pub proof fn law_write_counted(m: Metrics, len: u64)
    ensures
        write_counted(m, len).writes == u64::wrapping_add(m.writes, 1),
        write_counted(m, len).s3_puts == u64::wrapping_add(m.s3_puts, 1),
        write_counted(m, len).upload_bytes_total == u64::wrapping_add(m.upload_bytes_total, len),
        write_counted(m, len).reads == m.reads && write_counted(m, len).s3_errors == m.s3_errors,
{
}

/// What a write plans. A mount that is read-only refuses; what is larger than
/// the whole budget is refused; anything else is written to the key of its path,
/// in parts where it has more than 16 mebibytes.
pub proof fn law_write_planned(fs: &ObjectFs, path: Seq<char>, size: u64, len: usize, plan: Result<WritePlan, FsError>)
    requires
        fs.write_outcome(path, size, len, plan),
    ensures
        fs.settings.read_only ==> plan == Err::<WritePlan, FsError>(FsError::ReadOnly),
        !fs.settings.read_only && fs.settings.upload_budget_units is None ==> plan is Ok,
        !fs.settings.read_only && fs.settings.upload_budget_units is Some && len <= fs.settings.upload_budget_units->0
            * 1_048_576 ==> plan is Ok,
        !fs.settings.read_only && fs.settings.upload_budget_units is Some && len > fs.settings.upload_budget_units->0
            * 1_048_576 ==> plan is Err,
        plan matches Ok(p) ==> {
            &&& p.key@ == key_of(fs.settings.prefix@, path)
            &&& p.multipart <==> size > 16_777_216
            &&& fs.settings.upload_budget_units is None ==> p.units == 0
            &&& fs.settings.upload_budget_units is Some ==> p.units * 1_048_576 >= len
        },
{
    crate::budget::law_units(len as nat);
}

/// Where a read ended is remembered for its path; too many paths make all others
/// be forgotten.
pub proof fn law_read_noted(seqs: Map<Seq<char>, u64>, path: Seq<char>, end: u64, other: Seq<char>)
    requires
        other != path,
    ensures
        read_noted(seqs, path, end).dom().contains(path),
        read_noted(seqs, path, end)[path] == end,
        seqs.dom().len() < 4096 && seqs.dom().contains(other) ==> read_noted(seqs, path, end).dom().contains(other)
            && read_noted(seqs, path, end)[other] == seqs[other],
        !seqs.dom().contains(other) ==> !read_noted(seqs, path, end).dom().contains(other),
{
}

} // verus!
