//! What deleting, restoring, listing and collecting decide. The requests to
//! the store are made by the caller, who hands in what came back.

use vstd::prelude::*;
use vstd::string::*;

use crate::caches::FsCaches;
use crate::date::Date;
use crate::metrics::{count, Metrics};
use crate::paths::{basename, basename_of, dir_object_prefix, dir_prefix_of, key_for, key_of};
use crate::recycle::NamesView;
use crate::system_trash::{etag_eq, same_etag, SystemTrashPlatform};
use crate::text::{same_text, trim_end, trim_end_char};
use crate::tombstone::{encode_tombstone_key, tombstone_name, word, IndexView};
use crate::trash::{opt_view, TrashState};
use crate::trash_view::TombstoneBody;

verus! {

/// The most keys that one request deletes.
pub const MAX_DELETE_OBJECTS_PER_REQUEST: usize = 1000;

/// The size from which a copy is made in parts.
pub const MULTIPART_COPY_THRESHOLD: u64 = 5_368_709_120;

/// How restoring from the trash ended.
#[derive(Debug, Clone, Copy, PartialEq, Eq, Structural)]
pub enum RestoreOutcome {
    /// The tombstone is gone and the object visible again. The object may
    /// have been changed meanwhile, and there may be further tombstones.
    Restored { etag_mismatch: bool, multiple_versions: bool },
    /// The object was gone, so that only its tombstone was cleared.
    OriginalGone,
    /// There is no tombstone.
    NoTombstone,
}

/// What a collection did.
#[derive(Debug, Clone, Copy, PartialEq, Eq, Structural)]
pub struct GcReport {
    /// Files whose object was deleted.
    pub files_removed: u64,
    /// Files whose object was gone, so that only the tombstone was cleared.
    pub files_tombstone_only: u64,
    /// Files left alone because their object had been changed.
    pub files_skipped_etag: u64,
    /// Directories dealt with.
    pub dirs_removed: u64,
    /// Objects deleted below directories.
    pub objects_deleted: u64,
    /// Tombstones deleted.
    pub tombstones_deleted: u64,
}

impl Default for GcReport {
    /// Nothing done.
    fn default() -> (r: Self)
        ensures
            r == GcReport::nothing(),
    {
        GcReport {
            files_removed: 0,
            files_tombstone_only: 0,
            files_skipped_etag: 0,
            dirs_removed: 0,
            objects_deleted: 0,
            tombstones_deleted: 0,
        }
    }
}

impl GcReport {
    /// The report of a collection that did nothing.
    pub open spec fn nothing() -> GcReport {
        GcReport {
            files_removed: 0,
            files_tombstone_only: 0,
            files_skipped_etag: 0,
            dirs_removed: 0,
            objects_deleted: 0,
            tombstones_deleted: 0,
        }
    }
}

/// What a collection may do.
#[derive(Debug, Clone, Copy)]
pub struct GcOptions {
    /// Only partitions before this date; never later than the retention says.
    pub before: Option<Date>,
    /// Only report.
    pub dry_run: bool,
}

/// One line of the listing of the trash.
#[derive(Debug, PartialEq, Eq)]
pub struct TrashEntry {
    pub deleted_date: Date,
    /// The path below the mount; that of a directory ends with a slash.
    pub path: String,
    pub etag: Option<String>,
    pub size: Option<u64>,
    pub is_dir: bool,
}

/// The object is the one that the tombstone was written for: their entity
/// tags agree, or the tombstone tells none.
pub open spec fn unchanged_since(tomb_etag: Option<Seq<char>>, current: Option<Seq<char>>) -> bool {
    match (tomb_etag, current) {
        (Some(a), Some(b)) => same_etag(a, b),
        (Some(_), None) => false,
        _ => true,
    }
}

/// Whether an object is the one that its tombstone was written for.
pub fn etags_agree(tomb_etag: &Option<String>, current: &Option<String>) -> (r: bool)
    ensures
        r == unchanged_since(opt_view(*tomb_etag), opt_view(*current)),
{
    match tomb_etag {
        Some(a) => match current {
            Some(b) => etag_eq(a.as_str(), b.as_str()),
            None => false,
        },
        None => true,
    }
}

/// What the store says of an object.
#[derive(Debug)]
pub struct HeadInfo {
    pub etag: Option<String>,
    pub size: Option<i64>,
}

/// A size as the store reports it, which is never negative.
pub open spec fn clamped_size(size: i64) -> u64 {
    if size < 0 {
        0
    } else {
        size as u64
    }
}

/// A size as the store reports it, which is never negative.
pub fn clamp_size(size: i64) -> (r: u64)
    ensures
        r == clamped_size(size),
{
    if size < 0 {
        0
    } else {
        size as u64
    }
}

impl TrashState {
    /// The key to look up before a file is put into the trash; none where its
    /// tombstone is there already.
    pub fn begin_soft_delete_file(&self, mount_prefix: &str, path: &str) -> (r: Option<String>)
        requires
            self.wf(),
        ensures
            r is None <==> self.index@.files.dom().contains(key_of(mount_prefix@, path@)),
            r matches Some(key) ==> key@ == key_of(mount_prefix@, path@),
    {
        let key = key_for(mount_prefix, path);
        if self.index.is_file_covered(key.as_str()) {
            None
        } else {
            Some(key)
        }
    }

    /// The tombstone to write for a file: its name and what it holds; none
    /// where the file does not exist.
    pub fn plan_file_tombstone(
        &self,
        key: &str,
        head: Option<HeadInfo>,
        today: Date,
        recycle_name: Option<String>,
    ) -> (r: Option<(String, TombstoneBody)>)
        ensures
            r is Some <==> head is Some,
            r matches Some((name, body)) ==> {
                &&& name@ == tombstone_name(self.prefix@, today.number(), key@, false)
                &&& body.etag == head->0.etag
                &&& body.size == match head->0.size {
                    Some(size) => Some(clamped_size(size)),
                    None => None,
                }
                &&& !body.is_dir
                &&& body.recycle_name == recycle_name
                &&& body.recycle_i is None
            },
    {
        match head {
            Some(info) => {
                let name = encode_tombstone_key(self.prefix.as_str(), today, key, false);
                let size = match info.size {
                    Some(size) => Some(clamp_size(size)),
                    None => None,
                };
                Some(
                    (
                        name,
                        TombstoneBody {
                            etag: info.etag,
                            size,
                            is_dir: false,
                            recycle_name,
                            recycle_i: None,
                        },
                    ),
                )
            },
            None => None,
        }
    }

    /// The names after a tombstone was written under a name of the recycle
    /// bin, or under none.
    pub open spec fn names_with(names: NamesView, tomb_key: Seq<char>, key: Seq<char>, name: Option<Seq<char>>) -> NamesView {
        match name {
            Some(n) => names.named(tomb_key, key, n),
            None => names,
        }
    }

    /// Records the name of the recycle bin that a tombstone was written
    /// under. The result tells whether the name stood for another one.
    pub fn insert_recycle_names(&mut self, tomb_key: &str, key: &str, recycle_name: &Option<String>) -> (replaced: bool)
        requires
            old(self).wf(),
        ensures
            final(self).wf(),
            *final(self) == (TrashState { recycle_names: final(self).recycle_names, ..*old(self) }),
            final(self).recycle_names@ == TrashState::names_with(
                old(self).recycle_names@,
                tomb_key@,
                key@,
                opt_view(*recycle_name),
            ),
            replaced == (match opt_view(*recycle_name) {
                Some(n) => old(self).recycle_names@.by_name.dom().contains(n)
                    && old(self).recycle_names@.by_name[n] != tomb_key@,
                None => false,
            }),
    {
        match recycle_name {
            Some(name) => self.recycle_names.assign(tomb_key, key, name.as_str()),
            None => false,
        }
    }

    /// Everything but the index, its size and the names is the same.
    pub open spec fn same_but_index(&self, other: &TrashState) -> bool {
        *self == (TrashState {
            index: self.index,
            index_entries: self.index_entries,
            recycle_names: self.recycle_names,
            ..*other
        })
    }

    /// The tombstone of a file was written: the file is covered from now on
    /// and no longer cached.
    pub fn commit_soft_delete_file(
        &mut self,
        caches: &mut FsCaches,
        metrics: &mut Metrics,
        path: &str,
        key: &str,
        tomb_key: &str,
        today: Date,
        recycle_name: &Option<String>,
    )
        requires
            old(self).wf(),
            old(caches).wf(),
        ensures
            final(self).wf(),
            final(caches).wf(),
            final(self).same_but_index(old(self)),
            final(self).index@ == old(self).index@.with(key@, false, today),
            final(self).index_entries == word(final(self).index.size()),
            final(self).recycle_names@ == TrashState::names_with(
                old(self).recycle_names@,
                tomb_key@,
                key@,
                opt_view(*recycle_name),
            ),
            final(caches)@ == old(caches)@.without_stat(path@).without_reads(path@),
            *final(metrics) == (Metrics {
                trash_tombstones_written: u64::wrapping_add(old(metrics).trash_tombstones_written, 1),
                ..*old(metrics)
            }),
    {
        self.index.insert(key, false, today);
        let len: usize = self.index.len();
        let _alert = self.store_index_entries(len);
        let _replaced = self.insert_recycle_names(tomb_key, key, recycle_name);
        caches.invalidate_stat(path);
        caches.invalidate_read_cache(path);
        count(&mut metrics.trash_tombstones_written, 1);
    }

    /// The tombstone to write for a directory: its key, its name and what it
    /// holds; none where the directory is covered already.
    pub fn plan_dir_tombstone(
        &self,
        mount_prefix: &str,
        dir: &str,
        today: Date,
        recycle_name: Option<String>,
    ) -> (r: Option<(String, String, TombstoneBody)>)
        requires
            self.wf(),
        ensures
            ({
                let dir_key = dir_prefix_of(key_of(mount_prefix@, dir@));
                &&& r is None <==> self.index@.covers(dir_key)
                &&& r matches Some((key, name, body)) ==> {
                    &&& key@ == dir_key
                    &&& name@ == tombstone_name(self.prefix@, today.number(), dir_key, true)
                    &&& body.etag is None
                    &&& body.size is None
                    &&& body.is_dir
                    &&& body.recycle_name == recycle_name
                    &&& body.recycle_i is None
                }
            }),
    {
        let key = key_for(mount_prefix, dir);
        let dir_key = dir_object_prefix(key.as_str());
        if self.index.is_covered(dir_key.as_str()) {
            return None;
        }
        let name = encode_tombstone_key(self.prefix.as_str(), today, dir_key.as_str(), true);
        Some(
            (
                dir_key,
                name,
                TombstoneBody { etag: None, size: None, is_dir: true, recycle_name, recycle_i: None },
            ),
        )
    }

    /// The tombstone of a directory was written: everything below it is
    /// covered from now on and no longer cached.
    pub fn commit_soft_delete_dir(
        &mut self,
        caches: &mut FsCaches,
        metrics: &mut Metrics,
        dir: &str,
        dir_key: &str,
        tomb_key: &str,
        today: Date,
        recycle_name: &Option<String>,
    )
        requires
            old(self).wf(),
            old(caches).wf(),
        ensures
            final(self).wf(),
            final(caches).wf(),
            final(self).same_but_index(old(self)),
            final(self).index@ == old(self).index@.with(dir_key@, true, today),
            final(self).index_entries == word(final(self).index.size()),
            final(self).recycle_names@ == TrashState::names_with(
                old(self).recycle_names@,
                tomb_key@,
                dir_key@,
                opt_view(*recycle_name),
            ),
            final(caches)@ == old(caches)@.without_trashed(dir@, true).without_stat(
                trim_end(dir@, '/'),
            ).without_all_reads(),
            *final(metrics) == (Metrics {
                trash_tombstones_written: u64::wrapping_add(old(metrics).trash_tombstones_written, 1),
                ..*old(metrics)
            }),
    {
        self.index.insert(dir_key, true, today);
        let len: usize = self.index.len();
        let _alert = self.store_index_entries(len);
        let _replaced = self.insert_recycle_names(tomb_key, dir_key, recycle_name);
        caches.invalidate_trash_cached(dir, true);
        let bare = trim_end_char(dir, '/');
        caches.invalidate_stat(bare.as_str());
        caches.clear_read_cache();
        count(&mut metrics.trash_tombstones_written, 1);
    }

    /// The name to record where an object is moved into the recycle bin under
    /// `entry_name`: on Windows always, on macOS where the entry is named
    /// otherwise than the object; none where there is no recycle bin.
    pub open spec fn recycle_name_of(&self, key: Seq<char>, entry_name: Seq<char>) -> Option<Seq<char>> {
        match self.system {
            Some(sys) => if sys.platform == SystemTrashPlatform::WindowsRecycleBin || entry_name != basename_of(key) {
                Some(entry_name)
            } else {
                None
            },
            None => None,
        }
    }

    /// How an object is moved into the recycle bin: nothing is left to do
    /// where it is covered already; otherwise the name to record.
    pub fn soft_delete_via_system(&self, mount_prefix: &str, old_path: &str, entry_name: &str) -> (r: Option<Option<String>>)
        requires
            self.wf(),
        ensures
            r is None <==> self.index@.covers(trim_end(key_of(mount_prefix@, old_path@), '/')),
            r matches Some(name) ==> opt_view(name) == self.recycle_name_of(
                key_of(mount_prefix@, old_path@),
                entry_name@,
            ),
    {
        let key = key_for(mount_prefix, old_path);
        let bare = trim_end_char(key.as_str(), '/');
        if self.index.is_covered(bare.as_str()) {
            return None;
        }
        let own = basename(key.as_str());
        match &self.system {
            Some(sys) => if sys.platform == SystemTrashPlatform::WindowsRecycleBin || !same_text(
                entry_name,
                own.as_str(),
            ) {
                Some(Some(entry_name.to_owned()))
            } else {
                Some(None)
            },
            None => Some(None),
        }
    }
}

/// Deleting a file puts its key under cover, whatever was covered before
/// stays so.
pub proof fn law_soft_delete_hides(index: IndexView, key: Seq<char>, is_dir: bool, today: Date, other: Seq<char>)
    ensures
        index.with(key, is_dir, today).covers(key),
        index.covers(other) ==> index.with(key, is_dir, today).covers(other),
{
    crate::tombstone::law_insert_covers(index, key, is_dir, today, Seq::empty());
    if index.covers(other) {
        crate::tombstone::law_insert_keeps(index, key, is_dir, today, other);
    }
}

/// When an object is the one that a tombstone was written for: where the entity
/// tags are the same, and where the tombstone tells none. An object that has lost
/// its tag is another one.
pub proof fn law_unchanged_since(a: Seq<char>, b: Seq<char>, current: Option<Seq<char>>)
    ensures
        unchanged_since(Some(a), Some(b)) == same_etag(a, b),
        !unchanged_since(Some(a), None),
        unchanged_since(None, current),
{
}

/// Under which name a deletion is remembered that the recycle bin asked for: on
/// Windows always the entry's; else only where it is not that of the key.
pub proof fn law_recycle_name(trash: &TrashState, parent: Seq<char>, name: Seq<char>, entry_name: Seq<char>)
    requires
        trash.system is Some,
        name.len() > 0,
        !name.contains('/'),
        parent != seq!['/'],
    ensures
        trash.system->0.platform == SystemTrashPlatform::WindowsRecycleBin ==> trash.recycle_name_of(
            parent + seq!['/'] + name,
            entry_name,
        ) == Some(entry_name),
        trash.system->0.platform == SystemTrashPlatform::MacOsTrashes ==> trash.recycle_name_of(
            parent + seq!['/'] + name,
            entry_name,
        ) == (if entry_name == name {
            None
        } else {
            Some(entry_name)
        }),
{
    crate::paths::law_basename_of_joined(parent, name);
}

/// A deletion that has a name of its own is remembered by it, and one without
/// leaves the names as they are.
pub proof fn law_names_with(names: NamesView, tomb_key: Seq<char>, key: Seq<char>, name: Seq<char>)
    ensures
        TrashState::names_with(names, tomb_key, key, None) == names,
        TrashState::names_with(names, tomb_key, key, Some(name)).by_name.dom().contains(name),
        TrashState::names_with(names, tomb_key, key, Some(name)).by_name[name] == tomb_key,
        TrashState::names_with(names, tomb_key, key, Some(name)).by_key.dom().contains(key),
        TrashState::names_with(names, tomb_key, key, Some(name)).by_key[key] == name,
{
}

} // verus!
