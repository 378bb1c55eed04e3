//! The collection of what has been in the trash past its time.

use vstd::prelude::*;
use vstd::string::*;

use crate::caches::{CachesView, FsCaches};
use crate::calendar::day_in_range;
use crate::date::{parsed_day, Date, DAY_SECS, EPOCH_DAY};
use crate::metrics::{count, Metrics};
use crate::recycle::{string_views, NamesView};
use crate::restore::opt_opt_view;
use crate::text::{strip_prefix, has_prefix, tail_from};
use crate::tombstone::{
    decode_tombstone_key, encode_tombstone_key, tombstone_name, tombstone_parts, word, IndexView,
};
use crate::trash::{invalidate_key, key_invalidated, tomb_forgotten, TrashState};
use crate::trash_ops::{etags_agree, unchanged_since, GcOptions, GcReport};
use crate::text::ends_with_char;

verus! {

/// The day before which partitions are collected: the one asked for, or
/// today, but never later than the days of retention before today.
pub open spec fn cutoff_day(today: int, before: Option<int>, retention_days: int) -> int {
    let kept = if day_in_range(today - retention_days) && retention_days <= i32::MAX {
        today - retention_days
    } else {
        today
    };
    let asked = match before {
        Some(b) => b,
        None => today,
    };
    if asked <= kept {
        asked
    } else {
        kept
    }
}

/// The day of a date that may be missing.
pub open spec fn opt_day(d: Option<Date>) -> Option<int> {
    match d {
        Some(date) => Some(date.day()),
        None => None,
    }
}

/// The day before which partitions are collected.
pub fn gc_cutoff(today: Date, before: Option<Date>, retention_days: u32) -> (r: Date)
    ensures
        r.day() == cutoff_day(today.day(), opt_day(before), retention_days as int),
{
    let kept = match today.minus_days(retention_days as u64) {
        Some(d) => d,
        None => today,
    };
    let asked = match before {
        Some(b) => b,
        None => today,
    };
    if asked.later_than(&kept) {
        kept
    } else {
        asked
    }
}

/// Begins a collection, and returns the day before which partitions are
/// collected. A read-only mount collects nothing.
pub fn trash_gc(read_only: bool, today: Date, opts: &GcOptions, retention_days: u32) -> (r: Option<Date>)
    ensures
        r is None <==> read_only,
        r matches Some(d) ==> d.day() == cutoff_day(today.day(), opt_day(opts.before), retention_days as int),
{
    if read_only {
        None
    } else {
        Some(gc_cutoff(today, opts.before, retention_days))
    }
}

/// What was deleted within the days of retention is not collected, and
/// neither is anything from the day asked for on: asking for a later day
/// changes nothing.
pub proof fn law_retention_protects(today: int, before: Option<int>, retention_days: int, day: int)
    requires
        0 <= retention_days <= i32::MAX,
        day_in_range(today - retention_days),
        day < cutoff_day(today, before, retention_days),
    ensures
        day < today - retention_days,
        before matches Some(b) ==> day < b,
{
}

/// The date of a partition that is to be collected.
pub fn gc_partition(partition: &str, cutoff: Date) -> (r: Option<Date>)
    ensures
        r is Some <==> parsed_day(partition@) is Some && (parsed_day(partition@)->0 as int) < cutoff.day(),
        r matches Some(d) ==> parsed_day(partition@) == Some(d.number()),
{
    match Date::parse(partition) {
        Some(date) => {
            proof {
                date.lemma_number();
            }
            if cutoff.later_than(&date) {
                Some(date)
            } else {
                None
            }
        },
        None => None,
    }
}

/// What a collection does with the tombstone of a file.
#[derive(Debug, Clone, Copy, PartialEq, Eq, Structural)]
pub enum GcFile {
    /// Nothing: the tombstone is gone by now.
    Gone,
    /// Delete the tombstone: the object is gone.
    TombstoneOnly,
    /// Delete the object, then the tombstone.
    Remove,
    /// Nothing: the object was changed since it was deleted.
    KeepChanged,
}

/// What a collection does with the tombstone of a file. `tomb_etag` is the
/// entity tag that the tombstone tells, if that exists, and `head` that of the
/// object, if that exists.
pub open spec fn gc_file_of(tomb_etag: Option<Option<Seq<char>>>, head: Option<Option<Seq<char>>>) -> GcFile {
    match tomb_etag {
        None => GcFile::Gone,
        Some(etag) => match head {
            None => GcFile::TombstoneOnly,
            Some(current) => if unchanged_since(etag, current) {
                GcFile::Remove
            } else {
                GcFile::KeepChanged
            },
        },
    }
}

/// A collection deletes no object that was changed since it was deleted, and
/// none whose tombstone is gone.
pub proof fn law_gc_keeps_changed(tomb_etag: Option<Option<Seq<char>>>, head: Option<Option<Seq<char>>>)
    requires
        gc_file_of(tomb_etag, head) == GcFile::Remove,
    ensures
        tomb_etag is Some,
        head is Some,
        unchanged_since(tomb_etag->0, head->0),
{
}

/// The files of a partition that a collection has dealt with.
pub struct GcBatch {
    /// The tombstones to delete.
    pub tomb_keys: Vec<String>,
    /// The keys that they were for.
    pub keys: Vec<String>,
}

/// The key of a file's tombstone without its partition.
pub open spec fn file_key_of(partition: Seq<char>, tomb_key: Seq<char>) -> Seq<char> {
    if has_prefix(tomb_key, partition) {
        tail_from(tomb_key, partition.len() as int)
    } else {
        tomb_key
    }
}

/// Whether a listed name is the tombstone of a file, or of a directory.
pub fn tomb_is_dir(prefix: &str, name: &str) -> (r: Option<bool>)
    ensures
        r == (match tombstone_parts(prefix@, name@) {
            Some((_day, original)) => Some(ends_with_char(original, '/')),
            None => None,
        }),
{
    match decode_tombstone_key(prefix, name) {
        Some(t) => Some(t.is_dir),
        None => None,
    }
}

impl GcBatch {
    pub open spec fn wf(&self) -> bool {
        self.tomb_keys@.len() == self.keys@.len()
    }

    /// Nothing dealt with yet.
    pub fn new() -> (r: Self)
        ensures
            r.wf(),
            r.tomb_keys@.len() == 0,
    {
        GcBatch { tomb_keys: Vec::new(), keys: Vec::new() }
    }

    /// Deals with the tombstone of a file: the report counts what is done,
    /// and the tombstone joins those to delete unless it or the object stays.
    pub fn step(
        &mut self,
        report: &mut GcReport,
        metrics: &mut Metrics,
        partition: &str,
        tomb_key: &str,
        tomb_etag: &Option<Option<String>>,
        head: &Option<Option<String>>,
    ) -> (r: GcFile)
        requires
            old(self).wf(),
        ensures
            final(self).wf(),
            r == gc_file_of(opt_opt_view(*tomb_etag), opt_opt_view(*head)),
            r == GcFile::Remove || r == GcFile::TombstoneOnly ==> {
                &&& string_views(final(self).tomb_keys@) == string_views(old(self).tomb_keys@).push(tomb_key@)
                &&& string_views(final(self).keys@) == string_views(old(self).keys@).push(
                    file_key_of(partition@, tomb_key@),
                )
            },
            r == GcFile::Gone || r == GcFile::KeepChanged ==> *final(self) == *old(self),
            *final(report) == (GcReport {
                files_removed: if r == GcFile::Remove {
                    u64::wrapping_add(old(report).files_removed, 1)
                } else {
                    old(report).files_removed
                },
                files_tombstone_only: if r == GcFile::TombstoneOnly {
                    u64::wrapping_add(old(report).files_tombstone_only, 1)
                } else {
                    old(report).files_tombstone_only
                },
                files_skipped_etag: if r == GcFile::KeepChanged {
                    u64::wrapping_add(old(report).files_skipped_etag, 1)
                } else {
                    old(report).files_skipped_etag
                },
                ..*old(report)
            }),
            *final(metrics) == (Metrics {
                trash_gc_etag_skips: if r == GcFile::KeepChanged {
                    u64::wrapping_add(old(metrics).trash_gc_etag_skips, 1)
                } else {
                    old(metrics).trash_gc_etag_skips
                },
                ..*old(metrics)
            }),
    {
        let etag = match tomb_etag {
            Some(etag) => etag,
            None => {
                return GcFile::Gone;
            },
        };
        let verdict = match head {
            None => GcFile::TombstoneOnly,
            Some(current) => if etags_agree(etag, current) {
                GcFile::Remove
            } else {
                GcFile::KeepChanged
            },
        };
        match verdict {
            GcFile::KeepChanged => {
                count(&mut report.files_skipped_etag, 1);
                count(&mut metrics.trash_gc_etag_skips, 1);
                return verdict;
            },
            GcFile::Remove => {
                count(&mut report.files_removed, 1);
            },
            _ => {
                count(&mut report.files_tombstone_only, 1);
            },
        }
        let key = match strip_prefix(tomb_key, partition) {
            Some(key) => key,
            None => tomb_key.to_owned(),
        };
        let ghost tombs = self.tomb_keys@;
        let ghost keys = self.keys@;
        let tomb = tomb_key.to_owned();
        self.tomb_keys.push(tomb);
        self.keys.push(key);
        proof {
            assert(string_views(self.tomb_keys@) =~= string_views(tombs).push(tomb_key@));
            assert(string_views(self.keys@) =~= string_views(keys).push(key@));
        }
        verdict
    }
}

/// An index without some files.
pub open spec fn without_files(index: IndexView, keys: Seq<Seq<char>>) -> IndexView
    decreases keys.len(),
{
    if keys.len() == 0 {
        index
    } else {
        without_files(index, keys.drop_last()).without(keys.last(), false)
    }
}

/// The caches after the tombstones of files are gone.
pub open spec fn files_invalidated(c: CachesView, prefix: Seq<char>, keys: Seq<Seq<char>>) -> CachesView
    decreases keys.len(),
{
    if keys.len() == 0 {
        c
    } else {
        key_invalidated(files_invalidated(c, prefix, keys.drop_last()), prefix, keys.last(), false)
    }
}

/// The names after the tombstones of files are gone.
pub open spec fn files_forgotten(names: NamesView, index: IndexView, tombs: Seq<Seq<char>>, keys: Seq<Seq<char>>) -> NamesView
    decreases keys.len(),
{
    if keys.len() == 0 {
        names
    } else {
        tomb_forgotten(
            files_forgotten(names, index, tombs.drop_last(), keys.drop_last()),
            index,
            seq![tombs.last()],
            keys.last(),
        )
    }
}

impl TrashState {
    fn drop_files(&mut self, keys: &Vec<String>)
        requires
            old(self).wf(),
        ensures
            final(self).wf(),
            final(self).index@ == without_files(old(self).index@, string_views(keys@)),
            *final(self) == (TrashState { index: final(self).index, ..*old(self) }),
    {
        let ghost base = self.index@;
        let ghost names = string_views(keys@);
        let mut i: usize = 0;
        proof {
            assert(names.subrange(0, 0) =~= Seq::<Seq<char>>::empty());
        }
        while i < keys.len()
            invariant
                i <= keys@.len(),
                self.wf(),
                names == string_views(keys@),
                *self == (TrashState { index: self.index, ..*old(self) }),
                self.index@ == without_files(base, names.subrange(0, i as int)),
            decreases keys.len() - i,
        {
            proof {
                let upto = names.subrange(0, i + 1);
                assert(upto.drop_last() =~= names.subrange(0, i as int));
                assert(upto.last() == keys@[i as int]@);
            }
            self.index.remove(keys[i].as_str(), false);
            i = i + 1;
        }
        proof {
            assert(names.subrange(0, names.len() as int) =~= names);
        }
    }

    fn forget_files(&mut self, batch: &GcBatch)
        requires
            old(self).wf(),
            batch.wf(),
        ensures
            final(self).wf(),
            final(self).recycle_names@ == files_forgotten(
                old(self).recycle_names@,
                old(self).index@,
                string_views(batch.tomb_keys@),
                string_views(batch.keys@),
            ),
            *final(self) == (TrashState { recycle_names: final(self).recycle_names, ..*old(self) }),
    {
        let ghost base = self.recycle_names@;
        let ghost keys = string_views(batch.keys@);
        let ghost tombs = string_views(batch.tomb_keys@);
        let mut i: usize = 0;
        proof {
            assert(keys.subrange(0, 0) =~= Seq::<Seq<char>>::empty());
            assert(tombs.subrange(0, 0) =~= Seq::<Seq<char>>::empty());
        }
        while i < batch.keys.len()
            invariant
                i <= batch.keys@.len(),
                batch.wf(),
                self.wf(),
                keys == string_views(batch.keys@),
                tombs == string_views(batch.tomb_keys@),
                *self == (TrashState { recycle_names: self.recycle_names, ..*old(self) }),
                self.recycle_names@ == files_forgotten(
                    base,
                    old(self).index@,
                    tombs.subrange(0, i as int),
                    keys.subrange(0, i as int),
                ),
            decreases batch.keys.len() - i,
        {
            proof {
                let upto = keys.subrange(0, i + 1);
                assert(upto.drop_last() =~= keys.subrange(0, i as int));
                assert(upto.last() == batch.keys@[i as int]@);
                let tupto = tombs.subrange(0, i + 1);
                assert(tupto.drop_last() =~= tombs.subrange(0, i as int));
                assert(tupto.last() == batch.tomb_keys@[i as int]@);
            }
            let mut one: Vec<String> = Vec::new();
            one.push(batch.tomb_keys[i].clone());
            proof {
                assert(string_views(one@) =~= seq![batch.tomb_keys@[i as int]@]);
            }
            self.remove_tombstone_maps(&one, batch.keys[i].as_str());
            i = i + 1;
        }
        proof {
            assert(keys.subrange(0, keys.len() as int) =~= keys);
            assert(tombs.subrange(0, tombs.len() as int) =~= tombs);
        }
    }

    /// Ends the collection of the files of a partition. Where it only reports,
    /// nothing but the report changes.
    pub fn finish_gc_files(
        &mut self,
        caches: &mut FsCaches,
        report: &mut GcReport,
        mount_prefix: &str,
        batch: &GcBatch,
        dry_run: bool,
    )
        requires
            old(self).wf(),
            old(caches).wf(),
            batch.wf(),
        ensures
            final(self).wf(),
            final(caches).wf(),
            *final(report) == (GcReport {
                tombstones_deleted: u64::wrapping_add(
                    old(report).tombstones_deleted,
                    batch.tomb_keys@.len() as u64,
                ),
                ..*old(report)
            }),
            dry_run || batch.keys@.len() == 0 ==> *final(self) == *old(self) && *final(caches) == *old(caches),
            !dry_run && batch.keys@.len() > 0 ==> {
                &&& final(self).same_but_index(old(self))
                &&& final(self).index@ == without_files(old(self).index@, string_views(batch.keys@))
                &&& final(self).index_entries == word(final(self).index.size())
                &&& final(self).recycle_names@ == files_forgotten(
                    old(self).recycle_names@,
                    final(self).index@,
                    string_views(batch.tomb_keys@),
                    string_views(batch.keys@),
                )
                &&& final(caches)@ == files_invalidated(
                    old(caches)@,
                    mount_prefix@,
                    string_views(batch.keys@),
                )
            },
    {
        count(&mut report.tombstones_deleted, batch.tomb_keys.len() as u64);
        if dry_run || batch.keys.len() == 0 {
            return;
        }
        self.drop_files(&batch.keys);
        let len: usize = self.index.len();
        let _alert = self.store_index_entries(len);
        let ghost base = caches@;
        let ghost keys = string_views(batch.keys@);
        let mut i: usize = 0;
        proof {
            assert(keys.subrange(0, 0) =~= Seq::<Seq<char>>::empty());
        }
        while i < batch.keys.len()
            invariant
                i <= batch.keys@.len(),
                caches.wf(),
                keys == string_views(batch.keys@),
                caches@ == files_invalidated(base, mount_prefix@, keys.subrange(0, i as int)),
            decreases batch.keys.len() - i,
        {
            proof {
                let upto = keys.subrange(0, i + 1);
                assert(upto.drop_last() =~= keys.subrange(0, i as int));
                assert(upto.last() == batch.keys@[i as int]@);
            }
            invalidate_key(caches, mount_prefix, batch.keys[i].as_str(), false);
            i = i + 1;
        }
        proof {
            assert(keys.subrange(0, keys.len() as int) =~= keys);
        }
        self.forget_files(batch);
    }

    /// Ends the collection of a directory, below which `objects` were deleted.
    /// A directory that was deleted again at a later date stays hidden. Where
    /// the collection only reports, nothing but the report changes.
    pub fn finish_gc_dir(
        &mut self,
        caches: &mut FsCaches,
        report: &mut GcReport,
        mount_prefix: &str,
        dir_key: &str,
        date: Date,
        objects: u64,
        dry_run: bool,
    )
        requires
            old(self).wf(),
            old(caches).wf(),
        ensures
            final(self).wf(),
            final(caches).wf(),
            *final(report) == (GcReport {
                objects_deleted: u64::wrapping_add(old(report).objects_deleted, objects),
                dirs_removed: u64::wrapping_add(old(report).dirs_removed, 1),
                tombstones_deleted: u64::wrapping_add(old(report).tombstones_deleted, 1),
                ..*old(report)
            }),
            dry_run ==> *final(self) == *old(self) && *final(caches) == *old(caches),
            !dry_run ==> {
                &&& final(self).same_but_index(old(self))
                &&& final(self).index@ == if old(self).index@.dir_later_than(dir_key@, date) {
                    old(self).index@
                } else {
                    old(self).index@.without(dir_key@, true)
                }
                &&& final(self).index_entries == word(final(self).index.size())
                &&& final(self).recycle_names@ == tomb_forgotten(
                    old(self).recycle_names@,
                    final(self).index@,
                    seq![tombstone_name(old(self).prefix@, date.number(), dir_key@, true)],
                    dir_key@,
                )
                &&& final(caches)@ == key_invalidated(old(caches)@, mount_prefix@, dir_key@, true)
            },
    {
        count(&mut report.objects_deleted, objects);
        count(&mut report.dirs_removed, 1);
        count(&mut report.tombstones_deleted, 1);
        if dry_run {
            return;
        }
        if !self.index.dir_later_than(dir_key, date) {
            self.index.remove(dir_key, true);
        }
        let len: usize = self.index.len();
        let _alert = self.store_index_entries(len);
        invalidate_key(caches, mount_prefix, dir_key, true);
        let tomb = encode_tombstone_key(self.prefix.as_str(), date, dir_key, true);
        let mut one: Vec<String> = Vec::new();
        one.push(tomb);
        proof {
            assert(string_views(one@) =~= seq![tombstone_name(self.prefix@, date.number(), dir_key@, true)]);
        }
        self.remove_tombstone_maps(&one, dir_key);
    }

    /// Ends a collection: listings from before it are stale from now on. A
    /// collection that only reports makes none so.
    pub fn finish_gc(&mut self, dry_run: bool)
        ensures
            *final(self) == (TrashState {
                generation: if dry_run {
                    old(self).generation
                } else {
                    u64::wrapping_add(old(self).generation, 1)
                },
                ..*old(self)
            }),
    {
        if !dry_run {
            count(&mut self.generation, 1);
        }
    }
}

/// A listing that was begun before a collection ended is stale after it.
pub proof fn law_gc_makes_stale(generation: u64)
    ensures
        u64::wrapping_add(generation, 1) != generation,
{
}

/// An object below a directory and when it was last modified, if known.
pub struct ListedObject {
    pub key: String,
    pub modified_secs: Option<i64>,
}

/// The object is older than the deletion of the directory that it lies in.
pub open spec fn older_than(o: ListedObject, day: int) -> bool {
    match o.modified_secs {
        Some(secs) => secs < (day - EPOCH_DAY) * DAY_SECS,
        None => false,
    }
}

/// The keys of the objects that are older than a deletion.
pub open spec fn old_keys(objects: Seq<ListedObject>, day: int) -> Seq<Seq<char>> {
    objects.filter(|o: ListedObject| older_than(o, day)).map_values(|o: ListedObject| o.key@)
}

/// Takes the objects that a collection deletes below a directory: those last
/// modified before the day of the deletion began.
pub fn doomed_objects(objects: &Vec<ListedObject>, date: Date, out: &mut Vec<String>)
    ensures
        string_views(final(out)@) == string_views(old(out)@) + old_keys(objects@, date.day()),
{
    let midnight: i64 = date.midnight();
    let ghost day = date.day();
    let ghost base = string_views(out@);
    let ghost pick = |o: ListedObject| older_than(o, day);
    let ghost key = |o: ListedObject| o.key@;
    let mut i: usize = 0;
    proof {
        reveal(Seq::filter);
        assert(base + objects@.subrange(0, 0).filter(pick).map_values(key) =~= base);
    }
    while i < objects.len()
        invariant
            i <= objects@.len(),
            midnight == (day - EPOCH_DAY) * DAY_SECS,
            pick == (|o: ListedObject| older_than(o, day)),
            key == (|o: ListedObject| o.key@),
            string_views(out@) == base + objects@.subrange(0, i as int).filter(pick).map_values(key),
        decreases objects.len() - i,
    {
        proof {
            reveal(Seq::filter);
            let upto = objects@.subrange(0, i + 1);
            assert(upto.drop_last() =~= objects@.subrange(0, i as int));
            assert(upto.last() == objects@[i as int]);
            let done = objects@.subrange(0, i as int).filter(pick);
            assert(done.push(upto.last()).map_values(key) =~= done.map_values(key).push(key(upto.last())));
        }
        let hit = match objects[i].modified_secs {
            Some(secs) => secs < midnight,
            None => false,
        };
        if hit {
            let ghost before = out@;
            let k = objects[i].key.clone();
            out.push(k);
            proof {
                let done = objects@.subrange(0, i as int).filter(pick).map_values(key);
                assert(string_views(out@) =~= string_views(before).push(k@));
                assert((base + done).push(k@) =~= base + done.push(k@));
            }
        }
        i = i + 1;
    }
    proof {
        assert(objects@.subrange(0, objects@.len() as int) =~= objects@);
    }
}

/// What a collection deletes below a directory. A key is taken if and only if
/// the store tells when its object was last modified, and that was before the
/// day of the deletion began, at midnight in UTC: never one that was modified on
/// that day or later.
pub proof fn law_newer_objects_stay(objects: Seq<ListedObject>, day: int, i: int)
    requires
        0 <= i < objects.len(),
    ensures
        objects[i].modified_secs is Some && objects[i].modified_secs->0 < (day - 719_163) * 86_400 ==> old_keys(
            objects,
            day,
        ).contains(objects[i].key@),
        old_keys(objects, day).contains(objects[i].key@) ==> exists|k: int|
            0 <= k < objects.len() && (#[trigger] objects[k]).key@ == objects[i].key@ && objects[k].modified_secs is Some
                && objects[k].modified_secs->0 < (day - 719_163) * 86_400,
        forall|key: Seq<char>| #[trigger]
            old_keys(objects, day).contains(key) ==> exists|k: int|
                0 <= k < objects.len() && (#[trigger] objects[k]).key@ == key && objects[k].modified_secs is Some
                    && 719_163 + objects[k].modified_secs->0 as int / 86_400 < day,
{
    let pick = |o: ListedObject| older_than(o, day);
    let taken = objects.filter(pick);
    let keys = old_keys(objects, day);
    broadcast use vstd::seq_lib::group_filter_ensures;
    assert forall|key: Seq<char>| #[trigger] keys.contains(key) implies exists|k: int|
        0 <= k < objects.len() && (#[trigger] objects[k]).key@ == key && objects[k].modified_secs is Some
            && objects[k].modified_secs->0 < (day - 719_163) * 86_400 && 719_163 + objects[k].modified_secs->0 as int / 86_400
            < day by {
        let j = choose|j: int| 0 <= j < keys.len() && keys[j] == key;
        assert(keys[j] == taken[j].key@);
        assert(taken.contains(taken[j]));
        assert(pick(taken[j]));
        objects.lemma_filter_contains_rev(pick, taken[j]);
        let k = choose|k: int| 0 <= k < objects.len() && objects[k] == taken[j];
        assert(objects[k].key@ == key);
    }
    if objects[i].modified_secs is Some && objects[i].modified_secs->0 < (day - 719_163) * 86_400 {
        assert(pick(objects[i]));
        assert(objects.contains(objects[i]));
        assert(taken.contains(objects[i]));
        let at = choose|at: int| 0 <= at < taken.len() && taken[at] == objects[i];
        assert(keys[at] == objects[i].key@);
    }
}

/// From when on what was deleted is collected: retention protects the last
/// days, and a day that was asked for protects itself and what follows it. What
/// neither protects is collected.
pub proof fn law_cutoff(today: int, before: Option<int>, retention_days: int, day: int)
    requires
        0 <= retention_days <= i32::MAX,
        day_in_range(today),
        day_in_range(today - retention_days),
        before matches Some(b) ==> b <= today,
    ensures
        day < cutoff_day(today, before, retention_days) <==> day < today - retention_days && (before matches Some(b)
            ==> day < b),
{
}

/// What a collection does with a deleted file: nothing where its tombstone is
/// gone; where the object is gone only the tombstone is deleted; the object is
/// deleted where it is the one that was deleted then, and else kept.
pub proof fn law_collect_file(tag: Seq<char>, current: Option<Seq<char>>, head: Option<Option<Seq<char>>>)
    ensures
        gc_file_of(None, head) == GcFile::Gone,
        gc_file_of(Some(Some(tag)), None) == GcFile::TombstoneOnly,
        gc_file_of(Some(None), None) == GcFile::TombstoneOnly,
        gc_file_of(Some(Some(tag)), Some(Some(tag))) == GcFile::Remove,
        gc_file_of(Some(Some(tag)), Some(None)) == GcFile::KeepChanged,
        gc_file_of(Some(None), Some(current)) == GcFile::Remove,
        current is Some && !crate::system_trash::same_etag(tag, current->0) ==> gc_file_of(Some(Some(tag)), Some(current))
            == GcFile::KeepChanged,
{
    crate::system_trash::law_etag_equivalence(tag, tag, tag);
}

/// The key of a file is what its tombstone is called below its partition.
pub proof fn law_file_key(partition: Seq<char>, key: Seq<char>)
    ensures
        file_key_of(partition, partition + key) == key,
{
    crate::text::law_prefix_and_rest(partition, key);
}

/// Files that were collected are hidden no more, each of them and nothing else.
pub proof fn law_files_dropped(index: IndexView, keys: Seq<Seq<char>>, key: Seq<char>)
    ensures
        without_files(index, keys).dirs == index.dirs,
        without_files(index, keys).files.dom().contains(key) <==> index.files.dom().contains(key) && !keys.contains(key),
        without_files(index, keys).files.dom().contains(key) ==> without_files(index, keys).files[key] == index.files[key],
    decreases keys.len(),
{
    if keys.len() > 0 {
        let head = keys.drop_last();
        law_files_dropped(index, head, key);
        if head.contains(key) {
            let i = choose|i: int| 0 <= i < head.len() && head[i] == key;
            assert(keys[i] == key);
        }
        if keys.contains(key) && key != keys.last() {
            let i = choose|i: int| 0 <= i < keys.len() && keys[i] == key;
            assert(head[i] == key);
        }
        assert(keys[keys.len() - 1] == keys.last());
    }
}

/// What is cached of files that were collected is dropped, of each of them.
pub proof fn law_files_uncached(c: CachesView, prefix: Seq<char>, keys: Seq<Seq<char>>, i: int, rel: Seq<char>)
    requires
        0 <= i < keys.len(),
        keys[i] == prefix + rel,
        rel.len() > 0,
        rel.last() != '/',
    ensures
        !files_invalidated(c, prefix, keys).stats.dom().contains(seq!['/'] + rel),
        !files_invalidated(c, prefix, keys).negative.dom().contains(seq!['/'] + rel),
    decreases keys.len(),
{
    let less = keys.drop_last();
    let before = files_invalidated(c, prefix, less);
    if i == keys.len() - 1 {
        crate::trash::law_key_dropped(before, prefix, rel, Seq::empty());
    } else {
        law_files_uncached(c, prefix, less, i, rel);
        let path = crate::trash::cached_path(prefix, keys.last());
        assert(before.without_trashed(path, false).stats.dom().subset_of(before.stats.dom()));
        assert(before.without_trashed(path, false).negative.dom().subset_of(before.negative.dom()));
    }
}

/// The names that lead to tombstones that were collected are forgotten.
pub proof fn law_collected_forgotten(
    names: NamesView,
    index: IndexView,
    tombs: Seq<Seq<char>>,
    keys: Seq<Seq<char>>,
    i: int,
    name: Seq<char>,
)
    requires
        tombs.len() == keys.len(),
        0 <= i < tombs.len(),
        names.by_name.dom().contains(name),
        names.by_name[name] == tombs[i],
    ensures
        !files_forgotten(names, index, tombs, keys).by_name.dom().contains(name),
    decreases keys.len(),
{
    lemma_files_shrink(names, index, tombs.drop_last(), keys.drop_last(), name);
    let gone = seq![tombs.last()];
    if i == tombs.len() - 1 {
        assert(gone[0] == names.by_name[name]);
        assert(gone.contains(names.by_name[name]));
    } else {
        law_collected_forgotten(names, index, tombs.drop_last(), keys.drop_last(), i, name);
    }
}

proof fn lemma_files_shrink(names: NamesView, index: IndexView, tombs: Seq<Seq<char>>, keys: Seq<Seq<char>>, name: Seq<char>)
    requires
        tombs.len() == keys.len(),
    ensures
        files_forgotten(names, index, tombs, keys).by_name.dom().contains(name) ==> names.by_name.dom().contains(name)
            && files_forgotten(names, index, tombs, keys).by_name[name] == names.by_name[name],
    decreases keys.len(),
{
    if keys.len() > 0 {
        lemma_files_shrink(names, index, tombs.drop_last(), keys.drop_last(), name);
    }
}

} // verus!
