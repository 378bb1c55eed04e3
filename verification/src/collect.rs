//! The commands on the trash as a whole: emptying it, finding and restoring
//! single tombstones, listing it, and collecting what is past its time.

use vstd::prelude::*;
use vstd::string::*;

use crate::caches::FsCaches;
use crate::date::Date;
use crate::paths::{strip_mount_prefix, without_prefix};
use crate::recycle::{contains_string, string_views, NamesView};
use crate::restore::opt_opt_view;
use crate::text::{
    ends_with_char, is_char, law_drop_tail_while, law_prefix_and_rest, same_text, text_less, trim_end, trim_end_char,
};
use crate::tombstone::{
    decode_tombstone_key, encode_tombstone_key, law_insert_covers, tombstone_name, tombstone_parts, word, IndexView,
    TombstoneIndex,
};
use crate::trash::{invalidate_keys, keys_invalidated, opt_view, tomb_forgotten, TrashState};
use crate::trash_ops::{
    etags_agree, unchanged_since, RestoreOutcome, TrashEntry, MAX_DELETE_OBJECTS_PER_REQUEST,
};
use crate::trash_view::TombstoneBody;

verus! {

/// The keys joined again.
pub open spec fn joined_batches(batches: Seq<Vec<String>>) -> Seq<Seq<char>>
    decreases batches.len(),
{
    if batches.len() == 0 {
        Seq::empty()
    } else {
        joined_batches(batches.drop_last()) + string_views(batches.last()@)
    }
}

/// Keys in batches, none of them empty or larger than one request takes: all
/// of them are full but the last.
pub fn delete_batches(keys: &Vec<String>) -> (r: Vec<Vec<String>>)
    ensures
        joined_batches(r@) == string_views(keys@),
        forall|i: int| 0 <= i < r@.len() ==> 0 < (#[trigger] r@[i])@.len() <= MAX_DELETE_OBJECTS_PER_REQUEST,
        forall|i: int| 0 <= i < r@.len() - 1 ==> (#[trigger] r@[i])@.len() == MAX_DELETE_OBJECTS_PER_REQUEST,
{
    let ghost names = string_views(keys@);
    let mut out: Vec<Vec<String>> = Vec::new();
    let mut i: usize = 0;
    proof {
        assert(names.subrange(0, 0) =~= Seq::<Seq<char>>::empty());
    }
    while i < keys.len()
        invariant
            i <= keys@.len(),
            names == string_views(keys@),
            joined_batches(out@) == names.subrange(0, i as int),
            forall|k: int| 0 <= k < out@.len() ==> 0 < (#[trigger] out@[k])@.len() <= MAX_DELETE_OBJECTS_PER_REQUEST,
            forall|k: int| 0 <= k < out@.len() - 1 ==> (#[trigger] out@[k])@.len() == MAX_DELETE_OBJECTS_PER_REQUEST,
            i < keys@.len() && out@.len() > 0 ==> out@[out@.len() - 1]@.len() == MAX_DELETE_OBJECTS_PER_REQUEST,
        decreases keys.len() - i,
    {
        let mut batch: Vec<String> = Vec::new();
        let ghost start = i;
        while i < keys.len() && batch.len() < MAX_DELETE_OBJECTS_PER_REQUEST
            invariant
                start <= i <= keys@.len(),
                names == string_views(keys@),
                batch@.len() == i - start,
                batch@.len() <= MAX_DELETE_OBJECTS_PER_REQUEST,
                string_views(batch@) == names.subrange(start as int, i as int),
            decreases keys.len() - i,
        {
            let ghost before = batch@;
            let k = keys[i].clone();
            batch.push(k);
            proof {
                assert(string_views(batch@) =~= string_views(before).push(k@));
                assert(names.subrange(start as int, i + 1) =~= names.subrange(start as int, i as int).push(names[i as int]));
            }
            i = i + 1;
        }
        let ghost before = out@;
        out.push(batch);
        proof {
            assert(out@.drop_last() =~= before);
            assert(names.subrange(0, i as int) =~= names.subrange(0, start as int) + names.subrange(start as int, i as int));
        }
    }
    proof {
        assert(names.subrange(0, names.len() as int) =~= names);
    }
    out
}

/// Keys without slashes at their ends.
pub open spec fn bare_keys(entries: Seq<(String, bool, Date)>) -> Seq<Seq<char>> {
    entries.map_values(|e: (String, bool, Date)| trim_end(e.0@, '/'))
}

/// A listed name is the tombstone of one of the keys, in either form.
pub open spec fn is_tomb_of_any(prefix: Seq<char>, name: Seq<char>, bare: Seq<Seq<char>>) -> bool {
    match tombstone_parts(prefix, name) {
        Some((_day, original)) => bare.contains(trim_end(original, '/')),
        None => false,
    }
}

/// The keys of entries without slashes at their ends.
pub fn purge_keys(entries: &Vec<(String, bool, Date)>) -> (r: Vec<String>)
    ensures
        string_views(r@) == bare_keys(entries@),
{
    let mut out: Vec<String> = Vec::new();
    let mut i: usize = 0;
    while i < entries.len()
        invariant
            i <= entries@.len(),
            out@.len() == i,
            forall|k: int| 0 <= k < i ==> (#[trigger] out@[k])@ == bare_keys(entries@)[k],
        decreases entries.len() - i,
    {
        out.push(trim_end_char(entries[i].0.as_str(), '/'));
        i = i + 1;
    }
    proof {
        assert(string_views(out@) =~= bare_keys(entries@));
    }
    out
}

/// The tombstones of some keys among listed names.
pub fn tombs_of_keys(prefix: &str, page: &Vec<String>, bare: &Vec<String>, out: &mut Vec<String>)
    ensures
        string_views(final(out)@) == string_views(old(out)@) + string_views(page@).filter(
            |n: Seq<char>| is_tomb_of_any(prefix@, n, string_views(bare@)),
        ),
{
    let ghost names = string_views(page@);
    let ghost base = string_views(out@);
    let ghost own = |n: Seq<char>| is_tomb_of_any(prefix@, n, string_views(bare@));
    let mut i: usize = 0;
    proof {
        reveal(Seq::filter);
        assert(base + names.subrange(0, 0).filter(own) =~= base);
    }
    while i < page.len()
        invariant
            i <= page@.len(),
            names == string_views(page@),
            own == (|n: Seq<char>| is_tomb_of_any(prefix@, n, string_views(bare@))),
            string_views(out@) == base + names.subrange(0, i as int).filter(own),
        decreases page.len() - i,
    {
        proof {
            reveal(Seq::filter);
            let upto = names.subrange(0, i + 1);
            assert(upto.drop_last() =~= names.subrange(0, i as int));
            assert(upto.last() == page@[i as int]@);
        }
        let hit = match decode_tombstone_key(prefix, page[i].as_str()) {
            Some(t) => {
                let key = trim_end_char(t.original_key.as_str(), '/');
                contains_string(bare, key.as_str())
            },
            None => false,
        };
        if hit {
            let ghost before = out@;
            let name = page[i].clone();
            out.push(name);
            proof {
                let done = names.subrange(0, i as int).filter(own);
                assert(string_views(out@) =~= string_views(before).push(name@));
                assert((base + done).push(name@) =~= base + done.push(name@));
            }
        }
        i = i + 1;
    }
    proof {
        assert(names.subrange(0, names.len() as int) =~= names);
    }
}

/// An index without some entries.
pub open spec fn without_entries(index: IndexView, entries: Seq<(String, bool, Date)>) -> IndexView
    decreases entries.len(),
{
    if entries.len() == 0 {
        index
    } else {
        let e = entries.last();
        without_entries(index, entries.drop_last()).without(e.0@, e.1)
    }
}

/// Names without those of some keys, in both forms.
pub open spec fn without_names(names: NamesView, entries: Seq<(String, bool, Date)>) -> NamesView
    decreases entries.len(),
{
    if entries.len() == 0 {
        names
    } else {
        let bare = trim_end(entries.last().0@, '/');
        without_names(names, entries.drop_last()).without_key(bare)
    }
}

impl TrashState {
    fn remove_entries(&mut self, entries: &Vec<(String, bool, Date)>)
        requires
            old(self).wf(),
        ensures
            final(self).wf(),
            final(self).index@ == without_entries(old(self).index@, entries@),
            *final(self) == (TrashState { index: final(self).index, ..*old(self) }),
    {
        let ghost base = self.index@;
        let mut i: usize = 0;
        proof {
            assert(entries@.subrange(0, 0) =~= Seq::<(String, bool, Date)>::empty());
        }
        while i < entries.len()
            invariant
                i <= entries@.len(),
                self.wf(),
                *self == (TrashState { index: self.index, ..*old(self) }),
                self.index@ == without_entries(base, entries@.subrange(0, i as int)),
            decreases entries.len() - i,
        {
            proof {
                let upto = entries@.subrange(0, i + 1);
                assert(upto.drop_last() =~= entries@.subrange(0, i as int));
                assert(upto.last() == entries@[i as int]);
            }
            self.index.remove(entries[i].0.as_str(), entries[i].1);
            i = i + 1;
        }
        proof {
            assert(entries@.subrange(0, entries@.len() as int) =~= entries@);
        }
    }

    fn forget_names(&mut self, entries: &Vec<(String, bool, Date)>)
        requires
            old(self).wf(),
        ensures
            final(self).wf(),
            final(self).recycle_names@ == without_names(old(self).recycle_names@, entries@),
            *final(self) == (TrashState { recycle_names: final(self).recycle_names, ..*old(self) }),
    {
        let ghost base = self.recycle_names@;
        let mut i: usize = 0;
        proof {
            assert(entries@.subrange(0, 0) =~= Seq::<(String, bool, Date)>::empty());
        }
        while i < entries.len()
            invariant
                i <= entries@.len(),
                self.wf(),
                *self == (TrashState { recycle_names: self.recycle_names, ..*old(self) }),
                self.recycle_names@ == without_names(base, entries@.subrange(0, i as int)),
            decreases entries.len() - i,
        {
            proof {
                let upto = entries@.subrange(0, i + 1);
                assert(upto.drop_last() =~= entries@.subrange(0, i as int));
                assert(upto.last() == entries@[i as int]);
            }
            let bare = trim_end_char(entries[i].0.as_str(), '/');
            self.recycle_names.forget_key(bare.as_str());
            i = i + 1;
        }
        proof {
            assert(entries@.subrange(0, entries@.len() as int) =~= entries@);
        }
    }

    /// The trash was emptied of the entries that it had: they are no longer in
    /// the index nor named, and nothing of them is cached.
    pub fn commit_purge(
        &mut self,
        caches: &mut FsCaches,
        mount_prefix: &str,
        entries: &Vec<(String, bool, Date)>,
        deleted: &Vec<String>,
    )
        requires
            old(self).wf(),
            old(caches).wf(),
        ensures
            final(self).wf(),
            final(caches).wf(),
            final(self).same_but_index(old(self)),
            final(self).index@ == without_entries(old(self).index@, entries@),
            final(self).index_entries == word(final(self).index.size()),
            final(self).recycle_names@ == without_names(
                old(self).recycle_names@.without_tombs(string_views(deleted@)),
                entries@,
            ),
            final(caches)@ == keys_invalidated(old(caches)@, mount_prefix@, entries@).without_all_reads(),
    {
        self.remove_entries(entries);
        let len: usize = self.index.len();
        let _alert = self.store_index_entries(len);
        self.recycle_names.forget_tombs(deleted);
        self.forget_names(entries);
        invalidate_keys(caches, mount_prefix, entries);
        caches.clear_read_cache();
    }
}

proof fn lemma_without_entries_gone(index: IndexView, entries: Seq<(String, bool, Date)>, k: Seq<char>, is_dir: bool)
    requires
        exists|i: int| 0 <= i < entries.len() && (#[trigger] entries[i]).1 == is_dir && crate::tombstone::tomb_form(entries[i].0@, is_dir) == k,
    ensures
        !(if is_dir { without_entries(index, entries).dirs } else { without_entries(index, entries).files }).dom().contains(k),
    decreases entries.len(),
{
    let n = entries.len() - 1;
    let e = entries.last();
    let head = entries.drop_last();
    if !(e.1 == is_dir && crate::tombstone::tomb_form(e.0@, is_dir) == k) {
        let i = choose|i: int| 0 <= i < entries.len() && (#[trigger] entries[i]).1 == is_dir && crate::tombstone::tomb_form(entries[i].0@, is_dir) == k;
        assert(i < n);
        assert(head[i] == entries[i]);
        lemma_without_entries_gone(index, head, k, is_dir);
    }
}

/// Emptying the trash of everything in the index leaves nothing covered.
pub proof fn law_purge_uncovers(index: &TombstoneIndex, entries: Seq<(String, bool, Date)>, key: Seq<char>)
    requires
        index.wf(),
        crate::tombstone::tomb_views(entries) == index.spec_entries(),
    ensures
        !without_entries(index@, entries).covers(key),
{
    let after = without_entries(index@, entries);
    lemma_without_entries_subset(index@, entries);
    assert forall|k: Seq<char>| !after.files.dom().contains(k) by {
        if index@.files.dom().contains(k) {
            crate::tombstone::lemma_entries_contain(index, k, false, index@.files[k]);
            let all = index.spec_entries();
            let i = choose|i: int| 0 <= i < all.len() && all[i] == (k, false, index@.files[k]);
            assert(crate::tombstone::tomb_view(entries[i]) == all[i]);
            assert(entries[i].1 == false && crate::tombstone::tomb_form(entries[i].0@, false) == k);
            lemma_without_entries_gone(index@, entries, k, false);
        }
    }
    assert forall|k: Seq<char>| !after.dirs.dom().contains(k) by {
        if index@.dirs.dom().contains(k) {
            crate::tombstone::lemma_entries_contain(index, k, true, index@.dirs[k]);
            let all = index.spec_entries();
            let i = choose|i: int| 0 <= i < all.len() && all[i] == (k, true, index@.dirs[k]);
            assert(crate::tombstone::tomb_view(entries[i]) == all[i]);
            assert(ends_with_char(k, '/'));
            assert(entries[i].1 == true && crate::tombstone::tomb_form(entries[i].0@, true) == k);
            lemma_without_entries_gone(index@, entries, k, true);
        }
    }
}

proof fn lemma_without_entries_subset(index: IndexView, entries: Seq<(String, bool, Date)>)
    ensures
        without_entries(index, entries).files.dom().subset_of(index.files.dom()),
        without_entries(index, entries).dirs.dom().subset_of(index.dirs.dom()),
    decreases entries.len(),
{
    if entries.len() > 0 {
        lemma_without_entries_subset(index, entries.drop_last());
    }
}

/// The partition that a listed common prefix denotes.
pub open spec fn partition_of(trash_prefix: Seq<char>, common: Seq<char>) -> Option<Seq<char>> {
    let date = without_prefix(trash_prefix, common);
    if date.len() == 0 {
        None
    } else {
        Some(trim_end(date, '/'))
    }
}

/// The partition that a listed common prefix denotes.
pub fn partition_name(trash_prefix: &str, common: &str) -> (r: Option<String>)
    ensures
        opt_view(r) == partition_of(trash_prefix@, common@),
{
    let date = strip_mount_prefix(trash_prefix, common);
    if date.as_str().is_empty() {
        None
    } else {
        Some(trim_end_char(date.as_str(), '/'))
    }
}

/// Texts in strictly descending order.
pub open spec fn descending(s: Seq<Seq<char>>) -> bool {
    forall|i: int, j: int| 0 <= i < j < s.len() ==> text_less(#[trigger] s[j], #[trigger] s[i])
}

/// Partitions from the latest to the earliest, each once.
pub fn sort_partitions(parts: &Vec<String>) -> (r: Vec<String>)
    ensures
        descending(string_views(r@)),
        forall|x: Seq<char>| string_views(r@).contains(x) <==> string_views(parts@).contains(x),
{
    let mut set: crate::keymap::KeyMap<()> = crate::keymap::KeyMap::new();
    let ghost names = string_views(parts@);
    let mut i: usize = 0;
    while i < parts.len()
        invariant
            i <= parts@.len(),
            names == string_views(parts@),
            set.wf(),
            forall|x: Seq<char>| set@.dom().contains(x) <==> names.subrange(0, i as int).contains(x),
        decreases parts.len() - i,
    {
        let ghost before = set@;
        let _old = set.insert(parts[i].clone(), ());
        proof {
            let upto = names.subrange(0, i + 1);
            let done = names.subrange(0, i as int);
            assert(upto =~= done.push(names[i as int]));
            assert forall|x: Seq<char>| set@.dom().contains(x) <==> upto.contains(x) by {
                if upto.contains(x) {
                    let k = choose|k: int| 0 <= k < upto.len() && upto[k] == x;
                    if k < done.len() {
                        assert(done[k] == x);
                    }
                }
                if done.contains(x) {
                    let k = choose|k: int| 0 <= k < done.len() && done[k] == x;
                    assert(upto[k] == x);
                }
                assert(upto[i as int] == names[i as int]);
            }
        }
        i = i + 1;
    }
    proof {
        assert(names.subrange(0, names.len() as int) =~= names);
    }
    let ghost entries = set.spec_entries();
    let mut out: Vec<String> = Vec::new();
    let mut left: usize = set.len();
    while left > 0
        invariant
            left <= entries.len(),
            set.wf(),
            entries == set.spec_entries(),
            out@.len() == entries.len() - left,
            forall|k: int| 0 <= k < out@.len() ==> (#[trigger] out@[k])@ == entries[entries.len() - 1 - k].0@,
        decreases left,
    {
        left = left - 1;
        out.push(set.entry_at(left).0.clone());
    }
    proof {
        let r = string_views(out@);
        let keys = set.keys();
        assert forall|i: int, j: int| 0 <= i < j < r.len() implies text_less(#[trigger] r[j], #[trigger] r[i]) by {
            let a = entries.len() - 1 - j;
            let b = entries.len() - 1 - i;
            assert(out@[i]@ == entries[b].0@ && out@[j]@ == entries[a].0@);
            assert(keys[a] == entries[a].0@ && keys[b] == entries[b].0@);
            assert(text_less(keys[a], keys[b]));
        }
        assert forall|x: Seq<char>| r.contains(x) <==> names.contains(x) by {
            if r.contains(x) {
                let k = choose|k: int| 0 <= k < r.len() && r[k] == x;
                assert(out@[k]@ == entries[entries.len() - 1 - k].0@);
                crate::keymap::lemma_map_of_entry(entries, entries.len() - 1 - k);
            }
            if names.contains(x) {
                let j = crate::keymap::lemma_map_of_key(entries, x);
                assert(out@[entries.len() - 1 - j]@ == entries[j].0@);
                assert(r[entries.len() - 1 - j] == x);
            }
        }
    }
    out
}

/// The dates and kinds of the tombstones of a key among listed names.
pub open spec fn hits_among(prefix: Seq<char>, names: Seq<Seq<char>>, key: Seq<char>) -> Seq<(i32, bool)>
    decreases names.len(),
{
    if names.len() == 0 {
        Seq::empty()
    } else {
        let head = hits_among(prefix, names.drop_last(), key);
        match tombstone_parts(prefix, names.last()) {
            Some((day, original)) => if original == key {
                head.push((day, ends_with_char(original, '/')))
            } else {
                head
            },
            None => head,
        }
    }
}

/// Dates and kinds with the dates as numbers.
pub open spec fn hit_days(hits: Seq<(Date, bool)>) -> Seq<(i32, bool)> {
    hits.map_values(|h: (Date, bool)| (h.0.number(), h.1))
}

/// Takes the tombstones of a key from listed names.
pub fn find_tombstone(prefix: &str, page: &Vec<String>, key: &str, out: &mut Vec<(Date, bool)>)
    ensures
        hit_days(final(out)@) == hit_days(old(out)@) + hits_among(prefix@, string_views(page@), key@),
{
    let ghost names = string_views(page@);
    let ghost base = hit_days(out@);
    let mut i: usize = 0;
    proof {
        assert(names.subrange(0, 0) =~= Seq::<Seq<char>>::empty());
        assert(base + Seq::<(i32, bool)>::empty() =~= base);
    }
    while i < page.len()
        invariant
            i <= page@.len(),
            names == string_views(page@),
            hit_days(out@) == base + hits_among(prefix@, names.subrange(0, i as int), key@),
        decreases page.len() - i,
    {
        proof {
            let upto = names.subrange(0, i + 1);
            assert(upto.drop_last() =~= names.subrange(0, i as int));
            assert(upto.last() == page@[i as int]@);
        }
        match decode_tombstone_key(prefix, page[i].as_str()) {
            Some(t) => if same_text(t.original_key.as_str(), key) {
                let ghost before = out@;
                let hit = (t.date, t.is_dir);
                out.push(hit);
                proof {
                    let done = hits_among(prefix@, names.subrange(0, i as int), key@);
                    let h = (hit.0.number(), hit.1);
                    assert(hit_days(out@) =~= hit_days(before).push(h));
                    assert((base + done).push(h) =~= base + done.push(h));
                }
            },
            None => {},
        }
        i = i + 1;
    }
    proof {
        assert(names.subrange(0, names.len() as int) =~= names);
    }
}

/// One tombstone is older than another, files before directories.
pub open spec fn hit_before(a: (Date, bool), b: (Date, bool)) -> bool {
    a.0.day() < b.0.day() || (a.0.day() == b.0.day() && !a.1 && b.1)
}

/// The oldest of the tombstones found.
pub fn oldest_hit(hits: &Vec<(Date, bool)>) -> (r: Option<(Date, bool)>)
    ensures
        r is None <==> hits@.len() == 0,
        r matches Some(h) ==> hits@.contains(h) && forall|k: int|
            0 <= k < hits@.len() ==> !hit_before(#[trigger] hits@[k], h),
        r matches Some(h) ==> forall|k: int| 0 <= k < hits@.len() ==> h.0.day() <= (#[trigger] hits@[k]).0.day(),
{
    if hits.len() == 0 {
        return None;
    }
    let mut best: usize = 0;
    let mut i: usize = 1;
    while i < hits.len()
        invariant
            1 <= i <= hits@.len(),
            best < i,
            forall|k: int| 0 <= k < i ==> !hit_before(#[trigger] hits@[k], hits@[best as int]),
        decreases hits.len() - i,
    {
        let earlier = hits[best].0.later_than(&hits[i].0);
        let same = hits[best].0.same_as(&hits[i].0);
        if earlier || (same && !hits[i].1 && hits[best].1) {
            best = i;
        }
        i = i + 1;
    }
    let h = hits[best];
    assert(hits@[best as int] == h);
    Some(h)
}

/// How restoring one tombstone ends. `head` is the entity tag of the object,
/// if that exists, and `tomb_etag` the one that the tombstone tells, if that
/// exists; neither is asked for of a directory.
pub open spec fn restore_outcome(
    is_dir: bool,
    versions: nat,
    head: Option<Option<Seq<char>>>,
    tomb_etag: Option<Option<Seq<char>>>,
) -> RestoreOutcome {
    let multiple_versions = versions > 1;
    if is_dir {
        RestoreOutcome::Restored { etag_mismatch: false, multiple_versions }
    } else {
        match head {
            None => RestoreOutcome::OriginalGone,
            Some(current) => RestoreOutcome::Restored {
                etag_mismatch: match tomb_etag {
                    None => false,
                    Some(etag) => !unchanged_since(etag, current),
                },
                multiple_versions,
            },
        }
    }
}

/// Of the tombstones found for a key one is left besides that of a date: one of
/// the same kind, a file's or a directory's, and of another date.
pub open spec fn left_hit(h: (Date, bool), date: Date, is_dir: bool) -> bool {
    h.1 == is_dir && h.0 != date
}

/// The latest date among the tombstones of the same kind that are left where
/// that of `date` is deleted.
pub fn latest_left(hits: &Vec<(Date, bool)>, date: Date, is_dir: bool) -> (r: Option<Date>)
    ensures
        r is None <==> forall|k: int| 0 <= k < hits@.len() ==> !left_hit(#[trigger] hits@[k], date, is_dir),
        r matches Some(d) ==> hits@.contains((d, is_dir)) && d != date && forall|k: int|
            0 <= k < hits@.len() && left_hit(#[trigger] hits@[k], date, is_dir) ==> hits@[k].0.day() <= d.day(),
{
    let mut best: Option<Date> = None;
    let mut i: usize = 0;
    while i < hits.len()
        invariant
            i <= hits@.len(),
            best is None <==> forall|k: int| 0 <= k < i ==> !left_hit(#[trigger] hits@[k], date, is_dir),
            best matches Some(d) ==> hits@.contains((d, is_dir)) && d != date && forall|k: int|
                0 <= k < i && left_hit(#[trigger] hits@[k], date, is_dir) ==> hits@[k].0.day() <= d.day(),
        decreases hits.len() - i,
    {
        let h = hits[i];
        assert(hits@[i as int] == h);
        if h.1 == is_dir && h.0 != date {
            let better = match best {
                Some(d) => h.0.later_than(&d),
                None => true,
            };
            if better {
                assert(hits@[i as int] == (h.0, is_dir));
                best = Some(h.0);
            }
        }
        i = i + 1;
    }
    best
}

/// How restoring the oldest tombstone of a key ends.
pub fn trash_restore(
    is_dir: bool,
    versions: usize,
    head: &Option<Option<String>>,
    tomb_etag: &Option<Option<String>>,
) -> (r: RestoreOutcome)
    ensures
        r == restore_outcome(is_dir, versions as nat, opt_opt_view(*head), opt_opt_view(*tomb_etag)),
{
    let multiple_versions = versions > 1;
    if is_dir {
        return RestoreOutcome::Restored { etag_mismatch: false, multiple_versions };
    }
    match head {
        None => RestoreOutcome::OriginalGone,
        Some(current) => {
            let etag_mismatch = match tomb_etag {
                None => false,
                Some(etag) => !etags_agree(etag, current),
            };
            RestoreOutcome::Restored { etag_mismatch, multiple_versions }
        },
    }
}

impl TrashState {
    /// The name of the tombstone of a key found under a date.
    pub fn restored_tomb(&self, key: &str, date: Date, is_dir: bool) -> (r: String)
        ensures
            r@ == tombstone_name(
                self.prefix@,
                date.number(),
                if is_dir { crate::paths::dir_prefix_of(key@) } else { key@ },
                is_dir,
            ),
    {
        if is_dir {
            let dir = crate::paths::dir_object_prefix(key);
            encode_tombstone_key(self.prefix.as_str(), date, dir.as_str(), true)
        } else {
            encode_tombstone_key(self.prefix.as_str(), date, key, false)
        }
    }

    /// A tombstone was deleted to restore its key, which is taken out of the
    /// caches. The key is taken out of the index too, unless other tombstones
    /// of it are left: then it stays hidden, under the latest date of these.
    pub fn commit_restore(
        &mut self,
        caches: &mut FsCaches,
        path: &str,
        key: &str,
        is_dir: bool,
        tomb_key: &str,
        left: Option<Date>,
    )
        requires
            old(self).wf(),
            old(caches).wf(),
        ensures
            final(self).wf(),
            final(caches).wf(),
            final(self).same_but_index(old(self)),
            final(self).index@ == match left {
                None => old(self).index@.without(key@, is_dir),
                Some(d) => old(self).index@.without(key@, is_dir).with(key@, is_dir, d),
            },
            left is Some ==> final(self).index@.covers(key@),
            final(self).index_entries == word(final(self).index.size()),
            final(self).recycle_names@ == tomb_forgotten(
                old(self).recycle_names@,
                final(self).index@,
                seq![tomb_key@],
                key@,
            ),
            final(caches)@ == old(caches)@.without_trashed(path@, is_dir).without_stat(trim_end(path@, '/')),
    {
        self.index.remove(key, is_dir);
        if let Some(d) = left {
            self.index.insert(key, is_dir, d);
            proof {
                law_insert_covers(old(self).index@.without(key@, is_dir), key@, is_dir, d, Seq::empty());
            }
        }
        let len: usize = self.index.len();
        let _alert = self.store_index_entries(len);
        caches.invalidate_trash_cached(path, is_dir);
        let bare = trim_end_char(path, '/');
        caches.invalidate_stat(bare.as_str());
        let mut one: Vec<String> = Vec::new();
        one.push(tomb_key.to_owned());
        proof {
            assert(string_views(one@) =~= seq![tomb_key@]);
        }
        self.remove_tombstone_maps(&one, key);
    }
}

/// What the listing of the trash shows for a listed name: nothing where it is
/// no tombstone, or that of a file which is gone by now.
pub open spec fn shows_entry(prefix: Seq<char>, name: Seq<char>, has_body: bool) -> bool {
    match tombstone_parts(prefix, name) {
        Some((_day, original)) => ends_with_char(original, '/') || has_body,
        None => false,
    }
}

/// Whether the tombstone has to be read to be listed.
pub fn needs_body(prefix: &str, name: &str) -> (r: bool)
    ensures
        r == (match tombstone_parts(prefix@, name@) {
            Some((_day, original)) => !ends_with_char(original, '/'),
            None => false,
        }),
{
    match decode_tombstone_key(prefix, name) {
        Some(t) => !t.is_dir,
        None => false,
    }
}

/// What the listing of the trash shows for a listed name, `body` being what
/// the tombstone of a file holds.
pub fn trash_list_entry(prefix: &str, mount_prefix: &str, name: &str, body: Option<TombstoneBody>) -> (r: Option<TrashEntry>)
    ensures
        r is Some <==> shows_entry(prefix@, name@, body is Some),
        r matches Some(e) ==> {
            let (day, original) = tombstone_parts(prefix@, name@)->0;
            &&& e.deleted_date.number() == day
            &&& e.path@ == without_prefix(mount_prefix@, original)
            &&& e.is_dir == ends_with_char(original, '/')
            &&& e.etag == if e.is_dir { None::<String> } else { body->0.etag }
            &&& e.size == if e.is_dir { None::<u64> } else { body->0.size }
        },
{
    match decode_tombstone_key(prefix, name) {
        Some(t) => {
            let path = strip_mount_prefix(mount_prefix, t.original_key.as_str());
            if t.is_dir {
                return Some(
                    TrashEntry { deleted_date: t.date, path, etag: None, size: None, is_dir: true },
                );
            }
            match body {
                Some(b) => Some(
                    TrashEntry {
                        deleted_date: t.date,
                        path,
                        etag: b.etag,
                        size: b.size,
                        is_dir: false,
                    },
                ),
                None => None,
            }
        },
        None => None,
    }
}

/// Which tombstones are deleted where keys are deleted for good: those of the
/// keys, of files and of directories, of any day, and no others.
pub proof fn law_tombs_of_keys(prefix: Seq<char>, day: i32, key: Seq<char>, is_dir: bool, bare: Seq<Seq<char>>)
    requires
        key.len() > 0,
        key.last() != '/',
        crate::calendar::day_in_range(day as int),
    ensures
        is_tomb_of_any(prefix, tombstone_name(prefix, day, key, is_dir), bare) <==> bare.contains(key),
{
    crate::tombstone::law_tombstone_tells(prefix, day, key, key);
    law_drop_tail_while(key, Seq::empty(), is_char('/'));
    assert(key + Seq::<char>::empty() =~= key);
    law_drop_tail_while(key, seq!['/'], is_char('/'));
}

/// A partition is called by its date.
pub proof fn law_partition_name(trash_prefix: Seq<char>, date: Seq<char>)
    requires
        date.len() > 0,
        date.last() != '/',
    ensures
        partition_of(trash_prefix, trash_prefix + date + seq!['/']) == Some(date),
        partition_of(trash_prefix, trash_prefix) is None,
{
    let below = date + seq!['/'];
    assert(trash_prefix + date + seq!['/'] =~= trash_prefix + below);
    law_prefix_and_rest(trash_prefix, below);
    law_prefix_and_rest(trash_prefix, Seq::empty());
    assert(trash_prefix + Seq::<char>::empty() =~= trash_prefix);
    law_drop_tail_while(date, seq!['/'], is_char('/'));
}

/// Every tombstone of a key is found, and nothing else: each day that is found
/// is that of a tombstone that tells the key.
pub proof fn law_tombstones_found(prefix: Seq<char>, names: Seq<Seq<char>>, key: Seq<char>, slash: bool)
    requires
        slash == (key.len() > 0 && key.last() == '/'),
    ensures
        forall|i: int, day: i32|
            0 <= i < names.len() && tombstone_parts(prefix, #[trigger] names[i]) == Some((day, key)) ==> #[trigger] hits_among(
                prefix,
                names,
                key,
            ).contains((day, slash)),
        forall|k: int|
            0 <= k < hits_among(prefix, names, key).len() ==> {
                let h = #[trigger] hits_among(prefix, names, key)[k];
                h.1 == slash && exists|i: int|
                    0 <= i < names.len() && tombstone_parts(prefix, #[trigger] names[i]) == Some((h.0, key))
            },
    decreases names.len(),
{
    let all = hits_among(prefix, names, key);
    if names.len() > 0 {
        let less = names.drop_last();
        let head = hits_among(prefix, less, key);
        let n = names.len() - 1;
        law_tombstones_found(prefix, less, key, slash);
        assert forall|i: int, day: i32|
            0 <= i < names.len() && tombstone_parts(prefix, #[trigger] names[i]) == Some((day, key)) implies #[trigger] hits_among(
            prefix,
            names,
            key,
        ).contains((day, slash)) by {
            if i == n {
                assert(all[all.len() - 1] == (day, slash));
            } else {
                assert(less[i] == names[i]);
                assert(head.contains((day, slash)));
                let k = choose|k: int| 0 <= k < head.len() && head[k] == (day, slash);
                assert(all[k] == (day, slash));
            }
        }
        assert forall|k: int| 0 <= k < all.len() implies {
            let h = #[trigger] all[k];
            h.1 == slash && exists|i: int|
                0 <= i < names.len() && tombstone_parts(prefix, #[trigger] names[i]) == Some((h.0, key))
        } by {
            if k < head.len() {
                assert(all[k] == head[k]);
                let i = choose|i: int|
                    0 <= i < less.len() && tombstone_parts(prefix, #[trigger] less[i]) == Some((head[k].0, key));
                assert(names[i] == less[i]);
            } else {
                assert(names[n] == names.last());
            }
        }
    }
}

/// How a restore ends: a directory is restored in any case; a file whose object
/// is gone is told to be gone; else it is restored, with a warning where the
/// object has another entity tag than the tombstone tells, and another where
/// there were several versions.
pub proof fn law_restore_told(versions: nat, tag: Seq<char>, current: Option<Seq<char>>, head: Option<Option<Seq<char>>>)
    ensures
        restore_outcome(true, versions, head, None) == (RestoreOutcome::Restored {
            etag_mismatch: false,
            multiple_versions: versions > 1,
        }),
        restore_outcome(false, versions, None, Some(Some(tag))) == RestoreOutcome::OriginalGone,
        restore_outcome(false, versions, None, None) == RestoreOutcome::OriginalGone,
        restore_outcome(false, versions, Some(Some(tag)), Some(Some(tag))) == (RestoreOutcome::Restored {
            etag_mismatch: false,
            multiple_versions: versions > 1,
        }),
        restore_outcome(false, versions, Some(None), Some(Some(tag))) == (RestoreOutcome::Restored {
            etag_mismatch: true,
            multiple_versions: versions > 1,
        }),
        restore_outcome(false, versions, Some(current), None) == (RestoreOutcome::Restored {
            etag_mismatch: false,
            multiple_versions: versions > 1,
        }),
        current is Some && !crate::system_trash::same_etag(tag, current->0) ==> restore_outcome(
            false,
            versions,
            Some(current),
            Some(Some(tag)),
        ) == (RestoreOutcome::Restored { etag_mismatch: true, multiple_versions: versions > 1 }),
{
    crate::system_trash::law_etag_equivalence(tag, tag, tag);
}

/// The list of the trash shows every directory, and every file whose tombstone
/// can still be read; what is no tombstone it does not show.
pub proof fn law_trash_shown(prefix: Seq<char>, day: i32, key: Seq<char>, has_body: bool)
    requires
        key.len() > 0,
        key.last() != '/',
        crate::calendar::day_in_range(day as int),
    ensures
        shows_entry(prefix, tombstone_name(prefix, day, key, true), has_body),
        shows_entry(prefix, tombstone_name(prefix, day, key, false), has_body) == has_body,
{
    crate::tombstone::law_tombstone_tells(prefix, day, key, key);
    assert((key + seq!['/']).last() == '/');
}

/// Deleting entries for good takes exactly them out of the index.
pub proof fn law_entries_dropped(index: IndexView, entries: Seq<(String, bool, Date)>, key: Seq<char>)
    requires
        key.len() > 0,
        key.last() != '/',
    ensures
        without_entries(index, entries).files.dom().contains(key) <==> index.files.dom().contains(key) && forall|i: int|
            0 <= i < entries.len() ==> (#[trigger] entries[i]).1 || entries[i].0@ != key,
        without_entries(index, entries).dirs.dom().contains(key + seq!['/']) <==> index.dirs.dom().contains(key + seq!['/'])
            && forall|i: int|
            0 <= i < entries.len() ==> !(#[trigger] entries[i]).1 || (entries[i].0@ != key && entries[i].0@ != key + seq![
                '/',
            ]),
    decreases entries.len(),
{
    if entries.len() > 0 {
        let less = entries.drop_last();
        let n = entries.len() - 1;
        let e = entries.last();
        law_entries_dropped(index, less, key);
        assert(entries[n] == e);
        assert forall|i: int| 0 <= i < less.len() implies less[i] == #[trigger] entries[i] by {}
        let before = without_entries(index, less);
        let dir = key + seq!['/'];
        assert(dir.last() == '/');
        assert(key.push('/') =~= dir);
        if e.1 {
            let form = crate::tombstone::dir_form(e.0@);
            if form == dir && e.0@ != dir {
                assert(e.0@ =~= dir.drop_last());
                assert(key =~= dir.drop_last());
            }
        }
        if forall|i: int| 0 <= i < entries.len() ==> (#[trigger] entries[i]).1 || entries[i].0@ != key {
            assert forall|i: int| 0 <= i < less.len() implies (#[trigger] less[i]).1 || less[i].0@ != key by {
                assert(entries[i] == less[i]);
            }
        }
        if forall|i: int|
            0 <= i < entries.len() ==> !(#[trigger] entries[i]).1 || (entries[i].0@ != key && entries[i].0@ != dir) {
            assert forall|i: int|
                0 <= i < less.len() implies !(#[trigger] less[i]).1 || (less[i].0@ != key && less[i].0@ != dir) by {
                assert(entries[i] == less[i]);
            }
        }
    }
}

/// The names of entries that were deleted for good are forgotten, and those of
/// all other keys are kept.
pub proof fn law_names_dropped(names: NamesView, entries: Seq<(String, bool, Date)>, i: int)
    requires
        0 <= i < entries.len(),
        entries[i].0@.len() > 0,
        entries[i].0@.last() != '/',
    ensures
        !without_names(names, entries).by_key.dom().contains(entries[i].0@),
        without_names(names, entries).by_name == names.by_name,
    decreases entries.len(),
{
    let key = entries[i].0@;
    let less = entries.drop_last();
    let bare = trim_end(entries.last().0@, '/');
    let before = without_names(names, less);
    lemma_by_name_kept(names, less);
    if i == entries.len() - 1 {
        law_drop_tail_while(key, Seq::empty(), is_char('/'));
        assert(key + Seq::<char>::empty() =~= key);
    } else {
        law_names_dropped(names, less, i);
        assert(before.without_key(bare).by_key.dom().subset_of(before.by_key.dom()));
    }
}

proof fn lemma_by_name_kept(names: NamesView, entries: Seq<(String, bool, Date)>)
    ensures
        without_names(names, entries).by_name == names.by_name,
    decreases entries.len(),
{
    if entries.len() > 0 {
        lemma_by_name_kept(names, entries.drop_last());
    }
}

/// Requests to delete hold all keys, in order and each once.
pub proof fn law_batches_joined(batches: Seq<Vec<String>>, more: Vec<String>)
    ensures
        joined_batches(Seq::empty()) == Seq::<Seq<char>>::empty(),
        joined_batches(batches.push(more)) == joined_batches(batches) + string_views(more@),
{
    assert(batches.push(more).drop_last() =~= batches);
}

/// The keys of entries that are deleted for good, without slashes at their ends,
/// in their order.
pub proof fn law_bare_keys(entries: Seq<(String, bool, Date)>, i: int, key: Seq<char>)
    requires
        0 <= i < entries.len(),
        key.len() > 0,
        key.last() != '/',
        entries[i].0@ == key || entries[i].0@ == key + seq!['/'],
    ensures
        bare_keys(entries).len() == entries.len(),
        bare_keys(entries)[i] == key,
{
    law_drop_tail_while(key, Seq::empty(), is_char('/'));
    assert(key + Seq::<char>::empty() =~= key);
    law_drop_tail_while(key, seq!['/'], is_char('/'));
}

/// The latest partition comes first: no name comes before one that is greater.
pub proof fn law_latest_first(s: Seq<Seq<char>>, i: int, j: int)
    requires
        descending(s),
        0 <= i < j < s.len(),
    ensures
        text_less(s[j], s[i]),
{
}

/// A tombstone is left besides that of a date where it is of the same kind, a
/// file's or a directory's, and of another day.
pub proof fn law_left(d: Date, is_dir: bool, date: Date)
    ensures
        left_hit((d, is_dir), date, is_dir) <==> d.day() != date.day(),
        !left_hit((d, !is_dir), date, is_dir),
        !hit_before((d, is_dir), (d, is_dir)),
        d.day() < date.day() ==> hit_before((d, true), (date, false)) && !hit_before((date, false), (d, true)),
{
    if d.day() == date.day() {
        Date::lemma_same_day(d, date);
    }
}

} // verus!
