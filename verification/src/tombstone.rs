//! Tombstones: the small objects that mark a deleted key, their names, and
//! the index of what they cover.

use vstd::prelude::*;
use vstd::string::*;

use crate::calendar::{date_text, day_in_range, day_number, day_text, is_date, law_date_roundtrip, law_day_text};
use crate::date::{parsed_day, Date};
use crate::keymap::{
    lemma_map_of_entry, lemma_map_of_key, lemma_search_bound_small, search_bound, KeyMap,
};
use crate::text::{
    count_char, ends_with, ends_with_char, has_prefix, law_prefix_and_rest, lemma_split_once_at, split_first, split_once,
    strip_prefix, tail_from, to_chars, from_chars,
};

verus! {

/// What the name of a tombstone says: the date of the deletion, the key that
/// was deleted, and whether that is a directory.
#[derive(Debug)]
pub struct TombstoneKey {
    pub date: Date,
    pub original_key: String,
    pub is_dir: bool,
}

/// A key in the form of a directory: with a slash at its end.
pub open spec fn dir_form(key: Seq<char>) -> Seq<char> {
    if ends_with_char(key, '/') {
        key
    } else {
        key.push('/')
    }
}

/// A key in the form in which a tombstone names it.
pub open spec fn tomb_form(key: Seq<char>, is_dir: bool) -> Seq<char> {
    if is_dir {
        dir_form(key)
    } else {
        key
    }
}

/// The name of the tombstone of a key: the prefix of the trash, the date, a
/// slash, and the key, which ends with a slash if it is a directory.
pub open spec fn tombstone_name(prefix: Seq<char>, day: i32, key: Seq<char>, is_dir: bool) -> Seq<char> {
    tomb_form(prefix + day_text(day) + seq!['/'] + key, is_dir)
}

/// The day and the key that the name of a tombstone tells.
pub open spec fn tombstone_parts(prefix: Seq<char>, name: Seq<char>) -> Option<(i32, Seq<char>)> {
    if !has_prefix(name, prefix) {
        None
    } else {
        match split_once(tail_from(name, prefix.len() as int), '/') {
            Some((date, original)) => match parsed_day(date) {
                Some(day) => if original.len() > 0 {
                    Some((day, original))
                } else {
                    None
                },
                None => None,
            },
            None => None,
        }
    }
}

/// A key in the form of a directory.
pub fn to_dir_form(key: &str) -> (r: String)
    ensures
        r@ == dir_form(key@),
{
    let mut r = key.to_owned();
    if !ends_with(key, '/') {
        r.push('/');
    }
    r
}

/// The name of the tombstone of a key.
pub fn encode_tombstone_key(trash_prefix: &str, date: Date, original_key: &str, is_dir: bool) -> (r: String)
    ensures
        r@ == tombstone_name(trash_prefix@, date.number(), original_key@, is_dir),
{
    let mut key = trash_prefix.to_owned();
    let day = date.text();
    key.append(day.as_str());
    key.push('/');
    key.append(original_key);
    proof {
        assert(key@ =~= trash_prefix@ + day_text(date.number()) + seq!['/'] + original_key@);
    }
    if is_dir && !ends_with(key.as_str(), '/') {
        key.push('/');
    }
    key
}

/// What the name of an object says, if it is the name of a tombstone: it
/// starts with the prefix of the trash, then come a date, a slash and a key
/// that is not empty.
pub fn decode_tombstone_key(trash_prefix: &str, key: &str) -> (r: Option<TombstoneKey>)
    ensures
        r is Some <==> tombstone_parts(trash_prefix@, key@) is Some,
        r matches Some(t) ==> {
            &&& tombstone_parts(trash_prefix@, key@) == Some((t.date.number(), t.original_key@))
            &&& t.is_dir == ends_with_char(t.original_key@, '/')
        },
{
    let rest = match strip_prefix(key, trash_prefix) {
        Some(rest) => rest,
        None => {
            return None;
        },
    };
    let (date_text, original) = match split_first(rest.as_str(), '/') {
        Some(parts) => parts,
        None => {
            return None;
        },
    };
    if original.as_str().is_empty() {
        return None;
    }
    match Date::parse(date_text.as_str()) {
        Some(date) => {
            let is_dir = ends_with(original.as_str(), '/');
            Some(TombstoneKey { date, original_key: original, is_dir })
        },
        None => None,
    }
}

/// The name of a tombstone tells the date and the key that it was made for,
/// the key in the form of a directory if it was made for one.
pub proof fn law_tombstone_roundtrip(prefix: Seq<char>, day: i32, key: Seq<char>, is_dir: bool)
    requires
        key.len() > 0,
        day_in_range(day as int),
    ensures
        tombstone_parts(prefix, tombstone_name(prefix, day, key, is_dir)) == Some(
            (day, tomb_form(key, is_dir)),
        ),
{
    law_day_text(day);
    let name = tombstone_name(prefix, day, key, is_dir);
    let whole = prefix + day_text(day) + seq!['/'] + key;
    let form = tomb_form(key, is_dir);
    assert(whole.last() == key.last());
    assert(name =~= prefix + (day_text(day) + seq!['/'] + form));
    assert(name.subrange(0, prefix.len() as int) =~= prefix);
    let rest = tail_from(name, prefix.len() as int);
    assert(rest =~= day_text(day) + seq!['/'] + form);
    let n = day_text(day).len() as int;
    assert forall|k: int| 0 <= k < n implies #[trigger] rest[k] != '/' by {
        assert(rest[k] == day_text(day)[k]);
    }
    lemma_split_once_at(rest, '/', n);
    assert(rest.subrange(0, n) =~= day_text(day));
    assert(tail_from(rest, n + 1) =~= form);
}

/// A date is entered for a key unless a later one, or the same, is there.
pub open spec fn with_latest(m: Map<Seq<char>, Date>, key: Seq<char>, date: Date) -> Map<Seq<char>, Date> {
    if m.dom().contains(key) && m[key].day() >= date.day() {
        m
    } else {
        m.insert(key, date)
    }
}

/// The keys that tombstones cover: files by their exact key, directories by
/// their prefix, each with the latest date of its tombstones.
pub struct TombstoneIndex {
    /// Deleted files.
    pub files: KeyMap<Date>,
    /// Deleted directories; their keys end with a slash.
    pub dirs: KeyMap<Date>,
}

/// A number as far as a machine word can count.
pub open spec fn word(n: nat) -> usize {
    if n <= usize::MAX {
        n as usize
    } else {
        usize::MAX
    }
}

/// What an index holds: dates by file key, and dates by directory key.
#[verifier::ext_equal]
pub struct IndexView {
    pub files: Map<Seq<char>, Date>,
    pub dirs: Map<Seq<char>, Date>,
}

impl IndexView {
    /// An index of nothing.
    pub open spec fn empty() -> IndexView {
        IndexView { files: Map::empty(), dirs: Map::empty() }
    }

    /// A key is covered if it is a deleted file, or if a deleted directory is
    /// a prefix of it in the form of a directory.
    pub open spec fn covers(self, key: Seq<char>) -> bool {
        ||| self.files.dom().contains(key)
        ||| exists|dir: Seq<char>| #[trigger] self.dirs.dom().contains(dir) && has_prefix(dir_form(key), dir)
    }

    /// The index with one tombstone more.
    pub open spec fn with(self, key: Seq<char>, is_dir: bool, date: Date) -> IndexView {
        if is_dir {
            IndexView { dirs: with_latest(self.dirs, dir_form(key), date), ..self }
        } else {
            IndexView { files: with_latest(self.files, key, date), ..self }
        }
    }

    /// A directory has a tombstone that is later than the date.
    pub open spec fn dir_later_than(self, key: Seq<char>, date: Date) -> bool {
        self.dirs.dom().contains(dir_form(key)) && self.dirs[dir_form(key)].day() > date.day()
    }

    /// The index without the tombstones of a key.
    pub open spec fn without(self, key: Seq<char>, is_dir: bool) -> IndexView {
        if is_dir {
            IndexView { dirs: self.dirs.remove(dir_form(key)), ..self }
        } else {
            IndexView { files: self.files.remove(key), ..self }
        }
    }
}

/// The key, kind and date of a tombstone.
pub open spec fn tomb_view(t: (String, bool, Date)) -> (Seq<char>, bool, Date) {
    (t.0@, t.1, t.2)
}

/// The index of tombstones, entered one after the other.
pub open spec fn indexed(base: IndexView, tombs: Seq<(String, bool, Date)>) -> IndexView
    decreases tombs.len(),
{
    if tombs.len() == 0 {
        base
    } else {
        let t = tombs.last();
        indexed(base, tombs.drop_last()).with(t.0@, t.1, t.2)
    }
}

impl TombstoneIndex {
    /// What the index holds.
    pub open spec fn view(&self) -> IndexView {
        IndexView { files: self.files@, dirs: self.dirs@ }
    }

    /// Both maps are in order, and every directory ends with a slash.
    pub open spec fn wf(&self) -> bool {
        &&& self.files.wf()
        &&& self.dirs.wf()
        &&& forall|d: Seq<char>| #[trigger] self.dirs@.dom().contains(d) ==> ends_with_char(d, '/')
    }

    /// The number of entries.
    pub open spec fn size(&self) -> nat {
        self@.files.dom().len() + self@.dirs.dom().len()
    }

    /// An index of nothing.
    pub fn new() -> (r: Self)
        ensures
            r.wf(),
            r@ == IndexView::empty(),
    {
        TombstoneIndex { files: KeyMap::new(), dirs: KeyMap::new() }
    }

    /// Whether a key is covered, and how many comparisons with directories it
    /// took: for each level of the path no more than a binary search.
    pub fn covered_probe(&self, key: &str) -> (r: (bool, u128))
        requires
            self.wf(),
        ensures
            r.0 == self@.covers(key@),
            r.1 <= (count_char(key@, '/') + 1) * search_bound(self@.dirs.dom().len()),
    {
        proof {
            self.dirs.lemma_len();
            assert(0 <= (count_char(key@, '/') + 1) * search_bound(self@.dirs.dom().len()))
                by (nonlinear_arith);
        }
        if self.files.contains_key(key) {
            return (true, 0);
        }
        if self.dirs.is_empty() {
            return (false, 0);
        }
        let chars = to_chars(key);
        let ghost bound = search_bound(self@.dirs.dom().len());
        let mut probes: u128 = 0;
        let mut i: usize = 0;
        let _levels: usize = self.dirs.len();
        let _length: usize = chars.len();
        proof {
            lemma_search_bound_small(self@.dirs.dom().len());
            assert(key@.subrange(0, 0) =~= Seq::<char>::empty());
            assert(0 * bound == 0);
        }
        while i < chars.len()
            invariant
                i <= chars@.len() <= usize::MAX,
                chars@ == key@,
                self.wf(),
                !self@.files.dom().contains(key@),
                bound == search_bound(self@.dirs.dom().len()),
                bound <= 65,
                probes <= count_char(key@.subrange(0, i as int), '/') * bound,
                probes <= i * 65,
                forall|k: int|
                    0 < k <= i && key@[k - 1] == '/' ==> !#[trigger] self@.dirs.dom().contains(
                        key@.subrange(0, k),
                    ),
            decreases chars.len() - i,
        {
            proof {
                let upto = key@.subrange(0, i + 1);
                assert(upto.drop_last() =~= key@.subrange(0, i as int));
                assert(upto.last() == key@[i as int]);
                lemma_count_prefix(key@, i + 1);
                let c = count_char(key@.subrange(0, i as int), '/');
                assert((c + 1) * bound == c * bound + bound) by (nonlinear_arith);
                assert((count_char(key@, '/') + 1) * bound >= count_char(upto, '/') * bound)
                    by (nonlinear_arith)
                    requires
                        count_char(key@, '/') >= count_char(upto, '/'),
                        bound >= 0,
                ;
            }
            if chars[i] == '/' {
                let prefix = from_chars(&chars, 0, i + 1);
                proof {
                    self.dirs.lemma_len();
                }
                let (found, _at, steps) = self.dirs.search(prefix.as_str());
                probes = probes + steps as u128;
                if found {
                    proof {
                        let form = dir_form(key@);
                        assert(form.subrange(0, i + 1) =~= key@.subrange(0, i + 1));
                        assert(has_prefix(form, prefix@));
                    }
                    return (true, probes);
                }
            }
            i = i + 1;
        }
        proof {
            assert(key@.subrange(0, key@.len() as int) =~= key@);
            let c = count_char(key@, '/');
            assert((c + 1) * bound == c * bound + bound) by (nonlinear_arith);
        }
        if !ends_with(key, '/') {
            let full = to_dir_form(key);
            proof {
                self.dirs.lemma_len();
            }
            let (found, _at, steps) = self.dirs.search(full.as_str());
            probes = probes + steps as u128;
            if found {
                proof {
                    assert(full@.subrange(0, full@.len() as int) =~= full@);
                    assert(has_prefix(dir_form(key@), full@));
                }
                return (true, probes);
            }
        }
        proof {
            let form = dir_form(key@);
            assert forall|dir: Seq<char>| #[trigger] self@.dirs.dom().contains(dir) implies !has_prefix(form, dir) by {
                if has_prefix(form, dir) {
                    let n = dir.len() as int;
                    assert(dir.last() == '/');
                    assert(form[n - 1] == form.subrange(0, n)[n - 1]);
                    if n <= key@.len() {
                        assert(form.subrange(0, n) =~= key@.subrange(0, n));
                        assert(key@[n - 1] == '/');
                    } else {
                        assert(form.subrange(0, n) =~= form);
                    }
                }
            }
        }
        (false, probes)
    }

    /// Whether a key is covered.
    pub fn is_covered(&self, key: &str) -> (r: bool)
        requires
            self.wf(),
        ensures
            r == self@.covers(key@),
    {
        self.covered_probe(key).0
    }

    /// Enters a tombstone; a later date replaces an earlier one.
    pub fn insert(&mut self, key: &str, is_dir: bool, date: Date)
        requires
            old(self).wf(),
        ensures
            final(self).wf(),
            final(self)@ == old(self)@.with(key@, is_dir, date),
    {
        if is_dir {
            let dir = to_dir_form(key);
            let keep = match self.dirs.get(dir.as_str()) {
                Some(d) => !date.later_than(d),
                None => false,
            };
            if !keep {
                let _ = self.dirs.insert(dir, date);
            }
        } else {
            let keep = match self.files.get(key) {
                Some(d) => !date.later_than(d),
                None => false,
            };
            if !keep {
                let _ = self.files.insert(key.to_owned(), date);
            }
        }
    }

    /// Whether a directory has a tombstone that is later than the date.
    pub fn dir_later_than(&self, key: &str, date: Date) -> (r: bool)
        requires
            self.wf(),
        ensures
            r == self@.dir_later_than(key@, date),
    {
        let dir = to_dir_form(key);
        match self.dirs.get(dir.as_str()) {
            Some(d) => d.later_than(&date),
            None => false,
        }
    }

    /// Takes the tombstones of a key out.
    pub fn remove(&mut self, key: &str, is_dir: bool)
        requires
            old(self).wf(),
        ensures
            final(self).wf(),
            final(self)@ == old(self)@.without(key@, is_dir),
    {
        if is_dir {
            let dir = to_dir_form(key);
            let _ = self.dirs.remove(dir.as_str());
        } else {
            let _ = self.files.remove(key);
        }
    }

    /// Enters tombstones one after the other.
    pub fn extend(&mut self, tombstones: &Vec<(String, bool, Date)>)
        requires
            old(self).wf(),
        ensures
            final(self).wf(),
            final(self)@ == indexed(old(self)@, tombstones@),
    {
        let ghost base = self@;
        let mut i: usize = 0;
        proof {
            assert(tombstones@.subrange(0, 0) =~= Seq::<(String, bool, Date)>::empty());
        }
        while i < tombstones.len()
            invariant
                i <= tombstones@.len(),
                self.wf(),
                self@ == indexed(base, tombstones@.subrange(0, i as int)),
            decreases tombstones.len() - i,
        {
            proof {
                let upto = tombstones@.subrange(0, i + 1);
                assert(upto.drop_last() =~= tombstones@.subrange(0, i as int));
                assert(upto.last() == tombstones@[i as int]);
            }
            let t = &tombstones[i];
            self.insert(t.0.as_str(), t.1, t.2);
            i = i + 1;
        }
        proof {
            assert(tombstones@.subrange(0, tombstones@.len() as int) =~= tombstones@);
        }
    }

    /// Replaces the whole index by that of the given tombstones.
    pub fn rebuild(&mut self, tombstones: &Vec<(String, bool, Date)>)
        requires
            old(self).wf(),
        ensures
            final(self).wf(),
            final(self)@ == indexed(IndexView::empty(), tombstones@),
    {
        self.files.clear();
        self.dirs.clear();
        self.extend(tombstones);
    }

    /// Whether a file with exactly this key was deleted.
    pub fn is_file_covered(&self, key: &str) -> (r: bool)
        requires
            self.wf(),
        ensures
            r == self@.files.dom().contains(key@),
    {
        self.files.contains_key(key)
    }

    /// The entries: files, then directories, each in ascending order.
    pub open spec fn spec_entries(&self) -> Seq<(Seq<char>, bool, Date)> {
        self.files.spec_entries().map_values(|e: (String, Date)| (e.0@, false, e.1))
            + self.dirs.spec_entries().map_values(|e: (String, Date)| (e.0@, true, e.1))
    }

    /// Every entry, files first, each kind in ascending order of its keys.
    pub fn entries(&self) -> (r: Vec<(String, bool, Date)>)
        requires
            self.wf(),
        ensures
            r@.map_values(|t: (String, bool, Date)| tomb_view(t)) == self.spec_entries(),
    {
        let mut out: Vec<(String, bool, Date)> = Vec::new();
        let ghost all = self.spec_entries();
        let n: usize = self.files.len();
        let m: usize = self.dirs.len();
        let mut i: usize = 0;
        while i < n
            invariant
                i <= n,
                n == self.files.spec_entries().len(),
                self.wf(),
                all == self.spec_entries(),
                out@.len() == i,
                forall|k: int| 0 <= k < i ==> tomb_view(#[trigger] out@[k]) == all[k],
            decreases n - i,
        {
            let e = self.files.entry_at(i);
            out.push((e.0.clone(), false, e.1));
            i = i + 1;
        }
        let mut j: usize = 0;
        while j < m
            invariant
                j <= m,
                n == self.files.spec_entries().len(),
                m == self.dirs.spec_entries().len(),
                self.wf(),
                all == self.spec_entries(),
                out@.len() == n + j,
                forall|k: int| 0 <= k < n + j ==> tomb_view(#[trigger] out@[k]) == all[k],
            decreases m - j,
        {
            let e = self.dirs.entry_at(j);
            out.push((e.0.clone(), true, e.1));
            j = j + 1;
        }
        proof {
            assert(out@.map_values(|t: (String, bool, Date)| tomb_view(t)) =~= all);
        }
        out
    }

    /// The number of entries, as far as a machine word can count.
    pub fn len(&self) -> (n: usize)
        requires
            self.wf(),
        ensures
            n == word(self.size()),
            self.size() <= usize::MAX ==> n == self.size(),
    {
        self.files.len().saturating_add(self.dirs.len())
    }

    /// Whether there is no entry.
    pub fn is_empty(&self) -> (r: bool)
        requires
            self.wf(),
        ensures
            r == (self.size() == 0),
    {
        self.files.is_empty() && self.dirs.is_empty()
    }
}

impl Default for TombstoneIndex {
    /// An index of nothing.
    fn default() -> (r: Self)
        ensures
            r.wf(),
            r@ == IndexView::empty(),
    {
        TombstoneIndex::new()
    }
}

proof fn lemma_count_prefix(s: Seq<char>, i: int)
    requires
        0 <= i <= s.len(),
    ensures
        count_char(s.subrange(0, i), '/') <= count_char(s, '/'),
    decreases s.len() - i,
{
    if i == s.len() {
        assert(s.subrange(0, i) =~= s);
    } else {
        lemma_count_prefix(s, i + 1);
        assert(s.subrange(0, i + 1).drop_last() =~= s.subrange(0, i));
    }
}

/// A tombstone covers its key; that of a directory covers every key below it
/// and the directory itself, with or without its slash.
pub proof fn law_insert_covers(index: IndexView, key: Seq<char>, is_dir: bool, date: Date, below: Seq<char>)
    ensures
        index.with(key, is_dir, date).covers(key),
        is_dir ==> index.with(key, is_dir, date).covers(dir_form(key)),
        is_dir ==> index.with(key, is_dir, date).covers(dir_form(key) + below),
{
    let after = index.with(key, is_dir, date);
    if is_dir {
        let dir = dir_form(key);
        assert(after.dirs.dom().contains(dir));
        assert(dir.subrange(0, dir.len() as int) =~= dir);
        assert(has_prefix(dir_form(key), dir));
        assert(dir_form(dir) =~= dir);
        assert(has_prefix(dir_form(dir), dir));
        let deep = dir + below;
        assert(dir_form(deep).subrange(0, dir.len() as int) =~= dir);
        assert(has_prefix(dir_form(deep), dir));
    }
}

/// A tombstone takes nothing out of what is covered.
pub proof fn law_insert_keeps(index: IndexView, key: Seq<char>, is_dir: bool, date: Date, other: Seq<char>)
    requires
        index.covers(other),
    ensures
        index.with(key, is_dir, date).covers(other),
{
    let after = index.with(key, is_dir, date);
    if index.files.dom().contains(other) {
        assert(after.files.dom().contains(other));
    } else {
        let dir = choose|dir: Seq<char>| #[trigger]
            index.dirs.dom().contains(dir) && has_prefix(dir_form(other), dir);
        assert(after.dirs.dom().contains(dir));
    }
}

/// Entering a tombstone twice is entering it once.
pub proof fn law_insert_idempotent(index: IndexView, key: Seq<char>, is_dir: bool, date: Date)
    ensures
        index.with(key, is_dir, date).with(key, is_dir, date) == index.with(key, is_dir, date),
{
}

/// Taking out what was entered for a new key gives the index back.
pub proof fn law_remove_undoes_insert(index: IndexView, key: Seq<char>, is_dir: bool, date: Date)
    requires
        !(if is_dir { index.dirs } else { index.files }).dom().contains(tomb_form(key, is_dir)),
    ensures
        index.with(key, is_dir, date).without(key, is_dir) == index,
{
    let k = tomb_form(key, is_dir);
    if is_dir {
        assert(index.dirs.insert(k, date).remove(k) =~= index.dirs);
    } else {
        assert(index.files.insert(k, date).remove(k) =~= index.files);
    }
}

/// Once the tombstone of a file is taken out, the file is covered only where
/// a deleted directory still holds it.
pub proof fn law_remove_uncovers(index: IndexView, key: Seq<char>)
    ensures
        index.without(key, false).covers(key) <==> exists|dir: Seq<char>| #[trigger]
            index.dirs.dom().contains(dir) && has_prefix(dir_form(key), dir),
{
    let after = index.without(key, false);
    assert(after.dirs == index.dirs);
    assert(!after.files.dom().contains(key));
    if after.covers(key) {
        let dir = choose|dir: Seq<char>| #[trigger]
            after.dirs.dom().contains(dir) && has_prefix(dir_form(key), dir);
        assert(index.dirs.dom().contains(dir));
    }
    if exists|dir: Seq<char>| #[trigger]
        index.dirs.dom().contains(dir) && has_prefix(dir_form(key), dir) {
        let dir = choose|dir: Seq<char>| #[trigger]
            index.dirs.dom().contains(dir) && has_prefix(dir_form(key), dir);
        assert(after.dirs.dom().contains(dir));
    }
}

/// A tombstone of the key is among the tombstones.
pub open spec fn entered(tombs: Seq<(String, bool, Date)>, key: Seq<char>, is_dir: bool, i: int) -> bool {
    0 <= i < tombs.len() && tombs[i].1 == is_dir && tomb_form(tombs[i].0@, is_dir) == key
}

/// An index holds a key exactly if a tombstone was entered for it, and with
/// the latest of the dates: whatever the order of the tombstones.
pub proof fn law_rebuild_latest(tombs: Seq<(String, bool, Date)>, key: Seq<char>, is_dir: bool)
    ensures
        ({
            let index = indexed(IndexView::empty(), tombs);
            let m = if is_dir { index.dirs } else { index.files };
            &&& m.dom().contains(key) <==> exists|i: int| entered(tombs, key, is_dir, i)
            &&& m.dom().contains(key) ==> exists|i: int| entered(tombs, key, is_dir, i) && m[key] == tombs[i].2
            &&& forall|i: int| #[trigger] entered(tombs, key, is_dir, i) ==> m[key].day() >= tombs[i].2.day()
        }),
    decreases tombs.len(),
{
    if tombs.len() > 0 {
        let head = tombs.drop_last();
        let t = tombs.last();
        let n = tombs.len() - 1;
        law_rebuild_latest(head, key, is_dir);
        let before = indexed(IndexView::empty(), head);
        let index = indexed(IndexView::empty(), tombs);
        let m0 = if is_dir { before.dirs } else { before.files };
        let m = if is_dir { index.dirs } else { index.files };
        assert(index == before.with(t.0@, t.1, t.2));
        assert forall|i: int| entered(head, key, is_dir, i) == (i < n && entered(tombs, key, is_dir, i)) by {
            if 0 <= i < n {
                assert(head[i] == tombs[i]);
            }
        }
        let hit = entered(tombs, key, is_dir, n);
        if hit {
            if m0.dom().contains(key) && m0[key].day() >= t.2.day() {
                let i = choose|i: int| entered(head, key, is_dir, i) && m0[key] == head[i].2;
                assert(head[i] == tombs[i]);
                assert(entered(tombs, key, is_dir, i) && m[key] == tombs[i].2);
            } else {
                assert(m[key] == t.2);
                assert(entered(tombs, key, is_dir, n) && m[key] == tombs[n].2);
            }
        } else {
            assert(m.dom().contains(key) == m0.dom().contains(key));
            if m0.dom().contains(key) {
                assert(m[key] == m0[key]);
                let i = choose|i: int| entered(head, key, is_dir, i) && m0[key] == head[i].2;
                assert(head[i] == tombs[i]);
                assert(entered(tombs, key, is_dir, i) && m[key] == tombs[i].2);
            }
        }
        assert forall|i: int| #[trigger] entered(tombs, key, is_dir, i) implies m[key].day() >= tombs[i].2.day() by {
            if i < n {
                assert(entered(head, key, is_dir, i));
                assert(head[i] == tombs[i]);
            }
        }
        if m.dom().contains(key) && !m0.dom().contains(key) {
            assert(hit);
        }
        if exists|i: int| entered(tombs, key, is_dir, i) {
            let i = choose|i: int| entered(tombs, key, is_dir, i);
            if i < n {
                assert(entered(head, key, is_dir, i));
            }
        }
    }
}

proof fn lemma_same_members(a: Seq<(String, bool, Date)>, b: Seq<(String, bool, Date)>, key: Seq<char>, is_dir: bool)
    requires
        forall|i: int| 0 <= i < a.len() ==> b.contains(#[trigger] a[i]),
        forall|i: int| 0 <= i < b.len() ==> a.contains(#[trigger] b[i]),
    ensures
        ({
            let x = indexed(IndexView::empty(), a);
            let y = indexed(IndexView::empty(), b);
            let p = if is_dir { x.dirs } else { x.files };
            let q = if is_dir { y.dirs } else { y.files };
            &&& p.dom().contains(key) == q.dom().contains(key)
            &&& p.dom().contains(key) ==> p[key] == q[key]
        }),
{
    let x = indexed(IndexView::empty(), a);
    let y = indexed(IndexView::empty(), b);
    law_rebuild_latest(a, key, is_dir);
    law_rebuild_latest(b, key, is_dir);
    let p = if is_dir { x.dirs } else { x.files };
    let q = if is_dir { y.dirs } else { y.files };
    if p.dom().contains(key) {
        let i = choose|i: int| entered(a, key, is_dir, i) && p[key] == a[i].2;
        assert(b.contains(a[i]));
        let j = choose|j: int| 0 <= j < b.len() && b[j] == a[i];
        assert(entered(b, key, is_dir, j));
    }
    if q.dom().contains(key) {
        let i = choose|i: int| entered(b, key, is_dir, i) && q[key] == b[i].2;
        assert(a.contains(b[i]));
        let j = choose|j: int| 0 <= j < a.len() && a[j] == b[i];
        assert(entered(a, key, is_dir, j));
    }
    if p.dom().contains(key) {
        Date::lemma_same_day(p[key], q[key]);
    }
}

/// Two batches of tombstones with the same members give the same index.
pub proof fn law_rebuild_order(a: Seq<(String, bool, Date)>, b: Seq<(String, bool, Date)>)
    requires
        forall|i: int| 0 <= i < a.len() ==> b.contains(#[trigger] a[i]),
        forall|i: int| 0 <= i < b.len() ==> a.contains(#[trigger] b[i]),
    ensures
        indexed(IndexView::empty(), a) == indexed(IndexView::empty(), b),
{
    let x = indexed(IndexView::empty(), a);
    let y = indexed(IndexView::empty(), b);
    assert forall|key: Seq<char>| x.files.dom().contains(key) == y.files.dom().contains(key) by {
        lemma_same_members(a, b, key, false);
    }
    assert forall|key: Seq<char>| x.files.dom().contains(key) implies x.files[key] == y.files[key] by {
        lemma_same_members(a, b, key, false);
    }
    assert forall|key: Seq<char>| x.dirs.dom().contains(key) == y.dirs.dom().contains(key) by {
        lemma_same_members(a, b, key, true);
    }
    assert forall|key: Seq<char>| x.dirs.dom().contains(key) implies x.dirs[key] == y.dirs[key] by {
        lemma_same_members(a, b, key, true);
    }
    assert(x.files =~= y.files);
    assert(x.dirs =~= y.dirs);
}

/// The entries hold a key with a date exactly if the index does.
pub proof fn lemma_entries_contain(index: &TombstoneIndex, key: Seq<char>, is_dir: bool, date: Date)
    requires
        index.wf(),
    ensures
        index.spec_entries().contains((key, is_dir, date)) <==> {
            let m = if is_dir { index@.dirs } else { index@.files };
            m.dom().contains(key) && m[key] == date
        },
{
    let files = index.files.spec_entries();
    let dirs = index.dirs.spec_entries();
    let all = index.spec_entries();
    let m = if is_dir { index@.dirs } else { index@.files };
    if all.contains((key, is_dir, date)) {
        let i = choose|i: int| 0 <= i < all.len() && all[i] == (key, is_dir, date);
        if i < files.len() {
            assert(all[i] == (files[i].0@, false, files[i].1));
            lemma_map_of_entry(files, i);
        } else {
            let j = i - files.len();
            assert(all[i] == (dirs[j].0@, true, dirs[j].1));
            lemma_map_of_entry(dirs, j);
        }
    }
    if m.dom().contains(key) && m[key] == date {
        if is_dir {
            let j = lemma_map_of_key(dirs, key);
            lemma_map_of_entry(dirs, j);
            assert(all[files.len() + j] == (key, is_dir, date));
        } else {
            let i = lemma_map_of_key(files, key);
            lemma_map_of_entry(files, i);
            assert(all[i] == (key, is_dir, date));
        }
    }
}

/// What two indexes do not share.
pub struct IndexDiff {
    pub removed: Vec<(String, bool, Date)>,
    pub added: Vec<(String, bool, Date)>,
}

/// The entries that are not among others.
pub open spec fn entries_without(a: Seq<(Seq<char>, bool, Date)>, b: Seq<(Seq<char>, bool, Date)>) -> Seq<(Seq<char>, bool, Date)> {
    a.filter(|e: (Seq<char>, bool, Date)| !b.contains(e))
}

/// Tombstones as key, kind and date.
pub open spec fn tomb_views(tombs: Seq<(String, bool, Date)>) -> Seq<(Seq<char>, bool, Date)> {
    tombs.map_values(|t: (String, bool, Date)| tomb_view(t))
}

impl TombstoneIndex {
    fn holds(&self, t: &(String, bool, Date)) -> (r: bool)
        requires
            self.wf(),
        ensures
            r == self.spec_entries().contains(tomb_view(*t)),
    {
        proof {
            lemma_entries_contain(self, t.0@, t.1, t.2);
        }
        let found = if t.1 {
            self.dirs.get(t.0.as_str())
        } else {
            self.files.get(t.0.as_str())
        };
        match found {
            Some(d) => d.same_as(&t.2),
            None => false,
        }
    }

    /// The entries that the other index does not hold.
    pub fn entries_not_in(&self, other: &TombstoneIndex) -> (r: Vec<(String, bool, Date)>)
        requires
            self.wf(),
            other.wf(),
        ensures
            tomb_views(r@) == entries_without(self.spec_entries(), other.spec_entries()),
    {
        let all = self.entries();
        let ghost mine = self.spec_entries();
        let ghost theirs = other.spec_entries();
        let ghost keep = |e: (Seq<char>, bool, Date)| !theirs.contains(e);
        let mut out: Vec<(String, bool, Date)> = Vec::new();
        let mut i: usize = 0;
        proof {
            reveal(Seq::filter);
            assert(mine.subrange(0, 0).filter(keep) =~= Seq::<(Seq<char>, bool, Date)>::empty());
            assert(tomb_views(out@) =~= Seq::<(Seq<char>, bool, Date)>::empty());
        }
        while i < all.len()
            invariant
                i <= all@.len(),
                self.wf(),
                other.wf(),
                theirs == other.spec_entries(),
                mine == tomb_views(all@),
                keep == (|e: (Seq<char>, bool, Date)| !theirs.contains(e)),
                tomb_views(out@) == mine.subrange(0, i as int).filter(keep),
            decreases all.len() - i,
        {
            proof {
                reveal(Seq::filter);
                let upto = mine.subrange(0, i + 1);
                assert(upto.drop_last() =~= mine.subrange(0, i as int));
                assert(upto.last() == tomb_view(all@[i as int]));
            }
            let t = &all[i];
            if !other.holds(t) {
                let ghost before = out@;
                out.push((t.0.clone(), t.1, t.2));
                proof {
                    assert(tomb_views(out@) =~= tomb_views(before).push(tomb_view(*t)));
                }
            }
            i = i + 1;
        }
        proof {
            assert(mine.subrange(0, mine.len() as int) =~= mine);
        }
        out
    }

    /// What comes and what goes where the other index takes this one's place.
    pub fn diff(&self, next: &TombstoneIndex) -> (r: IndexDiff)
        requires
            self.wf(),
            next.wf(),
        ensures
            tomb_views(r.removed@) == entries_without(self.spec_entries(), next.spec_entries()),
            tomb_views(r.added@) == entries_without(next.spec_entries(), self.spec_entries()),
    {
        IndexDiff { removed: self.entries_not_in(next), added: next.entries_not_in(self) }
    }
}

/// Nothing comes and nothing goes exactly where both indexes hold the same.
pub proof fn law_diff_empty(a: &TombstoneIndex, b: &TombstoneIndex)
    requires
        a.wf(),
        b.wf(),
    ensures
        entries_without(a.spec_entries(), b.spec_entries()).len() == 0 && entries_without(
            b.spec_entries(),
            a.spec_entries(),
        ).len() == 0 <==> a@ == b@,
{
    let x = a.spec_entries();
    let y = b.spec_entries();
    let in_y = |e: (Seq<char>, bool, Date)| !y.contains(e);
    let in_x = |e: (Seq<char>, bool, Date)| !x.contains(e);
    if a@ == b@ {
        assert(entries_without(x, y).len() == 0) by {
            if x.filter(in_y).len() > 0 {
                let e = x.filter(in_y)[0];
                broadcast use vstd::seq_lib::group_filter_ensures;

                assert(x.filter(in_y).contains(e));
                x.lemma_filter_contains_rev(in_y, e);
                assert(in_y(e));
                lemma_entries_contain(a, e.0, e.1, e.2);
                lemma_entries_contain(b, e.0, e.1, e.2);
            }
        }
        assert(entries_without(y, x).len() == 0) by {
            if y.filter(in_x).len() > 0 {
                let e = y.filter(in_x)[0];
                broadcast use vstd::seq_lib::group_filter_ensures;

                assert(y.filter(in_x).contains(e));
                y.lemma_filter_contains_rev(in_x, e);
                assert(in_x(e));
                lemma_entries_contain(a, e.0, e.1, e.2);
                lemma_entries_contain(b, e.0, e.1, e.2);
            }
        }
    }
    if entries_without(x, y).len() == 0 && entries_without(y, x).len() == 0 {
        broadcast use vstd::seq_lib::group_filter_ensures;

        assert forall|e: (Seq<char>, bool, Date)| x.contains(e) implies y.contains(e) by {
            if !y.contains(e) {
                let i = choose|i: int| 0 <= i < x.len() && x[i] == e;
                assert(in_y(x[i]));
                assert(x.filter(in_y).contains(x[i]));
            }
        }
        assert forall|e: (Seq<char>, bool, Date)| y.contains(e) implies x.contains(e) by {
            if !x.contains(e) {
                let i = choose|i: int| 0 <= i < y.len() && y[i] == e;
                assert(in_x(y[i]));
                assert(y.filter(in_x).contains(y[i]));
            }
        }
        assert forall|k: Seq<char>| a@.files.dom().contains(k) == b@.files.dom().contains(k) by {
            lemma_entries_contain(a, k, false, a@.files[k]);
            lemma_entries_contain(b, k, false, a@.files[k]);
            lemma_entries_contain(a, k, false, b@.files[k]);
            lemma_entries_contain(b, k, false, b@.files[k]);
        }
        assert forall|k: Seq<char>| a@.files.dom().contains(k) implies a@.files[k] == b@.files[k] by {
            lemma_entries_contain(a, k, false, a@.files[k]);
            lemma_entries_contain(b, k, false, a@.files[k]);
        }
        assert forall|k: Seq<char>| a@.dirs.dom().contains(k) == b@.dirs.dom().contains(k) by {
            lemma_entries_contain(a, k, true, a@.dirs[k]);
            lemma_entries_contain(b, k, true, a@.dirs[k]);
            lemma_entries_contain(a, k, true, b@.dirs[k]);
            lemma_entries_contain(b, k, true, b@.dirs[k]);
        }
        assert forall|k: Seq<char>| a@.dirs.dom().contains(k) implies a@.dirs[k] == b@.dirs[k] by {
            lemma_entries_contain(a, k, true, a@.dirs[k]);
            lemma_entries_contain(b, k, true, a@.dirs[k]);
        }
        assert(a@.files =~= b@.files);
        assert(a@.dirs =~= b@.dirs);
    }
}

/// How a tombstone is called: the prefix of the trash, the date and the key,
/// with slashes between. That of a directory ends with a slash, however the key
/// is given.
pub proof fn law_tombstone_name(prefix: Seq<char>, year: int, month: int, day: int, key: Seq<char>)
    requires
        is_date(year, month, day),
        day_in_range(day_number(year, month, day)),
        key.len() > 0,
        key.last() != '/',
    ensures
        ({
            let n = day_number(year, month, day) as i32;
            let name = prefix + date_text(year, month, day) + seq!['/'] + key;
            &&& tombstone_name(prefix, n, key, false) == name
            &&& tombstone_name(prefix, n, key, true) == name + seq!['/']
            &&& tombstone_name(prefix, n, key + seq!['/'], true) == name + seq!['/']
        }),
{
    law_date_roundtrip(year, month, day);
    let name = prefix + date_text(year, month, day) + seq!['/'] + key;
    assert(name.last() == key.last());
    assert(name.push('/') =~= name + seq!['/']);
    let slashed = prefix + date_text(year, month, day) + seq!['/'] + (key + seq!['/']);
    assert(slashed =~= name + seq!['/']);
    assert(slashed.last() == '/');
}

/// What a tombstone tells: the day and the key that it was written for, and
/// whether that is a directory. A name of another place tells nothing, and
/// neither does one without a key.
pub proof fn law_tombstone_tells(prefix: Seq<char>, day: i32, key: Seq<char>, other: Seq<char>)
    requires
        key.len() > 0,
        key.last() != '/',
        day_in_range(day as int),
    ensures
        tombstone_parts(prefix, tombstone_name(prefix, day, key, false)) == Some((day, key)),
        tombstone_parts(prefix, tombstone_name(prefix, day, key, true)) == Some((day, key + seq!['/'])),
        tombstone_parts(prefix, prefix + day_text(day) + seq!['/']) is None,
        (forall|rest: Seq<char>| other != #[trigger] (prefix + rest)) ==> tombstone_parts(prefix, other) is None,
{
    law_tombstone_roundtrip(prefix, day, key, false);
    law_tombstone_roundtrip(prefix, day, key, true);
    assert(key.push('/') =~= key + seq!['/']);
    law_day_text(day);
    let date = day_text(day);
    let tail = date + seq!['/'];
    assert(prefix + date + seq!['/'] =~= prefix + tail);
    law_prefix_and_rest(prefix, tail);
    assert forall|k: int| 0 <= k < date.len() implies #[trigger] tail[k] != '/' by {
        assert(date.contains(date[k]));
    }
    crate::text::lemma_split_once_at(tail, '/', date.len() as int);
    assert(tail_from(tail, date.len() as int + 1).len() == 0);
    if forall|rest: Seq<char>| other != #[trigger] (prefix + rest) {
        law_prefix_and_rest(prefix, other);
    }
}

/// What a tombstone hides. That of a file hides the file and nothing else. That
/// of a directory hides the directory and everything below it, however deep, but
/// not what has a name that only begins alike.
pub proof fn law_hides_exactly(index: IndexView, key: Seq<char>, date: Date, other: Seq<char>)
    requires
        key.len() > 0,
        key.last() != '/',
    ensures
        index.with(key, false, date).covers(other) <==> index.covers(other) || other == key,
        index.with(key, true, date).covers(other) <==> index.covers(other) || other == key || exists|rest: Seq<char>|
            other == #[trigger] (key + seq!['/'] + rest),
        index.with(key + seq!['/'], true, date).covers(other) <==> index.with(key, true, date).covers(other),
        !IndexView::empty().covers(other),
{
    let dir = key + seq!['/'];
    assert(key.push('/') =~= dir);
    let file = index.with(key, false, date);
    let below = index.with(key, true, date);
    assert(below.dirs.dom() =~= index.dirs.dom().insert(dir));
    assert(file.files.dom() =~= index.files.dom().insert(key));
    assert(file.dirs == index.dirs && below.files == index.files);
    let form = dir_form(other);
    assert(has_prefix(form, dir) <==> other == key || exists|rest: Seq<char>| other == #[trigger] (dir + rest)) by {
        law_prefix_and_rest(dir, form);
        law_prefix_and_rest(dir, other);
        if has_prefix(form, dir) {
            if !has_prefix(other, dir) {
                assert(form == other.push('/'));
                assert(form.len() == dir.len()) by {
                    if form.len() > dir.len() {
                        assert(other.subrange(0, dir.len() as int) =~= form.subrange(0, dir.len() as int));
                    }
                }
                assert(form.subrange(0, dir.len() as int) =~= form);
                assert(other =~= form.drop_last());
                assert(key =~= dir.drop_last());
            }
        }
        if other == key {
            assert(form =~= dir);
            assert(form.subrange(0, dir.len() as int) =~= dir);
        } else if has_prefix(other, dir) {
            assert(form.subrange(0, dir.len() as int) =~= other.subrange(0, dir.len() as int));
        }
    }
    if exists|rest: Seq<char>| other == #[trigger] (key + seq!['/'] + rest) {
        let rest = choose|rest: Seq<char>| other == #[trigger] (key + seq!['/'] + rest);
        assert(other == dir + rest);
    }
    if exists|rest: Seq<char>| other == #[trigger] (dir + rest) {
        let rest = choose|rest: Seq<char>| other == #[trigger] (dir + rest);
        assert(other == key + seq!['/'] + rest);
    }
    if index.covers(other) {
        law_insert_keeps(index, key, false, date, other);
        law_insert_keeps(index, key, true, date, other);
    }
    if below.covers(other) && !index.covers(other) {
        let d = choose|d: Seq<char>| #[trigger] below.dirs.dom().contains(d) && has_prefix(form, d);
        assert(d == dir);
    }
    if has_prefix(form, dir) {
        assert(below.dirs.dom().contains(dir));
    }
    if file.covers(other) && !index.covers(other) && other != key {
        let d = choose|d: Seq<char>| #[trigger] file.dirs.dom().contains(d) && has_prefix(form, d);
        assert(index.dirs.dom().contains(d));
    }
    assert(file.files.dom().contains(key));
    assert(dir.last() == '/');
}

/// Of the tombstones of a key the index knows the latest date, whichever comes
/// first; other keys keep theirs.
pub proof fn law_latest_date(index: IndexView, key: Seq<char>, a: Date, b: Date, other: Seq<char>)
    requires
        key.len() > 0,
        key.last() != '/',
        a.day() <= b.day(),
        !index.files.dom().contains(key),
        !index.dirs.dom().contains(key + seq!['/']),
    ensures
        index.with(key, false, a).with(key, false, b).files[key].day() == b.day(),
        index.with(key, false, b).with(key, false, a).files[key].day() == b.day(),
        index.with(key, true, a).with(key, true, b).dirs[key + seq!['/']].day() == b.day(),
        index.with(key, true, b).with(key, true, a).dirs[key + seq!['/']].day() == b.day(),
        other != key && index.files.dom().contains(other) ==> index.with(key, false, a).files[other] == index.files[other],
        other != key + seq!['/'] && index.dirs.dom().contains(other) ==> index.with(key, true, a).dirs[other]
            == index.dirs[other],
        index.with(key, true, a).dir_later_than(key, b) == (a.day() > b.day()),
        index.with(key, true, b).dir_later_than(key, a) == (b.day() > a.day()),
{
    assert(key.push('/') =~= key + seq!['/']);
}

/// Taking a key out of the index takes out that key of that kind, and leaves
/// every other one in.
pub proof fn law_remove_exactly(index: IndexView, key: Seq<char>, other: Seq<char>)
    requires
        key.len() > 0,
        key.last() != '/',
    ensures
        index.without(key, false).dirs == index.dirs,
        index.without(key, true).files == index.files,
        index.without(key, false).files.dom().contains(other) <==> index.files.dom().contains(other) && other != key,
        index.without(key, true).dirs.dom().contains(other) <==> index.dirs.dom().contains(other) && other != key + seq![
            '/',
        ],
        index.without(key + seq!['/'], true) == index.without(key, true),
{
    assert(key.push('/') =~= key + seq!['/']);
}

/// What comes and goes with a new index: exactly what one holds and the other
/// does not.
pub proof fn law_diff(a: Seq<(Seq<char>, bool, Date)>, b: Seq<(Seq<char>, bool, Date)>, e: (Seq<char>, bool, Date))
    ensures
        entries_without(a, b).contains(e) <==> a.contains(e) && !b.contains(e),
{
    broadcast use vstd::seq_lib::group_filter_ensures;
    let keep = |x: (Seq<char>, bool, Date)| !b.contains(x);
    let r = a.filter(keep);
    if r.contains(e) {
        a.lemma_filter_contains_rev(keep, e);
        let i = choose|i: int| 0 <= i < r.len() && r[i] == e;
        assert(keep(r[i]));
    }
    if a.contains(e) && !b.contains(e) {
        let i = choose|i: int| 0 <= i < a.len() && a[i] == e;
        assert(keep(a[i]));
        assert(r.contains(a[i]));
    }
}

/// Tombstones that are taken in hide their keys, and everything that was hidden
/// before stays hidden.
pub proof fn law_taken_in(base: IndexView, tombs: Seq<(String, bool, Date)>, i: int, other: Seq<char>)
    requires
        0 <= i < tombs.len(),
    ensures
        indexed(base, tombs).covers(tombs[i].0@),
        base.covers(other) ==> indexed(base, tombs).covers(other),
    decreases tombs.len(),
{
    let less = tombs.drop_last();
    let t = tombs.last();
    let before = indexed(base, less);
    law_insert_covers(before, t.0@, t.1, t.2, Seq::empty());
    if less.len() > 0 {
        law_taken_in(base, less, if i < less.len() { i } else { 0 }, other);
        if i < less.len() {
            assert(less[i] == tombs[i]);
            law_insert_keeps(before, t.0@, t.1, t.2, tombs[i].0@);
        }
    }
    if base.covers(other) {
        law_insert_keeps(before, t.0@, t.1, t.2, other);
    }
}

} // verus!
