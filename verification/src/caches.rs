//! The bounded caches of a mount: attributes, missing paths, read-ahead data
//! and the ends of recent reads. Points in time are milliseconds of a clock
//! that never goes back.

use vstd::prelude::*;
use vstd::string::*;

use crate::entry::DirEntry;
use crate::keymap::{
    all_has, ascending, entry_dropped, keys_of, lemma_map_of_entry, lemma_map_of_key, lemma_removed,
    map_of, without_below, KeyMap,
};
use crate::text::{has_prefix, is_char, law_drop_tail_while, law_prefix_and_rest, trim_end, trim_end_char};

verus! {

/// The number of read-ahead windows that are kept.
pub const READ_CACHE_MAX_ENTRIES: usize = 256;

/// The number of paths whose last read is remembered.
pub const MAX_READ_SEQ_ENTRIES: usize = 4096;

/// The time from `at` to `now`.
pub open spec fn age(at: u64, now: u64) -> int {
    if now >= at {
        now - at
    } else {
        0
    }
}

/// The time from `at` to `now`.
pub fn elapsed(at: u64, now: u64) -> (r: u64)
    ensures
        r == age(at, now),
{
    if now >= at {
        now - at
    } else {
        0
    }
}

/// A value and when it was entered.
pub struct Timed<V> {
    pub at: u64,
    pub value: V,
}

/// A cache whose values expire, and which drops its oldest value to make room.
pub struct TimedMap<V> {
    pub map: KeyMap<Timed<V>>,
}

/// The position of the oldest entry, the first one if several are as old.
pub open spec fn is_oldest<V>(entries: Seq<(String, Timed<V>)>, at: int) -> bool {
    &&& 0 <= at < entries.len()
    &&& forall|k: int| 0 <= k < entries.len() ==> entries[at].1.at <= #[trigger] entries[k].1.at
    &&& forall|k: int| 0 <= k < at ==> entries[at].1.at < #[trigger] entries[k].1.at
}

impl<V> TimedMap<V> {
    /// The values, each with the time of its entry.
    pub open spec fn view(&self) -> Map<Seq<char>, Timed<V>> {
        self.map@
    }

    pub open spec fn wf(&self) -> bool {
        self.map.wf()
    }

    /// The key has a value that has not expired.
    pub open spec fn fresh(&self, key: Seq<char>, now: u64, ttl: u64) -> bool {
        self@.dom().contains(key) && age(self@[key].at, now) < ttl
    }

    /// The cache with a value entered: where it is full and the key is new,
    /// the oldest value makes room for it.
    pub open spec fn entered(&self, key: Seq<char>, value: Timed<V>, max: nat, after: &Self) -> bool {
        if self@.dom().len() >= max && !self@.dom().contains(key) && self@.dom().len() > 0 {
            exists|at: int| #[trigger]
                is_oldest(self.map.spec_entries(), at) && after@ == self@.remove(
                    self.map.spec_entries()[at].0@,
                ).insert(key, value)
        } else {
            after@ == self@.insert(key, value)
        }
    }

    /// An empty cache.
    pub fn new() -> (r: Self)
        ensures
            r.wf(),
            r@ == Map::<Seq<char>, Timed<V>>::empty(),
    {
        TimedMap { map: KeyMap::new() }
    }

    /// The number of values.
    pub fn len(&self) -> (n: usize)
        requires
            self.wf(),
        ensures
            n == self@.dom().len(),
    {
        self.map.len()
    }

    /// Whether the key has a value, expired or not.
    pub fn contains_key(&self, key: &str) -> (r: bool)
        requires
            self.wf(),
        ensures
            r == self@.dom().contains(key@),
    {
        self.map.contains_key(key)
    }

    /// The value of a key, unless it has expired.
    pub fn get_fresh(&self, key: &str, now: u64, ttl: u64) -> (r: Option<&V>)
        requires
            self.wf(),
        ensures
            r is Some <==> self.fresh(key@, now, ttl),
            r matches Some(v) ==> *v == self@[key@].value,
    {
        match self.map.get(key) {
            Some(t) => if elapsed(t.at, now) < ttl {
                Some(&t.value)
            } else {
                None
            },
            None => None,
        }
    }

    fn oldest(&self) -> (at: usize)
        requires
            self.wf(),
            self.map.spec_entries().len() > 0,
        ensures
            is_oldest(self.map.spec_entries(), at as int),
    {
        let ghost all = self.map.spec_entries();
        let n: usize = self.map.len();
        let mut best: usize = 0;
        let mut i: usize = 1;
        while i < n
            invariant
                1 <= i <= n,
                n == all.len(),
                all == self.map.spec_entries(),
                self.wf(),
                best < i,
                forall|k: int| 0 <= k < i ==> all[best as int].1.at <= #[trigger] all[k].1.at,
                forall|k: int| 0 <= k < best ==> all[best as int].1.at < #[trigger] all[k].1.at,
            decreases n - i,
        {
            if self.map.entry_at(i).1.at < self.map.entry_at(best).1.at {
                best = i;
            }
            i = i + 1;
        }
        best
    }

    /// Enters a value, in place of the oldest one where the cache is full.
    pub fn insert_bounded(&mut self, key: &str, value: V, now: u64, max: usize)
        requires
            old(self).wf(),
        ensures
            final(self).wf(),
            old(self).entered(key@, (Timed { at: now, value }), max as nat, final(self)),
    {
        let ghost before = *self;
        let n: usize = self.map.len();
        if n >= max && n > 0 && !self.map.contains_key(key) {
            let at: usize = self.oldest();
            let _gone = self.map.remove_at(at);
        }
        let _old = self.map.insert(key.to_owned(), Timed { at: now, value });
    }

    /// Enters a value, however many there are.
    pub fn set(&mut self, key: &str, value: V, now: u64)
        requires
            old(self).wf(),
        ensures
            final(self).wf(),
            final(self)@ == old(self)@.insert(key@, (Timed { at: now, value })),
    {
        let _old = self.map.insert(key.to_owned(), Timed { at: now, value });
    }

    /// Drops a key.
    pub fn remove(&mut self, key: &str)
        requires
            old(self).wf(),
        ensures
            final(self).wf(),
            final(self)@ == old(self)@.remove(key@),
    {
        let _gone = self.map.remove(key);
    }

    /// Drops every key that starts with `prefix`.
    pub fn remove_below(&mut self, prefix: &str)
        requires
            old(self).wf(),
        ensures
            final(self).wf(),
            final(self)@ == without_below(old(self)@, prefix@),
    {
        self.map.remove_below(prefix);
    }

    /// Drops every key.
    pub fn clear(&mut self)
        ensures
            final(self).wf(),
            final(self)@ == Map::<Seq<char>, Timed<V>>::empty(),
    {
        self.map.clear();
    }
}

/// A cache that was within its bound stays within it, and holds what was
/// entered last.
pub proof fn law_cache_bounded<V>(before: TimedMap<V>, key: Seq<char>, value: Timed<V>, max: nat, after: TimedMap<V>)
    requires
        before.wf(),
        max > 0,
        before@.dom().len() <= max,
        before.entered(key, value, max, &after),
    ensures
        after@.dom().len() <= max,
        after@.dom().contains(key),
        after@[key] == value,
{
    before.map.lemma_len();
    if before@.dom().len() >= max && !before@.dom().contains(key) && before@.dom().len() > 0 {
        let at = choose|at: int| #[trigger]
            is_oldest(before.map.spec_entries(), at) && after@ == before@.remove(
                before.map.spec_entries()[at].0@,
            ).insert(key, value);
        lemma_map_of_entry(before.map.spec_entries(), at);
        let gone = before.map.spec_entries()[at].0@;
        assert(before@.dom().contains(gone));
        assert(after@.dom() =~= before@.dom().remove(gone).insert(key));
    } else {
        assert(after@.dom() =~= before@.dom().insert(key));
    }
}

/// A window of an object that was read ahead.
pub struct ReadCacheEntry {
    pub start: u64,
    pub data: Vec<u8>,
    pub last_used: u64,
}

/// The bytes that windows hold.
pub open spec fn total_bytes(entries: Seq<(String, ReadCacheEntry)>) -> nat
    decreases entries.len(),
{
    if entries.len() == 0 {
        0
    } else {
        total_bytes(entries.drop_last()) + entries.last().1.data@.len()
    }
}

/// The position of the window that was used longest ago, the first one if
/// several were used at the same time.
pub open spec fn is_least_recent(entries: Seq<(String, ReadCacheEntry)>, at: int) -> bool {
    &&& 0 <= at < entries.len()
    &&& forall|k: int|
        0 <= k < entries.len() ==> entries[at].1.last_used <= #[trigger] entries[k].1.last_used
    &&& forall|k: int| 0 <= k < at ==> entries[at].1.last_used < #[trigger] entries[k].1.last_used
}

/// A further window of `len` bytes fits.
pub open spec fn has_room(entries: Seq<(String, ReadCacheEntry)>, len: nat, max_bytes: nat) -> bool {
    total_bytes(entries) + len <= max_bytes && entries.len() < READ_CACHE_MAX_ENTRIES
}

/// What is left where windows are dropped, the least recently used first,
/// until a further one of `len` bytes fits.
pub open spec fn made_room(entries: Seq<(String, ReadCacheEntry)>, len: nat, max_bytes: nat, after: Seq<(String, ReadCacheEntry)>) -> bool
    decreases entries.len(),
{
    if has_room(entries, len, max_bytes) || entries.len() == 0 {
        after == entries
    } else {
        exists|at: int| #[trigger]
            is_least_recent(entries, at) && made_room(entries.remove(at), len, max_bytes, after)
    }
}

proof fn lemma_total_append(a: Seq<(String, ReadCacheEntry)>, b: Seq<(String, ReadCacheEntry)>)
    ensures
        total_bytes(a + b) == total_bytes(a) + total_bytes(b),
    decreases b.len(),
{
    if b.len() == 0 {
        assert(a + b =~= a);
    } else {
        assert((a + b).drop_last() =~= a + b.drop_last());
        lemma_total_append(a, b.drop_last());
    }
}

proof fn lemma_total_one(e: (String, ReadCacheEntry))
    ensures
        total_bytes(seq![e]) == e.1.data@.len(),
{
    reveal_with_fuel(total_bytes, 2);
    assert(seq![e].drop_last() =~= Seq::<(String, ReadCacheEntry)>::empty());
}

proof fn lemma_total_insert(s: Seq<(String, ReadCacheEntry)>, at: int, e: (String, ReadCacheEntry))
    requires
        0 <= at <= s.len(),
    ensures
        total_bytes(s.insert(at, e)) == total_bytes(s) + e.1.data@.len(),
{
    let a = s.subrange(0, at);
    let b = s.subrange(at, s.len() as int);
    assert(s =~= a + b);
    assert(s.insert(at, e) =~= a + (seq![e] + b));
    lemma_total_append(a, b);
    lemma_total_append(a, seq![e] + b);
    lemma_total_append(seq![e], b);
    lemma_total_one(e);
}

proof fn lemma_total_remove(s: Seq<(String, ReadCacheEntry)>, at: int)
    requires
        0 <= at < s.len(),
    ensures
        total_bytes(s.remove(at)) + s[at].1.data@.len() == total_bytes(s),
{
    let t = s.remove(at);
    assert(t.insert(at, s[at]) =~= s);
    lemma_total_insert(t, at, s[at]);
}

/// The read-ahead cache: one window for each path, within a number of bytes
/// and of windows.
pub struct ReadCache {
    pub entries: KeyMap<ReadCacheEntry>,
    pub bytes: usize,
}

impl ReadCache {
    /// The windows.
    pub open spec fn view(&self) -> Map<Seq<char>, ReadCacheEntry> {
        self.entries@
    }

    /// The bytes are counted right.
    pub open spec fn wf(&self) -> bool {
        self.entries.wf() && self.bytes == total_bytes(self.entries.spec_entries())
    }

    /// The cache is within its bounds.
    pub open spec fn bounded(&self, max_bytes: nat) -> bool {
        self.bytes <= max_bytes && self@.dom().len() <= READ_CACHE_MAX_ENTRIES
    }

    /// The path's window holds the bytes from `offset` up to `offset + len`.
    pub open spec fn holds(&self, path: Seq<char>, offset: u64, len: usize) -> bool {
        &&& self@.dom().contains(path)
        &&& self@[path].start + self@[path].data@.len() <= u64::MAX
        &&& self@[path].start <= offset
        &&& offset + len <= self@[path].start + self@[path].data@.len()
    }

    /// The cache with a window kept for a path, in place of the one that it
    /// had: the least recently used windows make room for it. One that is
    /// empty or larger than the whole cache is not kept.
    pub open spec fn inserted(&self, path: Seq<char>, w: ReadCacheEntry, max_bytes: nat, after: &Self) -> bool {
        if w.data@.len() == 0 || w.data@.len() > max_bytes {
            *after == *self
        } else {
            exists|own: Seq<(String, ReadCacheEntry)>, kept: Seq<(String, ReadCacheEntry)>|
                {
                    &&& entry_dropped(self.entries.spec_entries(), own, path)
                    &&& #[trigger] made_room(own, w.data@.len(), max_bytes, kept)
                    &&& after@ == map_of(kept).insert(path, w)
                }
        }
    }

    /// An empty cache.
    pub fn new() -> (r: Self)
        ensures
            r.wf(),
            r@ == Map::<Seq<char>, ReadCacheEntry>::empty(),
            forall|max: nat| r.bounded(max),
    {
        let r = ReadCache { entries: KeyMap::new(), bytes: 0 };
        proof {
            r.entries.lemma_len();
        }
        r
    }

    /// The bytes of a path from `offset`, where its window holds them all; the
    /// window has then been used now.
    pub fn hit(&mut self, path: &str, offset: u64, len: usize, now: u64) -> (r: Option<Vec<u8>>)
        requires
            old(self).wf(),
        ensures
            final(self).wf(),
            r is Some <==> old(self).holds(path@, offset, len),
            r matches Some(data) ==> {
                let w = old(self)@[path@];
                &&& data@ == w.data@.subrange(offset - w.start, offset - w.start + len)
                &&& final(self)@ == old(self)@.insert(path@, (ReadCacheEntry { last_used: now, ..w }))
            },
            r is None ==> final(self)@ == old(self)@,
            final(self).bytes == old(self).bytes,
    {
        let w = match self.entries.get(path) {
            Some(w) => w,
            None => {
                return None;
            },
        };
        let size: usize = w.data.len();
        if w.start > u64::MAX - size as u64 {
            return None;
        }
        let end: u64 = w.start + size as u64;
        if offset < w.start || len as u64 > end || offset > end - len as u64 {
            return None;
        }
        let from: usize = (offset - w.start) as usize;
        let ghost all = self.entries.spec_entries();
        let ghost k = path@;
        let data = copy_range(&w.data, from, from + len);
        let taken = self.entries.remove(path);
        match taken {
            Some(w) => {
                let fresh = ReadCacheEntry { start: w.start, data: w.data, last_used: now };
                let ghost mid = self.entries.spec_entries();
                let ghost wanted = ReadCacheEntry { last_used: now, ..w };
                let _none = self.entries.insert(path.to_owned(), fresh);
                proof {
                    let i = lemma_map_of_key(all, k);
                    lemma_map_of_entry(all, i);
                    assert(all_has(all, k));
                    let at = choose|at: int|
                        0 <= at < all.len() && (#[trigger] all[at]).0@ == k && mid == all.remove(at);
                    lemma_map_of_entry(all, at);
                    lemma_total_remove(all, at);
                    assert(!all_has(mid, k)) by {
                        if all_has(mid, k) {
                            let j = choose|j: int| 0 <= j < mid.len() && (#[trigger] mid[j]).0@ == k;
                            lemma_map_of_entry(mid, j);
                        }
                    }
                    let last = self.entries.spec_entries();
                    let b = choose|b: int|
                        {
                            let e = #[trigger] last[b];
                            e.0@ == k && e.1 == fresh && 0 <= b <= mid.len() && last == mid.insert(b, e)
                        };
                    lemma_total_insert(mid, b, last[b]);
                    assert(fresh == wanted);
                    assert(old(self)@.remove(k).insert(k, fresh) =~= old(self)@.insert(k, fresh));
                }
                Some(data)
            },
            None => None,
        }
    }

    fn least_recent(&self) -> (at: usize)
        requires
            self.wf(),
            self.entries.spec_entries().len() > 0,
        ensures
            is_least_recent(self.entries.spec_entries(), at as int),
    {
        let ghost all = self.entries.spec_entries();
        let n: usize = self.entries.len();
        let mut best: usize = 0;
        let mut i: usize = 1;
        while i < n
            invariant
                1 <= i <= n,
                n == all.len(),
                all == self.entries.spec_entries(),
                self.wf(),
                best < i,
                forall|k: int|
                    0 <= k < i ==> all[best as int].1.last_used <= #[trigger] all[k].1.last_used,
                forall|k: int|
                    0 <= k < best ==> all[best as int].1.last_used < #[trigger] all[k].1.last_used,
            decreases n - i,
        {
            if self.entries.entry_at(i).1.last_used < self.entries.entry_at(best).1.last_used {
                best = i;
            }
            i = i + 1;
        }
        best
    }

    /// Drops the window of a path.
    pub fn remove(&mut self, path: &str)
        requires
            old(self).wf(),
        ensures
            final(self).wf(),
            final(self)@ == old(self)@.remove(path@),
            entry_dropped(old(self).entries.spec_entries(), final(self).entries.spec_entries(), path@),
            final(self).bytes <= old(self).bytes,
    {
        let ghost all = self.entries.spec_entries();
        match self.entries.remove(path) {
            Some(w) => {
                proof {
                    let i = lemma_map_of_key(all, path@);
                    lemma_map_of_entry(all, i);
                    assert(all_has(all, path@));
                    let at = choose|at: int|
                        0 <= at < all.len() && (#[trigger] all[at]).0@ == path@
                            && self.entries.spec_entries() == all.remove(at);
                    lemma_map_of_entry(all, at);
                    lemma_total_remove(all, at);
                }
                self.bytes = self.bytes - w.data.len();
            },
            None => {
                proof {
                    if all_has(all, path@) {
                        let i = choose|i: int| 0 <= i < all.len() && (#[trigger] all[i]).0@ == path@;
                        lemma_map_of_entry(all, i);
                    }
                }
            },
        }
    }

    /// Keeps a window for a path, in place of the one that it had, and drops
    /// the least recently used windows until it fits. A window that is empty
    /// or larger than the whole cache is not kept, and nothing changes.
    pub fn insert(&mut self, path: &str, start: u64, data: Vec<u8>, now: u64, max_bytes: usize)
        requires
            old(self).wf(),
        ensures
            final(self).wf(),
            old(self).inserted(path@, (ReadCacheEntry { start, data, last_used: now }), max_bytes as nat, final(self)),
            0 < data@.len() <= max_bytes ==> final(self).bounded(max_bytes as nat),
    {
        let len: usize = data.len();
        if len == 0 || len > max_bytes {
            return;
        }
        self.remove(path);
        let ghost own = self.entries.spec_entries();
        let ghost size = len as nat;
        let ghost max = max_bytes as nat;
        while self.entries.len() > 0 && (self.bytes > max_bytes - len || self.entries.len()
            >= READ_CACHE_MAX_ENTRIES)
            invariant
                self.wf(),
                0 < len <= max_bytes,
                size == len,
                max == max_bytes,
                !self@.dom().contains(path@),
                forall|kept: Seq<(String, ReadCacheEntry)>|
                    made_room(self.entries.spec_entries(), size, max, kept) ==> #[trigger] made_room(own, size, max, kept),
            decreases self.entries.spec_entries().len(),
        {
            let ghost all = self.entries.spec_entries();
            let at: usize = self.least_recent();
            let gone = self.entries.remove_at(at);
            proof {
                lemma_total_remove(all, at as int);
                assert(!has_room(all, size, max));
                assert forall|kept: Seq<(String, ReadCacheEntry)>|
                    made_room(all.remove(at as int), size, max, kept) implies #[trigger] made_room(own, size, max, kept) by {
                    assert(is_least_recent(all, at as int));
                    assert(made_room(all, size, max, kept));
                }
            }
            self.bytes = self.bytes - gone.1.data.len();
        }
        let ghost kept = self.entries.spec_entries();
        proof {
            assert(has_room(kept, size, max) || kept.len() == 0);
            assert(made_room(kept, size, max, kept));
            assert(made_room(own, size, max, kept));
            if kept.len() == 0 {
                assert(total_bytes(kept) == 0);
            }
        }
        let fresh = ReadCacheEntry { start, data, last_used: now };
        let _none = self.entries.insert(path.to_owned(), fresh);
        self.bytes = self.bytes + len;
        proof {
            assert(!all_has(kept, path@)) by {
                if all_has(kept, path@) {
                    let i = choose|i: int| 0 <= i < kept.len() && (#[trigger] kept[i]).0@ == path@;
                    lemma_map_of_entry(kept, i);
                }
            }
            let last = self.entries.spec_entries();
            let b = choose|b: int|
                {
                    let e = #[trigger] last[b];
                    e.0@ == path@ && e.1 == fresh && 0 <= b <= kept.len() && last == kept.insert(b, e)
                };
            lemma_total_insert(kept, b, last[b]);
            self.entries.lemma_len();
        }
    }

    /// Drops every window.
    pub fn clear(&mut self)
        ensures
            final(self).wf(),
            final(self)@ == Map::<Seq<char>, ReadCacheEntry>::empty(),
            final(self).bytes == 0,
    {
        self.entries.clear();
        self.bytes = 0;
        proof {
            self.entries.lemma_len();
            if self.entries.spec_entries().len() > 0 {
                lemma_map_of_entry(self.entries.spec_entries(), 0);
            }
        }
    }
}

proof fn lemma_made_room(own: Seq<(String, ReadCacheEntry)>, len: nat, max_bytes: nat, kept: Seq<(String, ReadCacheEntry)>)
    requires
        ascending(keys_of(own)),
        made_room(own, len, max_bytes, kept),
    ensures
        forall|p: Seq<char>| #[trigger]
            map_of(kept).dom().contains(p) ==> map_of(own).dom().contains(p) && map_of(kept)[p] == map_of(own)[p],
    decreases own.len(),
{
    if has_room(own, len, max_bytes) || own.len() == 0 {
    } else {
        let at = choose|at: int| #[trigger]
            is_least_recent(own, at) && made_room(own.remove(at), len, max_bytes, kept);
        lemma_removed(own, at);
        lemma_made_room(own.remove(at), len, max_bytes, kept);
    }
}

/// The window that is kept of a path, if any, holds bytes of `content`.
pub open spec fn window_of(reads: Map<Seq<char>, ReadCacheEntry>, path: Seq<char>, content: Seq<u8>) -> bool {
    reads.dom().contains(path) ==> {
        let w = reads[path];
        w.start + w.data@.len() <= content.len() && w.data@ == content.subrange(
            w.start as int,
            w.start + w.data@.len(),
        )
    }
}

/// Where every window holds bytes of its object, keeping a further one that
/// does leaves it so.
pub proof fn law_windows_true(
    before: ReadCache,
    path: Seq<char>,
    w: ReadCacheEntry,
    max_bytes: nat,
    after: ReadCache,
    other: Seq<char>,
    content: Seq<u8>,
)
    requires
        before.wf(),
        before.inserted(path, w, max_bytes, &after),
        window_of(before@, other, content),
        other == path && w.data@.len() > 0 ==> w.start + w.data@.len() <= content.len() && w.data@ == content.subrange(
            w.start as int,
            w.start + w.data@.len(),
        ),
    ensures
        window_of(after@, other, content),
{
    if w.data@.len() == 0 || w.data@.len() > max_bytes {
    } else {
        let (own, kept) = choose|own: Seq<(String, ReadCacheEntry)>, kept: Seq<(String, ReadCacheEntry)>|
            {
                &&& entry_dropped(before.entries.spec_entries(), own, path)
                &&& #[trigger] made_room(own, w.data@.len(), max_bytes, kept)
                &&& after@ == map_of(kept).insert(path, w)
            };
        let all = before.entries.spec_entries();
        if all_has(all, path) {
            let at = choose|at: int|
                0 <= at < all.len() && (#[trigger] all[at]).0@ == path && own == all.remove(at);
            lemma_removed(all, at);
        }
        lemma_made_room(own, w.data@.len(), max_bytes, kept);
        if other != path && after@.dom().contains(other) {
            assert(map_of(kept).dom().contains(other));
        }
    }
}

/// The bytes from `from` up to `to`.
pub fn copy_range(data: &Vec<u8>, from: usize, to: usize) -> (r: Vec<u8>)
    requires
        from <= to <= data@.len(),
    ensures
        r@ == data@.subrange(from as int, to as int),
{
    let mut out: Vec<u8> = Vec::with_capacity(to - from);
    let mut i: usize = from;
    while i < to
        invariant
            from <= i <= to <= data@.len(),
            out@ == data@.subrange(from as int, i as int),
        decreases to - i,
    {
        out.push(data[i]);
        proof {
            assert(data@.subrange(from as int, i + 1) =~= data@.subrange(from as int, i as int).push(data@[i as int]));
        }
        i = i + 1;
    }
    out
}

/// The caches of a mount.
pub struct FsCaches {
    /// Attributes of paths that exist.
    pub stats: TimedMap<DirEntry>,
    /// Paths that do not exist.
    pub negative: TimedMap<()>,
    /// Windows that were read ahead.
    pub reads: ReadCache,
    /// Where the last read of a path ended.
    pub read_seq: KeyMap<u64>,
}

/// What the caches that a mutation touches hold.
pub struct CachesView {
    pub stats: Map<Seq<char>, Timed<DirEntry>>,
    pub negative: Map<Seq<char>, Timed<()>>,
    pub reads: Map<Seq<char>, ReadCacheEntry>,
    pub read_seq: Map<Seq<char>, u64>,
}

impl CachesView {
    /// Without the attributes of a path.
    pub open spec fn without_stat(self, path: Seq<char>) -> CachesView {
        CachesView {
            stats: self.stats.remove(path),
            negative: self.negative.remove(path),
            ..self
        }
    }

    /// Without what was read of a path.
    pub open spec fn without_reads(self, path: Seq<char>) -> CachesView {
        CachesView {
            reads: self.reads.remove(path),
            read_seq: self.read_seq.remove(path),
            ..self
        }
    }

    /// Without anything that was read.
    pub open spec fn without_all_reads(self) -> CachesView {
        CachesView { reads: Map::empty(), read_seq: Map::empty(), ..self }
    }

    /// Without any attributes.
    pub open spec fn without_all_stats(self) -> CachesView {
        CachesView { stats: Map::empty(), negative: Map::empty(), ..self }
    }

    /// Without the attributes of a path that went into the trash or came out
    /// of it: of a directory also those of everything below, and with or
    /// without the slash at its end.
    pub open spec fn without_trashed(self, path: Seq<char>, is_dir: bool) -> CachesView {
        if is_dir {
            let bare = trim_end(path, '/');
            let below = bare + seq!['/'];
            CachesView {
                stats: without_below(self.stats.remove(path).remove(bare), below),
                negative: without_below(self.negative.remove(path).remove(bare), below),
                ..self
            }
        } else {
            self.without_stat(path)
        }
    }
}

impl FsCaches {
    pub open spec fn view(&self) -> CachesView {
        CachesView {
            stats: self.stats@,
            negative: self.negative@,
            reads: self.reads@,
            read_seq: self.read_seq@,
        }
    }

    pub open spec fn wf(&self) -> bool {
        self.stats.wf() && self.negative.wf() && self.reads.wf() && self.read_seq.wf()
    }

    /// Empty caches.
    pub fn new() -> (r: Self)
        ensures
            r.wf(),
            r@ == (CachesView {
                stats: Map::empty(),
                negative: Map::empty(),
                reads: Map::empty(),
                read_seq: Map::empty(),
            }),
    {
        FsCaches {
            stats: TimedMap::new(),
            negative: TimedMap::new(),
            reads: ReadCache::new(),
            read_seq: KeyMap::new(),
        }
    }

    /// Drops the attributes of a path.
    pub fn invalidate_stat(&mut self, path: &str)
        requires
            old(self).wf(),
        ensures
            final(self).wf(),
            final(self)@ == old(self)@.without_stat(path@),
    {
        self.stats.remove(path);
        self.negative.remove(path);
    }

    /// Drops what was read of a path.
    pub fn invalidate_read_cache(&mut self, path: &str)
        requires
            old(self).wf(),
        ensures
            final(self).wf(),
            final(self)@ == old(self)@.without_reads(path@),
    {
        self.reads.remove(path);
        let _end = self.read_seq.remove(path);
    }

    /// Drops everything that was read.
    pub fn clear_read_cache(&mut self)
        requires
            old(self).wf(),
        ensures
            final(self).wf(),
            final(self)@ == old(self)@.without_all_reads(),
    {
        self.reads.clear();
        self.read_seq.clear();
    }

    /// Drops all attributes.
    pub fn clear_stats(&mut self)
        requires
            old(self).wf(),
        ensures
            final(self).wf(),
            final(self)@ == old(self)@.without_all_stats(),
    {
        self.stats.clear();
        self.negative.clear();
    }

    /// Drops the attributes of a path that went into the trash or came out of
    /// it.
    pub fn invalidate_trash_cached(&mut self, path: &str, is_dir: bool)
        requires
            old(self).wf(),
        ensures
            final(self).wf(),
            final(self)@ == old(self)@.without_trashed(path@, is_dir),
    {
        self.invalidate_stat(path);
        if is_dir {
            let bare = trim_end_char(path, '/');
            self.invalidate_stat(bare.as_str());
            let mut below = bare;
            let ghost base = below@;
            below.push('/');
            proof {
                assert(below@ =~= base + seq!['/']);
            }
            self.stats.remove_below(below.as_str());
            self.negative.remove_below(below.as_str());
        }
    }

    /// Remembers where a read of a path ended. Where too many paths are
    /// remembered, all are forgotten first.
    pub fn note_read_end(&mut self, path: &str, end: u64)
        requires
            old(self).wf(),
        ensures
            final(self).wf(),
            final(self)@ == (CachesView {
                read_seq: (if old(self)@.read_seq.dom().len() >= MAX_READ_SEQ_ENTRIES {
                    Map::<Seq<char>, u64>::empty()
                } else {
                    old(self)@.read_seq
                }).insert(path@, end),
                ..old(self)@
            }),
            *final(self) == (FsCaches { read_seq: final(self).read_seq, ..*old(self) }),
    {
        if self.read_seq.len() >= MAX_READ_SEQ_ENTRIES {
            self.read_seq.clear();
        }
        let _old = self.read_seq.insert(path.to_owned(), end);
    }

    /// Whether a read continues the last one of its path.
    pub fn is_sequential(&self, path: &str, offset: u64) -> (r: bool)
        requires
            self.wf(),
        ensures
            r == (self@.read_seq.dom().contains(path@) && self@.read_seq[path@] == offset),
    {
        match self.read_seq.get(path) {
            Some(end) => *end == offset,
            None => false,
        }
    }
}

/// A path whose attributes were dropped is cached neither as present nor as
/// missing.
pub proof fn law_invalidate_stat(c: CachesView, path: Seq<char>)
    ensures
        !c.without_stat(path).stats.dom().contains(path),
        !c.without_stat(path).negative.dom().contains(path),
{
}

/// After a directory went into the trash or came out of it, nothing at or
/// below it is cached.
pub proof fn law_invalidate_trashed(c: CachesView, dir: Seq<char>, below: Seq<char>)
    ensures
        !c.without_trashed(dir, true).stats.dom().contains(trim_end(dir, '/')),
        !c.without_trashed(dir, true).stats.dom().contains(trim_end(dir, '/') + seq!['/'] + below),
        !c.without_trashed(dir, true).negative.dom().contains(trim_end(dir, '/')),
        !c.without_trashed(dir, true).negative.dom().contains(trim_end(dir, '/') + seq!['/'] + below),
{
    let bare = trim_end(dir, '/');
    let deep = bare + seq!['/'] + below;
    assert(deep.subrange(0, (bare.len() + 1) as int) =~= bare + seq!['/']);
}

/// For how long something that was noted is believed: for as long as the time
/// that it may be old, and no longer. A clock that was set back makes nothing
/// older.
pub proof fn law_fresh<V>(cache: &TimedMap<V>, key: Seq<char>, now: u64, ttl: u64)
    ensures
        !cache@.dom().contains(key) ==> !cache.fresh(key, now, ttl),
        cache@.dom().contains(key) && now >= cache@[key].at ==> cache.fresh(key, now, ttl) == (now - cache@[key].at < ttl),
        cache@.dom().contains(key) && now < cache@[key].at ==> cache.fresh(key, now, ttl) == (ttl > 0),
{
}

/// Noting something in a cache that is full drops one entry, of which none is
/// older, and leaves all others alone.
pub proof fn law_oldest_makes_room<V>(
    before: TimedMap<V>,
    key: Seq<char>,
    value: Timed<V>,
    max: nat,
    after: TimedMap<V>,
    other: Seq<char>,
    another: Seq<char>,
)
    requires
        before.wf(),
        before.entered(key, value, max, &after),
        other != key,
        before@.dom().contains(other),
    ensures
        after@.dom().contains(key) && after@[key] == value,
        after@.dom().contains(other) ==> after@[other] == before@[other],
        before@.dom().len() < max || before@.dom().contains(key) ==> after@.dom().contains(other),
        !after@.dom().contains(other) && before@.dom().contains(another) ==> before@[other].at <= before@[another].at,
        !after@.dom().contains(other) && another != key && another != other && before@.dom().contains(another)
            ==> after@.dom().contains(another),
{
    let entries = before.map.spec_entries();
    if before@.dom().len() >= max && !before@.dom().contains(key) && before@.dom().len() > 0 {
        let at = choose|at: int| #[trigger]
            is_oldest(entries, at) && after@ == before@.remove(entries[at].0@).insert(key, value);
        lemma_map_of_entry(entries, at);
        if before@.dom().contains(another) {
            let i = lemma_map_of_key(entries, another);
            lemma_map_of_entry(entries, i);
        }
    }
}

/// A window is read from where it holds all the bytes that are asked for, and
/// the bytes are those at their places.
pub proof fn law_window_hit(cache: &ReadCache, path: Seq<char>, offset: u64, len: usize)
    requires
        cache@.dom().contains(path),
        cache@[path].start + cache@[path].data@.len() <= u64::MAX,
    ensures
        cache.holds(path, offset, len) <==> cache@[path].start <= offset && offset + len <= cache@[path].start
            + cache@[path].data@.len(),
{
}

/// Dropping what is cached of a path leaves all other paths alone.
pub proof fn law_invalidate_leaves(c: CachesView, path: Seq<char>, other: Seq<char>)
    requires
        other != path,
    ensures
        c.without_stat(path).stats.dom().contains(other) == c.stats.dom().contains(other),
        c.stats.dom().contains(other) ==> c.without_stat(path).stats[other] == c.stats[other],
        c.without_stat(path).negative.dom().contains(other) == c.negative.dom().contains(other),
        c.without_stat(path).reads == c.reads,
        c.without_reads(path).stats == c.stats,
        c.without_reads(path).negative == c.negative,
        !c.without_reads(path).reads.dom().contains(path),
        !c.without_reads(path).read_seq.dom().contains(path),
        c.without_reads(path).reads.dom().contains(other) == c.reads.dom().contains(other),
        c.reads.dom().contains(other) ==> c.without_reads(path).reads[other] == c.reads[other],
        !c.without_all_reads().reads.dom().contains(other),
        !c.without_all_stats().stats.dom().contains(other),
        !c.without_all_stats().negative.dom().contains(other),
{
}

/// Deleting or restoring a directory leaves alone what is cached of everything
/// that is not below it, also of what has a name that only begins alike; of a
/// file that is deleted or restored nothing is cached any more.
pub proof fn law_trashed_leaves(c: CachesView, dir: Seq<char>, other: Seq<char>)
    requires
        dir.len() > 0,
        dir.last() != '/',
        other != dir,
    ensures
        (forall|rest: Seq<char>| other != #[trigger] (dir + seq!['/'] + rest)) ==> {
            &&& c.without_trashed(dir, true).stats.dom().contains(other) == c.stats.dom().contains(other)
            &&& c.without_trashed(dir, true).negative.dom().contains(other) == c.negative.dom().contains(other)
            &&& c.stats.dom().contains(other) ==> c.without_trashed(dir, true).stats[other] == c.stats[other]
        },
        !c.without_trashed(dir, true).stats.dom().contains(dir),
        forall|rest: Seq<char>| !c.without_trashed(dir, true).stats.dom().contains(#[trigger] (dir + seq!['/'] + rest)),
        forall|rest: Seq<char>| !c.without_trashed(dir, true).negative.dom().contains(#[trigger] (dir + seq!['/'] + rest)),
        !c.without_trashed(dir, false).stats.dom().contains(dir),
        !c.without_trashed(dir, false).negative.dom().contains(dir),
        c.without_trashed(dir, false).stats.dom().contains(other) == c.stats.dom().contains(other),
        c.without_trashed(dir, false).negative.dom().contains(other) == c.negative.dom().contains(other),
{
    law_drop_tail_while(dir, Seq::empty(), is_char('/'));
    assert(dir + Seq::<char>::empty() =~= dir);
    let below = dir + seq!['/'];
    assert forall|rest: Seq<char>| has_prefix(#[trigger] (below + rest), below) by {
        law_prefix_and_rest(below, rest);
    }
    law_prefix_and_rest(below, other);
    if forall|rest: Seq<char>| other != #[trigger] (dir + seq!['/'] + rest) {
        if has_prefix(other, below) {
            let rest = choose|rest: Seq<char>| other == #[trigger] (below + rest);
            assert(other == dir + seq!['/'] + rest);
        }
    }
}

/// What becomes of the windows when one is put in: the new one is there and holds
/// what it was given; every other one is as it was or made room. A window that
/// made room was used no later than any that was kept, and there was no room with
/// it: too many bytes, or too many windows.
pub proof fn law_window_inserted(
    before: ReadCache,
    path: Seq<char>,
    w: ReadCacheEntry,
    max_bytes: nat,
    after: ReadCache,
    other: Seq<char>,
    kept: Seq<char>,
)
    requires
        before.wf(),
        before.inserted(path, w, max_bytes, &after),
        0 < w.data@.len() <= max_bytes,
        other != path,
        kept != path,
        before@.dom().contains(other),
        after@.dom().contains(kept),
    ensures
        after@.dom().contains(path) && after@[path] == w,
        after@.dom().contains(other) ==> after@[other] == before@[other],
        before@.dom().contains(kept) && after@[kept] == before@[kept],
        !after@.dom().contains(other) ==> before@[other].last_used <= after@[kept].last_used,
        before.bytes + w.data@.len() <= max_bytes && before@.dom().len() < 256 ==> after@.dom().contains(other),
{
    let all = before.entries.spec_entries();
    let (own, rest) = choose|own: Seq<(String, ReadCacheEntry)>, rest: Seq<(String, ReadCacheEntry)>|
        {
            &&& entry_dropped(all, own, path)
            &&& #[trigger] made_room(own, w.data@.len(), max_bytes, rest)
            &&& after@ == map_of(rest).insert(path, w)
        };
    before.entries.lemma_len();
    let i = lemma_map_of_key(all, other);
    lemma_map_of_entry(all, i);
    if all_has(all, path) {
        let at = choose|at: int| 0 <= at < all.len() && (#[trigger] all[at]).0@ == path && own == all.remove(at);
        lemma_removed(all, at);
        lemma_total_remove(all, at);
        let j = if i < at {
            i
        } else {
            i - 1
        };
        assert(own[j] == all[i]);
        lemma_map_of_entry(own, j);
    }
    let j = lemma_map_of_key(own, other);
    lemma_map_of_entry(own, j);
    lemma_made_room(own, w.data@.len(), max_bytes, rest);
    lemma_room_order(own, w.data@.len(), max_bytes, rest, other, kept);
    assert(map_of(rest).dom().contains(kept));
}

proof fn lemma_room_order(
    own: Seq<(String, ReadCacheEntry)>,
    len: nat,
    max_bytes: nat,
    rest: Seq<(String, ReadCacheEntry)>,
    other: Seq<char>,
    kept: Seq<char>,
)
    requires
        ascending(keys_of(own)),
        made_room(own, len, max_bytes, rest),
        map_of(own).dom().contains(other),
        map_of(rest).dom().contains(kept),
    ensures
        !map_of(rest).dom().contains(other) ==> map_of(own)[other].last_used <= map_of(rest)[kept].last_used,
    decreases own.len(),
{
    if has_room(own, len, max_bytes) || own.len() == 0 {
    } else {
        let at = choose|at: int| #[trigger]
            is_least_recent(own, at) && made_room(own.remove(at), len, max_bytes, rest);
        let next = own.remove(at);
        lemma_removed(own, at);
        lemma_map_of_entry(own, at);
        lemma_made_room(own, len, max_bytes, rest);
        let k = lemma_map_of_key(own, kept);
        lemma_map_of_entry(own, k);
        if other != own[at].0@ {
            lemma_room_order(next, len, max_bytes, rest, other, kept);
        }
    }
}

} // verus!
