//! The state of the trash: the index of tombstones, the names of the recycle
//! bin, and how both are kept up to date with what the store lists.

use vstd::prelude::*;
use vstd::string::*;

use crate::caches::{age, elapsed, CachesView, FsCaches};
use crate::date::Date;
use crate::keymap::KeyMap;
use crate::metrics::{count, Metrics};
use crate::paths::{strip_mount_prefix, without_prefix};
use crate::recycle::{string_views, NameFill, NamesView, RecycleNameIndex};
use crate::system_trash::{MatchView, SystemTrash, SystemTrashMatch, SystemTrashPlatform};
use crate::text::{ends_with_char, has_prefix, place, starts_with_text, text_less, trim_end, trim_end_char, Place};
use crate::tombstone::{
    decode_tombstone_key, encode_tombstone_key, indexed, tombstone_name, tombstone_parts, word,
    IndexView, TombstoneIndex,
};

verus! {

/// The least time between two refreshes before a listing, in milliseconds.
pub const TRASH_EAGER_MIN_POLL_INTERVAL: u64 = 1000;

/// The number of index entries above which the size is reported.
pub const TRASH_INDEX_ALERT_THRESHOLD: usize = 500_000;

/// The days that a deleted object is kept.
pub const TRASH_RETENTION_DAYS: u32 = 30;

/// The seconds between two collections.
pub const TRASH_GC_INTERVAL_SECS: u64 = 86_400;

/// The number of differences above which a rebuild drops all attributes.
pub const FULL_REBUILD_DIFF_CLEAR_THRESHOLD: usize = 1000;

/// When the index is refreshed.
#[derive(Debug, Clone, Copy, PartialEq, Eq, Structural)]
pub enum TrashRefreshMode {
    /// In the background only.
    Lazy,
    /// Also before listings and lookups.
    Eager,
}

/// What a round of refreshing does.
#[derive(Debug, Clone, Copy, PartialEq, Eq, Structural)]
pub enum RefreshStep {
    /// Another round is running.
    Skip,
    /// List everything and compare.
    Rebuild,
    /// List what is new.
    Incremental,
}

/// The state of the trash.
pub struct TrashState {
    /// The prefix of the tombstones, with a slash at its end.
    pub prefix: String,
    pub index: TombstoneIndex,
    pub mode: TrashRefreshMode,
    /// Milliseconds between two incremental refreshes.
    pub refresh_interval: u64,
    /// Milliseconds between two rebuilds.
    pub rebuild_interval: u64,
    /// Milliseconds between two collections.
    pub gc_interval: u64,
    pub retention_days: u32,
    /// Counts the collections; a listing from before one is stale.
    pub generation: u64,
    /// The last tombstone seen by an incremental refresh.
    pub cursor: Option<String>,
    /// When the index was last rebuilt.
    pub last_full_rebuild: u64,
    /// The store lists from behind a given key when asked to.
    pub start_after_supported: bool,
    /// When an eager refresh last began.
    pub last_eager_poll: u64,
    /// A refresh is running.
    pub poll_inflight: bool,
    /// The number of index entries, as shown in the metrics.
    pub index_entries: u64,
    /// The recycle bin, where one is shown.
    pub system: Option<SystemTrash>,
    pub recycle_names: RecycleNameIndex,
    /// The parts of the recycle bin that have been seen.
    pub seen_sids: KeyMap<()>,
}

/// What a deleted key's path in the mount is cached under.
pub open spec fn cached_path(prefix: Seq<char>, key: Seq<char>) -> Seq<char> {
    let rel = without_prefix(prefix, key);
    if rel.len() == 0 {
        seq!['/']
    } else {
        seq!['/'] + rel
    }
}

/// The caches after the tombstone of a key came or went.
pub open spec fn key_invalidated(c: CachesView, prefix: Seq<char>, key: Seq<char>, is_dir: bool) -> CachesView {
    let path = cached_path(prefix, key);
    let dropped = c.without_trashed(path, is_dir);
    if is_dir {
        dropped.without_stat(trim_end(path, '/'))
    } else {
        dropped
    }
}

/// The caches after the tombstones of keys came or went.
pub open spec fn keys_invalidated(c: CachesView, prefix: Seq<char>, tombs: Seq<(String, bool, Date)>) -> CachesView
    decreases tombs.len(),
{
    if tombs.len() == 0 {
        c
    } else {
        let t = tombs.last();
        key_invalidated(keys_invalidated(c, prefix, tombs.drop_last()), prefix, t.0@, t.1)
    }
}

/// Drops what is cached of a key whose tombstone came or went.
pub fn invalidate_key(caches: &mut FsCaches, prefix: &str, key: &str, is_dir: bool)
    requires
        old(caches).wf(),
    ensures
        final(caches).wf(),
        final(caches)@ == key_invalidated(old(caches)@, prefix@, key@, is_dir),
{
    let rel = strip_mount_prefix(prefix, key);
    let mut path = String::new();
    path.push('/');
    path.append(rel.as_str());
    proof {
        assert(path@ =~= cached_path(prefix@, key@));
    }
    caches.invalidate_trash_cached(path.as_str(), is_dir);
    if is_dir {
        let bare = trim_end_char(path.as_str(), '/');
        caches.invalidate_stat(bare.as_str());
    }
}

/// Drops what is cached of keys whose tombstones came or went.
pub fn invalidate_keys(caches: &mut FsCaches, prefix: &str, tombs: &Vec<(String, bool, Date)>)
    requires
        old(caches).wf(),
    ensures
        final(caches).wf(),
        final(caches)@ == keys_invalidated(old(caches)@, prefix@, tombs@),
{
    let ghost base = caches@;
    let mut i: usize = 0;
    proof {
        assert(tombs@.subrange(0, 0) =~= Seq::<(String, bool, Date)>::empty());
    }
    while i < tombs.len()
        invariant
            i <= tombs@.len(),
            caches.wf(),
            caches@ == keys_invalidated(base, prefix@, tombs@.subrange(0, i as int)),
        decreases tombs.len() - i,
    {
        proof {
            let upto = tombs@.subrange(0, i + 1);
            assert(upto.drop_last() =~= tombs@.subrange(0, i as int));
            assert(upto.last() == tombs@[i as int]);
        }
        let t = &tombs[i];
        invalidate_key(caches, prefix, t.0.as_str(), t.1);
        i = i + 1;
    }
    proof {
        assert(tombs@.subrange(0, tombs@.len() as int) =~= tombs@);
    }
}

/// The tombstones among listed keys: date, key and kind of each name that is
/// one, in the order of the listing.
pub open spec fn listed_tombs(prefix: Seq<char>, names: Seq<Seq<char>>) -> Seq<(Seq<char>, bool, i32)>
    decreases names.len(),
{
    if names.len() == 0 {
        Seq::empty()
    } else {
        let head = listed_tombs(prefix, names.drop_last());
        match tombstone_parts(prefix, names.last()) {
            Some((day, key)) => head.push((key, ends_with_char(key, '/'), day)),
            None => head,
        }
    }
}

/// Tombstones as key, kind and day.
pub open spec fn tomb_days(tombs: Seq<(String, bool, Date)>) -> Seq<(Seq<char>, bool, i32)> {
    tombs.map_values(|t: (String, bool, Date)| (t.0@, t.1, t.2.number()))
}

/// Adds the tombstone that a listed name denotes, if it is one.
fn push_listed(prefix: &str, name: &str, out: &mut Vec<(String, bool, Date)>)
    ensures
        tombstone_parts(prefix@, name@) is Some ==> ({
            let (day, key) = tombstone_parts(prefix@, name@)->0;
            tomb_days(final(out)@) == tomb_days(old(out)@).push((key, ends_with_char(key, '/'), day))
        }),
        tombstone_parts(prefix@, name@) is None ==> final(out)@ == old(out)@,
{
    match decode_tombstone_key(prefix, name) {
        Some(t) => {
            let ghost before = out@;
            let item = (t.original_key, t.is_dir, t.date);
            out.push(item);
            proof {
                assert(tomb_days(out@) =~= tomb_days(before).push((item.0@, item.1, item.2.number())));
            }
        },
        None => {},
    }
}

/// Takes a page of a listing: its tombstones and its last key.
fn list_page(prefix: &str, page: &Vec<String>, tombs: &mut Vec<(String, bool, Date)>, last: &mut Option<String>)
    ensures
        tomb_days(final(tombs)@) == tomb_days(old(tombs)@) + listed_tombs(
            prefix@,
            string_views(page@),
        ),
        opt_view(*final(last)) == last_or(string_views(page@), opt_view(*old(last))),
{
    let ghost names = string_views(page@);
    let ghost base = tomb_days(tombs@);
    let mut i: usize = 0;
    proof {
        assert(names.subrange(0, 0) =~= Seq::<Seq<char>>::empty());
        assert(base + Seq::<(Seq<char>, bool, i32)>::empty() =~= base);
    }
    while i < page.len()
        invariant
            i <= page@.len(),
            names == string_views(page@),
            tomb_days(tombs@) == base + listed_tombs(prefix@, names.subrange(0, i as int)),
            opt_view(*last) == last_or(names.subrange(0, i as int), opt_view(*old(last))),
        decreases page.len() - i,
    {
        proof {
            let upto = names.subrange(0, i + 1);
            assert(upto.drop_last() =~= names.subrange(0, i as int));
            assert(upto.last() == page@[i as int]@);
            let done = listed_tombs(prefix@, names.subrange(0, i as int));
            assert forall|t: (Seq<char>, bool, i32)| #[trigger] (base + done).push(t) == base + done.push(t) by {
                assert((base + done).push(t) =~= base + done.push(t));
            }
        }
        push_listed(prefix, page[i].as_str(), tombs);
        *last = Some(page[i].clone());
        i = i + 1;
    }
    proof {
        assert(names.subrange(0, names.len() as int) =~= names);
    }
}

/// The listing of all tombstones, from which the index is rebuilt.
pub struct FullScan {
    /// The tombstones found.
    pub tombs: Vec<(String, bool, Date)>,
    /// The last key listed.
    pub last_key: Option<String>,
}

impl FullScan {
    /// A listing of nothing yet.
    pub fn new() -> (r: Self)
        ensures
            r.tombs@.len() == 0,
            r.last_key is None,
    {
        FullScan { tombs: Vec::new(), last_key: None }
    }

    /// Takes a page of the listing.
    pub fn page(&mut self, prefix: &str, page: &Vec<String>)
        ensures
            tomb_days(final(self).tombs@) == tomb_days(old(self).tombs@) + listed_tombs(
                prefix@,
                string_views(page@),
            ),
            opt_view(final(self).last_key) == last_or(
                string_views(page@),
                opt_view(old(self).last_key),
            ),
    {
        list_page(prefix, page, &mut self.tombs, &mut self.last_key);
    }

    /// The index of the tombstones listed.
    pub fn index(&self) -> (r: TombstoneIndex)
        ensures
            r.wf(),
            r@ == indexed(IndexView::empty(), self.tombs@),
    {
        let mut index = TombstoneIndex::new();
        index.extend(&self.tombs);
        index
    }
}

/// The listing of a round of incremental refreshing: first everything of
/// today's partition, then what comes behind the cursor.
pub struct PollScan {
    pub today_prefix: String,
    pub cursor: Option<String>,
    /// The tombstones found.
    pub added: Vec<(String, bool, Date)>,
    /// The last key of today's partition.
    pub last_today: Option<String>,
    /// The last key outside today's partition.
    pub last_other: Option<String>,
    /// A key came that is not behind the cursor.
    pub ignored: bool,
}

/// The names outside of a partition.
pub open spec fn outside(names: Seq<Seq<char>>, partition: Seq<char>) -> Seq<Seq<char>> {
    names.filter(|n: Seq<char>| !has_prefix(n, partition))
}

/// Some name is not behind the cursor.
pub open spec fn not_behind(names: Seq<Seq<char>>, cursor: Option<Seq<char>>) -> bool {
    match cursor {
        Some(c) => exists|i: int| 0 <= i < names.len() && !text_less(c, #[trigger] names[i]),
        None => false,
    }
}

/// A text that may be missing.
pub open spec fn opt_view(s: Option<String>) -> Option<Seq<char>> {
    match s {
        Some(t) => Some(t@),
        None => None,
    }
}

/// The last of names, or what there was before.
pub open spec fn last_or(names: Seq<Seq<char>>, before: Option<Seq<char>>) -> Option<Seq<char>> {
    if names.len() > 0 {
        Some(names.last())
    } else {
        before
    }
}

/// Listing names in two pages finds the same tombstones as listing them in
/// one.
pub proof fn law_pages_join(prefix: Seq<char>, a: Seq<Seq<char>>, b: Seq<Seq<char>>)
    ensures
        listed_tombs(prefix, a + b) == listed_tombs(prefix, a) + listed_tombs(prefix, b),
    decreases b.len(),
{
    if b.len() == 0 {
        assert(a + b =~= a);
        assert(listed_tombs(prefix, a) + listed_tombs(prefix, b) =~= listed_tombs(prefix, a));
    } else {
        assert((a + b).drop_last() =~= a + b.drop_last());
        law_pages_join(prefix, a, b.drop_last());
        assert(listed_tombs(prefix, a + b) =~= listed_tombs(prefix, a) + listed_tombs(prefix, b));
    }
}

impl PollScan {
    /// Where the cursor goes after the scan: to the last key outside today's
    /// partition, or else to the last one in it; it stays where none came.
    pub open spec fn next_cursor(&self, before: Option<Seq<char>>) -> Option<Seq<char>> {
        match opt_view(self.last_other) {
            Some(k) => Some(k),
            None => match opt_view(self.last_today) {
                Some(k) => Some(k),
                None => before,
            },
        }
    }

    /// Takes a page of the listing of today's partition.
    pub fn today_page(&mut self, prefix: &str, page: &Vec<String>)
        ensures
            tomb_days(final(self).added@) == tomb_days(old(self).added@) + listed_tombs(
                prefix@,
                string_views(page@),
            ),
            opt_view(final(self).last_today) == last_or(
                string_views(page@),
                opt_view(old(self).last_today),
            ),
            final(self).today_prefix == old(self).today_prefix,
            final(self).cursor == old(self).cursor,
            final(self).last_other == old(self).last_other,
            final(self).ignored == old(self).ignored,
    {
        list_page(prefix, page, &mut self.added, &mut self.last_today);
    }

    /// Takes a page of the listing from behind the cursor. Today's partition
    /// was listed before and is left out.
    pub fn other_page(&mut self, prefix: &str, page: &Vec<String>)
        ensures
            tomb_days(final(self).added@) == tomb_days(old(self).added@) + listed_tombs(
                prefix@,
                outside(string_views(page@), old(self).today_prefix@),
            ),
            opt_view(final(self).last_other) == last_or(
                outside(string_views(page@), old(self).today_prefix@),
                opt_view(old(self).last_other),
            ),
            final(self).ignored == (old(self).ignored || not_behind(
                string_views(page@),
                opt_view(old(self).cursor),
            )),
            final(self).today_prefix == old(self).today_prefix,
            final(self).cursor == old(self).cursor,
            final(self).last_today == old(self).last_today,
    {
        let ghost names = string_views(page@);
        let ghost part = self.today_prefix@;
        let ghost base = tomb_days(self.added@);
        let mut i: usize = 0;
        proof {
            assert(names.subrange(0, 0) =~= Seq::<Seq<char>>::empty());
            reveal(Seq::filter);
            assert(outside(names.subrange(0, 0), part) =~= Seq::<Seq<char>>::empty());
            assert(base + Seq::<(Seq<char>, bool, i32)>::empty() =~= base);
        }
        while i < page.len()
            invariant
                i <= page@.len(),
                names == string_views(page@),
                part == self.today_prefix@,
                tomb_days(self.added@) == base + listed_tombs(
                    prefix@,
                    outside(names.subrange(0, i as int), part),
                ),
                opt_view(self.last_other) == last_or(
                    outside(names.subrange(0, i as int), part),
                    opt_view(old(self).last_other),
                ),
                self.ignored == (old(self).ignored || not_behind(
                    names.subrange(0, i as int),
                    opt_view(old(self).cursor),
                )),
                self.today_prefix == old(self).today_prefix,
                self.cursor == old(self).cursor,
                self.last_today == old(self).last_today,
            decreases page.len() - i,
        {
            proof {
                let upto = names.subrange(0, i + 1);
                assert(upto.drop_last() =~= names.subrange(0, i as int));
                assert(upto.last() == page@[i as int]@);
                reveal(Seq::filter);
                let before = outside(names.subrange(0, i as int), part);
                let after = outside(upto, part);
                assert(after == if has_prefix(upto.last(), part) { before } else { before.push(upto.last()) });
                assert(before.push(upto.last()).drop_last() =~= before);
                let done = listed_tombs(prefix@, before);
                assert forall|t: (Seq<char>, bool, i32)| #[trigger] (base + done).push(t) == base + done.push(t) by {
                    assert((base + done).push(t) =~= base + done.push(t));
                }
                lemma_not_behind_push(names.subrange(0, i as int), upto.last(), opt_view(self.cursor));
                assert(names.subrange(0, i as int).push(upto.last()) =~= upto);
            }
            let key = page[i].as_str();
            if !self.ignored {
                let behind = match &self.cursor {
                    Some(c) => match place(c.as_str(), key) {
                        Place::Before => true,
                        _ => false,
                    },
                    None => true,
                };
                if !behind {
                    self.ignored = true;
                }
            }
            if !starts_with_text(key, self.today_prefix.as_str()) {
                push_listed(prefix, key, &mut self.added);
                self.last_other = Some(page[i].clone());
            }
            i = i + 1;
        }
        proof {
            assert(names.subrange(0, names.len() as int) =~= names);
        }
    }
}

proof fn lemma_not_behind_push(names: Seq<Seq<char>>, name: Seq<char>, cursor: Option<Seq<char>>)
    ensures
        not_behind(names.push(name), cursor) == (not_behind(names, cursor) || match cursor {
            Some(c) => !text_less(c, name),
            None => false,
        }),
{
    let all = names.push(name);
    match cursor {
        Some(c) => {
            if not_behind(names, cursor) {
                let i = choose|i: int| 0 <= i < names.len() && !text_less(c, #[trigger] names[i]);
                assert(all[i] == names[i]);
            }
            if !text_less(c, name) {
                assert(all[names.len() as int] == name);
            }
            if not_behind(all, cursor) {
                let i = choose|i: int| 0 <= i < all.len() && !text_less(c, #[trigger] all[i]);
                if i < names.len() {
                    assert(names[i] == all[i]);
                }
            }
        },
        None => {},
    }
}

/// How a round of incremental refreshing ends.
#[derive(Debug, Clone, Copy, PartialEq, Eq, Structural)]
pub enum PollEnd {
    /// The tombstones found were entered.
    Done,
    /// A collection ended meanwhile; the round is thrown away.
    Stale,
    /// The index has to be rebuilt.
    Rebuild,
}

/// The names of the recycle bin after the tombstone of a key is gone. The key
/// keeps its name where the index still covers it.
pub open spec fn tomb_forgotten(names: NamesView, index: IndexView, tombs: Seq<Seq<char>>, key: Seq<char>) -> NamesView {
    let rest = names.without_tombs(tombs);
    if index.covers(trim_end(key, '/')) {
        rest
    } else {
        rest.without_key(key)
    }
}

/// The names of the recycle bin after tombstones are gone.
pub open spec fn tombs_forgotten(names: NamesView, index: IndexView, prefix: Seq<char>, tombs: Seq<(String, bool, Date)>) -> NamesView
    decreases tombs.len(),
{
    if tombs.len() == 0 {
        names
    } else {
        let t = tombs.last();
        tomb_forgotten(
            tombs_forgotten(names, index, prefix, tombs.drop_last()),
            index,
            seq![tombstone_name(prefix, t.2.number(), t.0@, t.1)],
            t.0@,
        )
    }
}

impl TrashState {
    pub open spec fn wf(&self) -> bool {
        self.index.wf() && self.recycle_names.wf() && self.seen_sids.wf()
    }

    /// Everything but the index, the names and the number of entries is the
    /// same in both states.
    pub open spec fn same_schedule(&self, other: &TrashState) -> bool {
        &&& self.prefix == other.prefix
        &&& self.mode == other.mode
        &&& self.refresh_interval == other.refresh_interval
        &&& self.rebuild_interval == other.rebuild_interval
        &&& self.gc_interval == other.gc_interval
        &&& self.retention_days == other.retention_days
        &&& self.generation == other.generation
        &&& self.last_eager_poll == other.last_eager_poll
        &&& self.poll_inflight == other.poll_inflight
        &&& self.system == other.system
        &&& self.seen_sids == other.seen_sids
    }

    /// The recycle bin is that of Windows.
    pub open spec fn windows(&self) -> bool {
        match self.system {
            Some(sys) => sys.platform == SystemTrashPlatform::WindowsRecycleBin,
            None => false,
        }
    }

    /// The trash before anything was listed: a rebuild is due at once, and so
    /// is an eager refresh, unless the clock is too young.
    pub fn new(
        prefix: String,
        mode: TrashRefreshMode,
        refresh_interval: u64,
        rebuild_interval: u64,
        gc_interval: u64,
        retention_days: u32,
        now: u64,
    ) -> (r: Self)
        ensures
            r.wf(),
            r.prefix == prefix,
            r.mode == mode,
            r.refresh_interval == refresh_interval,
            r.rebuild_interval == rebuild_interval,
            r.gc_interval == gc_interval,
            r.retention_days == retention_days,
            r.index@ == IndexView::empty(),
            r.recycle_names@ == NamesView::empty(),
            r.seen_sids@ == Map::<Seq<char>, ()>::empty(),
            r.generation == 0,
            r.cursor is None,
            r.start_after_supported,
            !r.poll_inflight,
            r.index_entries == 0,
            r.system is None,
            r.last_full_rebuild == if now >= rebuild_interval { now - rebuild_interval } else { now as int },
            r.last_eager_poll == if now >= TRASH_EAGER_MIN_POLL_INTERVAL {
                now - TRASH_EAGER_MIN_POLL_INTERVAL
            } else {
                now as int
            },
    {
        TrashState {
            prefix,
            index: TombstoneIndex::new(),
            mode,
            refresh_interval,
            rebuild_interval,
            gc_interval,
            retention_days,
            generation: 0,
            cursor: None,
            last_full_rebuild: if now >= rebuild_interval {
                now - rebuild_interval
            } else {
                now
            },
            start_after_supported: true,
            last_eager_poll: if now >= TRASH_EAGER_MIN_POLL_INTERVAL {
                now - TRASH_EAGER_MIN_POLL_INTERVAL
            } else {
                now
            },
            poll_inflight: false,
            index_entries: 0,
            system: None,
            recycle_names: RecycleNameIndex::new(),
            seen_sids: KeyMap::new(),
        }
    }

    /// Whether an index of this size is reported.
    pub fn index_size_alert(len: usize) -> (r: bool)
        ensures
            r == (len > TRASH_INDEX_ALERT_THRESHOLD),
    {
        len > TRASH_INDEX_ALERT_THRESHOLD
    }

    /// Shows the number of entries in the metrics. The result tells whether it
    /// is to be reported.
    pub fn store_index_entries(&mut self, len: usize) -> (alert: bool)
        ensures
            *final(self) == (TrashState { index_entries: len as u64, ..*old(self) }),
            alert == (len > TRASH_INDEX_ALERT_THRESHOLD),
    {
        self.index_entries = len as u64;
        TrashState::index_size_alert(len)
    }

    /// Whether the time for a rebuild has come.
    pub fn full_rebuild_due(&self, now: u64) -> (r: bool)
        ensures
            r == (age(self.last_full_rebuild, now) >= self.rebuild_interval),
    {
        elapsed(self.last_full_rebuild, now) >= self.rebuild_interval
    }

    /// Begins a round of refreshing, unless one is running: a rebuild where
    /// one is due, an incremental refresh otherwise.
    pub fn begin_refresh(&mut self, now: u64) -> (r: RefreshStep)
        ensures
            *final(self) == (TrashState { poll_inflight: true, ..*old(self) }),
            r == if old(self).poll_inflight {
                RefreshStep::Skip
            } else if age(old(self).last_full_rebuild, now) >= old(self).rebuild_interval {
                RefreshStep::Rebuild
            } else {
                RefreshStep::Incremental
            },
    {
        if self.poll_inflight {
            return RefreshStep::Skip;
        }
        self.poll_inflight = true;
        if self.full_rebuild_due(now) {
            RefreshStep::Rebuild
        } else {
            RefreshStep::Incremental
        }
    }

    /// Ends a round of refreshing.
    pub fn end_refresh(&mut self)
        ensures
            *final(self) == (TrashState { poll_inflight: false, ..*old(self) }),
    {
        self.poll_inflight = false;
    }

    /// Whether a listing is to be preceded by an incremental refresh: only in
    /// the eager mode, not more often than the least interval, and not while
    /// another round is running. An attempt counts towards the interval even
    /// where a round is running.
    pub fn begin_eager(&mut self, now: u64) -> (r: bool)
        ensures
            r == (old(self).mode == TrashRefreshMode::Eager && age(old(self).last_eager_poll, now)
                >= TRASH_EAGER_MIN_POLL_INTERVAL && !old(self).poll_inflight),
            *final(self) == (TrashState {
                last_eager_poll: if old(self).mode == TrashRefreshMode::Eager && age(
                    old(self).last_eager_poll,
                    now,
                ) >= TRASH_EAGER_MIN_POLL_INTERVAL {
                    now
                } else {
                    old(self).last_eager_poll
                },
                poll_inflight: r || old(self).poll_inflight,
                ..*old(self)
            }),
    {
        if self.mode != TrashRefreshMode::Eager {
            return false;
        }
        if elapsed(self.last_eager_poll, now) < TRASH_EAGER_MIN_POLL_INTERVAL {
            return false;
        }
        self.last_eager_poll = now;
        if self.poll_inflight {
            return false;
        }
        self.poll_inflight = true;
        true
    }

    /// Whether the names of new tombstones have to be read from them.
    pub fn wants_names(&self) -> (r: bool)
        ensures
            r == self.windows(),
    {
        match &self.system {
            Some(sys) => sys.platform == SystemTrashPlatform::WindowsRecycleBin,
            None => false,
        }
    }

    /// Whether a collection ended since the generation was noted.
    pub fn is_stale(&self, gen_snapshot: u64) -> (r: bool)
        ensures
            r == (self.generation != gen_snapshot),
    {
        self.generation != gen_snapshot
    }

    /// Enters new tombstones and their names, and drops what is cached of
    /// their keys. Where a collection ended since they were listed, nothing
    /// changes and the result is false: some of them may be gone.
    pub fn apply_added(
        &mut self,
        caches: &mut FsCaches,
        mount_prefix: &str,
        added: &Vec<(String, bool, Date)>,
        fills: &Vec<NameFill>,
        gen_snapshot: u64,
    ) -> (r: bool)
        requires
            old(self).wf(),
            old(caches).wf(),
        ensures
            final(self).wf(),
            final(caches).wf(),
            r == (old(self).generation == gen_snapshot),
            !r || added@.len() == 0 ==> *final(self) == *old(self) && *final(caches) == *old(caches),
            r && added@.len() > 0 ==> {
                &&& final(self).index@ == indexed(old(self).index@, added@)
                &&& final(self).recycle_names@ == old(self).recycle_names@.learned_all(fills@)
                &&& final(self).index_entries == word(final(self).index.size())
                &&& final(self).same_schedule(old(self))
                &&& final(self).cursor == old(self).cursor
                &&& final(self).last_full_rebuild == old(self).last_full_rebuild
                &&& final(self).start_after_supported == old(self).start_after_supported
                &&& final(caches)@ == keys_invalidated(old(caches)@, mount_prefix@, added@)
            },
    {
        if self.generation != gen_snapshot {
            return false;
        }
        if added.len() == 0 {
            return true;
        }
        self.index.extend(added);
        let len: usize = self.index.len();
        let _alert = self.store_index_entries(len);
        self.recycle_names.learn_all(fills);
        invalidate_keys(caches, mount_prefix, added);
        true
    }

    /// Begins an incremental refresh.
    pub fn begin_poll(&self, today: Date) -> (r: PollScan)
        ensures
            r.today_prefix@ == self.prefix@ + crate::calendar::day_text(today.number()) + seq!['/'],
            opt_view(r.cursor) == opt_view(self.cursor),
            r.added@.len() == 0,
            r.last_today is None,
            r.last_other is None,
            !r.ignored,
    {
        let mut today_prefix = self.prefix.clone();
        let day = today.text();
        today_prefix.append(day.as_str());
        today_prefix.push('/');
        proof {
            assert(today_prefix@ =~= self.prefix@ + crate::calendar::day_text(today.number()) + seq!['/']);
        }
        let cursor = match &self.cursor {
            Some(c) => Some(c.clone()),
            None => None,
        };
        PollScan {
            today_prefix,
            cursor,
            added: Vec::new(),
            last_today: None,
            last_other: None,
            ignored: false,
        }
    }

    /// Ends an incremental refresh. A store that does not list from behind
    /// the cursor is remembered and the index is rebuilt, now and from then on
    /// when a rebuild is due; otherwise the tombstones are entered, unless
    /// they are stale, and the cursor moves on.
    pub fn finish_poll(
        &mut self,
        caches: &mut FsCaches,
        metrics: &mut Metrics,
        mount_prefix: &str,
        scan: PollScan,
        fills: &Vec<NameFill>,
        gen_snapshot: u64,
        now: u64,
    ) -> (r: PollEnd)
        requires
            old(self).wf(),
            old(caches).wf(),
        ensures
            final(self).wf(),
            final(caches).wf(),
            ({
                let ignored = old(self).start_after_supported && scan.ignored;
                let stale = old(self).generation != gen_snapshot;
                let applied = !ignored && !stale;
                let due = age(old(self).last_full_rebuild, now) >= old(self).rebuild_interval;
                &&& r == if ignored {
                    PollEnd::Rebuild
                } else if stale {
                    PollEnd::Stale
                } else if !old(self).start_after_supported && due {
                    PollEnd::Rebuild
                } else {
                    PollEnd::Done
                }
                &&& final(self).start_after_supported == (old(self).start_after_supported && !scan.ignored)
                &&& final(self).same_schedule(old(self))
                &&& final(self).last_full_rebuild == old(self).last_full_rebuild
                &&& opt_view(final(self).cursor) == if applied && old(self).start_after_supported {
                    scan.next_cursor(opt_view(old(self).cursor))
                } else {
                    opt_view(old(self).cursor)
                }
                &&& final(self).index@ == if applied {
                    indexed(old(self).index@, scan.added@)
                } else {
                    old(self).index@
                }
                &&& final(self).recycle_names@ == if applied && scan.added@.len() > 0 {
                    old(self).recycle_names@.learned_all(fills@)
                } else {
                    old(self).recycle_names@
                }
                &&& final(self).index_entries == if applied && scan.added@.len() > 0 {
                    word(final(self).index.size()) as u64
                } else {
                    old(self).index_entries
                }
                &&& final(caches)@ == if applied {
                    keys_invalidated(old(caches)@, mount_prefix@, scan.added@)
                } else {
                    old(caches)@
                }
                &&& *final(metrics) == (Metrics {
                    trash_start_after_ignored: if ignored {
                        u64::wrapping_add(old(metrics).trash_start_after_ignored, 1)
                    } else {
                        old(metrics).trash_start_after_ignored
                    },
                    trash_refresh_incrementals: if r == PollEnd::Done {
                        u64::wrapping_add(old(metrics).trash_refresh_incrementals, 1)
                    } else {
                        old(metrics).trash_refresh_incrementals
                    },
                    ..*old(metrics)
                })
            }),
    {
        if !self.start_after_supported {
            if !self.apply_added(caches, mount_prefix, &scan.added, fills, gen_snapshot) {
                return PollEnd::Stale;
            }
            if self.full_rebuild_due(now) {
                return PollEnd::Rebuild;
            }
            count(&mut metrics.trash_refresh_incrementals, 1);
            return PollEnd::Done;
        }
        if scan.ignored {
            self.start_after_supported = false;
            count(&mut metrics.trash_start_after_ignored, 1);
            return PollEnd::Rebuild;
        }
        if !self.apply_added(caches, mount_prefix, &scan.added, fills, gen_snapshot) {
            return PollEnd::Stale;
        }
        match scan.last_other {
            Some(k) => {
                self.cursor = Some(k);
            },
            None => match scan.last_today {
                Some(k) => {
                    self.cursor = Some(k);
                },
                None => {},
            },
        }
        count(&mut metrics.trash_refresh_incrementals, 1);
        PollEnd::Done
    }

    /// Drops the names of tombstones that are gone, and the name of their key
    /// where nothing covers it any more.
    pub fn remove_tombstone_maps(&mut self, tombs: &Vec<String>, key: &str)
        requires
            old(self).wf(),
        ensures
            final(self).wf(),
            final(self).recycle_names@ == tomb_forgotten(
                old(self).recycle_names@,
                old(self).index@,
                string_views(tombs@),
                key@,
            ),
            *final(self) == (TrashState { recycle_names: final(self).recycle_names, ..*old(self) }),
    {
        self.recycle_names.forget_tombs(tombs);
        let bare = trim_end_char(key, '/');
        if !self.index.is_covered(bare.as_str()) {
            self.recycle_names.forget_key(key);
        }
    }

    fn forget_all(&mut self, tombs: &Vec<(String, bool, Date)>)
        requires
            old(self).wf(),
        ensures
            final(self).wf(),
            final(self).recycle_names@ == tombs_forgotten(
                old(self).recycle_names@,
                old(self).index@,
                old(self).prefix@,
                tombs@,
            ),
            *final(self) == (TrashState { recycle_names: final(self).recycle_names, ..*old(self) }),
    {
        let ghost names = self.recycle_names@;
        let mut i: usize = 0;
        proof {
            assert(tombs@.subrange(0, 0) =~= Seq::<(String, bool, Date)>::empty());
        }
        while i < tombs.len()
            invariant
                i <= tombs@.len(),
                self.wf(),
                *self == (TrashState { recycle_names: self.recycle_names, ..*old(self) }),
                self.recycle_names@ == tombs_forgotten(
                    names,
                    old(self).index@,
                    old(self).prefix@,
                    tombs@.subrange(0, i as int),
                ),
            decreases tombs.len() - i,
        {
            proof {
                let upto = tombs@.subrange(0, i + 1);
                assert(upto.drop_last() =~= tombs@.subrange(0, i as int));
                assert(upto.last() == tombs@[i as int]);
            }
            let t = &tombs[i];
            let tomb = encode_tombstone_key(self.prefix.as_str(), t.2, t.0.as_str(), t.1);
            let mut one: Vec<String> = Vec::new();
            one.push(tomb);
            proof {
                assert(string_views(one@) =~= seq![
                    tombstone_name(self.prefix@, t.2.number(), t.0@, t.1),
                ]);
            }
            self.remove_tombstone_maps(&one, t.0.as_str());
            i = i + 1;
        }
        proof {
            assert(tombs@.subrange(0, tombs@.len() as int) =~= tombs@);
        }
    }

    /// Puts a freshly listed index in place, `diff` being what it changes and
    /// `fills` the names read from its new tombstones. What is cached of the
    /// changed keys is dropped, or all attributes where too many changed.
    pub fn commit_rebuild(
        &mut self,
        caches: &mut FsCaches,
        metrics: &mut Metrics,
        mount_prefix: &str,
        index: TombstoneIndex,
        last_key: Option<String>,
        diff: &crate::tombstone::IndexDiff,
        fills: &Vec<NameFill>,
        now: u64,
    )
        requires
            old(self).wf(),
            old(caches).wf(),
            index.wf(),
        ensures
            final(self).wf(),
            final(caches).wf(),
            final(self).index == index,
            final(self).index_entries == word(index.size()),
            final(self).cursor == last_key,
            final(self).last_full_rebuild == now,
            final(self).start_after_supported == old(self).start_after_supported,
            final(self).same_schedule(old(self)),
            final(self).recycle_names@ == tombs_forgotten(
                old(self).recycle_names@.learned_all(fills@),
                index@,
                old(self).prefix@,
                diff.removed@,
            ),
            final(caches)@ == if diff.removed@.len() + diff.added@.len()
                > FULL_REBUILD_DIFF_CLEAR_THRESHOLD {
                old(caches)@.without_all_stats()
            } else {
                keys_invalidated(
                    keys_invalidated(old(caches)@, mount_prefix@, diff.removed@),
                    mount_prefix@,
                    diff.added@,
                )
            },
            *final(metrics) == (Metrics {
                trash_refresh_rebuilds: u64::wrapping_add(old(metrics).trash_refresh_rebuilds, 1),
                ..*old(metrics)
            }),
    {
        self.recycle_names.learn_all(fills);
        self.index = index;
        let len: usize = self.index.len();
        let _alert = self.store_index_entries(len);
        self.cursor = last_key;
        self.last_full_rebuild = now;
        self.forget_all(&diff.removed);
        let many = if diff.removed.len() > FULL_REBUILD_DIFF_CLEAR_THRESHOLD {
            true
        } else {
            diff.added.len() > FULL_REBUILD_DIFF_CLEAR_THRESHOLD - diff.removed.len()
        };
        if many {
            caches.clear_stats();
        } else {
            invalidate_keys(caches, mount_prefix, &diff.removed);
            invalidate_keys(caches, mount_prefix, &diff.added);
        }
        count(&mut metrics.trash_refresh_rebuilds, 1);
    }

    /// Where in the recycle bin a path lies, if one is shown.
    pub open spec fn place_of(&self, path: Seq<char>) -> Option<MatchView> {
        match self.system {
            Some(sys) => sys.place_of(path),
            None => None,
        }
    }

    /// Where in the recycle bin a path lies, if one is shown.
    pub fn match_system_trash(&self, path: &str) -> (r: Option<SystemTrashMatch>)
        ensures
            r is Some <==> self.place_of(path@) is Some,
            r matches Some(m) ==> self.place_of(path@) == Some(m@),
    {
        match &self.system {
            Some(sys) => sys.match_system_trash(path),
            None => None,
        }
    }

    /// Whether a path lies in the recycle bin.
    pub fn is_system_trash_path(&self, path: &str) -> (r: bool)
        ensures
            r == (self.place_of(path@) is Some),
    {
        self.match_system_trash(path).is_some()
    }

    /// Whether a path goes below the directory of the recycle bin.
    pub fn is_system_trash_named_path(&self, path: &str) -> (r: bool)
        ensures
            r == (match self.system {
                Some(sys) => sys.named_below(path@),
                None => false,
            }),
    {
        match &self.system {
            Some(sys) => sys.is_system_trash_named_path(path),
            None => false,
        }
    }

    /// Remembers the part of the recycle bin that a path goes through. Only
    /// Windows shows the parts that were seen.
    pub fn record_seen_sid(&mut self, path: &str)
        requires
            old(self).wf(),
        ensures
            final(self).wf(),
            *final(self) == (TrashState { seen_sids: final(self).seen_sids, ..*old(self) }),
            final(self).seen_sids@ == match (old(self).windows(), match old(self).system {
                Some(sys) => sys.part_of(path@),
                None => None,
            }) {
                (true, Some(sid)) => old(self).seen_sids@.insert(sid, ()),
                _ => old(self).seen_sids@,
            },
    {
        let sid = match &self.system {
            Some(sys) => if sys.platform == SystemTrashPlatform::WindowsRecycleBin {
                sys.part(path)
            } else {
                None
            },
            None => None,
        };
        match sid {
            Some(s) => {
                let _old = self.seen_sids.insert(s, ());
            },
            None => {},
        }
    }
}

/// Under which path a deleted key is cached: behind the prefix of the mount,
/// with a slash before it.
pub proof fn law_cached_path(prefix: Seq<char>, rel: Seq<char>)
    requires
        rel.len() > 0,
    ensures
        cached_path(prefix, prefix + rel) == seq!['/'] + rel,
        cached_path(prefix, prefix) == seq!['/'],
{
    crate::text::law_prefix_and_rest(prefix, rel);
    crate::text::law_prefix_and_rest(prefix, Seq::empty());
    assert(prefix + Seq::<char>::empty() =~= prefix);
}

/// Every tombstone of a listing is taken in, with its key, its kind and its day,
/// and nothing else is.
pub proof fn law_tombs_listed(prefix: Seq<char>, names: Seq<Seq<char>>)
    ensures
        forall|i: int, day: i32, key: Seq<char>|
            #![trigger names[i], listed_tombs(prefix, names).contains((key, true, day))]
            0 <= i < names.len() && tombstone_parts(prefix, names[i]) == Some((day, key)) && key.last() == '/'
                ==> listed_tombs(prefix, names).contains((key, true, day)),
        forall|i: int, day: i32, key: Seq<char>|
            #![trigger names[i], listed_tombs(prefix, names).contains((key, false, day))]
            0 <= i < names.len() && tombstone_parts(prefix, names[i]) == Some((day, key)) && key.last() != '/'
                ==> listed_tombs(prefix, names).contains((key, false, day)),
        forall|k: int|
            0 <= k < listed_tombs(prefix, names).len() ==> {
                let t = #[trigger] listed_tombs(prefix, names)[k];
                t.1 == (t.0.last() == '/') && exists|i: int|
                    0 <= i < names.len() && tombstone_parts(prefix, #[trigger] names[i]) == Some((t.2, t.0))
            },
    decreases names.len(),
{
    let all = listed_tombs(prefix, names);
    if names.len() > 0 {
        let less = names.drop_last();
        let head = listed_tombs(prefix, less);
        let n = names.len() - 1;
        law_tombs_listed(prefix, less);
        assert forall|i: int, day: i32, key: Seq<char>, dir: bool|
            #![trigger names[i], all.contains((key, dir, day))]
            0 <= i < names.len() && tombstone_parts(prefix, names[i]) == Some((day, key)) && dir == (key.last() == '/') implies
            all.contains((key, dir, day)) by {
            if i == n {
                assert(key.len() > 0);
                assert(all[all.len() - 1] == (key, dir, day));
            } else {
                assert(less[i] == names[i]);
                if dir {
                    assert(head.contains((key, true, day)));
                } else {
                    assert(head.contains((key, false, day)));
                }
                let k = choose|k: int| 0 <= k < head.len() && head[k] == (key, dir, day);
                assert(all[k] == (key, dir, day));
            }
        }
        assert forall|k: int| 0 <= k < all.len() implies {
            let t = #[trigger] all[k];
            t.1 == (t.0.last() == '/') && exists|i: int|
                0 <= i < names.len() && tombstone_parts(prefix, #[trigger] names[i]) == Some((t.2, t.0))
        } by {
            if k < head.len() {
                assert(all[k] == head[k]);
                let i = choose|i: int|
                    0 <= i < less.len() && tombstone_parts(prefix, #[trigger] less[i]) == Some((head[k].2, head[k].0));
                assert(names[i] == less[i]);
            } else {
                assert(names[n] == names.last());
            }
        }
    }
}

/// The names that a partition does not hold are those that do not begin with
/// its name.
pub proof fn law_outside(names: Seq<Seq<char>>, partition: Seq<char>, name: Seq<char>)
    ensures
        outside(names, partition).contains(name) <==> names.contains(name) && forall|rest: Seq<char>|
            name != #[trigger] (partition + rest),
{
    broadcast use vstd::seq_lib::group_filter_ensures;
    let p = |n: Seq<char>| !has_prefix(n, partition);
    let r = names.filter(p);
    crate::text::law_prefix_and_rest(partition, name);
    if r.contains(name) {
        names.lemma_filter_contains_rev(p, name);
        let i = choose|i: int| 0 <= i < r.len() && r[i] == name;
        assert(p(r[i]));
    }
    if names.contains(name) && !has_prefix(name, partition) {
        let i = choose|i: int| 0 <= i < names.len() && names[i] == name;
        assert(p(names[i]));
        assert(r.contains(names[i]));
    }
}

/// The names of a key are kept as long as the key is hidden; those that lead to
/// tombstones that are gone are not.
pub proof fn law_names_follow(names: NamesView, index: IndexView, tombs: Seq<Seq<char>>, key: Seq<char>, name: Seq<char>)
    requires
        key.len() > 0,
        key.last() != '/',
    ensures
        index.covers(key) ==> tomb_forgotten(names, index, tombs, key).by_key == names.by_key,
        !index.covers(key) ==> !tomb_forgotten(names, index, tombs, key).by_key.dom().contains(key),
        !index.covers(key) ==> !tomb_forgotten(names, index, tombs, key + seq!['/']).by_key.dom().contains(key + seq!['/']),
        tomb_forgotten(names, index, tombs, key).by_name.dom().contains(name) <==> names.by_name.dom().contains(name)
            && !tombs.contains(names.by_name[name]),
{
    crate::text::law_drop_tail_while(key, Seq::empty(), crate::text::is_char('/'));
    assert(key + Seq::<char>::empty() =~= key);
    crate::text::law_drop_tail_while(key, seq!['/'], crate::text::is_char('/'));
    crate::recycle::law_forgotten(names, tombs, key, name, key);
    crate::recycle::law_forgotten(names.without_tombs(tombs), tombs, key, name, key);
    crate::recycle::law_forgotten(names.without_tombs(tombs), tombs, key, name, key + seq!['/']);
}

/// What is cached of a key that was deleted or restored is dropped: of the key
/// itself, and of everything below it where it is a directory.
pub proof fn law_key_dropped(c: CachesView, prefix: Seq<char>, rel: Seq<char>, rest: Seq<char>)
    requires
        rel.len() > 0,
        rel.last() != '/',
    ensures
        !key_invalidated(c, prefix, prefix + rel, false).stats.dom().contains(seq!['/'] + rel),
        !key_invalidated(c, prefix, prefix + rel, false).negative.dom().contains(seq!['/'] + rel),
        !key_invalidated(c, prefix, prefix + rel + seq!['/'], true).stats.dom().contains(seq!['/'] + rel),
        !key_invalidated(c, prefix, prefix + rel + seq!['/'], true).negative.dom().contains(seq!['/'] + rel),
        !key_invalidated(c, prefix, prefix + rel + seq!['/'], true).stats.dom().contains(
            seq!['/'] + rel + seq!['/'] + rest,
        ),
{
    let dir = rel + seq!['/'];
    law_cached_path(prefix, rel);
    law_cached_path(prefix, dir);
    assert(prefix + rel + seq!['/'] =~= prefix + dir);
    let path = seq!['/'] + rel;
    assert(path.last() == rel.last());
    assert(seq!['/'] + dir =~= path + seq!['/']);
    crate::text::law_drop_tail_while(path, seq!['/'], crate::text::is_char('/'));
    crate::caches::law_invalidate_trashed(c, path + seq!['/'], rest);
}

/// Dropping what is cached of several keys drops it of each of them.
pub proof fn law_keys_dropped(c: CachesView, prefix: Seq<char>, tombs: Seq<(String, bool, Date)>, i: int, rel: Seq<char>)
    requires
        0 <= i < tombs.len(),
        tombs[i].0@ == prefix + rel,
        !tombs[i].1,
        rel.len() > 0,
        rel.last() != '/',
    ensures
        !keys_invalidated(c, prefix, tombs).stats.dom().contains(seq!['/'] + rel),
        !keys_invalidated(c, prefix, tombs).negative.dom().contains(seq!['/'] + rel),
    decreases tombs.len(),
{
    let less = tombs.drop_last();
    let before = keys_invalidated(c, prefix, less);
    let t = tombs.last();
    if i == tombs.len() - 1 {
        law_key_dropped(before, prefix, rel, Seq::empty());
    } else {
        law_keys_dropped(c, prefix, less, i, rel);
        let path = cached_path(prefix, t.0@);
        assert(before.without_trashed(path, t.1).stats.dom().subset_of(before.stats.dom()));
        assert(before.without_trashed(path, t.1).negative.dom().subset_of(before.negative.dom()));
    }
}

/// A store is known to ignore the place that it is asked to list from where it
/// lists something that does not come behind that.
pub proof fn law_not_behind(names: Seq<Seq<char>>, cursor: Seq<char>, i: int)
    requires
        0 <= i < names.len(),
    ensures
        !text_less(cursor, names[i]) ==> not_behind(names, Some(cursor)),
        (forall|k: int| 0 <= k < names.len() ==> text_less(cursor, #[trigger] names[k])) ==> !not_behind(names, Some(cursor)),
        !not_behind(names, None),
        last_or(names, Some(cursor)) == Some(names.last()),
        last_or(Seq::empty(), Some(cursor)) == Some(cursor),
{
}

/// The names that lead to tombstones that are gone are forgotten.
pub proof fn law_gone_forgotten(names: NamesView, index: IndexView, prefix: Seq<char>, tombs: Seq<(String, bool, Date)>, i: int, name: Seq<char>)
    requires
        0 <= i < tombs.len(),
        names.by_name.dom().contains(name),
        names.by_name[name] == tombstone_name(prefix, tombs[i].2.number(), tombs[i].0@, tombs[i].1),
    ensures
        !tombs_forgotten(names, index, prefix, tombs).by_name.dom().contains(name),
    decreases tombs.len(),
{
    let less = tombs.drop_last();
    let t = tombs.last();
    let before = tombs_forgotten(names, index, prefix, less);
    lemma_names_shrink(names, index, prefix, less, name);
    let gone = seq![tombstone_name(prefix, t.2.number(), t.0@, t.1)];
    if i == tombs.len() - 1 {
        assert(gone[0] == names.by_name[name]);
        assert(gone.contains(names.by_name[name]));
    } else {
        law_gone_forgotten(names, index, prefix, less, i, name);
    }
}

proof fn lemma_names_shrink(names: NamesView, index: IndexView, prefix: Seq<char>, tombs: Seq<(String, bool, Date)>, name: Seq<char>)
    ensures
        tombs_forgotten(names, index, prefix, tombs).by_name.dom().contains(name) ==> names.by_name.dom().contains(name)
            && tombs_forgotten(names, index, prefix, tombs).by_name[name] == names.by_name[name],
    decreases tombs.len(),
{
    if tombs.len() > 0 {
        lemma_names_shrink(names, index, prefix, tombs.drop_last(), name);
    }
}

/// A refresh changes neither how the trash is kept nor whose it is.
pub proof fn law_schedule_kept(a: &TrashState, b: &TrashState)
    ensures
        a.same_schedule(b) ==> {
            &&& a.prefix == b.prefix && a.mode == b.mode && a.retention_days == b.retention_days
            &&& a.refresh_interval == b.refresh_interval && a.rebuild_interval == b.rebuild_interval
            &&& a.gc_interval == b.gc_interval && a.generation == b.generation && a.system == b.system
            &&& a.seen_sids == b.seen_sids && a.poll_inflight == b.poll_inflight
        },
        a.same_but_index(b) ==> {
            &&& a.prefix == b.prefix && a.mode == b.mode && a.retention_days == b.retention_days
            &&& a.refresh_interval == b.refresh_interval && a.rebuild_interval == b.rebuild_interval
            &&& a.gc_interval == b.gc_interval && a.generation == b.generation && a.system == b.system
            &&& a.seen_sids == b.seen_sids && a.cursor == b.cursor && a.last_full_rebuild == b.last_full_rebuild
        },
{
}

/// Where the next refresh goes on: behind the last tombstone that this one saw,
/// or where it began if it saw none.
pub proof fn law_next_cursor(scan: &PollScan, before: Option<Seq<char>>)
    ensures
        scan.last_other matches Some(k) ==> scan.next_cursor(before) == Some(k@),
        scan.last_other is None ==> (scan.last_today matches Some(k) ==> scan.next_cursor(before) == Some(k@)),
        scan.last_other is None && scan.last_today is None ==> scan.next_cursor(before) == before,
{
}

/// Where a path lies in the recycle bin is where the bin says; without one it
/// lies nowhere. It is the bin of Windows where it is configured to be.
pub proof fn law_bin_of_mount(trash: &TrashState, path: Seq<char>)
    ensures
        trash.system is None ==> trash.place_of(path) is None && !trash.windows(),
        trash.system matches Some(sys) ==> trash.place_of(path) == sys.place_of(path) && (trash.windows() <==> sys.platform
            == SystemTrashPlatform::WindowsRecycleBin),
{
}

} // verus!
