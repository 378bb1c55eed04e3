//! Watching directories: what was last seen of them, which of them are looked
//! at again, and what has changed since.

use vstd::prelude::*;
use vstd::string::*;

use crate::entry::{entry_views, DirEntry, EntryView};
use crate::keymap::{
    all_has, ascending, entry_dropped, entry_set, keys_of, lemma_ascending_distinct, lemma_map_of_entry,
    lemma_map_of_key, lemma_removed, map_of, KeyMap,
};
use crate::paths::{is_root, join_path, joined};
use crate::text::{copy_text, same_text, views};
use crate::tombstone::word;

verus! {

/// The most directories that are looked at again.
pub const MAX_TRACKED_DIRS: usize = 64;

/// The most entries that are remembered of all directories together.
pub const MAX_SNAPSHOT_ENTRIES: usize = 50_000;

/// The time between two looks, in milliseconds.
pub const REFRESH_INTERVAL_MS: u32 = 10_000;

pub const FILE_NOTIFY_CHANGE_FILE_NAME: u32 = 0x0000_0001;

pub const FILE_NOTIFY_CHANGE_DIR_NAME: u32 = 0x0000_0002;

/// Of the size or of the time of the last write.
pub const FILE_NOTIFY_CHANGE_CONTENT: u32 = 0x0000_0018;

pub const FILE_ACTION_ADDED: u32 = 1;

pub const FILE_ACTION_REMOVED: u32 = 2;

pub const FILE_ACTION_MODIFIED: u32 = 3;

/// What is remembered of an entry.
#[derive(Debug, Clone, Copy, PartialEq, Eq, Structural)]
pub struct Seen {
    pub is_dir: bool,
    pub size: u64,
    pub mtime_secs: i64,
}

/// A change that is told to those who watch.
#[derive(Debug)]
pub struct Change {
    pub path: String,
    pub action: u32,
    pub filter: u32,
}

/// What a change says.
#[verifier::ext_equal]
pub struct ChangeView {
    pub path: Seq<char>,
    pub action: u32,
    pub filter: u32,
}

impl Change {
    pub open spec fn view(&self) -> ChangeView {
        ChangeView { path: self.path@, action: self.action, filter: self.filter }
    }
}

/// What changes say.
pub open spec fn change_views(s: Seq<Change>) -> Seq<ChangeView> {
    s.map_values(|c: Change| c@)
}

/// What is remembered of an entry.
pub open spec fn seen_of(e: EntryView) -> Seen {
    Seen { is_dir: e.is_dir, size: e.size, mtime_secs: e.mtime_secs }
}

/// What is remembered of a listing.
pub open spec fn snapshot_of(entries: Seq<EntryView>) -> Map<Seq<char>, Seen>
    decreases entries.len(),
{
    if entries.len() == 0 {
        Map::empty()
    } else {
        snapshot_of(entries.drop_last()).insert(entries.last().name, seen_of(entries.last()))
    }
}

/// The entries that are remembered of all directories.
pub open spec fn total_seen(snapshots: Seq<(String, KeyMap<Seen>)>) -> nat
    decreases snapshots.len(),
{
    if snapshots.len() == 0 {
        0
    } else {
        total_seen(snapshots.drop_last()) + snapshots.last().1.spec_entries().len()
    }
}

/// The position of a directory other than the root of which the most entries
/// are remembered.
pub open spec fn is_largest(snapshots: Seq<(String, KeyMap<Seen>)>, at: int) -> bool {
    &&& 0 <= at < snapshots.len()
    &&& snapshots[at].0@ != seq!['/']
    &&& forall|k: int|
        0 <= k < snapshots.len() && (#[trigger] snapshots[k]).0@ != seq!['/'] ==> snapshots[k].1.spec_entries().len()
            <= snapshots[at].1.spec_entries().len()
}

/// Only the root is remembered, if anything.
pub open spec fn only_root(snapshots: Seq<(String, KeyMap<Seen>)>) -> bool {
    forall|k: int| 0 <= k < snapshots.len() ==> (#[trigger] snapshots[k]).0@ == seq!['/']
}

/// What is left where the largest directories are forgotten until the rest is
/// within the budget. The root is kept.
pub open spec fn within_budget(
    snapshots: Seq<(String, KeyMap<Seen>)>,
    budget: usize,
    after: Seq<(String, KeyMap<Seen>)>,
) -> bool
    decreases snapshots.len(),
{
    if word(total_seen(snapshots)) <= budget || only_root(snapshots) {
        after == snapshots
    } else {
        exists|at: int| #[trigger] is_largest(snapshots, at) && within_budget(snapshots.remove(at), budget, after)
    }
}

/// The directories that are looked at again, once one was browsed: it is the
/// most recent. Where there would be too many, the oldest other than the root
/// is dropped.
pub open spec fn browsed(dirs: Seq<Seq<char>>, dir: Seq<char>) -> Seq<Seq<char>> {
    if dirs.contains(dir) {
        dirs.remove(dirs.index_of(dir)).push(dir)
    } else if dirs.len() < MAX_TRACKED_DIRS {
        dirs.push(dir)
    } else {
        dirs.remove(oldest_dir(dirs)).push(dir)
    }
}

/// The position of the oldest directory other than the root.
pub open spec fn oldest_dir(dirs: Seq<Seq<char>>) -> int {
    if dirs[0] == seq!['/'] {
        1
    } else {
        0
    }
}

/// The change that an entry of a new listing makes.
pub open spec fn entry_change(dir: Seq<char>, known: Map<Seq<char>, Seen>, e: EntryView) -> Option<ChangeView> {
    if !known.dom().contains(e.name) {
        Some(
            ChangeView {
                path: joined(dir, e.name),
                action: FILE_ACTION_ADDED,
                filter: if e.is_dir {
                    FILE_NOTIFY_CHANGE_DIR_NAME
                } else {
                    FILE_NOTIFY_CHANGE_FILE_NAME
                },
            },
        )
    } else if known[e.name] != seen_of(e) {
        Some(
            ChangeView {
                path: joined(dir, e.name),
                action: FILE_ACTION_MODIFIED,
                filter: if e.is_dir {
                    FILE_NOTIFY_CHANGE_DIR_NAME
                } else {
                    FILE_NOTIFY_CHANGE_CONTENT
                },
            },
        )
    } else {
        None
    }
}

/// The changes that the entries of a new listing make.
pub open spec fn entry_changes(dir: Seq<char>, known: Map<Seq<char>, Seen>, entries: Seq<EntryView>) -> Seq<ChangeView>
    decreases entries.len(),
{
    if entries.len() == 0 {
        Seq::empty()
    } else {
        let head = entry_changes(dir, known, entries.drop_last());
        match entry_change(dir, known, entries.last()) {
            Some(c) => head.push(c),
            None => head,
        }
    }
}

/// A listing has an entry of the given name.
pub open spec fn has_name(entries: Seq<EntryView>, name: Seq<char>) -> bool {
    exists|i: int| 0 <= i < entries.len() && (#[trigger] entries[i]).name == name
}

/// The changes that entries make which are not in the new listing any more.
pub open spec fn removals(dir: Seq<char>, known: Seq<(String, Seen)>, entries: Seq<EntryView>) -> Seq<ChangeView>
    decreases known.len(),
{
    if known.len() == 0 {
        Seq::empty()
    } else {
        let head = removals(dir, known.drop_last(), entries);
        let last = known.last();
        if has_name(entries, last.0@) {
            head
        } else {
            head.push(
                ChangeView {
                    path: joined(dir, last.0@),
                    action: FILE_ACTION_REMOVED,
                    filter: if last.1.is_dir {
                        FILE_NOTIFY_CHANGE_DIR_NAME
                    } else {
                        FILE_NOTIFY_CHANGE_FILE_NAME
                    },
                },
            )
        }
    }
}

/// What was last seen of directories, and which of them are looked at again.
pub struct RefreshState {
    /// What was last seen, by directory.
    pub snapshots: KeyMap<KeyMap<Seen>>,
    /// The directories of which something was seen, be it that they are empty.
    pub seeded: KeyMap<()>,
    /// The directories that are looked at again, the most recent last.
    pub dirs: Vec<String>,
    /// The most entries that are remembered.
    pub snapshot_budget: usize,
}

impl RefreshState {
    pub open spec fn wf(&self) -> bool {
        &&& self.snapshots.wf()
        &&& self.seeded.wf()
        &&& self.seeded@.dom() == self.snapshots@.dom()
        &&& forall|i: int|
            0 <= i < self.snapshots.spec_entries().len() ==> (#[trigger] self.snapshots.spec_entries()[i]).1.wf()
        &&& views(self.dirs@).no_duplicates()
        &&& views(self.dirs@).contains(seq!['/'])
        &&& self.dirs@.len() <= MAX_TRACKED_DIRS
    }

    /// What is remembered is within the budget.
    pub open spec fn fits(&self) -> bool {
        word(total_seen(self.snapshots.spec_entries())) <= self.snapshot_budget
    }

    /// Nothing seen yet; the root is looked at.
    pub fn new() -> (r: RefreshState)
        ensures
            r.wf(),
            r.snapshots@ == Map::<Seq<char>, KeyMap<Seen>>::empty(),
            views(r.dirs@) == seq![seq!['/']],
            r.snapshot_budget == MAX_SNAPSHOT_ENTRIES,
            r.fits(),
    {
        let mut root = String::new();
        root.push('/');
        proof {
            assert(root@ =~= seq!['/']);
        }
        let mut dirs: Vec<String> = Vec::new();
        dirs.push(root);
        proof {
            assert(views(dirs@) =~= seq![seq!['/']]);
            assert(views(dirs@)[0] == seq!['/']);
        }
        RefreshState {
            snapshots: KeyMap::new(),
            seeded: KeyMap::new(),
            dirs,
            snapshot_budget: MAX_SNAPSHOT_ENTRIES,
        }
    }

    /// The number of entries that are remembered, as far as a word can count.
    pub fn snapshot_entries(&self) -> (n: usize)
        requires
            self.wf(),
        ensures
            n == word(total_seen(self.snapshots.spec_entries())),
    {
        let ghost all = self.snapshots.spec_entries();
        let mut n: usize = 0;
        let mut i: usize = 0;
        let len: usize = self.snapshots.len();
        proof {
            assert(all.subrange(0, 0) =~= Seq::<(String, KeyMap<Seen>)>::empty());
        }
        while i < len
            invariant
                i <= len,
                len == all.len(),
                all == self.snapshots.spec_entries(),
                self.wf(),
                n == word(total_seen(all.subrange(0, i as int))),
            decreases len - i,
        {
            proof {
                let upto = all.subrange(0, i + 1);
                assert(upto.drop_last() =~= all.subrange(0, i as int));
                assert(upto.last() == all[i as int]);
            }
            let e = self.snapshots.entry_at(i);
            n = n.saturating_add(e.1.len());
            i = i + 1;
        }
        proof {
            assert(all.subrange(0, all.len() as int) =~= all);
        }
        n
    }

    fn largest(&self) -> (r: Option<usize>)
        requires
            self.wf(),
        ensures
            r matches Some(at) ==> is_largest(self.snapshots.spec_entries(), at as int),
            r is None ==> only_root(self.snapshots.spec_entries()),
    {
        let ghost all = self.snapshots.spec_entries();
        let mut best: Option<usize> = None;
        let mut size: usize = 0;
        let mut i: usize = 0;
        let len: usize = self.snapshots.len();
        while i < len
            invariant
                i <= len,
                len == all.len(),
                all == self.snapshots.spec_entries(),
                self.wf(),
                best is None ==> forall|k: int| 0 <= k < i ==> (#[trigger] all[k]).0@ == seq!['/'],
                best matches Some(at) ==> at < i && all[at as int].0@ != seq!['/'] && size == all[at as int].1.spec_entries().len(),
                best is Some ==> forall|k: int|
                    0 <= k < i && (#[trigger] all[k]).0@ != seq!['/'] ==> all[k].1.spec_entries().len() <= size,
            decreases len - i,
        {
            let e = self.snapshots.entry_at(i);
            let n: usize = e.1.len();
            if !is_root(e.0.as_str()) && (best.is_none() || n >= size) {
                best = Some(i);
                size = n;
            }
            i = i + 1;
        }
        best
    }

    /// Forgets the largest directories until what is remembered is within the
    /// budget. The root is kept.
    pub fn enforce_snapshot_budget(&mut self)
        requires
            old(self).wf(),
        ensures
            final(self).wf(),
            within_budget(
                old(self).snapshots.spec_entries(),
                old(self).snapshot_budget,
                final(self).snapshots.spec_entries(),
            ),
            word(total_seen(final(self).snapshots.spec_entries())) <= final(self).snapshot_budget || only_root(
                final(self).snapshots.spec_entries(),
            ),
            old(self).snapshots@.dom().contains(seq!['/']) ==> final(self).snapshots@.dom().contains(seq!['/']),
            final(self).dirs == old(self).dirs,
            final(self).snapshot_budget == old(self).snapshot_budget,
    {
        let ghost start = self.snapshots.spec_entries();
        let budget: usize = self.snapshot_budget;
        loop
            invariant
                self.wf(),
                budget == self.snapshot_budget,
                self.snapshot_budget == old(self).snapshot_budget,
                self.dirs == old(self).dirs,
                start == old(self).snapshots.spec_entries(),
                old(self).snapshots@.dom().contains(seq!['/']) ==> self.snapshots@.dom().contains(seq!['/']),
                forall|after: Seq<(String, KeyMap<Seen>)>|
                    within_budget(self.snapshots.spec_entries(), budget, after) ==> #[trigger] within_budget(
                        start,
                        budget,
                        after,
                    ),
            decreases self.snapshots.spec_entries().len(),
        {
            let ghost now = self.snapshots.spec_entries();
            if self.snapshot_entries() <= budget {
                proof {
                    assert(within_budget(now, budget, now));
                }
                return;
            }
            match self.largest() {
                None => {
                    proof {
                        assert(within_budget(now, budget, now));
                    }
                    return;
                },
                Some(at) => {
                    proof {
                        assert(is_largest(now, at as int));
                        assert(!only_root(now));
                        lemma_removed(now, at as int);
                    }
                    let victim = self.snapshots.remove_at(at);
                    let _seed = self.seeded.remove(victim.0.as_str());
                    proof {
                        assert(self.seeded@.dom() =~= self.snapshots@.dom());
                        let rest = self.snapshots.spec_entries();
                        assert forall|i: int| 0 <= i < rest.len() implies (#[trigger] rest[i]).1.wf() by {
                            assert(rest[i] == now[if i < at {
                                i
                            } else {
                                i + 1
                            }]);
                        }
                        assert forall|after: Seq<(String, KeyMap<Seen>)>|
                            within_budget(rest, budget, after) implies #[trigger] within_budget(start, budget, after) by {
                            assert(is_largest(now, at as int) && within_budget(now.remove(at as int), budget, after));
                            assert(within_budget(now, budget, after));
                        }
                    }
                },
            }
        }
    }

    /// The state without a directory.
    pub open spec fn forgets(&self, dir: Seq<char>, after: &RefreshState) -> bool {
        &&& after.snapshots@ == self.snapshots@.remove(dir)
        &&& entry_dropped(self.snapshots.spec_entries(), after.snapshots.spec_entries(), dir)
    }

    /// The state with a listing remembered, in place of the one before. One
    /// that is larger than the whole budget is not remembered; for any other,
    /// the largest directories make room.
    pub open spec fn stores(&self, dir: Seq<char>, entries: Seq<EntryView>, after: &RefreshState) -> bool {
        &&& after.dirs == self.dirs
        &&& after.snapshot_budget == self.snapshot_budget
        &&& if entries.len() > self.snapshot_budget {
            self.forgets(dir, after)
        } else {
            exists|snap: KeyMap<Seen>, mid: Seq<(String, KeyMap<Seen>)>|
                {
                    &&& snap.wf() && snap@ == snapshot_of(entries)
                    &&& #[trigger] entry_set(self.snapshots.spec_entries(), mid, dir, snap)
                    &&& within_budget(mid, self.snapshot_budget, after.snapshots.spec_entries())
                }
        }
    }

    /// The state once a directory was browsed.
    pub open spec fn browses(&self, dir: Seq<char>, after: &RefreshState) -> bool {
        let dirs = views(self.dirs@);
        &&& views(after.dirs@) == browsed(dirs, dir)
        &&& after.snapshot_budget == self.snapshot_budget
        &&& if !dirs.contains(dir) && dirs.len() >= MAX_TRACKED_DIRS {
            self.forgets(dirs[oldest_dir(dirs)], after)
        } else {
            after.snapshots == self.snapshots && after.seeded == self.seeded
        }
    }

    fn forget(&mut self, dir: &str)
        requires
            old(self).wf(),
        ensures
            final(self).wf(),
            old(self).forgets(dir@, final(self)),
            old(self).fits() ==> final(self).fits(),
            final(self).dirs == old(self).dirs,
            final(self).snapshot_budget == old(self).snapshot_budget,
    {
        let ghost now = self.snapshots.spec_entries();
        let _old = self.snapshots.remove(dir);
        let _seed = self.seeded.remove(dir);
        proof {
            assert(self.seeded@.dom() =~= self.snapshots@.dom());
            let rest = self.snapshots.spec_entries();
            assert forall|i: int| 0 <= i < rest.len() implies (#[trigger] rest[i]).1.wf() by {
                if all_has(now, dir@) {
                    let at = choose|at: int|
                        0 <= at < now.len() && (#[trigger] now[at]).0@ == dir@ && rest == now.remove(at);
                    assert(rest[i] == now[if i < at {
                        i
                    } else {
                        i + 1
                    }]);
                }
            }
            if all_has(now, dir@) {
                let at = choose|at: int|
                    0 <= at < now.len() && (#[trigger] now[at]).0@ == dir@ && rest == now.remove(at);
                lemma_total_removed(now, at);
            }
        }
    }

    /// Remembers a listing. One that is larger than the whole budget is not
    /// remembered; for any other, the largest directories make room.
    pub fn store_snapshot(&mut self, dir: &str, entries: &Vec<DirEntry>)
        requires
            old(self).wf(),
        ensures
            final(self).wf(),
            old(self).stores(dir@, entry_views(entries@), final(self)),
            entries@.len() <= old(self).snapshot_budget ==> word(total_seen(final(self).snapshots.spec_entries()))
                <= final(self).snapshot_budget || only_root(final(self).snapshots.spec_entries()),
            old(self).fits() ==> final(self).fits(),
            dir@ == seq!['/'] && entries@.len() <= old(self).snapshot_budget ==> final(self).snapshots@.dom().contains(dir@),
            dir@ != seq!['/'] && old(self).snapshots@.dom().contains(seq!['/'])
                ==> final(self).snapshots@.dom().contains(seq!['/']),
    {
        let ghost all = entry_views(entries@);
        if entries.len() > self.snapshot_budget {
            self.forget(dir);
            return;
        }
        let mut snap: KeyMap<Seen> = KeyMap::new();
        let mut i: usize = 0;
        proof {
            assert(all.subrange(0, 0) =~= Seq::<EntryView>::empty());
        }
        while i < entries.len()
            invariant
                i <= entries@.len(),
                all == entry_views(entries@),
                snap.wf(),
                snap@ == snapshot_of(all.subrange(0, i as int)),
            decreases entries.len() - i,
        {
            proof {
                let upto = all.subrange(0, i + 1);
                assert(upto.drop_last() =~= all.subrange(0, i as int));
                assert(upto.last() == entries@[i as int]@);
            }
            let e = &entries[i];
            let _old = snap.insert(
                copy_text(e.name.as_str()),
                Seen { is_dir: e.is_dir, size: e.size, mtime_secs: e.mtime_secs },
            );
            i = i + 1;
        }
        proof {
            assert(all.subrange(0, all.len() as int) =~= all);
        }
        let ghost before = self.snapshots.spec_entries();
        let ghost kept = snap;
        let _old = self.snapshots.insert(copy_text(dir), snap);
        let _seed = self.seeded.insert(copy_text(dir), ());
        let ghost mid = self.snapshots.spec_entries();
        proof {
            assert(self.seeded@.dom() =~= self.snapshots@.dom());
            assert(entry_set(before, mid, dir@, kept));
            assert forall|i: int| 0 <= i < mid.len() implies (#[trigger] mid[i]).1.wf() by {
                lemma_map_of_entry(mid, i);
                let k = mid[i].0@;
                assert(map_of(mid) == map_of(before).insert(dir@, kept));
                if k != dir@ {
                    assert(map_of(before).dom().contains(k));
                    let j = lemma_map_of_key(before, k);
                    lemma_map_of_entry(before, j);
                }
            }
        }
        self.enforce_snapshot_budget();
        proof {
            if old(self).fits() {
                assert(old(self).stores(dir@, all, self));
                law_snapshots_within_budget(old(self), dir@, all, self);
            }
        }
    }

    /// Notes that a directory was browsed.
    pub fn record_browsed(&mut self, dir: &str)
        requires
            old(self).wf(),
        ensures
            final(self).wf(),
            old(self).browses(dir@, final(self)),
            old(self).fits() ==> final(self).fits(),
    {
        let ghost all = views(self.dirs@);
        let ghost root = seq!['/'];
        let mut i: usize = 0;
        while i < self.dirs.len()
            invariant
                i <= self.dirs@.len(),
                *self == *old(self),
                self.wf(),
                all == views(self.dirs@),
                root == seq!['/'],
                forall|k: int| 0 <= k < i ==> #[trigger] all[k] != dir@,
            decreases self.dirs.len() - i,
        {
            proof {
                assert(all[i as int] == self.dirs@[i as int]@);
            }
            if same_text(self.dirs[i].as_str(), dir) {
                let d = self.dirs.remove(i);
                self.dirs.push(d);
                proof {
                    assert(all.contains(dir@));
                    assert(all.index_of(dir@) == i);
                    assert(views(self.dirs@) =~= all.remove(i as int).push(dir@));
                    lemma_moved(all, i as int, dir@);
                    lemma_still_there(all, i as int, dir@, root);
                }
                return;
            }
            i = i + 1;
        }
        proof {
            assert(!all.contains(dir@));
        }
        if self.dirs.len() < MAX_TRACKED_DIRS {
            self.dirs.push(copy_text(dir));
            proof {
                assert(views(self.dirs@) =~= all.push(dir@));
                lemma_pushed(all, dir@);
                let k = all.index_of(root);
                assert(all.push(dir@)[k] == root);
            }
            return;
        }
        let at: usize = if is_root(self.dirs[0].as_str()) {
            1
        } else {
            0
        };
        let oldest = self.dirs.remove(at);
        proof {
            assert(all[0] == old(self).dirs@[0]@);
            assert(at == oldest_dir(all));
            assert(oldest@ == all[at as int]);
            assert(views(self.dirs@) =~= all.remove(at as int));
        }
        self.dirs.push(copy_text(dir));
        proof {
            assert(views(self.dirs@) =~= all.remove(at as int).push(dir@));
            lemma_removed_distinct(all, at as int);
            lemma_pushed(all.remove(at as int), dir@);
            assert(all[at as int] != root) by {
                if at == 1 && all[1] == root {
                    assert(all[0] == all[1]);
                }
            }
            lemma_still_there(all, at as int, dir@, root);
        }
        self.forget(oldest.as_str());
    }

    /// Takes a new listing of a directory, and returns what has changed since
    /// the last one. The first listing changes nothing.
    pub fn refresh_dir(&mut self, dir: &str, current: &Vec<DirEntry>) -> (r: Vec<Change>)
        requires
            old(self).wf(),
        ensures
            final(self).wf(),
            !old(self).snapshots@.dom().contains(dir@) ==> r@.len() == 0,
            old(self).snapshots@.dom().contains(dir@) ==> change_views(r@) == entry_changes(
                dir@,
                old(self).snapshots@[dir@]@,
                entry_views(current@),
            ) + removals(dir@, old(self).snapshots@[dir@].spec_entries(), entry_views(current@)),
            old(self).stores(dir@, entry_views(current@), final(self)),
            old(self).fits() ==> final(self).fits(),
    {
        let r = match self.snapshots.get(dir) {
            None => Vec::new(),
            Some(snap) => {
                proof {
                    let all = self.snapshots.spec_entries();
                    let i = lemma_map_of_key(all, dir@);
                    lemma_map_of_entry(all, i);
                    assert(all[i].1.wf());
                }
                changes(dir, snap, current)
            },
        };
        self.store_snapshot(dir, current);
        r
    }
}

proof fn lemma_removed_distinct(s: Seq<Seq<char>>, at: int)
    requires
        s.no_duplicates(),
        0 <= at < s.len(),
    ensures
        s.remove(at).no_duplicates(),
        !s.remove(at).contains(s[at]),
{
    let t = s.remove(at);
    assert forall|i: int, j: int| 0 <= i < t.len() && 0 <= j < t.len() && i != j implies t[i] != t[j] by {
        let a = if i < at {
            i
        } else {
            i + 1
        };
        let b = if j < at {
            j
        } else {
            j + 1
        };
        assert(s[a] != s[b]);
    }
    if t.contains(s[at]) {
        let k = t.index_of(s[at]);
        let a = if k < at {
            k
        } else {
            k + 1
        };
        assert(s[a] == s[at]);
    }
}

proof fn lemma_pushed(s: Seq<Seq<char>>, x: Seq<char>)
    requires
        s.no_duplicates(),
        !s.contains(x),
    ensures
        s.push(x).no_duplicates(),
{
    let t = s.push(x);
    assert forall|i: int, j: int| 0 <= i < t.len() && 0 <= j < t.len() && i != j implies t[i] != t[j] by {
        if i < s.len() {
            assert(s.contains(s[i]));
        }
        if j < s.len() {
            assert(s.contains(s[j]));
        }
    }
}

proof fn lemma_moved(s: Seq<Seq<char>>, at: int, x: Seq<char>)
    requires
        s.no_duplicates(),
        0 <= at < s.len(),
        s[at] == x,
    ensures
        s.remove(at).push(x).no_duplicates(),
{
    lemma_removed_distinct(s, at);
    lemma_pushed(s.remove(at), x);
}

proof fn lemma_still_there(s: Seq<Seq<char>>, at: int, x: Seq<char>, y: Seq<char>)
    requires
        0 <= at < s.len(),
        s.contains(y),
        s[at] != y || x == y,
    ensures
        s.remove(at).push(x).contains(y),
{
    let t = s.remove(at).push(x);
    let k = s.index_of(y);
    if k == at {
        assert(t[t.len() - 1] == y);
    } else if k < at {
        assert(t[k] == y);
    } else {
        assert(t[k - 1] == y);
    }
}

/// What has changed between what was seen of a directory and a new listing.
pub fn changes(dir: &str, snap: &KeyMap<Seen>, current: &Vec<DirEntry>) -> (r: Vec<Change>)
    requires
        snap.wf(),
    ensures
        change_views(r@) == entry_changes(dir@, snap@, entry_views(current@)) + removals(
            dir@,
            snap.spec_entries(),
            entry_views(current@),
        ),
{
    let ghost all = entry_views(current@);
    let mut out: Vec<Change> = Vec::new();
    let mut i: usize = 0;
    proof {
        assert(all.subrange(0, 0) =~= Seq::<EntryView>::empty());
        assert(change_views(out@) =~= Seq::<ChangeView>::empty());
    }
    while i < current.len()
        invariant
            i <= current@.len(),
            snap.wf(),
            all == entry_views(current@),
            change_views(out@) == entry_changes(dir@, snap@, all.subrange(0, i as int)),
        decreases current.len() - i,
    {
        let e = &current[i];
        let ghost before = out@;
        proof {
            let upto = all.subrange(0, i + 1);
            assert(upto.drop_last() =~= all.subrange(0, i as int));
            assert(upto.last() == e@);
        }
        let seen = Seen { is_dir: e.is_dir, size: e.size, mtime_secs: e.mtime_secs };
        let change = match snap.get(e.name.as_str()) {
            None => Some(
                Change {
                    path: join_path(dir, e.name.as_str()),
                    action: FILE_ACTION_ADDED,
                    filter: if e.is_dir {
                        FILE_NOTIFY_CHANGE_DIR_NAME
                    } else {
                        FILE_NOTIFY_CHANGE_FILE_NAME
                    },
                },
            ),
            Some(known) => if *known != seen {
                Some(
                    Change {
                        path: join_path(dir, e.name.as_str()),
                        action: FILE_ACTION_MODIFIED,
                        filter: if e.is_dir {
                            FILE_NOTIFY_CHANGE_DIR_NAME
                        } else {
                            FILE_NOTIFY_CHANGE_CONTENT
                        },
                    },
                )
            } else {
                None
            },
        };
        if let Some(c) = change {
            out.push(c);
            proof {
                assert(change_views(out@) =~= change_views(before).push(c@));
                assert(entry_change(dir@, snap@, e@) == Some(c@));
            }
        }
        i = i + 1;
    }
    proof {
        assert(all.subrange(0, all.len() as int) =~= all);
    }
    let ghost added = change_views(out@);
    let ghost known = snap.spec_entries();
    let len: usize = snap.len();
    let mut j: usize = 0;
    proof {
        assert(known.subrange(0, 0) =~= Seq::<(String, Seen)>::empty());
        assert(added =~= added + removals(dir@, known.subrange(0, 0), all));
    }
    while j < len
        invariant
            j <= len,
            len == known.len(),
            snap.wf(),
            known == snap.spec_entries(),
            all == entry_views(current@),
            change_views(out@) == added + removals(dir@, known.subrange(0, j as int), all),
        decreases len - j,
    {
        let e = snap.entry_at(j);
        let ghost before = out@;
        proof {
            let upto = known.subrange(0, j + 1);
            assert(upto.drop_last() =~= known.subrange(0, j as int));
            assert(upto.last() == *e);
        }
        if !lists(current, e.0.as_str()) {
            let c = Change {
                path: join_path(dir, e.0.as_str()),
                action: FILE_ACTION_REMOVED,
                filter: if e.1.is_dir {
                    FILE_NOTIFY_CHANGE_DIR_NAME
                } else {
                    FILE_NOTIFY_CHANGE_FILE_NAME
                },
            };
            out.push(c);
            proof {
                assert(change_views(out@) =~= change_views(before).push(c@));
                assert(change_views(out@) =~= added + removals(dir@, known.subrange(0, j + 1), all));
            }
        }
        j = j + 1;
    }
    proof {
        assert(known.subrange(0, known.len() as int) =~= known);
    }
    out
}

fn lists(entries: &Vec<DirEntry>, name: &str) -> (r: bool)
    ensures
        r == has_name(entry_views(entries@), name@),
{
    let ghost all = entry_views(entries@);
    let mut i: usize = 0;
    while i < entries.len()
        invariant
            i <= entries@.len(),
            all == entry_views(entries@),
            forall|k: int| 0 <= k < i ==> (#[trigger] all[k]).name != name@,
        decreases entries.len() - i,
    {
        assert(all[i as int] == entries@[i as int]@);
        if same_text(entries[i].name.as_str(), name) {
            return true;
        }
        i = i + 1;
    }
    false
}

proof fn lemma_snapshot_holds(entries: Seq<EntryView>, i: int)
    requires
        0 <= i < entries.len(),
        forall|a: int, b: int|
            0 <= a < b < entries.len() ==> (#[trigger] entries[a]).name != (#[trigger] entries[b]).name,
    ensures
        snapshot_of(entries).dom().contains(entries[i].name),
        snapshot_of(entries)[entries[i].name] == seen_of(entries[i]),
    decreases entries.len(),
{
    if i < entries.len() - 1 {
        let head = entries.drop_last();
        assert forall|a: int, b: int| 0 <= a < b < head.len() implies (#[trigger] head[a]).name != (
        #[trigger] head[b]).name by {
            assert(head[a] == entries[a] && head[b] == entries[b]);
        }
        lemma_snapshot_holds(head, i);
        assert(head[i] == entries[i]);
        assert(entries[i].name != entries[entries.len() - 1].name);
    }
}

proof fn lemma_snapshot_names(entries: Seq<EntryView>, name: Seq<char>)
    requires
        snapshot_of(entries).dom().contains(name),
    ensures
        has_name(entries, name),
    decreases entries.len(),
{
    if entries.len() > 0 {
        if name == entries.last().name {
            assert(entries[entries.len() - 1].name == name);
        } else {
            lemma_snapshot_names(entries.drop_last(), name);
            let head = entries.drop_last();
            let i = choose|i: int| 0 <= i < head.len() && (#[trigger] head[i]).name == name;
            assert(entries[i].name == name);
        }
    }
}

proof fn lemma_no_entry_changes(dir: Seq<char>, known: Map<Seq<char>, Seen>, entries: Seq<EntryView>)
    requires
        forall|i: int| 0 <= i < entries.len() ==> entry_change(dir, known, #[trigger] entries[i]) is None,
    ensures
        entry_changes(dir, known, entries) == Seq::<ChangeView>::empty(),
    decreases entries.len(),
{
    if entries.len() > 0 {
        let head = entries.drop_last();
        assert forall|i: int| 0 <= i < head.len() implies entry_change(dir, known, #[trigger] head[i]) is None by {
            assert(head[i] == entries[i]);
        }
        lemma_no_entry_changes(dir, known, head);
        assert(entry_change(dir, known, entries[entries.len() - 1]) is None);
    }
}

proof fn lemma_no_removals(dir: Seq<char>, known: Seq<(String, Seen)>, entries: Seq<EntryView>)
    requires
        forall|i: int| 0 <= i < known.len() ==> has_name(entries, (#[trigger] known[i]).0@),
    ensures
        removals(dir, known, entries) == Seq::<ChangeView>::empty(),
    decreases known.len(),
{
    if known.len() > 0 {
        let head = known.drop_last();
        assert forall|i: int| 0 <= i < head.len() implies has_name(entries, (#[trigger] head[i]).0@) by {
            assert(head[i] == known[i]);
        }
        lemma_no_removals(dir, head, entries);
        assert(has_name(entries, known[known.len() - 1].0@));
    }
}

/// Nothing is told about a directory that still holds what was last seen of
/// it, where no two entries have the same name.
pub proof fn law_unchanged_is_quiet(dir: Seq<char>, snap: KeyMap<Seen>, entries: Seq<EntryView>)
    requires
        snap.wf(),
        snap@ == snapshot_of(entries),
        forall|a: int, b: int|
            0 <= a < b < entries.len() ==> (#[trigger] entries[a]).name != (#[trigger] entries[b]).name,
    ensures
        entry_changes(dir, snap@, entries) == Seq::<ChangeView>::empty(),
        removals(dir, snap.spec_entries(), entries) == Seq::<ChangeView>::empty(),
{
    assert forall|i: int| 0 <= i < entries.len() implies entry_change(dir, snap@, #[trigger] entries[i]) is None by {
        lemma_snapshot_holds(entries, i);
    }
    lemma_no_entry_changes(dir, snap@, entries);
    let known = snap.spec_entries();
    assert forall|i: int| 0 <= i < known.len() implies has_name(entries, (#[trigger] known[i]).0@) by {
        lemma_map_of_entry(known, i);
        lemma_snapshot_names(entries, known[i].0@);
    }
    lemma_no_removals(dir, known, entries);
}

/// What is remembered of a listing whose names are all different: every entry
/// under its name, and nothing else.
pub proof fn law_snapshot_of_listing(entries: Seq<EntryView>)
    requires
        forall|i: int, j: int| 0 <= i < j < entries.len() ==> (#[trigger] entries[i]).name != (#[trigger] entries[j]).name,
    ensures
        forall|name: Seq<char>| #[trigger] snapshot_of(entries).dom().contains(name) <==> has_name(entries, name),
        forall|i: int|
            0 <= i < entries.len() ==> snapshot_of(entries)[(#[trigger] entries[i]).name] == seen_of(entries[i]),
{
    assert forall|i: int| 0 <= i < entries.len() implies snapshot_of(entries).dom().contains((#[trigger] entries[i]).name)
        && snapshot_of(entries)[entries[i].name] == seen_of(entries[i]) by {
        lemma_snapshot_holds(entries, i);
    }
    assert forall|name: Seq<char>| #[trigger] snapshot_of(entries).dom().contains(name) <==> has_name(entries, name) by {
        if snapshot_of(entries).dom().contains(name) {
            lemma_snapshot_names(entries, name);
        }
    }
}

proof fn lemma_snapshot_len(entries: Seq<EntryView>)
    ensures
        snapshot_of(entries).dom().finite(),
        snapshot_of(entries).dom().len() <= entries.len(),
    decreases entries.len(),
{
    if entries.len() > 0 {
        let head = snapshot_of(entries.drop_last());
        lemma_snapshot_len(entries.drop_last());
        assert(snapshot_of(entries).dom() =~= head.dom().insert(entries.last().name));
    } else {
        assert(snapshot_of(entries).dom() =~= Set::empty());
    }
}

proof fn lemma_total_removed(s: Seq<(String, KeyMap<Seen>)>, at: int)
    requires
        0 <= at < s.len(),
    ensures
        total_seen(s.remove(at)) + s[at].1.spec_entries().len() == total_seen(s),
    decreases s.len(),
{
    let rest = s.remove(at);
    if at == s.len() - 1 {
        assert(rest =~= s.drop_last());
    } else {
        lemma_total_removed(s.drop_last(), at);
        assert(rest.drop_last() =~= s.drop_last().remove(at));
        assert(rest.last() == s.last());
        assert(s.drop_last()[at] == s[at]);
    }
}

/// A directory that was forgotten for the others had to be: without it they
/// would have been over the budget, and none of them is larger.
pub open spec fn made_room(after: Seq<(String, KeyMap<Seen>)>, budget: usize, name: Seq<char>, size: nat) -> bool {
    &&& name != seq!['/']
    &&& total_seen(after) + size > budget
    &&& forall|k: int|
        0 <= k < after.len() && (#[trigger] after[k]).0@ != seq!['/'] ==> after[k].1.spec_entries().len() <= size
}

proof fn lemma_within_budget(
    all: Seq<(String, KeyMap<Seen>)>,
    budget: usize,
    after: Seq<(String, KeyMap<Seen>)>,
)
    requires
        within_budget(all, budget, after),
    ensures
        word(total_seen(after)) <= budget || only_root(after),
        forall|k: int| 0 <= k < after.len() ==> all.contains(#[trigger] after[k]),
        after != all ==> exists|j: int|
            0 <= j < all.len() && (#[trigger] all[j]).0@ != seq!['/'] && total_seen(after)
                + all[j].1.spec_entries().len() > budget,
        forall|j: int|
            0 <= j < all.len() ==> after.contains(#[trigger] all[j]) || made_room(
                after,
                budget,
                all[j].0@,
                all[j].1.spec_entries().len(),
            ),
    decreases all.len(),
{
    if word(total_seen(all)) <= budget || only_root(all) {
        assert forall|k: int| 0 <= k < after.len() implies all.contains(#[trigger] after[k]) by {
            assert(all[k] == after[k]);
        }
        assert forall|j: int| 0 <= j < all.len() implies after.contains(#[trigger] all[j]) by {
            assert(after[j] == all[j]);
        }
    } else {
        let at = choose|at: int| #[trigger] is_largest(all, at) && within_budget(all.remove(at), budget, after);
        let rest = all.remove(at);
        lemma_within_budget(rest, budget, after);
        lemma_total_removed(all, at);
        assert forall|k: int| 0 <= k < after.len() implies all.contains(#[trigger] after[k]) by {
            let i = choose|i: int| 0 <= i < rest.len() && rest[i] == after[k];
            let o = if i < at {
                i
            } else {
                i + 1
            };
            assert(all[o] == after[k]);
        }
        let size = all[at].1.spec_entries().len();
        assert(total_seen(after) + size > budget) by {
            if after != rest {
                let j = choose|j: int|
                    0 <= j < rest.len() && (#[trigger] rest[j]).0@ != seq!['/'] && total_seen(after)
                        + rest[j].1.spec_entries().len() > budget;
                let o = if j < at {
                    j
                } else {
                    j + 1
                };
                assert(rest[j] == all[o]);
            }
        }
        assert(made_room(after, budget, all[at].0@, size)) by {
            assert forall|k: int| 0 <= k < after.len() && (#[trigger] after[k]).0@ != seq!['/'] implies
                after[k].1.spec_entries().len() <= size by {
                assert(all.contains(after[k]));
                let i = choose|i: int| 0 <= i < all.len() && all[i] == after[k];
                assert(all[i].0@ != seq!['/']);
            }
        }
        assert forall|j: int| 0 <= j < all.len() implies after.contains(#[trigger] all[j]) || made_room(
            after,
            budget,
            all[j].0@,
            all[j].1.spec_entries().len(),
        ) by {
            if j != at {
                let r = if j < at {
                    j
                } else {
                    j - 1
                };
                assert(rest[r] == all[j]);
            }
        }
    }
}

proof fn lemma_set_entries(
    before: Seq<(String, KeyMap<Seen>)>,
    mid: Seq<(String, KeyMap<Seen>)>,
    dir: Seq<char>,
    snap: KeyMap<Seen>,
)
    requires
        ascending(keys_of(before)),
        entry_set(before, mid, dir, snap),
    ensures
        forall|j: int|
            0 <= j < mid.len() ==> if (#[trigger] mid[j]).0@ == dir {
                mid[j].1 == snap
            } else {
                before.contains(mid[j])
            },
        forall|d: Seq<char>|
            d == dir || #[trigger] map_of(before).dom().contains(d) ==> exists|j: int|
                0 <= j < mid.len() && (#[trigger] mid[j]).0@ == d,
{
    let at = choose|at: int|
        {
            let e = #[trigger] mid[at];
            &&& e.0@ == dir
            &&& e.1 == snap
            &&& if all_has(before, dir) {
                0 <= at < before.len() && before[at].0@ == dir && mid == before.update(at, e)
            } else {
                0 <= at <= before.len() && mid == before.insert(at, e)
            }
        };
    let keys = keys_of(before);
    lemma_ascending_distinct(keys);
    let set = all_has(before, dir);
    assert forall|j: int| 0 <= j < mid.len() implies if (#[trigger] mid[j]).0@ == dir {
        mid[j].1 == snap
    } else {
        before.contains(mid[j])
    } by {
        if j != at {
            let o = if set || j < at {
                j
            } else {
                j - 1
            };
            assert(mid[j] == before[o]);
            assert(keys[o] == before[o].0@);
            if set {
                assert(keys[at] == dir);
            }
        }
    }
    assert forall|d: Seq<char>| d == dir || #[trigger] map_of(before).dom().contains(d) implies exists|j: int|
        0 <= j < mid.len() && (#[trigger] mid[j]).0@ == d by {
        if d == dir {
            assert(mid[at].0@ == d);
        } else {
            let i = lemma_map_of_key(before, d);
            let j = if set || i < at {
                i
            } else {
                i + 1
            };
            assert(mid[j] == before[i]);
        }
    }
}

/// What is remembered stays within the budget once it is.
///
/// A listing that is larger than the whole budget is not remembered, and
/// nothing else changes. Any other is remembered, unless it had to make room
/// itself; of the other directories each is remembered as it was or had to make
/// room. The root never has to.
pub proof fn law_snapshots_within_budget(
    before: &RefreshState,
    dir: Seq<char>,
    entries: Seq<EntryView>,
    after: &RefreshState,
)
    requires
        before.wf(),
        after.wf(),
        before.stores(dir, entries, after),
        before.fits(),
    ensures
        after.fits(),
        entries.len() > before.snapshot_budget ==> {
            &&& after.snapshots@ == before.snapshots@.remove(dir)
            &&& !after.seeded@.dom().contains(dir)
        },
        entries.len() <= before.snapshot_budget ==> {
            &&& forall|d: Seq<char>| #[trigger]
                after.snapshots@.dom().contains(d) && d != dir ==> before.snapshots@.dom().contains(d)
                    && after.snapshots@[d] == before.snapshots@[d]
            &&& after.snapshots@.dom().contains(dir) ==> after.snapshots@[dir]@ == snapshot_of(entries)
            &&& forall|d: Seq<char>|
                d != dir && #[trigger] before.snapshots@.dom().contains(d) ==> after.snapshots@.dom().contains(d)
                    || !after.seeded@.dom().contains(d) && made_room(
                    after.snapshots.spec_entries(),
                    before.snapshot_budget,
                    d,
                    before.snapshots@[d].spec_entries().len(),
                )
            &&& after.snapshots@.dom().contains(dir) || !after.seeded@.dom().contains(dir) && made_room(
                after.snapshots.spec_entries(),
                before.snapshot_budget,
                dir,
                snapshot_of(entries).dom().len(),
            )
        },
{
    let budget = before.snapshot_budget;
    let old_all = before.snapshots.spec_entries();
    let all = after.snapshots.spec_entries();
    if entries.len() > budget {
        if all_has(old_all, dir) {
            let at = choose|at: int|
                0 <= at < old_all.len() && (#[trigger] old_all[at]).0@ == dir && all == old_all.remove(at);
            lemma_total_removed(old_all, at);
        }
    } else {
        let (snap, mid) = choose|snap: KeyMap<Seen>, mid: Seq<(String, KeyMap<Seen>)>|
            {
                &&& snap.wf() && snap@ == snapshot_of(entries)
                &&& #[trigger] entry_set(old_all, mid, dir, snap)
                &&& within_budget(mid, budget, all)
            };
        lemma_set_entries(old_all, mid, dir, snap);
        lemma_within_budget(mid, budget, all);
        lemma_snapshot_len(entries);
        snap.lemma_len();
        assert forall|k: int| 0 <= k < all.len() implies if (#[trigger] all[k]).0@ == dir {
            all[k].1 == snap
        } else {
            old_all.contains(all[k])
        } by {
            assert(mid.contains(all[k]));
            let j = choose|j: int| 0 <= j < mid.len() && mid[j] == all[k];
            assert(mid[j].0@ == all[k].0@);
        }
        if only_root(all) && all.len() > 0 {
            let keys = keys_of(all);
            lemma_ascending_distinct(keys);
            assert(keys[0] == all[0].0@);
            if all.len() > 1 {
                assert(keys[1] == all[1].0@);
            }
            assert(all.len() == 1);
            assert(all.drop_last() =~= Seq::empty());
            assert(total_seen(all.drop_last()) == 0);
            if all[0].0@ != dir {
                let i = choose|i: int| 0 <= i < old_all.len() && old_all[i] == all[0];
                lemma_total_removed(old_all, i);
            }
        }
        assert forall|d: Seq<char>| #[trigger] after.snapshots@.dom().contains(d) implies if d == dir {
            after.snapshots@[d] == snap
        } else {
            before.snapshots@.dom().contains(d) && after.snapshots@[d] == before.snapshots@[d]
        } by {
            let k = lemma_map_of_key(all, d);
            lemma_map_of_entry(all, k);
            if d != dir {
                let i = choose|i: int| 0 <= i < old_all.len() && old_all[i] == all[k];
                lemma_map_of_entry(old_all, i);
            }
        }
        assert forall|d: Seq<char>|
            (d == dir || #[trigger] before.snapshots@.dom().contains(d)) && !after.snapshots@.dom().contains(d) implies
            made_room(all, budget, d, if d == dir {
            snap.spec_entries().len()
        } else {
            before.snapshots@[d].spec_entries().len()
        }) by {
            let j = choose|j: int| 0 <= j < mid.len() && (#[trigger] mid[j]).0@ == d;
            if all.contains(mid[j]) {
                let k = choose|k: int| 0 <= k < all.len() && all[k] == mid[j];
                lemma_map_of_entry(all, k);
            }
            if d != dir {
                let i = choose|i: int| 0 <= i < old_all.len() && old_all[i] == mid[j];
                lemma_map_of_entry(old_all, i);
            }
        }
        if !after.snapshots@.dom().contains(dir) {
            let known = before.snapshots@.dom().contains(dir);
            assert(made_room(all, budget, dir, snap.spec_entries().len()));
        }
    }
}

/// What those who watch a directory are told: of every entry that was not there
/// before that it was added, of every one that has another kind, size or time by
/// now that it was modified, and of an entry that is as it was nothing; each by
/// its own path.
pub proof fn law_changes_told(dir: Seq<char>, known: Map<Seq<char>, Seen>, e: EntryView)
    requires
        dir != seq!['/'],
    ensures
        !known.dom().contains(e.name) ==> entry_change(dir, known, e) == Some(
            ChangeView {
                path: dir + seq!['/'] + e.name,
                action: 1,
                filter: if e.is_dir {
                    2
                } else {
                    1
                },
            },
        ),
        known.dom().contains(e.name) && known[e.name].is_dir == e.is_dir && known[e.name].size == e.size
            && known[e.name].mtime_secs == e.mtime_secs ==> entry_change(dir, known, e) is None,
        known.dom().contains(e.name) && (known[e.name].is_dir != e.is_dir || known[e.name].size != e.size
            || known[e.name].mtime_secs != e.mtime_secs) ==> entry_change(dir, known, e) == Some(
            ChangeView {
                path: dir + seq!['/'] + e.name,
                action: 3,
                filter: if e.is_dir {
                    2
                } else {
                    0x18
                },
            },
        ),
{
}

/// Every change of an entry is told, in the order of the listing, and nothing
/// else.
pub proof fn law_all_changes_told(dir: Seq<char>, known: Map<Seq<char>, Seen>, a: Seq<EntryView>, e: EntryView)
    ensures
        entry_changes(dir, known, Seq::empty()) == Seq::<ChangeView>::empty(),
        entry_change(dir, known, e) is None ==> entry_changes(dir, known, a.push(e)) == entry_changes(dir, known, a),
        entry_change(dir, known, e) matches Some(c) ==> entry_changes(dir, known, a.push(e)) == entry_changes(dir, known, a).push(
            c,
        ),
{
    assert(a.push(e).drop_last() =~= a);
}

/// Of every entry that is not in the listing any more it is told that it was
/// removed, by its path, and of no other.
pub proof fn law_removals_told(dir: Seq<char>, known: Seq<(String, Seen)>, entries: Seq<EntryView>, k: (String, Seen))
    requires
        dir != seq!['/'],
    ensures
        removals(dir, Seq::empty(), entries) == Seq::<ChangeView>::empty(),
        (exists|i: int| 0 <= i < entries.len() && (#[trigger] entries[i]).name == k.0@) ==> removals(
            dir,
            known.push(k),
            entries,
        ) == removals(dir, known, entries),
        (forall|i: int| 0 <= i < entries.len() ==> (#[trigger] entries[i]).name != k.0@) ==> removals(
            dir,
            known.push(k),
            entries,
        ) == removals(dir, known, entries).push(
            ChangeView {
                path: dir + seq!['/'] + k.0@,
                action: 2,
                filter: if k.1.is_dir {
                    2
                } else {
                    1
                },
            },
        ),
{
    assert(known.push(k).drop_last() =~= known);
    assert(known.push(k).last() == k);
}

/// The directory that was browsed last is the most recent. At most 64 are
/// tracked; one that has to go is the oldest, and never the root.
pub proof fn law_browsed(dirs: Seq<Seq<char>>, dir: Seq<char>, other: Seq<char>)
    requires
        dirs.no_duplicates(),
        dirs.contains(seq!['/']),
        dirs.len() <= 64,
    ensures
        browsed(dirs, dir).last() == dir,
        browsed(dirs, dir).len() <= 64,
        dirs.contains(dir) || dirs.len() < 64 ==> (browsed(dirs, dir).contains(other) <==> dirs.contains(other) || other
            == dir),
        browsed(dirs, dir).contains(seq!['/']),
        !dirs.contains(dir) && dirs.len() == 64 && dirs[0] == seq!['/'] ==> browsed(dirs, dir) == dirs.remove(1).push(dir),
        !dirs.contains(dir) && dirs.len() == 64 && dirs[0] != seq!['/'] ==> browsed(dirs, dir) == dirs.remove(0).push(dir),
{
    let root = seq!['/'];
    let r = browsed(dirs, dir);
    assert(r[r.len() - 1] == dir);
    if dirs.contains(dir) {
        let i = dirs.index_of(dir);
        assert(dirs[i] == dir && 0 <= i < dirs.len());
        lemma_moves(dirs, i, dir, other);
        lemma_moves(dirs, i, dir, root);
    } else if dirs.len() < 64 {
        assert forall|x: Seq<char>| #[trigger] r.contains(x) <==> dirs.contains(x) || x == dir by {
            if dirs.contains(x) {
                let k = choose|k: int| 0 <= k < dirs.len() && dirs[k] == x;
                assert(r[k] == x);
            }
            if r.contains(x) && x != dir {
                let k = choose|k: int| 0 <= k < r.len() && r[k] == x;
                assert(dirs[k] == x);
            }
        }
    } else {
        let k = choose|k: int| 0 <= k < dirs.len() && dirs[k] == root;
        let at = oldest_dir(dirs);
        assert(dirs[at] != root) by {
            if at == 1 {
                assert(dirs[0] != dirs[1]);
            }
        }
        let j = if k < at {
            k
        } else {
            k - 1
        };
        assert(r[j] == root);
    }
}

proof fn lemma_moves(dirs: Seq<Seq<char>>, i: int, dir: Seq<char>, x: Seq<char>)
    requires
        0 <= i < dirs.len(),
        dirs[i] == dir,
    ensures
        dirs.remove(i).push(dir).contains(x) <==> dirs.contains(x),
{
    let r = dirs.remove(i).push(dir);
    if dirs.contains(x) {
        let k = choose|k: int| 0 <= k < dirs.len() && dirs[k] == x;
        if k == i {
            assert(r[r.len() - 1] == x);
        } else {
            assert(r[if k < i {
                k
            } else {
                k - 1
            }] == x);
        }
    }
    if r.contains(x) {
        let k = choose|k: int| 0 <= k < r.len() && r[k] == x;
        if k == r.len() - 1 {
            assert(dirs[i] == x);
        } else {
            assert(dirs[if k < i {
                k
            } else {
                k + 1
            }] == x);
        }
    }
}

/// A directory that is forgotten is gone, and all others are as they were.
pub proof fn law_forgets(before: &RefreshState, dir: Seq<char>, after: &RefreshState, other: Seq<char>)
    requires
        before.forgets(dir, after),
        other != dir,
    ensures
        !after.snapshots@.dom().contains(dir),
        after.snapshots@.dom().contains(other) <==> before.snapshots@.dom().contains(other),
        before.snapshots@.dom().contains(other) ==> after.snapshots@[other] == before.snapshots@[other],
{
}

/// In the root the changes are told by paths below it.
pub proof fn law_root_changes_told(known: Map<Seq<char>, Seen>, e: EntryView, seen: Seq<(String, Seen)>, k: (String, Seen))
    ensures
        !known.dom().contains(e.name) ==> entry_change(seq!['/'], known, e) == Some(
            ChangeView {
                path: seq!['/'] + e.name,
                action: 1,
                filter: if e.is_dir {
                    2
                } else {
                    1
                },
            },
        ),
        known.dom().contains(e.name) && (known[e.name].is_dir != e.is_dir || known[e.name].size != e.size
            || known[e.name].mtime_secs != e.mtime_secs) ==> entry_change(seq!['/'], known, e) == Some(
            ChangeView {
                path: seq!['/'] + e.name,
                action: 3,
                filter: if e.is_dir {
                    2
                } else {
                    0x18
                },
            },
        ),
        known.dom().contains(e.name) && known[e.name].is_dir == e.is_dir && known[e.name].size == e.size
            && known[e.name].mtime_secs == e.mtime_secs ==> entry_change(seq!['/'], known, e) is None,
        removals(seq!['/'], seen.push(k), Seq::empty()) == removals(seq!['/'], seen, Seq::empty()).push(
            ChangeView {
                path: seq!['/'] + k.0@,
                action: 2,
                filter: if k.1.is_dir {
                    2
                } else {
                    1
                },
            },
        ),
{
    assert(seen.push(k).drop_last() =~= seen);
    assert(seen.push(k).last() == k);
}

} // verus!
