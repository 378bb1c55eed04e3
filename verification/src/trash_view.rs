//! What the recycle bin shows: which tombstone an entry stands for, the
//! listing of the bin, and the attributes and records of its entries. The
//! bodies of tombstones are read by the caller and handed in.

use vstd::prelude::*;
use vstd::string::*;

use crate::date::Date;
use crate::entry::{dir_entry, entry_views, law_sorted_by_name, sort_entries, sorted_by_name, DirEntry, EntryView};
use crate::numeral::{decimal, decimal_text};
use crate::paths::{basename, basename_of, i_view_path, recycle_path_of};
use crate::system_trash::{
    content_name, filenum_100ns, filetime_of, i_to_r_name, is_i_entry, names_record, r_to_i_name,
    record_bytes, record_len, record_name, synthesized_i_bytes, synthesized_i_len, MatchView,
    SystemTrashMatch, SystemTrashPlatform,
};
use crate::text::{
    concat2, has_prefix, law_prefix_and_rest, replace, replace_char, same_text, split_on, split_text, starts_with_text,
    trim_both, trim_char, views,
};
use crate::tombstone::{
    decode_tombstone_key, encode_tombstone_key, tomb_view, tomb_views, tombstone_name,
    tombstone_parts, word,
};
use crate::trash::TrashState;

verus! {

/// The most bytes of a captured record that are kept.
pub const MAX_RECYCLE_I_BYTES: usize = 4096;

/// What a tombstone holds.
#[derive(Debug)]
pub struct TombstoneBody {
    /// The entity tag of the deleted file.
    pub etag: Option<String>,
    /// The size of the deleted file.
    pub size: Option<u64>,
    pub is_dir: bool,
    /// The name of the entry in the recycle bin, where it is not the key's.
    pub recycle_name: Option<String>,
    /// The record that the system wrote for the entry.
    pub recycle_i: Option<Vec<u8>>,
}

/// An entry of the recycle bin and the tombstone that it stands for.
#[derive(Debug)]
pub struct ResolvedEntry {
    pub original_key: String,
    pub tomb_key: String,
    pub is_dir: bool,
}

/// A key, the key of its tombstone, and whether it is a directory.
#[verifier::ext_equal]
pub struct ResolvedView {
    pub original_key: Seq<char>,
    pub tomb_key: Seq<char>,
    pub is_dir: bool,
}

impl ResolvedEntry {
    pub open spec fn view(&self) -> ResolvedView {
        ResolvedView { original_key: self.original_key@, tomb_key: self.tomb_key@, is_dir: self.is_dir }
    }
}

/// What is known of an entry without reading a tombstone.
pub enum Resolution {
    Found(ResolvedEntry),
    Missing,
    /// The tombstones have to be read until one bears the name.
    Scan,
}

/// The entry at a position is the one that a name stands for by its key: its
/// key ends with the name, no such entry is later, and none before it is of
/// the same date.
pub open spec fn is_latest_named(entries: Seq<(Seq<char>, bool, Date)>, name: Seq<char>, at: int) -> bool {
    &&& 0 <= at < entries.len()
    &&& basename_of(entries[at].0) == name
    &&& forall|k: int|
        0 <= k < entries.len() && basename_of((#[trigger] entries[k]).0) == name ==> entries[k].2.day()
            <= entries[at].2.day()
    &&& forall|k: int|
        0 <= k < at && basename_of((#[trigger] entries[k]).0) == name ==> entries[k].2.day()
            < entries[at].2.day()
}

/// No entry's key ends with the name.
pub open spec fn none_named(entries: Seq<(Seq<char>, bool, Date)>, name: Seq<char>) -> bool {
    forall|k: int| 0 <= k < entries.len() ==> basename_of((#[trigger] entries[k]).0) != name
}

impl TrashState {
    /// The tombstone that a recorded name stands for.
    pub open spec fn by_recorded_name(&self, name: Seq<char>) -> Option<ResolvedView> {
        if self.recycle_names@.by_name.dom().contains(name) {
            let tomb_key = self.recycle_names@.by_name[name];
            match tombstone_parts(self.prefix@, tomb_key) {
                Some((_day, key)) => Some(
                    ResolvedView { original_key: key, tomb_key, is_dir: key.len() > 0 && key.last() == '/' },
                ),
                None => None,
            }
        } else {
            None
        }
    }

    /// An entry of the index as what a name stands for.
    pub open spec fn resolved_at(&self, e: (Seq<char>, bool, Date)) -> ResolvedView {
        ResolvedView {
            original_key: e.0,
            tomb_key: tombstone_name(self.prefix@, e.2.number(), e.0, e.1),
            is_dir: e.1,
        }
    }

    fn recorded(&self, name: &str) -> (r: Option<ResolvedEntry>)
        requires
            self.wf(),
        ensures
            r is Some <==> self.by_recorded_name(name@) is Some,
            r matches Some(e) ==> self.by_recorded_name(name@) == Some(e@),
    {
        match self.recycle_names.tomb_of(name) {
            Some(tomb_key) => match decode_tombstone_key(self.prefix.as_str(), tomb_key.as_str()) {
                Some(t) => Some(
                    ResolvedEntry { original_key: t.original_key, tomb_key, is_dir: t.is_dir },
                ),
                None => None,
            },
            None => None,
        }
    }

    fn latest_named(&self, name: &str) -> (r: Option<ResolvedEntry>)
        requires
            self.wf(),
        ensures
            r is None <==> none_named(self.index.spec_entries(), name@),
            r matches Some(e) ==> exists|at: int| #[trigger]
                is_latest_named(self.index.spec_entries(), name@, at) && e@ == self.resolved_at(
                    self.index.spec_entries()[at],
                ),
    {
        let all = self.index.entries();
        let ghost entries = self.index.spec_entries();
        proof {
            assert forall|k: int| 0 <= k < entries.len() implies #[trigger] entries[k] == tomb_view(all@[k]) by {}
        }
        let mut best: Option<usize> = None;
        let mut i: usize = 0;
        while i < all.len()
            invariant
                i <= all@.len(),
                entries.len() == all@.len(),
                forall|k: int| 0 <= k < entries.len() ==> #[trigger] entries[k] == tomb_view(all@[k]),
                best is None ==> forall|k: int|
                    0 <= k < i ==> basename_of((#[trigger] entries[k]).0) != name@,
                best matches Some(at) ==> {
                    &&& at < i
                    &&& basename_of(entries[at as int].0) == name@
                    &&& forall|k: int|
                        0 <= k < i && basename_of((#[trigger] entries[k]).0) == name@
                            ==> entries[k].2.day() <= entries[at as int].2.day()
                    &&& forall|k: int|
                        0 <= k < at && basename_of((#[trigger] entries[k]).0) == name@
                            ==> entries[k].2.day() < entries[at as int].2.day()
                },
            decreases all.len() - i,
        {
            assert(entries[i as int] == tomb_view(all@[i as int]));
            let base = basename(all[i].0.as_str());
            if same_text(base.as_str(), name) {
                let better = match best {
                    Some(at) => all[i].2.later_than(&all[at].2),
                    None => true,
                };
                if better {
                    best = Some(i);
                }
            }
            i = i + 1;
        }
        match best {
            Some(at) => {
                let t = &all[at];
                let tomb_key = encode_tombstone_key(self.prefix.as_str(), t.2, t.0.as_str(), t.1);
                let r = ResolvedEntry { original_key: t.0.clone(), tomb_key, is_dir: t.1 };
                proof {
                    assert(is_latest_named(entries, name@, at as int));
                    assert(r@ =~= self.resolved_at(entries[at as int]));
                }
                Some(r)
            },
            None => None,
        }
    }

    /// What an entry stands for, as far as that is known without reading a
    /// tombstone: a recorded name first; on macOS then the latest entry whose
    /// key ends with the name.
    pub fn resolve_entry(&self, name: &str) -> (r: Resolution)
        requires
            self.wf(),
        ensures
            self.system is None ==> r is Missing,
            self.system is Some && self.by_recorded_name(name@) is Some ==> {
                r matches Resolution::Found(e) && self.by_recorded_name(name@) == Some(e@)
            },
            self.system is Some && self.by_recorded_name(name@) is None && self.windows() ==> r is Scan,
            self.system is Some && self.by_recorded_name(name@) is None && !self.windows() ==> {
                if none_named(self.index.spec_entries(), name@) {
                    r is Missing
                } else {
                    r matches Resolution::Found(e) && exists|at: int| #[trigger]
                        is_latest_named(self.index.spec_entries(), name@, at) && e@
                            == self.resolved_at(self.index.spec_entries()[at])
                }
            },
    {
        let platform = match &self.system {
            Some(sys) => sys.platform,
            None => {
                return Resolution::Missing;
            },
        };
        match self.recorded(name) {
            Some(e) => Resolution::Found(e),
            None => if platform == SystemTrashPlatform::WindowsRecycleBin {
                Resolution::Scan
            } else {
                match self.latest_named(name) {
                    Some(e) => Resolution::Found(e),
                    None => Resolution::Missing,
                }
            },
        }
    }

    /// The entries of the index whose names in the recycle bin are not known
    /// yet, in their order: those whose tombstones a search for a name has to
    /// read.
    pub fn unnamed_entries(&self) -> (r: Vec<(String, bool, Date)>)
        requires
            self.wf(),
        ensures
            tomb_views(r@) == self.index.spec_entries().filter(
                |e: (Seq<char>, bool, Date)| !self.recycle_names@.by_key.dom().contains(e.0),
            ),
    {
        let all = self.index.entries();
        let ghost entries = self.index.spec_entries();
        let ghost keep = |e: (Seq<char>, bool, Date)| !self.recycle_names@.by_key.dom().contains(e.0);
        let mut out: Vec<(String, bool, Date)> = Vec::new();
        let mut i: usize = 0;
        proof {
            reveal(Seq::filter);
            assert(entries.subrange(0, 0).filter(keep) =~= Seq::<(Seq<char>, bool, Date)>::empty());
            assert(tomb_views(out@) =~= Seq::<(Seq<char>, bool, Date)>::empty());
        }
        while i < all.len()
            invariant
                i <= all@.len(),
                self.wf(),
                entries == tomb_views(all@),
                keep == (|e: (Seq<char>, bool, Date)| !self.recycle_names@.by_key.dom().contains(e.0)),
                tomb_views(out@) == entries.subrange(0, i as int).filter(keep),
            decreases all.len() - i,
        {
            proof {
                reveal(Seq::filter);
                let upto = entries.subrange(0, i + 1);
                assert(upto.drop_last() =~= entries.subrange(0, i as int));
                assert(upto.last() == tomb_view(all@[i as int]));
            }
            let t = &all[i];
            if self.recycle_names.name_of(t.0.as_str()).is_none() {
                let ghost before = out@;
                out.push((t.0.clone(), t.1, t.2));
                proof {
                    assert(tomb_views(out@) =~= tomb_views(before).push(tomb_view(*t)));
                }
            }
            i = i + 1;
        }
        proof {
            assert(entries.subrange(0, entries.len() as int) =~= entries);
        }
        out
    }

    /// The tombstone of an entry of the index.
    pub fn tomb_of_entry(&self, e: &(String, bool, Date)) -> (r: String)
        ensures
            r@ == tombstone_name(self.prefix@, e.2.number(), e.0@, e.1),
    {
        encode_tombstone_key(self.prefix.as_str(), e.2, e.0.as_str(), e.1)
    }

    /// Takes the name read from the tombstone of an entry, in the search for
    /// what `wanted` stands for. The name is remembered; the entry is found
    /// where it bears the name.
    pub fn scan_step(&mut self, e: &(String, bool, Date), recycle_name: Option<&str>, wanted: &str) -> (r: Option<ResolvedEntry>)
        requires
            old(self).wf(),
        ensures
            final(self).wf(),
            *final(self) == (TrashState { recycle_names: final(self).recycle_names, ..*old(self) }),
            final(self).recycle_names@ == match recycle_name {
                Some(name) => old(self).recycle_names@.learned(
                    tombstone_name(old(self).prefix@, e.2.number(), e.0@, e.1),
                    e.0@,
                    name@,
                ),
                None => old(self).recycle_names@,
            },
            r is Some <==> recycle_name is Some && recycle_name->0@ == wanted@,
            r matches Some(found) ==> found@ == old(self).resolved_at(tomb_view(*e)),
    {
        match recycle_name {
            Some(name) => {
                let tomb_key = self.tomb_of_entry(e);
                self.recycle_names.learn(tomb_key.as_str(), e.0.as_str(), name);
                if same_text(name, wanted) {
                    let r = ResolvedEntry { original_key: e.0.clone(), tomb_key, is_dir: e.1 };
                    proof {
                        assert(r@ =~= old(self).resolved_at(tomb_view(*e)));
                    }
                    Some(r)
                } else {
                    None
                }
            },
            None => None,
        }
    }

    /// Whether the record of an entry can be taken down: the entry that it
    /// describes is known.
    pub fn i_entry_has_r_tombstone(&self, name: &str) -> (r: bool)
        requires
            self.wf(),
        ensures
            r == (names_record(name@) && self.recycle_names@.by_name.dom().contains(content_name(name@))),
    {
        match i_to_r_name(name) {
            Some(r_name) => self.recycle_names.by_name.contains_key(r_name.as_str()),
            None => false,
        }
    }

    /// The path that the record of an entry tells.
    pub open spec fn record_path(&self, mount_prefix: Seq<char>, name: Seq<char>) -> Seq<char> {
        match self.by_recorded_name(name) {
            Some(e) => recycle_path_of(mount_prefix, e.original_key),
            None => "C:"@ + seq!['\\'] + replace_char(name, '/', '\\'),
        }
    }

    fn i_path(&self, mount_prefix: &str, name: &str) -> (r: String)
        requires
            self.wf(),
        ensures
            r@ == self.record_path(mount_prefix@, name@),
    {
        match self.recorded(name) {
            Some(e) => i_view_path(mount_prefix, e.original_key.as_str()),
            None => {
                let tail = replace(name, '/', '\\');
                let mut r = "C:".to_owned();
                r.push('\\');
                r.append(tail.as_str());
                proof {
                    assert(r@ =~= "C:"@ + seq!['\\'] + replace_char(name@, '/', '\\'));
                }
                r
            },
        }
    }
}

/// The parts of the bin that its root lists, as texts.
pub open spec fn uid_texts(uids: Seq<u32>) -> Seq<EntryView> {
    uids.map_values(|u: u32| dir_entry(decimal(u as nat)))
}

/// The keys of a set as directories.
pub open spec fn key_dirs(keys: Seq<Seq<char>>) -> Seq<EntryView> {
    keys.map_values(|k: Seq<char>| dir_entry(k))
}

impl TrashState {
    /// The listing of the root of the recycle bin: on Windows the parts that
    /// were seen, on macOS those of the users whose entries are shown.
    pub open spec fn root_entries(&self) -> Seq<EntryView> {
        match self.system {
            Some(sys) => if sys.platform == SystemTrashPlatform::WindowsRecycleBin {
                sorted_by_name(key_dirs(self.seen_sids.keys()))
            } else if sys.macos_uid_dirs@.len() == 0 {
                sorted_by_name(uid_texts(seq![sys.current_uid]))
            } else {
                sorted_by_name(uid_texts(sys.macos_uid_dirs@))
            },
            None => Seq::empty(),
        }
    }

    fn uid_entries(uids: &Vec<u32>) -> (r: Vec<DirEntry>)
        ensures
            entry_views(r@) == uid_texts(uids@),
    {
        let mut out: Vec<DirEntry> = Vec::new();
        let mut i: usize = 0;
        while i < uids.len()
            invariant
                i <= uids@.len(),
                out@.len() == i,
                forall|k: int| 0 <= k < i ==> (#[trigger] out@[k])@ == uid_texts(uids@)[k],
            decreases uids.len() - i,
        {
            out.push(DirEntry::directory(decimal_text(uids[i] as u64)));
            i = i + 1;
        }
        proof {
            assert(entry_views(out@) =~= uid_texts(uids@));
        }
        out
    }

    /// The listing of the root of the recycle bin.
    pub fn list_root(&self) -> (r: Vec<DirEntry>)
        requires
            self.wf(),
        ensures
            entry_views(r@) == self.root_entries(),
    {
        let sys = match &self.system {
            Some(sys) => sys,
            None => {
                let none: Vec<DirEntry> = Vec::new();
                proof {
                    assert(entry_views(none@) =~= Seq::<EntryView>::empty());
                }
                return none;
            },
        };
        if sys.platform == SystemTrashPlatform::WindowsRecycleBin {
            let mut out: Vec<DirEntry> = Vec::new();
            let n: usize = self.seen_sids.len();
            let mut i: usize = 0;
            while i < n
                invariant
                    i <= n,
                    n == self.seen_sids.spec_entries().len(),
                    self.seen_sids.wf(),
                    out@.len() == i,
                    forall|k: int| 0 <= k < i ==> (#[trigger] out@[k])@ == key_dirs(self.seen_sids.keys())[k],
                decreases n - i,
            {
                out.push(DirEntry::directory(self.seen_sids.entry_at(i).0.clone()));
                i = i + 1;
            }
            proof {
                assert(entry_views(out@) =~= key_dirs(self.seen_sids.keys()));
            }
            sort_entries(out)
        } else if sys.macos_uid_dirs.len() == 0 {
            let mut one: Vec<u32> = Vec::new();
            one.push(sys.current_uid);
            proof {
                assert(one@ =~= seq![sys.current_uid]);
            }
            sort_entries(TrashState::uid_entries(&one))
        } else {
            sort_entries(TrashState::uid_entries(&sys.macos_uid_dirs))
        }
    }
}

/// An entry of a listing in the making.
#[derive(Debug)]
pub struct PendingEntry {
    pub key: String,
    pub name: String,
    pub date: Date,
    pub is_dir: bool,
    /// The name has to be read from the tombstone.
    pub cold: bool,
}

/// An entry of a listing in the making.
#[verifier::ext_equal]
pub struct PendingView {
    pub key: Seq<char>,
    pub name: Seq<char>,
    pub date: Date,
    pub is_dir: bool,
    pub cold: bool,
}

impl PendingEntry {
    pub open spec fn view(&self) -> PendingView {
        PendingView {
            key: self.key@,
            name: self.name@,
            date: self.date,
            is_dir: self.is_dir,
            cold: self.cold,
        }
    }
}

/// What a listing in the making says.
pub open spec fn pending_views(p: Seq<PendingEntry>) -> Seq<PendingView> {
    p.map_values(|e: PendingEntry| e@)
}

impl TrashState {
    /// The key lies in another user's part of the bin, so that the part
    /// listed does not show it.
    pub open spec fn foreign(&self, mount_prefix: Seq<char>, dir: Seq<char>, key: Seq<char>) -> bool {
        let parts = split_on(trim_both(dir, '/'), '/');
        let space = mount_prefix + parts[0] + seq!['/'];
        let own = space + parts[1] + seq!['/'];
        !self.windows() && parts.len() >= 2 && has_prefix(key, space) && !has_prefix(key, own)
    }

    /// How an entry of the index is listed: under its recorded name, or by
    /// the last component of its key; on Windows its name is then to be read
    /// from the tombstone.
    pub open spec fn pending_of(&self, e: (Seq<char>, bool, Date)) -> PendingView {
        let named = self.recycle_names@.by_key.dom().contains(e.0);
        PendingView {
            key: e.0,
            name: if named {
                self.recycle_names@.by_key[e.0]
            } else {
                basename_of(e.0)
            },
            date: e.2,
            is_dir: e.1,
            cold: self.windows() && !named,
        }
    }

    /// The listing of a user's part before any tombstone is read.
    pub open spec fn part_pending(&self, mount_prefix: Seq<char>, dir: Seq<char>) -> Seq<PendingView> {
        self.index.spec_entries().filter(
            |e: (Seq<char>, bool, Date)| !self.foreign(mount_prefix, dir, e.0),
        ).map_values(|e: (Seq<char>, bool, Date)| self.pending_of(e))
    }

    fn pending_entry(&self, t: &(String, bool, Date)) -> (r: PendingEntry)
        requires
            self.wf(),
        ensures
            r@ == self.pending_of(tomb_view(*t)),
    {
        let windows = self.wants_names();
        match self.recycle_names.name_of(t.0.as_str()) {
            Some(name) => PendingEntry { key: t.0.clone(), name, date: t.2, is_dir: t.1, cold: false },
            None => {
                let name = basename(t.0.as_str());
                PendingEntry { key: t.0.clone(), name, date: t.2, is_dir: t.1, cold: windows }
            },
        }
    }

    /// Begins the listing of a user's part.
    pub fn begin_part(&self, mount_prefix: &str, dir: &str) -> (r: Vec<PendingEntry>)
        requires
            self.wf(),
        ensures
            pending_views(r@) == self.part_pending(mount_prefix@, dir@),
    {
        let windows = self.wants_names();
        let trimmed = trim_char(dir, '/');
        let parts = split_text(trimmed.as_str(), '/');
        let ghost gparts = split_on(trim_both(dir@, '/'), '/');
        proof {
            crate::system_trash::lemma_split_some(trim_both(dir@, '/'), '/');
            assert(parts@.len() == gparts.len());
            assert(views(parts@)[0] == parts@[0]@);
            if gparts.len() >= 2 {
                assert(views(parts@)[1] == parts@[1]@);
            }
        }
        let mut space = concat2(mount_prefix, parts[0].as_str());
        space.push('/');
        let mut own = space.clone();
        if parts.len() >= 2 {
            own.append(parts[1].as_str());
            own.push('/');
        }
        let narrow = !windows && parts.len() >= 2;
        proof {
            assert(space@ =~= mount_prefix@ + gparts[0] + seq!['/']);
            if gparts.len() >= 2 {
                assert(own@ =~= space@ + gparts[1] + seq!['/']);
            }
        }
        let all = self.index.entries();
        let ghost entries = self.index.spec_entries();
        let ghost shown = |e: (Seq<char>, bool, Date)| !self.foreign(mount_prefix@, dir@, e.0);
        let ghost listed = |e: (Seq<char>, bool, Date)| self.pending_of(e);
        let mut out: Vec<PendingEntry> = Vec::new();
        let mut i: usize = 0;
        proof {
            reveal(Seq::filter);
            assert(entries.subrange(0, 0).filter(shown).map_values(listed) =~= Seq::<PendingView>::empty());
            assert(pending_views(out@) =~= Seq::<PendingView>::empty());
        }
        while i < all.len()
            invariant
                i <= all@.len(),
                self.wf(),
                entries == tomb_views(all@),
                windows == self.windows(),
                gparts == split_on(trim_both(dir@, '/'), '/'),
                narrow == (!windows && gparts.len() >= 2),
                narrow ==> space@ == mount_prefix@ + gparts[0] + seq!['/'],
                narrow ==> own@ == space@ + gparts[1] + seq!['/'],
                shown == (|e: (Seq<char>, bool, Date)| !self.foreign(mount_prefix@, dir@, e.0)),
                listed == (|e: (Seq<char>, bool, Date)| self.pending_of(e)),
                pending_views(out@) == entries.subrange(0, i as int).filter(shown).map_values(listed),
            decreases all.len() - i,
        {
            let t = &all[i];
            proof {
                reveal(Seq::filter);
                let upto = entries.subrange(0, i + 1);
                assert(upto.drop_last() =~= entries.subrange(0, i as int));
                assert(upto.last() == tomb_view(*t));
                let before = entries.subrange(0, i as int).filter(shown);
                assert(before.push(upto.last()).map_values(listed) =~= before.map_values(listed).push(listed(upto.last())));
            }
            let skip = narrow && starts_with_text(t.0.as_str(), space.as_str()) && !starts_with_text(
                t.0.as_str(),
                own.as_str(),
            );
            if !skip {
                let ghost before = out@;
                let p = self.pending_entry(t);
                out.push(p);
                proof {
                    assert(pending_views(out@) =~= pending_views(before).push(p@));
                }
            }
            i = i + 1;
        }
        proof {
            assert(entries.subrange(0, entries.len() as int) =~= entries);
        }
        out
    }

    /// Takes the name read from the tombstone of an entry that is to be
    /// listed: the entry is listed under it, and it is remembered. An entry
    /// whose tombstone bears no name keeps that of its key.
    pub fn fill_part(&mut self, pending: &mut Vec<PendingEntry>, at: usize, recycle_name: Option<&str>)
        requires
            old(self).wf(),
            at < old(pending)@.len(),
        ensures
            final(self).wf(),
            *final(self) == (TrashState { recycle_names: final(self).recycle_names, ..*old(self) }),
            recycle_name is None ==> final(pending)@ == old(pending)@ && final(self).recycle_names@
                == old(self).recycle_names@,
            recycle_name matches Some(name) ==> {
                let p = old(pending)@[at as int]@;
                &&& pending_views(final(pending)@) == pending_views(old(pending)@).update(
                    at as int,
                    (PendingView { name: name@, ..p }),
                )
                &&& final(self).recycle_names@ == old(self).recycle_names@.learned(
                    tombstone_name(old(self).prefix@, p.date.number(), p.key, p.is_dir),
                    p.key,
                    name@,
                )
            },
    {
        match recycle_name {
            Some(name) => {
                let ghost before = pending@;
                let p = &pending[at];
                let tomb_key = encode_tombstone_key(self.prefix.as_str(), p.date, p.key.as_str(), p.is_dir);
                self.recycle_names.learn(tomb_key.as_str(), p.key.as_str(), name);
                let renamed = PendingEntry {
                    key: p.key.clone(),
                    name: name.to_owned(),
                    date: p.date,
                    is_dir: p.is_dir,
                    cold: p.cold,
                };
                pending.set(at, renamed);
                proof {
                    assert(pending_views(pending@) =~= pending_views(before).update(at as int, renamed@));
                }
            },
            None => {},
        }
    }

    /// The entries that a listing shows for those in the making.
    pub open spec fn plain_entries(pending: Seq<PendingView>) -> Seq<EntryView> {
        pending.map_values(
            |p: PendingView| EntryView { name: p.name, is_dir: p.is_dir, size: 0, mtime_secs: 0 },
        )
    }

    /// The record that a listing shows for an entry.
    pub open spec fn record_entry(&self, mount_prefix: Seq<char>, e: EntryView) -> EntryView {
        EntryView {
            name: record_name(e.name),
            is_dir: false,
            size: word(record_len(self.record_path(mount_prefix, e.name))) as u64,
            mtime_secs: 0,
        }
    }

    /// The entry is a file with a record.
    pub open spec fn has_record(e: EntryView) -> bool {
        !e.is_dir && has_prefix(e.name, seq!['$', 'R'])
    }

    /// The listing of a user's part: its entries and, on Windows, the records
    /// of the files among them, sorted by name.
    pub open spec fn part_entries(&self, mount_prefix: Seq<char>, pending: Seq<PendingView>) -> Seq<EntryView> {
        let plain = TrashState::plain_entries(pending);
        if self.windows() {
            sorted_by_name(
                plain + plain.filter(|e: EntryView| TrashState::has_record(e)).map_values(
                    |e: EntryView| self.record_entry(mount_prefix, e),
                ),
            )
        } else {
            sorted_by_name(plain)
        }
    }

    /// Ends the listing of a user's part.
    pub fn finish_part(&self, mount_prefix: &str, pending: &Vec<PendingEntry>) -> (r: Vec<DirEntry>)
        requires
            self.wf(),
        ensures
            entry_views(r@) == self.part_entries(mount_prefix@, pending_views(pending@)),
    {
        let ghost plain = TrashState::plain_entries(pending_views(pending@));
        let mut out: Vec<DirEntry> = Vec::new();
        let mut i: usize = 0;
        while i < pending.len()
            invariant
                i <= pending@.len(),
                plain == TrashState::plain_entries(pending_views(pending@)),
                out@.len() == i,
                forall|k: int| 0 <= k < i ==> (#[trigger] out@[k])@ == plain[k],
            decreases pending.len() - i,
        {
            let p = &pending[i];
            out.push(DirEntry { name: p.name.clone(), is_dir: p.is_dir, size: 0, mtime_secs: 0 });
            i = i + 1;
        }
        proof {
            assert(entry_views(out@) =~= plain);
        }
        if !self.wants_names() {
            return sort_entries(out);
        }
        let n: usize = out.len();
        let ghost has = |e: EntryView| TrashState::has_record(e);
        let ghost rec = |e: EntryView| self.record_entry(mount_prefix@, e);
        let mut j: usize = 0;
        proof {
            reveal(Seq::filter);
            assert(plain + plain.subrange(0, 0).filter(has).map_values(rec) =~= plain);
        }
        while j < n
            invariant
                j <= n,
                n == plain.len(),
                self.wf(),
                has == (|e: EntryView| TrashState::has_record(e)),
                rec == (|e: EntryView| self.record_entry(mount_prefix@, e)),
                out@.len() >= n,
                forall|k: int| 0 <= k < n ==> (#[trigger] out@[k])@ == plain[k],
                entry_views(out@) == plain + plain.subrange(0, j as int).filter(has).map_values(rec),
            decreases n - j,
        {
            proof {
                reveal(Seq::filter);
                let upto = plain.subrange(0, j + 1);
                assert(upto.drop_last() =~= plain.subrange(0, j as int));
                assert(upto.last() == plain[j as int]);
                let before = plain.subrange(0, j as int).filter(has);
                assert(before.push(upto.last()).map_values(rec) =~= before.map_values(rec).push(rec(upto.last())));
                assert(out@[j as int]@ == plain[j as int]);
            }
            if !out[j].is_dir {
                match r_to_i_name(out[j].name.as_str()) {
                    Some(name) => {
                        let path = self.i_path(mount_prefix, out[j].name.as_str());
                        let size: usize = synthesized_i_len(path.as_str());
                        let ghost before = out@;
                        let e = DirEntry { name, is_dir: false, size: size as u64, mtime_secs: 0 };
                        out.push(e);
                        proof {
                            assert(entry_views(out@) =~= entry_views(before).push(e@));
                            let head = plain + plain.subrange(0, j as int).filter(has).map_values(rec);
                            let recs = plain.subrange(0, j as int).filter(has).map_values(rec);
                            assert(head.push(e@) =~= plain + recs.push(e@));
                            assert(e@ == rec(plain[j as int]));
                        }
                    },
                    None => {},
                }
            }
            j = j + 1;
        }
        proof {
            assert(plain.subrange(0, plain.len() as int) =~= plain);
        }
        sort_entries(out)
    }
}

/// How a directory of the recycle bin is listed.
pub enum DirPlan {
    /// This is the listing.
    Done(Vec<DirEntry>),
    /// A user's part, for which tombstones may have to be read.
    Part(Vec<PendingEntry>),
}

/// How the attributes of a path in the recycle bin are found.
pub enum StatPlan {
    /// There is no such entry.
    Absent,
    /// These are they.
    Known(DirEntry),
    /// The record of an entry: its tombstone tells the size.
    ReadRecord { name: String, entry: ResolvedEntry },
    /// A file: its tombstone tells the size.
    ReadSize { name: String, entry: ResolvedEntry },
}

impl TrashState {
    /// How a directory of the recycle bin is listed: the root at once, a
    /// user's part by its entries in the making, and anything else as empty.
    pub fn synthesize_dir_entries(&self, mount_prefix: &str, dir: &str) -> (r: DirPlan)
        requires
            self.wf(),
        ensures
            self.place_of(dir@) == Some(MatchView::Dir(0)) ==> {
                r matches DirPlan::Done(list) && entry_views(list@) == self.root_entries()
            },
            self.place_of(dir@) == Some(MatchView::Dir(1)) ==> {
                r matches DirPlan::Part(list) && pending_views(list@) == self.part_pending(
                    mount_prefix@,
                    dir@,
                )
            },
            self.place_of(dir@) != Some(MatchView::Dir(0)) && self.place_of(dir@) != Some(
                MatchView::Dir(1),
            ) ==> (r matches DirPlan::Done(list) && list@.len() == 0),
    {
        match self.match_system_trash(dir) {
            Some(SystemTrashMatch::Dir { level }) => if level == 0 {
                DirPlan::Done(self.list_root())
            } else if level == 1 {
                DirPlan::Part(self.begin_part(mount_prefix, dir))
            } else {
                DirPlan::Done(Vec::new())
            },
            _ => DirPlan::Done(Vec::new()),
        }
    }

    /// What an entry stands for without reading a tombstone.
    pub open spec fn known_as(&self, name: Seq<char>, e: ResolvedView) -> bool {
        if self.by_recorded_name(name) is Some {
            self.by_recorded_name(name) == Some(e)
        } else {
            !self.windows() && exists|at: int| #[trigger]
                is_latest_named(self.index.spec_entries(), name, at) && e == self.resolved_at(
                    self.index.spec_entries()[at],
                )
        }
    }

    /// Nothing is known of an entry without reading a tombstone.
    pub open spec fn unknown(&self, name: Seq<char>) -> bool {
        self.by_recorded_name(name) is None && (self.windows() || none_named(
            self.index.spec_entries(),
            name,
        ))
    }

    fn known_entry(&self, name: &str) -> (r: Option<ResolvedEntry>)
        requires
            self.wf(),
            self.system is Some,
        ensures
            r is None <==> self.unknown(name@),
            r matches Some(e) ==> self.known_as(name@, e@),
    {
        match self.resolve_entry(name) {
            Resolution::Found(e) => Some(e),
            Resolution::Missing => None,
            Resolution::Scan => None,
        }
    }

    /// How the attributes of a path in the recycle bin are found. An entry
    /// that is not known without reading tombstones counts as absent.
    pub fn synthesize_stat(&self, path: &str) -> (r: StatPlan)
        requires
            self.wf(),
        ensures
            self.place_of(path@) is None ==> r is Absent,
            self.place_of(path@) matches Some(MatchView::Dir(_)) ==> {
                r matches StatPlan::Known(e) && e@ == dir_entry(basename_of(path@))
            },
            self.place_of(path@) matches Some(MatchView::Entry(name)) ==> {
                if self.windows() && names_record(name) {
                    if self.unknown(content_name(name)) {
                        r is Absent
                    } else {
                        r matches StatPlan::ReadRecord { name: n, entry: e } && n@ == name
                            && self.known_as(content_name(name), e@)
                    }
                } else if self.unknown(name) {
                    r is Absent
                } else {
                    match r {
                        StatPlan::Known(e) => e@ == dir_entry(name) && exists|v: ResolvedView|
                            v.is_dir && #[trigger] self.known_as(name, v),
                        StatPlan::ReadSize { name: n, entry: e } => n@ == name && !e.is_dir
                            && self.known_as(name, e@),
                        _ => false,
                    }
                }
            },
    {
        match self.match_system_trash(path) {
            None => StatPlan::Absent,
            Some(SystemTrashMatch::Dir { level: _ }) => StatPlan::Known(
                DirEntry::directory(basename(path)),
            ),
            Some(SystemTrashMatch::Entry { entry_name }) => {
                if self.wants_names() && is_i_entry(entry_name.as_str()) {
                    match i_to_r_name(entry_name.as_str()) {
                        Some(r_name) => match self.known_entry(r_name.as_str()) {
                            Some(entry) => StatPlan::ReadRecord { name: entry_name, entry },
                            None => StatPlan::Absent,
                        },
                        None => StatPlan::Absent,
                    }
                } else {
                    match self.known_entry(entry_name.as_str()) {
                        Some(entry) => if entry.is_dir {
                            let ghost v = entry@;
                            assert(self.known_as(entry_name@, v));
                            StatPlan::Known(DirEntry::directory(entry_name))
                        } else {
                            StatPlan::ReadSize { name: entry_name, entry }
                        },
                        None => StatPlan::Absent,
                    }
                }
            },
        }
    }

    /// The attributes of a path, with what its tombstone holds: the record is
    /// as long as the one captured, or as the one made up for it.
    pub fn finish_stat(&self, mount_prefix: &str, plan: StatPlan, body: Option<&TombstoneBody>) -> (r: Option<DirEntry>)
        ensures
            match plan {
                StatPlan::Absent => r is None,
                StatPlan::Known(e) => r == Some(e),
                StatPlan::ReadRecord { name, entry } => match body {
                    None => r is None,
                    Some(b) => r matches Some(e) && e@ == (EntryView {
                        name: name@,
                        is_dir: false,
                        size: match b.recycle_i {
                            Some(bytes) => bytes@.len() as u64,
                            None => word(record_len(recycle_path_of(mount_prefix@, entry.original_key@))) as u64,
                        },
                        mtime_secs: 0,
                    }),
                },
                StatPlan::ReadSize { name, entry: _ } => match body {
                    None => r is None,
                    Some(b) => r matches Some(e) && e@ == (EntryView {
                        name: name@,
                        is_dir: false,
                        size: match b.size {
                            Some(size) => size,
                            None => 0,
                        },
                        mtime_secs: 0,
                    }),
                },
            },
    {
        match plan {
            StatPlan::Absent => None,
            StatPlan::Known(e) => Some(e),
            StatPlan::ReadRecord { name, entry } => match body {
                None => None,
                Some(b) => {
                    let size: u64 = match &b.recycle_i {
                        Some(bytes) => bytes.len() as u64,
                        None => {
                            let path = i_view_path(mount_prefix, entry.original_key.as_str());
                            synthesized_i_len(path.as_str()) as u64
                        },
                    };
                    Some(DirEntry { name, is_dir: false, size, mtime_secs: 0 })
                },
            },
            StatPlan::ReadSize { name, entry: _ } => match body {
                None => None,
                Some(b) => {
                    let size: u64 = match b.size {
                        Some(size) => size,
                        None => 0,
                    };
                    Some(DirEntry { name, is_dir: false, size, mtime_secs: 0 })
                },
            },
        }
    }

    /// The content of the record of an entry: the one captured, or one made
    /// up of what the tombstone tells.
    pub open spec fn record_content(&self, mount_prefix: Seq<char>, e: ResolvedView, body: TombstoneBody) -> Option<Seq<u8>> {
        match body.recycle_i {
            Some(bytes) => Some(bytes@),
            None => match tombstone_parts(self.prefix@, e.tomb_key) {
                Some((day, _key)) => Some(
                    record_bytes(
                        match body.size {
                            Some(size) => size,
                            None => 0,
                        },
                        filetime_of((day - crate::date::EPOCH_DAY) * crate::date::DAY_SECS),
                        recycle_path_of(mount_prefix, e.original_key),
                    ),
                ),
                None => None,
            },
        }
    }

    /// The content of the record of an entry.
    pub fn synthesize_i_file(&self, mount_prefix: &str, entry: &ResolvedEntry, body: &TombstoneBody) -> (r: Option<Vec<u8>>)
        ensures
            r is Some <==> self.record_content(mount_prefix@, entry@, *body) is Some,
            r matches Some(bytes) ==> self.record_content(mount_prefix@, entry@, *body) == Some(bytes@),
    {
        match &body.recycle_i {
            Some(bytes) => {
                return Some(copy_bytes(bytes, bytes.len()));
            },
            None => {},
        }
        match decode_tombstone_key(self.prefix.as_str(), entry.tomb_key.as_str()) {
            Some(t) => {
                let path = i_view_path(mount_prefix, entry.original_key.as_str());
                let size: u64 = match body.size {
                    Some(size) => size,
                    None => 0,
                };
                let time: u64 = filenum_100ns(t.date);
                proof {
                    t.date.lemma_number();
                }
                Some(synthesized_i_bytes(size, time, path.as_str()))
            },
            None => None,
        }
    }
}

/// The first `n` bytes.
fn copy_bytes(bytes: &Vec<u8>, n: usize) -> (r: Vec<u8>)
    requires
        n <= bytes@.len(),
    ensures
        r@ == bytes@.subrange(0, n as int),
        n == bytes@.len() ==> r@ == bytes@,
{
    let r = crate::caches::copy_range(bytes, 0, n);
    proof {
        assert(n == bytes@.len() ==> bytes@.subrange(0, n as int) =~= bytes@);
    }
    r
}

/// What a tombstone holds after the record of its entry was captured: the
/// first bytes of it, and otherwise what it held before.
pub fn set_recycle_i(body: TombstoneBody, bytes: &Vec<u8>) -> (r: TombstoneBody)
    ensures
        r.etag == body.etag,
        r.size == body.size,
        r.is_dir == body.is_dir,
        r.recycle_name == body.recycle_name,
        r.recycle_i matches Some(kept) && kept@ == bytes@.subrange(
            0,
            if bytes@.len() <= MAX_RECYCLE_I_BYTES { bytes@.len() as int } else { MAX_RECYCLE_I_BYTES as int },
        ),
{
    let n: usize = if bytes.len() <= MAX_RECYCLE_I_BYTES {
        bytes.len()
    } else {
        MAX_RECYCLE_I_BYTES
    };
    TombstoneBody {
        etag: body.etag,
        size: body.size,
        is_dir: body.is_dir,
        recycle_name: body.recycle_name,
        recycle_i: Some(copy_bytes(bytes, n)),
    }
}

/// Whether a conditional write was refused because its object had changed or
/// was gone.
pub fn is_conditional_write_failed(status: u16) -> (r: bool)
    ensures
        r == (status == 412 || status == 404),
{
    status == 412 || status == 404
}

/// A record that was captured is shown with its own length and content.
pub proof fn law_captured_record(trash: &TrashState, mount_prefix: Seq<char>, e: ResolvedView, body: TombstoneBody)
    requires
        body.recycle_i is Some,
    ensures
        trash.record_content(mount_prefix, e, body) == Some(body.recycle_i->0@),
{
}

/// A record that is made up has the length that is shown for it.
pub proof fn law_made_up_record(trash: &TrashState, mount_prefix: Seq<char>, e: ResolvedView, body: TombstoneBody)
    requires
        body.recycle_i is None,
        trash.record_content(mount_prefix, e, body) is Some,
    ensures
        trash.record_content(mount_prefix, e, body)->0.len() == record_len(
            recycle_path_of(mount_prefix, e.original_key),
        ),
{
    let (day, _key) = tombstone_parts(trash.prefix@, e.tomb_key)->0;
    crate::system_trash::law_record_len(
        match body.size {
            Some(size) => size,
            None => 0,
        },
        filetime_of((day - crate::date::EPOCH_DAY) * crate::date::DAY_SECS),
        recycle_path_of(mount_prefix, e.original_key),
    );
}

/// What a recorded name stands for: the key that its tombstone was written for,
/// and whether that is a directory.
pub proof fn law_recorded_name(trash: &TrashState, name: Seq<char>, day: i32, key: Seq<char>)
    requires
        trash.recycle_names@.by_name.dom().contains(name),
        key.len() > 0,
        key.last() != '/',
        crate::calendar::day_in_range(day as int),
    ensures
        trash.recycle_names@.by_name[name] == tombstone_name(trash.prefix@, day, key, false) ==> trash.by_recorded_name(name)
            == Some(
            ResolvedView {
                original_key: key,
                tomb_key: tombstone_name(trash.prefix@, day, key, false),
                is_dir: false,
            },
        ),
        trash.recycle_names@.by_name[name] == tombstone_name(trash.prefix@, day, key, true) ==> trash.by_recorded_name(name)
            == Some(
            ResolvedView {
                original_key: key + seq!['/'],
                tomb_key: tombstone_name(trash.prefix@, day, key, true),
                is_dir: true,
            },
        ),
{
    crate::tombstone::law_tombstone_tells(trash.prefix@, day, key, key);
    assert((key + seq!['/']).last() == '/');
}

/// An entry of the index leads to its own tombstone, which tells its key and its
/// day.
pub proof fn law_resolved_at(trash: &TrashState, key: Seq<char>, date: Date)
    requires
        key.len() > 0,
        key.last() != '/',
        crate::calendar::day_in_range(date.number() as int),
    ensures
        trash.resolved_at((key, false, date)).original_key == key,
        !trash.resolved_at((key, false, date)).is_dir,
        tombstone_parts(trash.prefix@, trash.resolved_at((key, false, date)).tomb_key) == Some((date.number(), key)),
        trash.resolved_at((key + seq!['/'], true, date)).original_key == key + seq!['/'],
        trash.resolved_at((key + seq!['/'], true, date)).is_dir,
        tombstone_parts(trash.prefix@, trash.resolved_at((key + seq!['/'], true, date)).tomb_key) == Some(
            (date.number(), key + seq!['/']),
        ),
{
    crate::tombstone::law_tombstone_roundtrip(trash.prefix@, date.number(), key, false);
    crate::tombstone::law_tombstone_roundtrip(trash.prefix@, date.number(), key + seq!['/'], true);
    assert((key + seq!['/']).last() == '/');
}

/// What the recycle bin shows at its root: on Windows the part of every user who
/// was seen; else those of the users who are named, or of the one who mounted.
pub proof fn law_bin_root(trash: &TrashState, sid: Seq<char>, uid: u32)
    requires
        trash.system is Some,
    ensures
        trash.system->0.platform == SystemTrashPlatform::WindowsRecycleBin && trash.seen_sids.keys().contains(sid)
            ==> trash.root_entries().contains(EntryView { name: sid, is_dir: true, size: 0, mtime_secs: 0 }),
        trash.system->0.platform == SystemTrashPlatform::MacOsTrashes && trash.system->0.macos_uid_dirs@.len() == 0
            ==> trash.root_entries().contains(
            EntryView { name: decimal(trash.system->0.current_uid as nat), is_dir: true, size: 0, mtime_secs: 0 },
        ) && trash.root_entries().len() == 1,
        trash.system->0.platform == SystemTrashPlatform::MacOsTrashes && trash.system->0.macos_uid_dirs@.contains(uid)
            ==> trash.root_entries().contains(
            EntryView { name: decimal(uid as nat), is_dir: true, size: 0, mtime_secs: 0 },
        ),
{
    let sys = trash.system->0;
    if sys.platform == SystemTrashPlatform::WindowsRecycleBin {
        let keys = trash.seen_sids.keys();
        let all = key_dirs(keys);
        if keys.contains(sid) {
            let i = choose|i: int| 0 <= i < keys.len() && keys[i] == sid;
            lemma_sorted_has(all, i);
        }
    } else if sys.macos_uid_dirs@.len() == 0 {
        let all = uid_texts(seq![sys.current_uid]);
        lemma_sorted_has(all, 0);
        law_sorted_by_name(all);
    } else if sys.macos_uid_dirs@.contains(uid) {
        let all = uid_texts(sys.macos_uid_dirs@);
        let i = choose|i: int| 0 <= i < sys.macos_uid_dirs@.len() && sys.macos_uid_dirs@[i] == uid;
        lemma_sorted_has(all, i);
    }
}

proof fn lemma_sorted_has(s: Seq<EntryView>, i: int)
    requires
        0 <= i < s.len(),
    ensures
        sorted_by_name(s).contains(s[i]),
{
    broadcast use vstd::seq_lib::group_to_multiset_ensures;
    law_sorted_by_name(s);
    assert(s.contains(s[i]));
    assert(s.to_multiset().count(s[i]) > 0);
    assert(sorted_by_name(s).to_multiset().count(s[i]) > 0);
}

/// Whose deleted files a part of the recycle bin does not show: on Windows
/// nobody's are left out; else those that lay in the part of another user.
pub proof fn law_foreign(trash: &TrashState, prefix: Seq<char>, bin: Seq<char>, user: Seq<char>, other: Seq<char>, name: Seq<char>, key: Seq<char>)
    requires
        bin.len() > 0 && !bin.contains('/'),
        user.len() > 0 && !user.contains('/'),
        other.len() > 0 && !other.contains('/'),
        user != other,
    ensures
        ({
            let dir = seq!['/'] + (bin + seq!['/'] + user);
            &&& trash.windows() ==> !trash.foreign(prefix, dir, key)
            &&& !trash.windows() ==> trash.foreign(prefix, dir, prefix + bin + seq!['/'] + other + seq!['/'] + name)
            &&& !trash.foreign(prefix, dir, prefix + bin + seq!['/'] + user + seq!['/'] + name)
            &&& (forall|rest: Seq<char>| key != #[trigger] (prefix + bin + seq!['/'] + rest)) ==> !trash.foreign(
                prefix,
                dir,
                key,
            )
        }),
{
    let path = bin + seq!['/'] + user;
    assert(bin.contains(bin[0]) && user.contains(user.last()));
    crate::text::law_trim(seq!['/'], path, Seq::empty(), '/');
    assert(seq!['/'] + path + Seq::<char>::empty() =~= seq!['/'] + path);
    lemma_two_parts(bin, user);
    let space = prefix + bin + seq!['/'];
    let own = space + user + seq!['/'];
    let theirs = space + other + seq!['/'];
    law_prefix_and_rest(space, other + seq!['/'] + name);
    assert(space + (other + seq!['/'] + name) =~= prefix + bin + seq!['/'] + other + seq!['/'] + name);
    law_prefix_and_rest(own, name);
    law_prefix_and_rest(space, key);
    let k = theirs + name;
    if has_prefix(k, own) {
        let n = space.len() as int;
        assert forall|i: int| 0 <= i < own.len() implies k[i] == own[i] by {
            assert(k.subrange(0, own.len() as int)[i] == own[i]);
        }
        if user.len() < other.len() {
            assert(k[n + user.len()] == other[user.len() as int]);
            assert(own[n + user.len()] == '/');
            assert(other.contains(other[user.len() as int]));
        } else if other.len() < user.len() {
            assert(k[n + other.len()] == '/');
            assert(own[n + other.len()] == user[other.len() as int]);
            assert(user.contains(user[other.len() as int]));
        } else {
            assert(user =~= other) by {
                assert forall|i: int| 0 <= i < user.len() implies user[i] == other[i] by {
                    assert(own[n + i] == user[i] && k[n + i] == other[i]);
                }
            }
        }
    }
}

proof fn lemma_two_parts(a: Seq<char>, b: Seq<char>)
    requires
        !a.contains('/'),
        !b.contains('/'),
    ensures
        split_on(a + seq!['/'] + b, '/') == seq![a, b],
{
    let none = Seq::<char>::empty();
    let t = seq!['/'] + b;
    crate::text::lemma_split_on_head(b, none, '/');
    assert(b + none =~= b);
    assert(split_on(none, '/') =~= seq![none]);
    assert(split_on(b, '/') =~= seq![b]);
    crate::text::lemma_split_on_head(a, t, '/');
    assert(a + seq!['/'] + b =~= a + t);
    assert(t.subrange(1, t.len() as int) =~= b);
    assert(split_on(t, '/') =~= seq![none, b]);
    assert(split_on(a + t, '/') =~= seq![a, b]);
}

/// A part of the recycle bin shows everything that is in the trash but what is
/// another user's: under the name that was recorded for it, else under the last
/// name of its key.
pub proof fn law_part_complete(trash: &TrashState, prefix: Seq<char>, dir: Seq<char>, e: (Seq<char>, bool, Date))
    requires
        trash.index.spec_entries().contains(e),
        !trash.foreign(prefix, dir, e.0),
    ensures
        exists|i: int|
            0 <= i < trash.part_pending(prefix, dir).len() && {
                let p = #[trigger] trash.part_pending(prefix, dir)[i];
                &&& p.key == e.0 && p.is_dir == e.1 && p.date == e.2
                &&& trash.recycle_names@.by_key.dom().contains(e.0) ==> p.name == trash.recycle_names@.by_key[e.0] && !p.cold
                &&& !trash.recycle_names@.by_key.dom().contains(e.0) ==> p.name == basename_of(e.0) && p.cold
                    == trash.windows()
            },
{
    broadcast use vstd::seq_lib::group_filter_ensures;
    let all = trash.index.spec_entries();
    let p = |x: (Seq<char>, bool, Date)| !trash.foreign(prefix, dir, x.0);
    let kept = all.filter(p);
    let i = choose|i: int| 0 <= i < all.len() && all[i] == e;
    assert(p(all[i]));
    assert(kept.contains(all[i]));
    let k = choose|k: int| 0 <= k < kept.len() && kept[k] == e;
    assert(trash.part_pending(prefix, dir)[k] == trash.pending_of(e));
}

/// What a part shows: every entry under its name and of its kind; on Windows, for
/// every file whose name begins with `$R`, its record too, under the same name
/// with `$I`, with the length that the record has.
pub proof fn law_part_shows(trash: &TrashState, prefix: Seq<char>, pending: Seq<PendingView>, i: int, rest: Seq<char>)
    requires
        0 <= i < pending.len(),
    ensures
        trash.part_entries(prefix, pending).contains(
            EntryView { name: pending[i].name, is_dir: pending[i].is_dir, size: 0, mtime_secs: 0 },
        ),
        !trash.windows() ==> trash.part_entries(prefix, pending).len() == pending.len(),
        trash.windows() && !pending[i].is_dir && pending[i].name == seq!['$', 'R'] + rest ==> trash.part_entries(
            prefix,
            pending,
        ).contains(
            EntryView {
                name: seq!['$', 'I'] + rest,
                is_dir: false,
                size: word(record_len(trash.record_path(prefix, pending[i].name))) as u64,
                mtime_secs: 0,
            },
        ),
{
    broadcast use vstd::seq_lib::group_filter_ensures;
    let plain = TrashState::plain_entries(pending);
    let has = |e: EntryView| TrashState::has_record(e);
    let rec = |e: EntryView| trash.record_entry(prefix, e);
    let records = plain.filter(has).map_values(rec);
    let e = plain[i];
    law_sorted_by_name(plain);
    if trash.windows() {
        let all = plain + records;
        assert(all[i] == e);
        lemma_sorted_has(all, i);
        if !pending[i].is_dir && pending[i].name == seq!['$', 'R'] + rest {
            law_prefix_and_rest(seq!['$', 'R'], rest);
            assert(has(plain[i]));
            assert(plain.filter(has).contains(plain[i]));
            let k = choose|k: int| 0 <= k < plain.filter(has).len() && plain.filter(has)[k] == e;
            assert(records[k] == rec(e));
            assert(all[plain.len() + k] == rec(e));
            lemma_sorted_has(all, plain.len() + k);
            crate::system_trash::law_record_called(rest);
        }
    } else {
        lemma_sorted_has(plain, i);
    }
}

/// A record that is made up tells the size of the deleted file, the midnight of
/// the day of its deletion, and where it lay.
pub proof fn law_record_tells(trash: &TrashState, prefix: Seq<char>, e: ResolvedView, body: TombstoneBody, size: u64, day: i32, key: Seq<char>)
    requires
        body.recycle_i is None,
        body.size == Some(size),
        tombstone_parts(trash.prefix@, e.tomb_key) == Some((day, key)),
        719_163 - 134_774 <= day < 10_000_000,
        crate::numeral::utf16(recycle_path_of(prefix, e.original_key)).len() < 0x1_0000_0000,
    ensures
        ({
            let bytes = trash.record_content(prefix, e, body)->0;
            let units = crate::numeral::utf16(recycle_path_of(prefix, e.original_key));
            &&& trash.record_content(prefix, e, body) is Some
            &&& crate::numeral::le_value(bytes.subrange(8, 16)) == size
            &&& crate::numeral::le_value(bytes.subrange(16, 24)) == ((day - 719_163) * 86_400 + 11_644_473_600) * 10_000_000
            &&& crate::numeral::le_value(bytes.subrange(24, 28)) == units.len()
            &&& bytes.subrange(28, bytes.len() as int) == crate::system_trash::units_bytes(units)
        }),
{
    let secs = (day - 719_163) * 86_400;
    crate::system_trash::law_filetime(secs);
    crate::system_trash::law_record_layout(size, filetime_of(secs), recycle_path_of(prefix, e.original_key));
}

/// On Windows an entry is known by its recorded name alone; else the latest one
/// whose key ends with the name is meant where none was recorded.
pub proof fn law_known_as(trash: &TrashState, name: Seq<char>, e: ResolvedView, at: int, k: int)
    ensures
        trash.by_recorded_name(name) is Some ==> (trash.known_as(name, e) <==> trash.by_recorded_name(name) == Some(e))
            && !trash.unknown(name),
        trash.by_recorded_name(name) is None && trash.windows() ==> !trash.known_as(name, e) && trash.unknown(name),
        trash.by_recorded_name(name) is None && !trash.windows() && 0 <= k < trash.index.spec_entries().len() && basename_of(
            trash.index.spec_entries()[k].0,
        ) == name ==> !trash.unknown(name),
        is_latest_named(trash.index.spec_entries(), name, at) && 0 <= k < trash.index.spec_entries().len() && basename_of(
            trash.index.spec_entries()[k].0,
        ) == name ==> trash.index.spec_entries()[k].2.day() <= trash.index.spec_entries()[at].2.day() && basename_of(
            trash.index.spec_entries()[at].0,
        ) == name,
{
}

/// The path that a record tells: that of the file behind a recorded name, and
/// else the name itself, behind the drive and with backslashes for slashes.
pub proof fn law_record_path(trash: &TrashState, prefix: Seq<char>, name: Seq<char>, rel: Seq<char>, i: int)
    requires
        0 <= i < rel.len(),
    ensures
        trash.by_recorded_name(name) is Some && trash.by_recorded_name(name)->0.original_key == prefix + rel ==> {
            &&& trash.record_path(prefix, name).len() == 3 + rel.len()
            &&& trash.record_path(prefix, name).subrange(0, 3) == seq!['C', ':', '\\']
            &&& trash.record_path(prefix, name)[3 + i] == (if rel[i] == '/' {
                '\\'
            } else {
                rel[i]
            })
        },
        trash.by_recorded_name(rel) is None ==> {
            &&& trash.record_path(prefix, rel).len() == 3 + rel.len()
            &&& trash.record_path(prefix, rel)[3 + i] == (if rel[i] == '/' {
                '\\'
            } else {
                rel[i]
            })
        },
{
    reveal_strlit("C:");
    crate::paths::law_recycle_path(prefix, rel, i);
}

} // verus!
