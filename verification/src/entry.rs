//! Directory entries and the attributes that a mount shows.

use vstd::prelude::*;
use vstd::string::*;

use crate::text::{lemma_text_less_total, lemma_text_less_transitive, lemma_text_less_irreflexive, place, text_less, Place};

verus! {

/// One entry of a directory.
#[derive(Debug, Clone, PartialEq, Eq)]
pub struct DirEntry {
    pub name: String,
    pub is_dir: bool,
    pub size: u64,
    pub mtime_secs: i64,
}

/// What an entry says.
#[verifier::ext_equal]
pub struct EntryView {
    pub name: Seq<char>,
    pub is_dir: bool,
    pub size: u64,
    pub mtime_secs: i64,
}

impl DirEntry {
    /// What the entry says.
    pub open spec fn view(&self) -> EntryView {
        EntryView { name: self.name@, is_dir: self.is_dir, size: self.size, mtime_secs: self.mtime_secs }
    }

    /// The same entry once more.
    pub fn copy(&self) -> (r: DirEntry)
        ensures
            r@ == self@,
    {
        DirEntry {
            name: self.name.clone(),
            is_dir: self.is_dir,
            size: self.size,
            mtime_secs: self.mtime_secs,
        }
    }

    /// A directory of the given name.
    pub fn directory(name: String) -> (r: DirEntry)
        ensures
            r@ == dir_entry(name@),
    {
        DirEntry { name, is_dir: true, size: 0, mtime_secs: 0 }
    }
}

/// The entry of a directory of which no more than its name is known.
pub open spec fn dir_entry(name: Seq<char>) -> EntryView {
    EntryView { name, is_dir: true, size: 0, mtime_secs: 0 }
}

/// What entries say.
pub open spec fn entry_views(entries: Seq<DirEntry>) -> Seq<EntryView> {
    entries.map_values(|e: DirEntry| e@)
}

/// Owner and permission bits shown for every object of a mount.
#[derive(Debug, Clone, Copy, PartialEq, Eq, Structural)]
pub struct MountAttr {
    pub uid: u32,
    pub gid: u32,
    pub dir_mode: u32,
    pub file_mode: u32,
    pub umask: u32,
}

impl Default for MountAttr {
    /// The mounting user, 755 for directories, 644 for files and no mask.
    fn default() -> (r: Self)
        ensures
            r == (MountAttr { uid: 0, gid: 0, dir_mode: 0o755, file_mode: 0o644, umask: 0 }),
    {
        MountAttr { uid: 0, gid: 0, dir_mode: 0o755, file_mode: 0o644, umask: 0 }
    }
}

/// The owner to show: the configured one, or the mounting user for zero.
pub fn effective_owner(configured: u32, current: u32) -> (r: u32)
    ensures
        r == if configured == 0 { current } else { configured },
{
    if configured == 0 {
        current
    } else {
        configured
    }
}

/// The permission bits of an object: those configured for its kind without
/// those in the mask, as sixteen bits.
pub open spec fn mode_of(is_dir: bool, dir_mode: u32, file_mode: u32, umask: u32) -> u16 {
    ((if is_dir { dir_mode } else { file_mode }) & !umask) as u16
}

/// The permission bits of an object.
pub fn effective_mode(is_dir: bool, dir_mode: u32, file_mode: u32, umask: u32) -> (r: u16)
    ensures
        r == mode_of(is_dir, dir_mode, file_mode, umask),
{
    let base: u32 = if is_dir {
        dir_mode
    } else {
        file_mode
    };
    #[verifier::truncate]
    ((base & !umask) as u16)
}

/// A mode denotes a regular file: of its type bits exactly that one is set.
pub open spec fn regular_file_mode(mode: u32) -> bool {
    mode & 0o170000 == 0o100000
}

/// Whether a mode denotes a regular file.
pub fn is_regular_file_mode(mode: u32) -> (r: bool)
    ensures
        r == regular_file_mode(mode),
{
    mode & 0o170000 == 0o100000
}

/// The seconds since the epoch to show for a modification time: none before
/// the epoch.
pub fn epoch(secs: i64) -> (r: u64)
    ensures
        r == if secs <= 0 { 0 } else { secs as int },
{
    if secs <= 0 {
        0
    } else {
        secs as u64
    }
}

/// An entry put into a sorted list, behind those of the same name.
pub open spec fn put_sorted(s: Seq<EntryView>, e: EntryView) -> Seq<EntryView>
    decreases s.len(),
{
    if s.len() == 0 || !text_less(e.name, s.last().name) {
        s.push(e)
    } else {
        put_sorted(s.drop_last(), e).push(s.last())
    }
}

/// Entries sorted by name; those of the same name stay in their order.
pub open spec fn sorted_by_name(s: Seq<EntryView>) -> Seq<EntryView>
    decreases s.len(),
{
    if s.len() == 0 {
        s
    } else {
        put_sorted(sorted_by_name(s.drop_last()), s.last())
    }
}

/// No entry comes before one that stands left of it.
pub open spec fn in_name_order(s: Seq<EntryView>) -> bool {
    forall|i: int, j: int| 0 <= i < j < s.len() ==> !text_less((#[trigger] s[j]).name, (#[trigger] s[i]).name)
}

proof fn lemma_put_sorted_order(s: Seq<EntryView>, e: EntryView)
    requires
        in_name_order(s),
    ensures
        in_name_order(put_sorted(s, e)),
        put_sorted(s, e).to_multiset() == s.to_multiset().insert(e),
        put_sorted(s, e).len() == s.len() + 1,
        forall|k: int| 0 <= k < put_sorted(s, e).len() ==> put_sorted(s, e)[k] == e || s.contains(#[trigger] put_sorted(s, e)[k]),
    decreases s.len(),
{
    broadcast use vstd::seq_lib::group_to_multiset_ensures;
    let r = put_sorted(s, e);
    if s.len() == 0 || !text_less(e.name, s.last().name) {
        assert forall|i: int, j: int| 0 <= i < j < r.len() implies !text_less((#[trigger] r[j]).name, (#[trigger] r[i]).name) by {
            if j == s.len() && text_less(e.name, s[i].name) {
                if i < s.len() - 1 {
                    assert(!text_less(s[s.len() - 1].name, s[i].name));
                    lemma_text_less_total(s.last().name, s[i].name);
                    if text_less(s[i].name, s.last().name) {
                        lemma_text_less_transitive(e.name, s[i].name, s.last().name);
                    }
                }
            }
        }
    } else {
        let head = s.drop_last();
        assert(in_name_order(head)) by {
            assert forall|i: int, j: int| 0 <= i < j < head.len() implies !text_less((#[trigger] head[j]).name, (#[trigger] head[i]).name) by {
                assert(head[i] == s[i] && head[j] == s[j]);
            }
        }
        lemma_put_sorted_order(head, e);
        let h = put_sorted(head, e);
        assert(r == h.push(s.last()));
        assert(s =~= head.push(s.last()));
        assert forall|i: int, j: int| 0 <= i < j < r.len() implies !text_less((#[trigger] r[j]).name, (#[trigger] r[i]).name) by {
            if j == h.len() {
                if h[i] == e {
                    if text_less(s.last().name, e.name) {
                        lemma_text_less_transitive(s.last().name, e.name, s.last().name);
                        lemma_text_less_irreflexive(s.last().name);
                    }
                } else {
                    assert(head.contains(h[i]));
                    let k = choose|k: int| 0 <= k < head.len() && head[k] == h[i];
                    assert(s[k] == h[i]);
                    assert(!text_less(s[s.len() - 1].name, s[k].name));
                }
            }
        }
        assert forall|k: int| 0 <= k < r.len() implies r[k] == e || s.contains(#[trigger] r[k]) by {
            if k < h.len() && h[k] != e {
                let m = choose|m: int| 0 <= m < head.len() && head[m] == h[k];
                assert(s[m] == r[k]);
            } else if k == h.len() {
                assert(s[s.len() - 1] == r[k]);
            }
        }
    }
}

/// Sorting puts entries in the order of their names and keeps every one.
pub proof fn law_sorted_by_name(s: Seq<EntryView>)
    ensures
        in_name_order(sorted_by_name(s)),
        sorted_by_name(s).to_multiset() == s.to_multiset(),
        sorted_by_name(s).len() == s.len(),
    decreases s.len(),
{
    broadcast use vstd::seq_lib::group_to_multiset_ensures;
    if s.len() > 0 {
        law_sorted_by_name(s.drop_last());
        lemma_put_sorted_order(sorted_by_name(s.drop_last()), s.last());
        assert(s =~= s.drop_last().push(s.last()));
    }
}

proof fn lemma_put_sorted_at(s: Seq<EntryView>, e: EntryView, at: int)
    requires
        0 <= at <= s.len(),
        at > 0 ==> !text_less(e.name, s[at - 1].name),
        forall|k: int| at <= k < s.len() ==> text_less(e.name, (#[trigger] s[k]).name),
    ensures
        put_sorted(s, e) == s.insert(at, e),
    decreases s.len(),
{
    if at == s.len() {
        assert(s.insert(at, e) =~= s.push(e));
    } else {
        let head = s.drop_last();
        assert forall|k: int| at <= k < head.len() implies text_less(e.name, (#[trigger] head[k]).name) by {
            assert(head[k] == s[k]);
        }
        assert(text_less(e.name, s[s.len() - 1].name));
        lemma_put_sorted_at(head, e, at);
        assert(head.insert(at, e).push(s.last()) =~= s.insert(at, e));
    }
}

/// The entries sorted by name.
pub fn sort_entries(entries: Vec<DirEntry>) -> (r: Vec<DirEntry>)
    ensures
        entry_views(r@) == sorted_by_name(entry_views(entries@)),
{
    let mut out: Vec<DirEntry> = Vec::new();
    let ghost all = entry_views(entries@);
    let mut i: usize = 0;
    proof {
        assert(all.subrange(0, 0) =~= Seq::<EntryView>::empty());
        assert(entry_views(out@) =~= Seq::<EntryView>::empty());
    }
    while i < entries.len()
        invariant
            i <= entries@.len(),
            all == entry_views(entries@),
            entry_views(out@) == sorted_by_name(all.subrange(0, i as int)),
        decreases entries.len() - i,
    {
        proof {
            let upto = all.subrange(0, i + 1);
            assert(upto.drop_last() =~= all.subrange(0, i as int));
            assert(upto.last() == entries@[i as int]@);
        }
        let e = entries[i].copy();
        let mut at: usize = out.len();
        while at > 0 && place(e.name.as_str(), out[at - 1].name.as_str()) == Place::Before
            invariant
                at <= out@.len(),
                forall|k: int| at <= k < out@.len() ==> text_less(e.name@, (#[trigger] out@[k]).name@),
            decreases at,
        {
            at = at - 1;
        }
        let ghost before = out@;
        proof {
            let s = entry_views(before);
            assert forall|k: int| at <= k < s.len() implies text_less(e@.name, (#[trigger] s[k]).name) by {
                assert(s[k] == before[k]@);
            }
            if at > 0 {
                assert(s[at - 1] == before[at - 1]@);
            }
            lemma_put_sorted_at(s, e@, at as int);
        }
        out.insert(at, e);
        proof {
            assert(entry_views(out@) =~= entry_views(before).insert(at as int, e@));
        }
        i = i + 1;
    }
    proof {
        assert(all.subrange(0, all.len() as int) =~= all);
    }
    out
}

/// The permissions of an entry are those of its kind, without what the mask
/// takes away.
pub proof fn law_mode(dir_mode: u32, file_mode: u32, umask: u32)
    requires
        dir_mode <= 0o7777,
        file_mode <= 0o7777,
    ensures
        mode_of(true, dir_mode, file_mode, 0) == dir_mode,
        mode_of(false, dir_mode, file_mode, 0) == file_mode,
        mode_of(true, dir_mode, file_mode, umask) == dir_mode & !umask,
        mode_of(false, dir_mode, file_mode, umask) == file_mode & !umask,
        umask <= 0o7777 ==> mode_of(false, dir_mode, file_mode, umask) & (umask as u16) == 0,
{
    assert(dir_mode & !0u32 == dir_mode) by (bit_vector);
    assert(file_mode & !0u32 == file_mode) by (bit_vector);
    assert(dir_mode <= 0o7777 ==> dir_mode & !umask <= 0o7777) by (bit_vector);
    assert(file_mode <= 0o7777 ==> file_mode & !umask <= 0o7777) by (bit_vector);
    assert(umask <= 0o7777 && file_mode <= 0o7777 ==> ((file_mode & !umask) as u16) & (umask as u16) == 0) by (bit_vector);
}

/// A regular file is told by the bits of its kind, whatever its permissions.
pub proof fn law_regular(perm: u32)
    requires
        perm <= 0o7777,
    ensures
        regular_file_mode(0o100000 | perm),
        !regular_file_mode(0o040000 | perm),
        !regular_file_mode(0o120000 | perm),
        !regular_file_mode(0o010000 | perm),
{
    assert(perm <= 0o7777 ==> (0o100000 | perm) & 0o170000 == 0o100000) by (bit_vector);
    assert(perm <= 0o7777 ==> (0o040000 | perm) & 0o170000 != 0o100000) by (bit_vector);
    assert(perm <= 0o7777 ==> (0o120000 | perm) & 0o170000 != 0o100000) by (bit_vector);
    assert(perm <= 0o7777 ==> (0o010000 | perm) & 0o170000 != 0o100000) by (bit_vector);
}

} // verus!
