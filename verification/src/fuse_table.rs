//! The state of the FUSE mount: the paths behind inode numbers, the open
//! files, and what the kernel is told about them.

use std::collections::{HashMap, HashSet};

use vstd::prelude::*;
use vstd::std_specs::hash::*;
use vstd::string::*;

use crate::budget::{units_of, BudgetError, DirtyBudget, DirtyPermit};
use crate::checksum::{inode_for_path, inode_of, ROOT_INODE};
use crate::entry::{
    effective_mode, effective_owner, entry_views, epoch, mode_of, DirEntry, EntryView, MountAttr,
};
use crate::fuse_file::{renamed_path, OpenFile};
use crate::paths::{join_path, joined, parent_of, parent_path};
use crate::text::{
    copy_text, lemma_text_less_irreflexive, lemma_text_less_total, lemma_text_less_transitive, place, same_text,
    text_less, Place,
};

verus! {

broadcast use vstd::std_specs::hash::group_hash_axioms;

/// The most directories that are remembered to have been listed.
pub const MAX_TRACKED_DIRS: usize = 8192;

/// The longest name.
pub const NAME_MAX: u32 = 255;

/// The blocks of the pool that is shown as the size of the mount.
pub const STATFS_BLOCKS: u64 = 1_125_899_906_842_624;

/// What the kernel is told about a file.
#[derive(Debug, Clone, Copy, PartialEq, Eq, Structural)]
pub struct FileAttr {
    pub ino: u64,
    pub size: u64,
    pub blocks: u64,
    /// All its times, in seconds since the epoch.
    pub time_secs: u64,
    pub is_dir: bool,
    pub perm: u16,
    pub nlink: u32,
    pub uid: u32,
    pub gid: u32,
    pub blksize: u32,
}

/// Why a request of the kernel is refused.
#[derive(Debug, Clone, Copy, PartialEq, Eq, Structural)]
pub enum FuseError {
    NotFound,
    IsDirectory,
    Exists,
    NotPermitted,
}

/// One item of a directory as the kernel sees it.
#[derive(Debug)]
pub struct DirItem {
    pub name: String,
    pub attr: FileAttr,
}

/// What an item says.
#[verifier::ext_equal]
pub struct ItemView {
    pub name: Seq<char>,
    pub attr: FileAttr,
}

impl DirItem {
    pub open spec fn view(&self) -> ItemView {
        ItemView { name: self.name@, attr: self.attr }
    }
}

/// What items say.
pub open spec fn item_views(items: Seq<DirItem>) -> Seq<ItemView> {
    items.map_values(|i: DirItem| i@)
}

/// An item put into a sorted list, behind those of the same name.
pub open spec fn put_item(s: Seq<ItemView>, i: ItemView) -> Seq<ItemView>
    decreases s.len(),
{
    if s.len() == 0 || !text_less(i.name, s.last().name) {
        s.push(i)
    } else {
        put_item(s.drop_last(), i).push(s.last())
    }
}

/// Items sorted by name; those of the same name stay in their order.
pub open spec fn sorted_items(s: Seq<ItemView>) -> Seq<ItemView>
    decreases s.len(),
{
    if s.len() == 0 {
        s
    } else {
        put_item(sorted_items(s.drop_last()), s.last())
    }
}

/// No item comes before one that stands left of it.
pub open spec fn items_in_order(s: Seq<ItemView>) -> bool {
    forall|i: int, j: int| 0 <= i < j < s.len() ==> !text_less((#[trigger] s[j]).name, (#[trigger] s[i]).name)
}

proof fn lemma_put_item_order(s: Seq<ItemView>, item: ItemView)
    requires
        items_in_order(s),
    ensures
        items_in_order(put_item(s, item)),
        put_item(s, item).to_multiset() == s.to_multiset().insert(item),
        put_item(s, item).len() == s.len() + 1,
{
    broadcast use vstd::seq_lib::group_to_multiset_ensures;
    let at = lemma_item_place(s, item);
    lemma_put_item_at(s, item, at);
    let r = s.insert(at, item);
    assert forall|i: int, j: int| 0 <= i < j < r.len() implies !text_less((#[trigger] r[j]).name, (#[trigger] r[i]).name) by {
        if i == at {
            assert(r[j] == s[j - 1]);
            if text_less(s[j - 1].name, item.name) {
                lemma_text_less_transitive(item.name, s[j - 1].name, item.name);
                lemma_text_less_irreflexive(item.name);
            }
        } else if j == at {
            assert(r[i] == s[i]);
            if text_less(item.name, s[i].name) && i < at - 1 {
                assert(!text_less(s[at - 1].name, s[i].name));
                lemma_text_less_total(s[at - 1].name, s[i].name);
                if text_less(s[i].name, s[at - 1].name) {
                    lemma_text_less_transitive(item.name, s[i].name, s[at - 1].name);
                }
            }
        } else {
            let oi = if i < at {
                i
            } else {
                i - 1
            };
            let oj = if j < at {
                j
            } else {
                j - 1
            };
            assert(r[i] == s[oi] && r[j] == s[oj]);
        }
    }
}

/// Where an item goes in a list that is in order.
proof fn lemma_item_place(s: Seq<ItemView>, item: ItemView) -> (at: int)
    requires
        items_in_order(s),
    ensures
        0 <= at <= s.len(),
        at > 0 ==> !text_less(item.name, s[at - 1].name),
        forall|k: int| at <= k < s.len() ==> text_less(item.name, (#[trigger] s[k]).name),
    decreases s.len(),
{
    if s.len() == 0 || !text_less(item.name, s.last().name) {
        s.len() as int
    } else {
        let head = s.drop_last();
        assert forall|i: int, j: int| 0 <= i < j < head.len() implies !text_less(
            (#[trigger] head[j]).name,
            (#[trigger] head[i]).name,
        ) by {
            assert(head[i] == s[i] && head[j] == s[j]);
        }
        let at = lemma_item_place(head, item);
        assert forall|k: int| at <= k < s.len() implies text_less(item.name, (#[trigger] s[k]).name) by {
            if k < head.len() {
                assert(head[k] == s[k]);
            }
        }
        at
    }
}

/// Sorting puts items in the order of their names and keeps every one.
pub proof fn law_sorted_items(s: Seq<ItemView>)
    ensures
        items_in_order(sorted_items(s)),
        sorted_items(s).to_multiset() == s.to_multiset(),
        sorted_items(s).len() == s.len(),
    decreases s.len(),
{
    broadcast use vstd::seq_lib::group_to_multiset_ensures;
    if s.len() > 0 {
        law_sorted_items(s.drop_last());
        lemma_put_item_order(sorted_items(s.drop_last()), s.last());
        assert(s =~= s.drop_last().push(s.last()));
    }
}

proof fn lemma_put_item_at(s: Seq<ItemView>, i: ItemView, at: int)
    requires
        0 <= at <= s.len(),
        at > 0 ==> !text_less(i.name, s[at - 1].name),
        forall|k: int| at <= k < s.len() ==> text_less(i.name, (#[trigger] s[k]).name),
    ensures
        put_item(s, i) == s.insert(at, i),
    decreases s.len(),
{
    if at == s.len() {
        assert(s.insert(at, i) =~= s.push(i));
    } else {
        let head = s.drop_last();
        assert forall|k: int| at <= k < head.len() implies text_less(i.name, (#[trigger] head[k]).name) by {
            assert(head[k] == s[k]);
        }
        assert(text_less(i.name, s[s.len() - 1].name));
        lemma_put_item_at(head, i, at);
        assert(head.insert(at, i).push(s.last()) =~= s.insert(at, i));
    }
}

/// Puts an item into a sorted list.
fn insert_item(items: &mut Vec<DirItem>, item: DirItem)
    ensures
        item_views(final(items)@) == put_item(item_views(old(items)@), item@),
{
    let mut at: usize = items.len();
    while at > 0 && place(item.name.as_str(), items[at - 1].name.as_str()) == Place::Before
        invariant
            at <= items@.len(),
            items@ == old(items)@,
            forall|k: int| at <= k < items@.len() ==> text_less(item.name@, (#[trigger] items@[k]).name@),
        decreases at,
    {
        at = at - 1;
    }
    let ghost before = items@;
    proof {
        let s = item_views(before);
        assert forall|k: int| at <= k < s.len() implies text_less(item@.name, (#[trigger] s[k]).name) by {
            assert(s[k] == before[k]@);
        }
        if at > 0 {
            assert(s[at - 1] == before[at - 1]@);
        }
        lemma_put_item_at(s, item@, at as int);
    }
    items.insert(at, item);
    proof {
        assert(item_views(items@) =~= item_views(before).insert(at as int, item@));
    }
}

/// The state of a FUSE mount.
pub struct OssFs {
    /// The paths behind inode numbers.
    pub inodes: HashMap<u64, String>,
    /// The directories that have been listed.
    pub dirs: HashSet<u64>,
    /// The open files by their handles.
    pub files: Vec<(u64, OpenFile)>,
    pub next_fh: u64,
    pub uid: u32,
    pub gid: u32,
    pub mount_attr: MountAttr,
    pub ignore_fsync: bool,
}

/// What the kernel is told about an entry of the given inode number.
pub open spec fn attr_for(mount_attr: MountAttr, uid: u32, gid: u32, ino: u64, is_dir: bool, size: u64, mtime_secs: i64) -> FileAttr {
    FileAttr {
        ino,
        size,
        blocks: ((if size <= u64::MAX - 511 {
            size + 511
        } else {
            u64::MAX as int
        }) / 512) as u64,
        time_secs: if mtime_secs <= 0 {
            0
        } else {
            mtime_secs as u64
        },
        is_dir,
        perm: mode_of(is_dir, mount_attr.dir_mode, mount_attr.file_mode, mount_attr.umask),
        nlink: if is_dir {
            2
        } else {
            1
        },
        uid,
        gid,
        blksize: 4096,
    }
}

impl OssFs {
    /// Every number stands for the path that it was made of, and no handle
    /// has been given away twice.
    pub open spec fn wf(&self) -> bool {
        &&& forall|ino: u64| #[trigger]
            self.inodes@.dom().contains(ino) ==> ino == inode_of(self.inodes@[ino]@)
        &&& forall|i: int| 0 <= i < self.files@.len() ==> (#[trigger] self.files@[i]).0 < self.next_fh
        &&& forall|i: int, j: int|
            0 <= i < j < self.files@.len() ==> (#[trigger] self.files@[i]).0 != (#[trigger] self.files@[j]).0
        &&& forall|i: int| 0 <= i < self.files@.len() ==> (#[trigger] self.files@[i]).1.wf()
        &&& self.dirs@.len() <= MAX_TRACKED_DIRS
        &&& self.dirs@.finite()
    }

    /// What the kernel is told about an entry at a path.
    pub open spec fn attr(&self, path: Seq<char>, e: EntryView) -> FileAttr {
        attr_for(self.mount_attr, self.uid, self.gid, inode_of(path), e.is_dir, e.size, e.mtime_secs)
    }

    /// The numbers with that of a path added.
    pub open spec fn registers(&self, path: Seq<char>, after: &OssFs) -> bool {
        after.inode_paths() == self.inode_paths().insert(inode_of(path), path)
    }

    /// The paths behind the numbers.
    pub open spec fn inode_paths(&self) -> Map<u64, Seq<char>> {
        self.inodes@.map_values(|p: String| p@)
    }

    /// A mount of which only the root is known.
    pub fn new(mount_attr: MountAttr, ignore_fsync: bool, current_uid: u32, current_gid: u32) -> (r: OssFs)
        ensures
            r.wf(),
            r.inodes@.dom() == set![ROOT_INODE],
            r.inodes@[ROOT_INODE]@ == seq!['/'],
            r.dirs@ == set![ROOT_INODE],
            r.files@.len() == 0,
            r.next_fh == 1,
            r.uid == if mount_attr.uid == 0 { current_uid } else { mount_attr.uid },
            r.gid == if mount_attr.gid == 0 { current_gid } else { mount_attr.gid },
            r.mount_attr == mount_attr,
            r.ignore_fsync == ignore_fsync,
    {
        let mut inodes: HashMap<u64, String> = HashMap::new();
        let mut root = String::new();
        root.push('/');
        proof {
            assert(root@ =~= seq!['/']);
        }
        let _none = inodes.insert(ROOT_INODE, root);
        let mut dirs: HashSet<u64> = HashSet::new();
        let _new = dirs.insert(ROOT_INODE);
        proof {
            assert(inodes@.dom() =~= set![ROOT_INODE]);
            assert(dirs@ =~= set![ROOT_INODE]);
        }
        OssFs {
            inodes,
            dirs,
            files: Vec::new(),
            next_fh: 1,
            uid: effective_owner(mount_attr.uid, current_uid),
            gid: effective_owner(mount_attr.gid, current_gid),
            mount_attr,
            ignore_fsync,
        }
    }

    /// The path behind a number.
    pub fn path_of(&self, ino: u64) -> (r: Option<String>)
        ensures
            ino == ROOT_INODE ==> (r matches Some(p) && p@ == seq!['/']),
            ino != ROOT_INODE && self.inodes@.dom().contains(ino) ==> (r matches Some(p) && p@ == self.inodes@[ino]@),
            ino != ROOT_INODE && !self.inodes@.dom().contains(ino) ==> r is None,
    {
        if ino == ROOT_INODE {
            let mut root = String::new();
            root.push('/');
            proof {
                assert(root@ =~= seq!['/']);
            }
            return Some(root);
        }
        match self.inodes.get(&ino) {
            Some(p) => Some(copy_text(p.as_str())),
            None => None,
        }
    }

    /// Remembers the path behind its number.
    pub fn register_inode(&mut self, path: &str) -> (ino: u64)
        requires
            old(self).wf(),
        ensures
            final(self).wf(),
            ino == inode_of(path@),
            old(self).registers(path@, final(self)),
            *final(self) == (OssFs { inodes: final(self).inodes, ..*old(self) }),
    {
        let ino: u64 = inode_for_path(path);
        let _old = self.inodes.insert(ino, copy_text(path));
        proof {
            assert(self.inode_paths() =~= old(self).inode_paths().insert(ino, path@));
        }
        ino
    }

    /// What the kernel is told about an entry.
    pub fn attr_of(&mut self, path: &str, entry: &DirEntry) -> (r: FileAttr)
        requires
            old(self).wf(),
        ensures
            final(self).wf(),
            r == old(self).attr(path@, entry@),
            old(self).registers(path@, final(self)),
            *final(self) == (OssFs { inodes: final(self).inodes, ..*old(self) }),
    {
        let ino: u64 = self.register_inode(path);
        let perm: u16 = effective_mode(
            entry.is_dir,
            self.mount_attr.dir_mode,
            self.mount_attr.file_mode,
            self.mount_attr.umask,
        );
        FileAttr {
            ino,
            size: entry.size,
            blocks: entry.size.saturating_add(511) / 512,
            time_secs: epoch(entry.mtime_secs),
            is_dir: entry.is_dir,
            perm,
            nlink: if entry.is_dir {
                2
            } else {
                1
            },
            uid: self.uid,
            gid: self.gid,
            blksize: 4096,
        }
    }

    /// The first open file at a path whose content is in memory.
    pub open spec fn is_open_at(&self, path: Seq<char>, i: int) -> bool {
        &&& 0 <= i < self.files@.len()
        &&& self.files@[i].1.path@ == path && self.files@[i].1.loaded
        &&& forall|k: int| 0 <= k < i ==> !((#[trigger] self.files@[k]).1.path@ == path && self.files@[k].1.loaded)
    }

    /// The size that is shown for a path: that of an open file comes before
    /// that of the object.
    pub open spec fn effective_size(&self, path: Seq<char>, size: u64) -> u64 {
        if exists|i: int| self.is_open_at(path, i) {
            let i = choose|i: int| self.is_open_at(path, i);
            match self.files@[i].1.shown_size() {
                Some(n) => n,
                None => size,
            }
        } else {
            size
        }
    }

    /// What the kernel is told about an entry that may be open.
    pub fn effective_attr(&mut self, path: &str, entry: &DirEntry) -> (r: FileAttr)
        requires
            old(self).wf(),
        ensures
            final(self).wf(),
            r == old(self).attr(
                path@,
                (EntryView { size: old(self).effective_size(path@, entry.size), ..entry@ }),
            ),
            old(self).registers(path@, final(self)),
            *final(self) == (OssFs { inodes: final(self).inodes, ..*old(self) }),
    {
        let mut size: u64 = entry.size;
        let mut found = false;
        let mut i: usize = 0;
        while i < self.files.len() && !found
            invariant
                i <= self.files@.len(),
                *self == *old(self),
                !found ==> size == entry.size,
                !found ==> forall|k: int|
                    0 <= k < i ==> !((#[trigger] self.files@[k]).1.path@ == path@ && self.files@[k].1.loaded),
                found ==> i > 0 && self.is_open_at(path@, i - 1) && size == match self.files@[i - 1].1.shown_size() {
                    Some(n) => n,
                    None => entry.size,
                },
            decreases self.files.len() - i,
        {
            if self.files[i].1.loaded && same_text(self.files[i].1.path.as_str(), path) {
                found = true;
                if let Some(n) = self.files[i].1.size() {
                    size = n;
                }
            }
            i = i + 1;
        }
        proof {
            if found {
                let j = choose|j: int| self.is_open_at(path@, j);
                assert(self.is_open_at(path@, i - 1));
                assert(j == i - 1) by {
                    if j < i - 1 {
                        assert(self.files@[j].1.loaded);
                    }
                    if i - 1 < j {
                        assert(self.files@[i - 1].1.loaded);
                    }
                }
            } else {
                assert forall|j: int| !self.is_open_at(path@, j) by {
                    if self.is_open_at(path@, j) {
                        assert(self.files@[j].1.loaded);
                    }
                }
            }
        }
        let shown = DirEntry { name: copy_text(entry.name.as_str()), is_dir: entry.is_dir, size, mtime_secs: entry.mtime_secs };
        self.attr_of(path, &shown)
    }

    /// The position of the file of a handle.
    pub open spec fn is_handle(&self, fh: u64, i: int) -> bool {
        0 <= i < self.files@.len() && self.files@[i].0 == fh
    }

    /// The position of the file of a handle.
    pub fn find(&self, fh: u64) -> (r: Option<usize>)
        ensures
            r matches Some(i) ==> self.is_handle(fh, i as int),
            r is None ==> forall|i: int| 0 <= i < self.files@.len() ==> (#[trigger] self.files@[i]).0 != fh,
    {
        let mut i: usize = 0;
        while i < self.files.len()
            invariant
                i <= self.files@.len(),
                forall|k: int| 0 <= k < i ==> (#[trigger] self.files@[k]).0 != fh,
            decreases self.files.len() - i,
        {
            if self.files[i].0 == fh {
                return Some(i);
            }
            i = i + 1;
        }
        None
    }

    /// Takes in a file that was opened, and returns its handle.
    pub fn insert_file(&mut self, file: OpenFile) -> (fh: u64)
        requires
            old(self).wf(),
            file.wf(),
            old(self).next_fh < u64::MAX,
        ensures
            final(self).wf(),
            fh == old(self).next_fh,
            final(self).files@ == old(self).files@.push((fh, file)),
            *final(self) == (OssFs {
                files: final(self).files,
                next_fh: (old(self).next_fh + 1) as u64,
                ..*old(self)
            }),
    {
        let fh: u64 = self.next_fh;
        self.next_fh = self.next_fh + 1;
        self.files.push((fh, file));
        fh
    }

    /// Lets go of the file of a handle.
    pub fn remove_file(&mut self, fh: u64) -> (r: Option<OpenFile>)
        requires
            old(self).wf(),
        ensures
            final(self).wf(),
            r is None ==> *final(self) == *old(self) && forall|i: int|
                0 <= i < old(self).files@.len() ==> (#[trigger] old(self).files@[i]).0 != fh,
            r matches Some(f) ==> exists|i: int| #[trigger]
                old(self).is_handle(fh, i) && f == old(self).files@[i].1 && final(self).files@ == old(self).files@.remove(i),
            *final(self) == (OssFs { files: final(self).files, ..*old(self) }),
    {
        match self.find(fh) {
            None => None,
            Some(i) => {
                let ghost before = self.files@;
                let f = self.files.remove(i);
                proof {
                    assert(old(self).is_handle(fh, i as int));
                    assert forall|k: int| 0 <= k < self.files@.len() implies self.files@[k] == before[if k < i {
                        k
                    } else {
                        k + 1
                    }] by {}
                }
                Some(f.1)
            },
        }
    }

    /// Notes that the object of a path was deleted: no open file of it is
    /// saved any more.
    pub fn unlink(&mut self, path: &str)
        requires
            old(self).wf(),
        ensures
            final(self).wf(),
            final(self).files@.len() == old(self).files@.len(),
            forall|i: int|
                0 <= i < old(self).files@.len() ==> #[trigger] final(self).files@[i] == (
                    old(self).files@[i].0,
                    if old(self).files@[i].1.path@ == path@ {
                        OpenFile { unlinked: true, ..old(self).files@[i].1 }
                    } else {
                        old(self).files@[i].1
                    },
                ),
            *final(self) == (OssFs { files: final(self).files, ..*old(self) }),
    {
        let mut i: usize = 0;
        while i < self.files.len()
            invariant
                i <= self.files@.len(),
                old(self).wf(),
                self.files@.len() == old(self).files@.len(),
                *self == (OssFs { files: self.files, ..*old(self) }),
                forall|k: int| i <= k < self.files@.len() ==> #[trigger] self.files@[k] == old(self).files@[k],
                forall|k: int|
                    0 <= k < i ==> #[trigger] self.files@[k] == (
                        old(self).files@[k].0,
                        if old(self).files@[k].1.path@ == path@ {
                            OpenFile { unlinked: true, ..old(self).files@[k].1 }
                        } else {
                            old(self).files@[k].1
                        },
                    ),
            decreases self.files.len() - i,
        {
            let file = &mut self.files[i];
            file.1.unlink(path);
            i = i + 1;
        }
        proof {
            assert forall|k: int| 0 <= k < self.files@.len() implies (#[trigger] self.files@[k]).1.wf() by {
                assert(old(self).files@[k].1.wf());
            }
        }
    }

    /// Notes that something was renamed: the open files follow.
    pub fn rename(&mut self, from: &str, to: &str)
        requires
            old(self).wf(),
        ensures
            final(self).wf(),
            final(self).files@.len() == old(self).files@.len(),
            forall|i: int|
                0 <= i < old(self).files@.len() ==> {
                    let f = #[trigger] final(self).files@[i];
                    &&& f.0 == old(self).files@[i].0
                    &&& f.1.path@ == renamed_path(old(self).files@[i].1.path@, from@, to@)
                    &&& f.1 == (OpenFile { path: f.1.path, ..old(self).files@[i].1 })
                },
            old(self).registers(to@, final(self)),
            *final(self) == (OssFs { files: final(self).files, inodes: final(self).inodes, ..*old(self) }),
    {
        let mut i: usize = 0;
        while i < self.files.len()
            invariant
                i <= self.files@.len(),
                old(self).wf(),
                self.files@.len() == old(self).files@.len(),
                *self == (OssFs { files: self.files, ..*old(self) }),
                forall|k: int| i <= k < self.files@.len() ==> #[trigger] self.files@[k] == old(self).files@[k],
                forall|k: int|
                    0 <= k < i ==> {
                        let f = #[trigger] self.files@[k];
                        &&& f.0 == old(self).files@[k].0
                        &&& f.1.path@ == renamed_path(old(self).files@[k].1.path@, from@, to@)
                        &&& f.1 == (OpenFile { path: f.1.path, ..old(self).files@[k].1 })
                    },
            decreases self.files.len() - i,
        {
            let file = &mut self.files[i];
            file.1.retarget(from, to);
            i = i + 1;
        }
        proof {
            assert forall|k: int| 0 <= k < self.files@.len() implies (#[trigger] self.files@[k]).1.wf() by {
                assert(old(self).files@[k].1.wf());
            }
        }
        let _ino: u64 = self.register_inode(to);
    }

    /// Remembers that a directory was listed. Where too many are remembered,
    /// only the root is.
    pub fn track_dir(&mut self, ino: u64)
        requires
            old(self).wf(),
        ensures
            final(self).wf(),
            final(self).dirs@ == if old(self).dirs@.insert(ino).len() > MAX_TRACKED_DIRS {
                set![ROOT_INODE]
            } else {
                old(self).dirs@.insert(ino)
            },
            *final(self) == (OssFs { dirs: final(self).dirs, ..*old(self) }),
    {
        let _new = self.dirs.insert(ino);
        if self.dirs.len() > MAX_TRACKED_DIRS {
            self.dirs.clear();
            let _root = self.dirs.insert(ROOT_INODE);
            proof {
                assert(self.dirs@ =~= set![ROOT_INODE]);
            }
        }
    }

    /// What a directory holds as the kernel sees it: itself, its parent and
    /// its entries, in the order in which these are given.
    pub open spec fn plain_items(&self, path: Seq<char>, entries: Seq<EntryView>) -> Seq<ItemView> {
        seq![
            ItemView { name: seq!['.'], attr: self.attr(path, crate::entry::dir_entry(Seq::empty())) },
            ItemView {
                name: seq!['.', '.'],
                attr: self.attr(listed_parent(path), crate::entry::dir_entry(Seq::empty())),
            },
        ] + entries.map_values(
            |e: EntryView| ItemView { name: e.name, attr: self.attr(joined(path, e.name), e) },
        )
    }

    /// What a directory holds as the kernel sees it: itself, its parent, then
    /// its entries sorted by name, so that a listing can be resumed by
    /// position. The paths of all of them are remembered behind their numbers.
    pub fn readdir(&mut self, path: &str, entries: &Vec<DirEntry>) -> (r: Vec<DirItem>)
        requires
            old(self).wf(),
        ensures
            final(self).wf(),
            ({
                let plain = old(self).plain_items(path@, entry_views(entries@));
                item_views(r@) == plain.take(2) + sorted_items(plain.skip(2))
            }),
            final(self).inode_paths() == with_paths(
                old(self).inode_paths(),
                item_paths(path@, entry_views(entries@)),
            ),
            *final(self) == (OssFs { inodes: final(self).inodes, ..*old(self) }),
    {
        let ghost plain = self.plain_items(path@, entry_views(entries@));
        let ghost children = plain.skip(2);
        let ghost paths = item_paths(path@, entry_views(entries@));
        let ghost known = self.inode_paths();
        let itself = DirEntry { name: String::new(), is_dir: true, size: 0, mtime_secs: 0 };
        proof {
            assert(itself@ =~= crate::entry::dir_entry(Seq::empty()));
            assert(paths.take(0) =~= Seq::<Seq<char>>::empty());
        }
        let attr = self.attr_of(path, &itself);
        let mut name = String::new();
        name.push('.');
        proof {
            assert(name@ =~= seq!['.']);
            lemma_paths_step(known, paths, 0);
        }
        let mut r: Vec<DirItem> = Vec::new();
        r.push(DirItem { name, attr });
        let parent = if crate::paths::is_root(path) {
            copy_text(path)
        } else {
            parent_path(path)
        };
        let attr = self.attr_of(parent.as_str(), &itself);
        let mut name = String::new();
        name.push('.');
        name.push('.');
        proof {
            assert(name@ =~= seq!['.', '.']);
            lemma_paths_step(known, paths, 1);
        }
        r.push(DirItem { name, attr });
        let mut sorted: Vec<DirItem> = Vec::new();
        proof {
            assert(item_views(r@) =~= plain.take(2));
            assert(item_views(sorted@) =~= Seq::<ItemView>::empty());
            assert(children.subrange(0, 0) =~= Seq::<ItemView>::empty());
        }
        let mut i: usize = 0;
        while i < entries.len()
            invariant
                i <= entries@.len(),
                self.wf(),
                old(self).wf(),
                *self == (OssFs { inodes: self.inodes, ..*old(self) }),
                plain == old(self).plain_items(path@, entry_views(entries@)),
                children == plain.skip(2),
                paths == item_paths(path@, entry_views(entries@)),
                item_views(sorted@) == sorted_items(children.subrange(0, i as int)),
                self.inode_paths() == with_paths(known, paths.take(i + 2)),
            decreases entries.len() - i,
        {
            let child = join_path(path, entries[i].name.as_str());
            let attr = self.attr_of(child.as_str(), &entries[i]);
            let item = DirItem { name: copy_text(entries[i].name.as_str()), attr };
            proof {
                lemma_sorted_step(children, i as int);
                lemma_paths_step(known, paths, i + 2);
                assert(entry_views(entries@)[i as int] == entries@[i as int]@);
                assert(paths[i + 2] == child@);
                assert(item@ =~= children[i as int]);
            }
            insert_item(&mut sorted, item);
            i = i + 1;
        }
        let ghost dots = r@;
        let ghost rest = sorted@;
        r.append(&mut sorted);
        proof {
            assert(children.subrange(0, children.len() as int) =~= children);
            assert(paths.take(paths.len() as int) =~= paths);
            assert(r@ =~= dots + rest);
            assert(item_views(dots + rest) =~= item_views(dots) + item_views(rest));
        }
        r
    }
}

/// The path of the parent as a listing shows it: the root is its own.
pub open spec fn listed_parent(path: Seq<char>) -> Seq<char> {
    if path == seq!['/'] {
        path
    } else {
        parent_of(path)
    }
}

/// The paths of what a listing holds: of the directory itself, of its parent
/// and of its entries.
pub open spec fn item_paths(path: Seq<char>, entries: Seq<EntryView>) -> Seq<Seq<char>> {
    seq![path, listed_parent(path)] + entries.map_values(|e: EntryView| joined(path, e.name))
}

/// The paths behind numbers with more paths remembered, one after the other.
pub open spec fn with_paths(known: Map<u64, Seq<char>>, paths: Seq<Seq<char>>) -> Map<u64, Seq<char>>
    decreases paths.len(),
{
    if paths.len() == 0 {
        known
    } else {
        with_paths(known, paths.drop_last()).insert(inode_of(paths.last()), paths.last())
    }
}

/// Remembering paths adds the number of each of them, and no other. Behind
/// such a number stands a path of that number, the path itself where no other
/// has the same number, and what stands behind the other numbers stays.
pub proof fn law_paths_remembered(known: Map<u64, Seq<char>>, paths: Seq<Seq<char>>)
    ensures
        forall|ino: u64| #[trigger]
            with_paths(known, paths).dom().contains(ino) <==> known.dom().contains(ino) || exists|i: int|
                0 <= i < paths.len() && inode_of(#[trigger] paths[i]) == ino,
        forall|i: int|
            0 <= i < paths.len() ==> {
                let p = with_paths(known, paths)[inode_of(#[trigger] paths[i])];
                paths.contains(p) && inode_of(p) == inode_of(paths[i])
            },
        forall|ino: u64|
            known.dom().contains(ino) && (forall|i: int| 0 <= i < paths.len() ==> inode_of(#[trigger] paths[i]) != ino)
                ==> #[trigger] with_paths(known, paths)[ino] == known[ino],
    decreases paths.len(),
{
    if paths.len() > 0 {
        let head = paths.drop_last();
        let last = paths.last();
        let n = paths.len() - 1;
        law_paths_remembered(known, head);
        assert(paths[n] == last);
        assert forall|i: int| 0 <= i < head.len() implies head[i] == #[trigger] paths[i] by {}
        assert forall|ino: u64| #[trigger]
            with_paths(known, paths).dom().contains(ino) <==> known.dom().contains(ino) || exists|i: int|
                0 <= i < paths.len() && inode_of(#[trigger] paths[i]) == ino by {
            let before = with_paths(known, head);
            assert(with_paths(known, paths) == before.insert(inode_of(last), last));
            assert(before.dom().contains(ino) <==> known.dom().contains(ino) || exists|i: int|
                0 <= i < head.len() && inode_of(#[trigger] head[i]) == ino);
            if exists|i: int| 0 <= i < paths.len() && inode_of(#[trigger] paths[i]) == ino {
                let i = choose|i: int| 0 <= i < paths.len() && inode_of(#[trigger] paths[i]) == ino;
                if i < n {
                    assert(inode_of(head[i]) == ino);
                }
            }
            if with_paths(known, paths).dom().contains(ino) && ino != inode_of(last) && !known.dom().contains(ino) {
                let i = choose|i: int| 0 <= i < head.len() && inode_of(#[trigger] head[i]) == ino;
                assert(inode_of(paths[i]) == ino);
            }
        }
        assert forall|i: int| 0 <= i < paths.len() implies {
            let p = with_paths(known, paths)[inode_of(#[trigger] paths[i])];
            paths.contains(p) && inode_of(p) == inode_of(paths[i])
        } by {
            if inode_of(paths[i]) != inode_of(last) {
                assert(head[i] == paths[i]);
                let p = with_paths(known, head)[inode_of(head[i])];
                let k = choose|k: int| 0 <= k < head.len() && head[k] == p;
                assert(paths[k] == p);
            }
        }
        assert forall|ino: u64|
            known.dom().contains(ino) && (forall|i: int| 0 <= i < paths.len() ==> inode_of(#[trigger] paths[i]) != ino) implies
                #[trigger] with_paths(known, paths)[ino] == known[ino] by {
            assert(inode_of(paths[n]) != ino);
            assert forall|i: int| 0 <= i < head.len() implies inode_of(#[trigger] head[i]) != ino by {
                assert(head[i] == paths[i]);
            }
            assert(with_paths(known, head)[ino] == known[ino]);
        }
    }
}

proof fn lemma_paths_step(known: Map<u64, Seq<char>>, paths: Seq<Seq<char>>, i: int)
    requires
        0 <= i < paths.len(),
    ensures
        with_paths(known, paths.take(i + 1)) == with_paths(known, paths.take(i)).insert(inode_of(paths[i]), paths[i]),
{
    let upto = paths.take(i + 1);
    assert(upto.drop_last() =~= paths.take(i));
    assert(upto.last() == paths[i]);
}

proof fn lemma_sorted_step(s: Seq<ItemView>, i: int)
    requires
        0 <= i < s.len(),
    ensures
        sorted_items(s.subrange(0, i + 1)) == put_item(sorted_items(s.subrange(0, i)), s[i]),
{
    let upto = s.subrange(0, i + 1);
    assert(upto.drop_last() =~= s.subrange(0, i));
    assert(upto.last() == s[i]);
}

/// Whether something may be deleted as a file.
pub fn unlink_check(found: &Option<DirEntry>) -> (r: Result<(), FuseError>)
    ensures
        *found is None ==> r == Err::<(), FuseError>(FuseError::NotFound),
        *found matches Some(e) ==> r == if e.is_dir {
            Err::<(), FuseError>(FuseError::IsDirectory)
        } else {
            Ok::<(), FuseError>(())
        },
{
    match found {
        None => Err(FuseError::NotFound),
        Some(e) => if e.is_dir {
            Err(FuseError::IsDirectory)
        } else {
            Ok(())
        },
    }
}

/// How a file is created.
#[derive(Debug, Clone, Copy, PartialEq, Eq, Structural)]
pub struct CreatePlan {
    /// An empty object is to be written first.
    pub make: bool,
    /// What the object holds is kept.
    pub needs_existing: bool,
    /// The size that is shown.
    pub size: u64,
}

/// How a file is created, where there may be one already.
pub fn create_plan(existing: &Option<DirEntry>, truncate: bool) -> (r: Result<CreatePlan, FuseError>)
    ensures
        match *existing {
            None => r == Ok::<CreatePlan, FuseError>(CreatePlan { make: true, needs_existing: false, size: 0 }),
            Some(e) => if e.is_dir {
                r == Err::<CreatePlan, FuseError>(FuseError::IsDirectory)
            } else {
                r == Ok::<CreatePlan, FuseError>(
                    CreatePlan {
                        make: false,
                        needs_existing: !truncate,
                        size: if truncate {
                            0
                        } else {
                            e.size
                        },
                    },
                )
            },
        },
{
    match existing {
        None => Ok(CreatePlan { make: true, needs_existing: false, size: 0 }),
        Some(e) => if e.is_dir {
            Err(FuseError::IsDirectory)
        } else {
            Ok(
                CreatePlan {
                    make: false,
                    needs_existing: !truncate,
                    size: if truncate {
                        0
                    } else {
                        e.size
                    },
                },
            )
        },
    }
}

/// Whether a node of the given mode can be made: only regular files can.
pub fn mknod_check(mode: u32) -> (r: Result<(), FuseError>)
    ensures
        r == if crate::entry::regular_file_mode(mode) {
            Ok::<(), FuseError>(())
        } else {
            Err::<(), FuseError>(FuseError::NotPermitted)
        },
{
    if crate::entry::is_regular_file_mode(mode) {
        Ok(())
    } else {
        Err(FuseError::NotPermitted)
    }
}

/// The bytes that changing the size of an object takes at most in memory:
/// those of the longer of the two contents.
pub fn truncate_peak(remote_size: u64, new_size: u64) -> (r: u64)
    ensures
        r == if remote_size > new_size { remote_size } else { new_size },
{
    if remote_size > new_size {
        remote_size
    } else {
        new_size
    }
}

/// Takes of the budget what changing an object as a whole needs, or refuses;
/// without a budget nothing is taken.
pub fn reserve_rmw_budget(budget: &mut Option<DirtyBudget>, bytes: usize) -> (r: Result<DirtyPermit, BudgetError>)
    requires
        *old(budget) matches Some(b) ==> b.wf(),
    ensures
        match *old(budget) {
            None => (r matches Ok(p) && p.spec_units() == 0) && *final(budget) == *old(budget),
            Some(b) => {
                let units = units_of(bytes as nat);
                if units > b.spec_max() {
                    r == Err::<DirtyPermit, BudgetError>(BudgetError::TooLarge) && *final(budget) == *old(budget)
                } else if units > b.spec_available() {
                    r == Err::<DirtyPermit, BudgetError>(BudgetError::Busy) && *final(budget) == *old(budget)
                } else {
                    &&& r matches Ok(p) && p.spec_units() == units
                    &&& *final(budget) matches Some(now) && now.wf() && now.spec_max() == b.spec_max()
                        && now.spec_available() == b.spec_available() - units
                }
            },
        },
{
    match budget {
        None => Ok(DirtyPermit::noop()),
        Some(b) => match b.units_for(bytes) {
            Err(e) => Err(e),
            Ok(units) => match b.try_acquire_units(units) {
                Some(p) => Ok(p),
                None => Err(BudgetError::Busy),
            },
        },
    }
}

/// What the kernel is told about an entry is what the entry is, with the
/// permissions and the owner of the mount: as many blocks of 512 bytes as the
/// size takes, two links for a directory and one for a file.
pub proof fn law_attr(mount_attr: MountAttr, uid: u32, gid: u32, ino: u64, is_dir: bool, size: u64, mtime_secs: i64)
    ensures
        ({
            let a = attr_for(mount_attr, uid, gid, ino, is_dir, size, mtime_secs);
            &&& a.ino == ino && a.size == size && a.is_dir == is_dir && a.uid == uid && a.gid == gid
            &&& size <= 0xffff_ffff_ffff_fe00 ==> a.blocks * 512 >= size && (a.blocks - 1) * 512 < size
            &&& mtime_secs > 0 ==> a.time_secs == mtime_secs
            &&& mtime_secs <= 0 ==> a.time_secs == 0
            &&& a.nlink == (if is_dir {
                2u32
            } else {
                1u32
            })
            &&& a.perm == mode_of(is_dir, mount_attr.dir_mode, mount_attr.file_mode, mount_attr.umask)
        }),
{
}

/// A listing leaves nothing out and makes nothing up: behind the directory and
/// its parent every entry is shown under its name, with the number of its own
/// path, its kind, its size and its time, and nothing else is.
pub proof fn law_items_complete(fs: &OssFs, path: Seq<char>, entries: Seq<EntryView>, i: int)
    requires
        0 <= i < entries.len(),
    ensures
        ({
            let plain = fs.plain_items(path, entries);
            let e = entries[i];
            &&& plain.len() == 2 + entries.len()
            &&& plain[0].name == seq!['.'] && plain[0].attr.ino == inode_of(path) && plain[0].attr.is_dir
            &&& plain[1].name == seq!['.', '.'] && plain[1].attr.is_dir
            &&& sorted_items(plain.skip(2)).len() == entries.len()
            &&& exists|k: int|
                0 <= k < entries.len() && {
                    let item = #[trigger] sorted_items(plain.skip(2))[k];
                    &&& item.name == e.name
                    &&& item.attr.size == e.size && item.attr.is_dir == e.is_dir
                    &&& path == seq!['/'] ==> item.attr.ino == inode_of(seq!['/'] + e.name)
                    &&& path != seq!['/'] ==> item.attr.ino == inode_of(path + seq!['/'] + e.name)
                    &&& e.mtime_secs > 0 ==> item.attr.time_secs == e.mtime_secs
                }
        }),
{
    broadcast use vstd::seq_lib::group_to_multiset_ensures;
    let plain = fs.plain_items(path, entries);
    let rest = plain.skip(2);
    law_sorted_items(rest);
    let item = rest[i];
    assert(item == plain[i + 2]);
    assert(rest.contains(item));
    assert(rest.to_multiset().count(item) > 0);
    assert(sorted_items(rest).to_multiset().count(item) > 0);
    assert(sorted_items(rest).contains(item));
    let k = choose|k: int| 0 <= k < sorted_items(rest).len() && sorted_items(rest)[k] == item;
    assert(sorted_items(rest)[k] == item);
}

/// While a file is open its size is the one that it has there, and else that of
/// the object.
pub proof fn law_effective_size(fs: &OssFs, path: Seq<char>, size: u64, i: int)
    ensures
        fs.is_open_at(path, i) && fs.files@[i].1.shown_size() is Some ==> fs.effective_size(path, size)
            == fs.files@[i].1.shown_size()->0,
        (forall|k: int| 0 <= k < fs.files@.len() ==> (#[trigger] fs.files@[k]).1.path@ != path) ==> fs.effective_size(
            path,
            size,
        ) == size,
{
    if fs.is_open_at(path, i) {
        let j = choose|j: int| fs.is_open_at(path, j);
        assert(fs.is_open_at(path, j));
        if j < i {
            assert(!(fs.files@[j].1.path@ == path && fs.files@[j].1.loaded));
        }
        if i < j {
            assert(!(fs.files@[i].1.path@ == path && fs.files@[i].1.loaded));
        }
    }
}

/// A path that was remembered is found by its number, and the numbers of others
/// lead where they led.
pub proof fn law_registered(fs: &OssFs, path: Seq<char>, after: &OssFs, ino: u64)
    requires
        fs.registers(path, after),
    ensures
        after.inodes@.dom().contains(inode_of(path)),
        after.inodes@[inode_of(path)]@ == path,
        ino != inode_of(path) ==> (after.inodes@.dom().contains(ino) <==> fs.inodes@.dom().contains(ino)),
        ino != inode_of(path) && fs.inodes@.dom().contains(ino) ==> after.inodes@[ino]@ == fs.inodes@[ino]@,
{
    let m = after.inode_paths();
    let known = fs.inode_paths();
    assert(m.dom().contains(inode_of(path)));
    assert(m[inode_of(path)] == path);
    assert(m.dom().contains(ino) <==> after.inodes@.dom().contains(ino));
    assert(known.dom().contains(ino) <==> fs.inodes@.dom().contains(ino));
    if ino != inode_of(path) && fs.inodes@.dom().contains(ino) {
        assert(m[ino] == known[ino]);
    }
}

/// What a listing remembers: the directory itself, its parent, and each entry
/// below the directory by its own name.
pub proof fn law_item_paths(parent: Seq<char>, name: Seq<char>, entries: Seq<EntryView>, i: int)
    requires
        parent.len() > 0,
        parent != seq!['/'],
        parent.last() != '/',
        name.len() > 0,
        !name.contains('/'),
        0 <= i < entries.len(),
    ensures
        ({
            let path = parent + seq!['/'] + name;
            &&& item_paths(path, entries).len() == 2 + entries.len()
            &&& item_paths(path, entries)[0] == path
            &&& item_paths(path, entries)[1] == parent
            &&& item_paths(path, entries)[2 + i] == path + seq!['/'] + entries[i].name
            &&& item_paths(seq!['/'], entries)[1] == seq!['/']
            &&& item_paths(seq!['/'], entries)[2 + i] == seq!['/'] + entries[i].name
        }),
{
    let path = parent + seq!['/'] + name;
    crate::paths::law_parent_of_joined(parent, name);
    assert(path.len() > 1);
}

/// The size that is shown for a path is that of the first file open there whose
/// content is loaded.
pub proof fn law_open_size_shown(fs: &OssFs, path: Seq<char>, size: u64, i: int)
    requires
        0 <= i < fs.files@.len(),
        fs.files@[i].1.path@ == path,
        fs.files@[i].1.loaded,
        fs.files@[i].1.shown_size() is Some,
        forall|k: int| 0 <= k < i ==> (#[trigger] fs.files@[k]).1.path@ != path,
    ensures
        fs.effective_size(path, size) == fs.files@[i].1.shown_size()->0,
{
    assert(fs.is_open_at(path, i));
    law_effective_size(fs, path, size, i);
}

} // verus!
