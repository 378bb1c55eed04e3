//! Restoring from the recycle bin, clearing tombstones, and deleting for good.

use vstd::prelude::*;
use vstd::string::*;

use crate::caches::FsCaches;
use crate::paths::{key_for, key_of, key_view_path, view_path_of};
use crate::recycle::string_views;
use crate::system_trash::{is_i_entry, names_record, MatchView, SystemTrashMatch};
use crate::text::{
    before_last, ends_with, ends_with_char, has_prefix, law_prefix_and_rest, same_text, starts_with_text,
    text_before_last, trim_end, trim_end_char,
};
use crate::tombstone::{decode_tombstone_key, dir_form, tombstone_parts, word, IndexView};
use crate::trash::{opt_view, tomb_forgotten, TrashState};
use crate::trash_ops::{clamp_size, clamped_size, etags_agree, unchanged_since, RestoreOutcome, MULTIPART_COPY_THRESHOLD};

verus! {

/// Some directory above a path is covered.
pub open spec fn ancestor_covered(index: IndexView, path: Seq<char>) -> bool
    decreases path.len(),
{
    match before_last(path, '/') {
        Some(parent) => {
            proof {
                lemma_before_last_shorter(path, '/');
            }
            index.covers(parent) || ancestor_covered(index, parent)
        },
        None => false,
    }
}

pub proof fn lemma_before_last_shorter(s: Seq<char>, c: char)
    ensures
        before_last(s, c) matches Some(t) ==> t.len() < s.len(),
    decreases s.len(),
{
    if s.len() > 0 && s.last() != c {
        lemma_before_last_shorter(s.drop_last(), c);
    }
}

/// Why an entry of the recycle bin cannot be restored.
#[derive(Debug, Clone, Copy, PartialEq, Eq, Structural)]
pub enum RestoreError {
    /// The source is no entry of the recycle bin.
    NotAnEntry,
    /// The source is the record of an entry.
    IsRecord,
    /// The entry does not exist.
    EntryNotFound,
    /// The target lies below the source, or the source below the target.
    OwnSubtree,
    /// The target lies in a directory that is in the trash.
    TargetInTrash,
    /// Directories are not moved in this mount.
    DirRenameDisabled,
    /// The directory holds too many objects.
    TooManyEntries { count: u64, limit: u64 },
}

/// What is restored, and where to.
#[derive(Debug)]
pub struct RestorePlan {
    pub original_key: String,
    pub new_key: String,
    pub is_dir: bool,
    /// It goes where it was.
    pub same_place: bool,
}

/// What restoring does next.
#[derive(Debug, Clone, Copy, PartialEq, Eq, Structural)]
pub enum RestoreAction {
    /// Clear the tombstones of the source; nothing is copied.
    ClearSource { outcome: RestoreOutcome },
    /// Copy the tree, then clear the tombstones of source and target.
    CopyTree,
    /// Copy the object in parts, then clear the tombstones of both.
    CopyParts { size: u64 },
    /// Copy the object, then clear the tombstones of both.
    CopyObject,
}

/// One of two different paths lies below the other.
pub open spec fn nested(a: Seq<char>, b: Seq<char>) -> bool {
    a != b && (has_prefix(a, b + seq!['/']) || has_prefix(b, a + seq!['/']))
}

impl TrashState {
    /// Whether some directory above a key is covered.
    pub fn is_ancestor_covered(&self, key: &str) -> (r: bool)
        requires
            self.wf(),
        ensures
            r == ancestor_covered(self.index@, trim_end(key@, '/')),
    {
        let mut rest = trim_end_char(key, '/');
        let ghost path = rest@;
        loop
            invariant
                self.wf(),
                path == trim_end(key@, '/'),
                ancestor_covered(self.index@, path) == ancestor_covered(self.index@, rest@),
            decreases rest@.len(),
        {
            proof {
                lemma_before_last_shorter(rest@, '/');
            }
            match text_before_last(rest.as_str(), '/') {
                Some(parent) => {
                    if self.index.is_covered(parent.as_str()) {
                        return true;
                    }
                    rest = parent;
                },
                None => {
                    return false;
                },
            }
        }
    }

    /// The name of the entry that a path to be restored denotes.
    pub fn restore_source(&self, old_path: &str) -> (r: Result<String, RestoreError>)
        ensures
            match self.place_of(old_path@) {
                Some(MatchView::Entry(name)) => if names_record(name) {
                    r == Err::<String, RestoreError>(RestoreError::IsRecord)
                } else {
                    r matches Ok(n) && n@ == name
                },
                _ => r == Err::<String, RestoreError>(RestoreError::NotAnEntry),
            },
    {
        match self.match_system_trash(old_path) {
            Some(SystemTrashMatch::Entry { entry_name }) => if is_i_entry(entry_name.as_str()) {
                Err(RestoreError::IsRecord)
            } else {
                Ok(entry_name)
            },
            _ => Err(RestoreError::NotAnEntry),
        }
    }

    /// What restoring to a path amounts to, `original_key` being what the
    /// entry stands for. Nothing is restored into its own subtree, or into a
    /// directory that is in the trash.
    pub fn plan_restore(&self, mount_prefix: &str, original_key: Option<String>, new_path: &str) -> (r: Result<RestorePlan, RestoreError>)
        requires
            self.wf(),
        ensures
            ({
                let new_key = key_of(mount_prefix@, new_path@);
                let bare_new = trim_end(new_key, '/');
                match original_key {
                    None => r == Err::<RestorePlan, RestoreError>(RestoreError::EntryNotFound),
                    Some(key) => {
                        let bare = trim_end(key@, '/');
                        if nested(bare_new, bare) {
                            r == Err::<RestorePlan, RestoreError>(RestoreError::OwnSubtree)
                        } else if ancestor_covered(self.index@, bare_new) {
                            r == Err::<RestorePlan, RestoreError>(RestoreError::TargetInTrash)
                        } else {
                            r matches Ok(plan) && {
                                &&& plan.original_key@ == key@
                                &&& plan.new_key@ == new_key
                                &&& plan.is_dir == ends_with_char(key@, '/')
                                &&& plan.same_place == (bare_new == bare)
                            }
                        }
                    },
                }
            }),
    {
        let original = match original_key {
            Some(k) => k,
            None => {
                return Err(RestoreError::EntryNotFound);
            },
        };
        let new_key = key_for(mount_prefix, new_path);
        let bare_new = trim_end_char(new_key.as_str(), '/');
        let bare = trim_end_char(original.as_str(), '/');
        let same_place = same_text(bare_new.as_str(), bare.as_str());
        if !same_place {
            let mut below_old = bare.clone();
            below_old.push('/');
            let mut below_new = bare_new.clone();
            below_new.push('/');
            proof {
                assert(below_old@ =~= bare@ + seq!['/']);
                assert(below_new@ =~= bare_new@ + seq!['/']);
            }
            if starts_with_text(bare_new.as_str(), below_old.as_str()) || starts_with_text(
                bare.as_str(),
                below_new.as_str(),
            ) {
                return Err(RestoreError::OwnSubtree);
            }
        }
        if self.is_ancestor_covered(new_key.as_str()) {
            return Err(RestoreError::TargetInTrash);
        }
        let is_dir = ends_with(original.as_str(), '/');
        Ok(RestorePlan { original_key: original, new_key, is_dir, same_place })
    }
}

/// What the store says of the object to be restored. Directories have none.
#[derive(Debug, Clone, Copy, PartialEq, Eq, Structural)]
pub enum OriginalObject {
    Directory,
    Missing,
    File { size: Option<i64> },
}

/// The size of an object of which the store may not tell it.
pub open spec fn known_size(size: Option<i64>) -> u64 {
    match size {
        Some(s) => clamped_size(s),
        None => 0,
    }
}

impl RestorePlan {
    /// What restoring does next. A directory is moved only where the mount
    /// allows it and no more than the limit of objects is below it.
    pub open spec fn action(&self, original: OriginalObject, allow_rename_dir: bool, entries: u64, limit: Option<u64>) -> Result<RestoreAction, RestoreError> {
        if original == OriginalObject::Missing {
            Ok(RestoreAction::ClearSource { outcome: RestoreOutcome::OriginalGone })
        } else if self.same_place {
            Ok(
                RestoreAction::ClearSource {
                    outcome: RestoreOutcome::Restored { etag_mismatch: false, multiple_versions: false },
                },
            )
        } else {
            match original {
                OriginalObject::File { size } => if known_size(size) >= MULTIPART_COPY_THRESHOLD {
                    Ok(RestoreAction::CopyParts { size: known_size(size) })
                } else {
                    Ok(RestoreAction::CopyObject)
                },
                _ => if !allow_rename_dir {
                    Err(RestoreError::DirRenameDisabled)
                } else {
                    match limit {
                        Some(l) => if entries > l {
                            Err(RestoreError::TooManyEntries { count: entries, limit: l })
                        } else {
                            Ok(RestoreAction::CopyTree)
                        },
                        None => Ok(RestoreAction::CopyTree),
                    }
                },
            }
        }
    }

    /// What restoring does next.
    pub fn next(&self, original: OriginalObject, allow_rename_dir: bool, entries: u64, limit: Option<u64>) -> (r: Result<RestoreAction, RestoreError>)
        ensures
            r == self.action(original, allow_rename_dir, entries, limit),
            original is Directory && !self.same_place && allow_rename_dir && (limit is None || entries <= limit->0) ==> r
                == Ok::<RestoreAction, RestoreError>(RestoreAction::CopyTree),
            (r matches Ok(RestoreAction::CopyObject)) || (r matches Ok(RestoreAction::CopyParts { .. })) ==> original is File
                && !self.same_place,
    {
        match original {
            OriginalObject::Missing => {
                return Ok(RestoreAction::ClearSource { outcome: RestoreOutcome::OriginalGone });
            },
            _ => {},
        }
        if self.same_place {
            return Ok(
                RestoreAction::ClearSource {
                    outcome: RestoreOutcome::Restored { etag_mismatch: false, multiple_versions: false },
                },
            );
        }
        match original {
            OriginalObject::File { size } => {
                let n: u64 = match size {
                    Some(s) => clamp_size(s),
                    None => 0,
                };
                if n >= MULTIPART_COPY_THRESHOLD {
                    Ok(RestoreAction::CopyParts { size: n })
                } else {
                    Ok(RestoreAction::CopyObject)
                }
            },
            _ => {
                if !allow_rename_dir {
                    return Err(RestoreError::DirRenameDisabled);
                }
                match limit {
                    Some(l) => if entries > l {
                        return Err(RestoreError::TooManyEntries { count: entries, limit: l });
                    },
                    None => {},
                }
                Ok(RestoreAction::CopyTree)
            },
        }
    }
}

/// Drops what is cached of an entry that was restored and of its new path.
pub fn restore_invalidate(caches: &mut FsCaches, old_path: &str, new_path: &str, is_dir: bool)
    requires
        old(caches).wf(),
    ensures
        final(caches).wf(),
        final(caches)@ == old(caches)@.without_trashed(old_path@, is_dir).without_stat(
            trim_end(new_path@, '/'),
        ),
{
    caches.invalidate_trash_cached(old_path, is_dir);
    let bare = trim_end_char(new_path, '/');
    caches.invalidate_stat(bare.as_str());
}

/// Nothing is restored into its own subtree: neither may the target lie below
/// the source nor the source below the target.
pub proof fn law_no_restore_into_subtree(bare: Seq<char>, below: Seq<char>)
    requires
        below.len() > 0,
    ensures
        nested(bare + seq!['/'] + below, bare),
        nested(bare, bare + seq!['/'] + below),
{
    let deep = bare + seq!['/'] + below;
    assert(deep.subrange(0, (bare.len() + 1) as int) =~= bare + seq!['/']);
    assert(deep.len() > bare.len());
}

/// Two keys of which neither is above the other can be restored one to the
/// other's place, and a key always to its own.
pub proof fn law_restore_in_place(bare: Seq<char>)
    ensures
        !nested(bare, bare),
{
}

/// The listed tombstones of exactly this key.
pub open spec fn is_tomb_of(prefix: Seq<char>, name: Seq<char>, key: Seq<char>) -> bool {
    match tombstone_parts(prefix, name) {
        Some((_day, original)) => original == key,
        None => false,
    }
}

/// The tombstones of a key among listed names.
pub fn tombs_of_key(prefix: &str, page: &Vec<String>, key: &str, out: &mut Vec<String>)
    ensures
        string_views(final(out)@) == string_views(old(out)@) + string_views(page@).filter(
            |n: Seq<char>| is_tomb_of(prefix@, n, key@),
        ),
{
    let ghost names = string_views(page@);
    let ghost base = string_views(out@);
    let ghost own = |n: Seq<char>| is_tomb_of(prefix@, n, key@);
    let mut i: usize = 0;
    proof {
        reveal(Seq::filter);
        assert(base + names.subrange(0, 0).filter(own) =~= base);
    }
    while i < page.len()
        invariant
            i <= page@.len(),
            names == string_views(page@),
            own == (|n: Seq<char>| is_tomb_of(prefix@, n, key@)),
            string_views(out@) == base + names.subrange(0, i as int).filter(own),
        decreases page.len() - i,
    {
        proof {
            reveal(Seq::filter);
            let upto = names.subrange(0, i + 1);
            assert(upto.drop_last() =~= names.subrange(0, i as int));
            assert(upto.last() == page@[i as int]@);
        }
        let hit = match decode_tombstone_key(prefix, page[i].as_str()) {
            Some(t) => same_text(t.original_key.as_str(), key),
            None => false,
        };
        if hit {
            let ghost before = out@;
            let name = page[i].clone();
            out.push(name);
            proof {
                let done = names.subrange(0, i as int).filter(own);
                assert(string_views(out@) =~= string_views(before).push(name@));
                assert((base + done).push(name@) =~= base + done.push(name@));
            }
        }
        i = i + 1;
    }
    proof {
        assert(names.subrange(0, names.len() as int) =~= names);
    }
}

impl TrashState {
    /// Whether the tombstones of a key have to be cleared before something is
    /// written under it.
    pub fn needs_clearing(&self, key: &str) -> (r: bool)
        requires
            self.wf(),
        ensures
            r == self.index@.covers(trim_end(key@, '/')),
    {
        let bare = trim_end_char(key, '/');
        self.index.is_covered(bare.as_str())
    }

    /// The tombstones of a key were deleted, in both of its forms: it is no
    /// longer in the index, and neither are the names.
    pub fn commit_clear(&mut self, key: &str, deleted: &Vec<String>)
        requires
            old(self).wf(),
        ensures
            final(self).wf(),
            final(self).same_but_index(old(self)),
            ({
                let bare = trim_end(key@, '/');
                &&& final(self).index@ == old(self).index@.without(bare, false).without(bare.push('/'), true)
                &&& final(self).recycle_names@ == tomb_forgotten(
                    old(self).recycle_names@,
                    final(self).index@,
                    string_views(deleted@),
                    bare,
                )
            }),
            final(self).index_entries == word(final(self).index.size()),
    {
        let bare = trim_end_char(key, '/');
        let mut dir = bare.clone();
        dir.push('/');
        self.index.remove(bare.as_str(), false);
        self.index.remove(dir.as_str(), true);
        let len: usize = self.index.len();
        let _alert = self.store_index_entries(len);
        proof {
            crate::text::lemma_trim_end_result(key@, '/');
            crate::text::lemma_trim_end_none(bare@, '/');
        }
        self.remove_tombstone_maps(deleted, bare.as_str());
    }
}

/// After the tombstones of a key are cleared, only a directory above it can
/// still cover it.
pub proof fn law_clear_uncovers(index: IndexView, key: Seq<char>)
    requires
        !ends_with_char(key, '/'),
        index.without(key, false).without(key.push('/'), true).covers(key),
    ensures
        exists|dir: Seq<char>| #[trigger]
            index.dirs.dom().contains(dir) && has_prefix(key.push('/'), dir) && dir != key.push('/'),
{
    let after = index.without(key, false).without(key.push('/'), true);
    assert(dir_form(key.push('/')) == key.push('/'));
    assert(!after.files.dom().contains(key));
    let dir = choose|dir: Seq<char>| #[trigger]
        after.dirs.dom().contains(dir) && has_prefix(dir_form(key), dir);
    assert(index.dirs.dom().contains(dir));
}

/// What deleting an entry of the recycle bin for good does.
#[derive(Debug)]
pub enum PurgeStep {
    /// Nothing: the record goes with the entry that it describes.
    Nothing,
    /// Delete the object that really lies at the path.
    DeleteReal { key: String },
    /// Only clear the tombstones: they were cleared elsewhere meanwhile.
    ClearOnly,
    /// Delete everything below the directory, then clear the tombstones.
    DeleteTree { path: String },
    /// Look the file up and decide by its entity tag, then clear.
    CheckFile,
}

/// What deleting an entry for good starts with: a record goes with its entry,
/// if that is known; what stands for no tombstone is deleted as it lies.
pub fn purge_unresolved(mount_prefix: &str, path: &str, is_record: bool, resolved: bool) -> (r: Option<PurgeStep>)
    ensures
        is_record && resolved ==> r == Some(PurgeStep::Nothing),
        !resolved ==> (r matches Some(PurgeStep::DeleteReal { key }) && key@ == key_of(mount_prefix@, path@)),
        !is_record && resolved ==> r is None,
{
    if resolved {
        if is_record {
            Some(PurgeStep::Nothing)
        } else {
            None
        }
    } else {
        Some(PurgeStep::DeleteReal { key: key_for(mount_prefix, path) })
    }
}

/// What deleting a known entry for good does. A directory is deleted only as
/// long as its tombstone is there.
pub fn purge_resolved(mount_prefix: &str, original_key: &str, is_dir: bool, tombstone_exists: bool) -> (r: PurgeStep)
    ensures
        !is_dir ==> r == PurgeStep::CheckFile,
        is_dir && !tombstone_exists ==> r == PurgeStep::ClearOnly,
        is_dir && tombstone_exists ==> (r matches PurgeStep::DeleteTree { path } && path@ == view_path_of(
            mount_prefix@,
            original_key@,
        )),
{
    if !is_dir {
        PurgeStep::CheckFile
    } else if !tombstone_exists {
        PurgeStep::ClearOnly
    } else {
        PurgeStep::DeleteTree { path: key_view_path(mount_prefix, original_key) }
    }
}

/// The object of a deleted file is deleted for good: it is gone anyway, or it
/// is the one that the tombstone was written for. Without its tombstone it is
/// left alone.
pub open spec fn may_purge_file(head: Option<Option<Seq<char>>>, tomb_etag: Option<Option<Seq<char>>>) -> bool {
    match head {
        None => true,
        Some(current) => match tomb_etag {
            None => false,
            Some(etag) => unchanged_since(etag, current),
        },
    }
}

/// An entity tag that may be missing, of an object that may be missing.
pub open spec fn opt_opt_view(s: Option<Option<String>>) -> Option<Option<Seq<char>>> {
    match s {
        Some(t) => Some(opt_view(t)),
        None => None,
    }
}

/// Whether the object of a deleted file is deleted for good. `head` is the
/// entity tag of the object, if that exists, and `tomb_etag` the one that the
/// tombstone tells, if that exists.
pub fn permanent_delete_file(head: &Option<Option<String>>, tomb_etag: &Option<Option<String>>) -> (r: bool)
    ensures
        r == may_purge_file(opt_opt_view(*head), opt_opt_view(*tomb_etag)),
{
    match head {
        None => true,
        Some(current) => match tomb_etag {
            None => false,
            Some(etag) => etags_agree(etag, current),
        },
    }
}

/// An object that was changed since it was deleted is not deleted for good.
pub proof fn law_changed_object_survives(current: Seq<char>, etag: Seq<char>)
    requires
        !crate::system_trash::same_etag(etag, current),
    ensures
        !may_purge_file(Some(Some(current)), Some(Some(etag))),
{
}

/// A directory that is restored to another place is copied with everything
/// below it, where the mount allows that and it does not hold too much; else it
/// is refused, and the reason told.
pub proof fn law_directory_copied_whole(plan: &RestorePlan, allow_rename_dir: bool, entries: u64, limit: Option<u64>)
    requires
        !plan.same_place,
    ensures
        allow_rename_dir && (limit is None || entries <= limit->0) ==> plan.action(
            OriginalObject::Directory,
            allow_rename_dir,
            entries,
            limit,
        ) == Ok::<RestoreAction, RestoreError>(RestoreAction::CopyTree),
        !allow_rename_dir ==> plan.action(OriginalObject::Directory, allow_rename_dir, entries, limit) == Err::<
            RestoreAction,
            RestoreError,
        >(RestoreError::DirRenameDisabled),
        allow_rename_dir && limit is Some && entries > limit->0 ==> plan.action(
            OriginalObject::Directory,
            allow_rename_dir,
            entries,
            limit,
        ) == Err::<RestoreAction, RestoreError>(RestoreError::TooManyEntries { count: entries, limit: limit->0 }),
{
}

/// A file that is restored to another place is copied as one object, in parts
/// from five gibibytes on, whatever holds for directories.
pub proof fn law_file_copied(plan: &RestorePlan, size: Option<i64>, allow_rename_dir: bool, entries: u64, limit: Option<u64>)
    requires
        !plan.same_place,
    ensures
        size is None || size->0 < 5_368_709_120 ==> plan.action(
            OriginalObject::File { size },
            allow_rename_dir,
            entries,
            limit,
        ) == Ok::<RestoreAction, RestoreError>(RestoreAction::CopyObject),
        size is Some && size->0 >= 5_368_709_120 ==> plan.action(
            OriginalObject::File { size },
            allow_rename_dir,
            entries,
            limit,
        ) == Ok::<RestoreAction, RestoreError>(RestoreAction::CopyParts { size: size->0 as u64 }),
{
}

/// What is restored where it was is not copied: only its tombstones are
/// cleared. What is gone is not copied either, and is told to be gone. Nothing
/// but a file is copied as one object, and nothing but a directory as a tree.
pub proof fn law_restore_copies(plan: &RestorePlan, original: OriginalObject, allow_rename_dir: bool, entries: u64, limit: Option<u64>)
    ensures
        ({
            let r = plan.action(original, allow_rename_dir, entries, limit);
            &&& original is Missing ==> r == Ok::<RestoreAction, RestoreError>(
                RestoreAction::ClearSource { outcome: RestoreOutcome::OriginalGone },
            )
            &&& !(original is Missing) && plan.same_place ==> r == Ok::<RestoreAction, RestoreError>(
                RestoreAction::ClearSource {
                    outcome: RestoreOutcome::Restored { etag_mismatch: false, multiple_versions: false },
                },
            )
            &&& (r matches Ok(RestoreAction::CopyObject)) ==> original is File && !plan.same_place
            &&& (r matches Ok(RestoreAction::CopyParts { .. })) ==> original is File && !plan.same_place
            &&& (r matches Ok(RestoreAction::CopyTree)) ==> original is Directory && !plan.same_place && allow_rename_dir
            &&& (r matches Ok(RestoreAction::ClearSource { .. })) ==> original is Missing || plan.same_place
        }),
{
}

/// Of two different places one is below the other only where its path goes on
/// behind a slash: a name that begins alike is no place below.
pub proof fn law_nested_is_below(a: Seq<char>, b: Seq<char>)
    ensures
        nested(a, b) <==> (exists|rest: Seq<char>| a == #[trigger] (b + seq!['/'] + rest)) || (exists|rest: Seq<char>|
            b == #[trigger] (a + seq!['/'] + rest)),
        nested(a, b) == nested(b, a),
{
    law_prefix_and_rest(b + seq!['/'], a);
    law_prefix_and_rest(a + seq!['/'], b);
    if exists|rest: Seq<char>| a == #[trigger] (b + seq!['/'] + rest) {
        let rest = choose|rest: Seq<char>| a == #[trigger] (b + seq!['/'] + rest);
        assert(a.len() > b.len());
        assert(a == (b + seq!['/']) + rest);
    }
    if exists|rest: Seq<char>| b == #[trigger] (a + seq!['/'] + rest) {
        let rest = choose|rest: Seq<char>| b == #[trigger] (a + seq!['/'] + rest);
        assert(b.len() > a.len());
        assert(b == (a + seq!['/']) + rest);
    }
}

/// What lies below a directory that is in the trash, however deep, has an
/// ancestor in the trash.
pub proof fn law_below_trash(index: IndexView, dir: Seq<char>, below: Seq<char>)
    requires
        index.covers(dir),
    ensures
        ancestor_covered(index, dir + seq!['/'] + below),
        forall|name: Seq<char>| !name.contains('/') ==> !(#[trigger] ancestor_covered(index, name)),
    decreases below.len(),
{
    let path = dir + seq!['/'] + below;
    assert(path[dir.len() as int] == '/');
    lemma_before_last_shorter(path, '/');
    if below.contains('/') {
        let i = lemma_last_place(below, '/');
        let n = dir.len() as int + 1;
        assert forall|k: int| n + i < k < path.len() implies #[trigger] path[k] != '/' by {
            assert(path[k] == below[k - n]);
        }
        assert(path[n + i] == below[i]);
        crate::text::lemma_last_at(path, '/', n + i);
        let up = below.subrange(0, i);
        assert(path.subrange(0, n + i) =~= dir + seq!['/'] + up);
        law_below_trash(index, dir, up);
    } else {
        let n = dir.len() as int;
        assert forall|k: int| n < k < path.len() implies #[trigger] path[k] != '/' by {
            assert(path[k] == below[k - n - 1]);
            assert(below.contains(below[k - n - 1]));
        }
        crate::text::lemma_last_at(path, '/', n);
        assert(path.subrange(0, n) =~= dir);
    }
    assert forall|name: Seq<char>| !name.contains('/') implies !(#[trigger] ancestor_covered(index, name)) by {
        crate::text::lemma_last_none(name, '/');
    }
}

proof fn lemma_last_place(s: Seq<char>, c: char) -> (i: int)
    requires
        s.contains(c),
    ensures
        0 <= i < s.len(),
        s[i] == c,
        forall|k: int| i < k < s.len() ==> #[trigger] s[k] != c,
    decreases s.len(),
{
    if s.last() == c {
        s.len() - 1
    } else {
        let head = s.drop_last();
        let at = choose|k: int| 0 <= k < s.len() && s[k] == c;
        assert(head[at] == c);
        let i = lemma_last_place(head, c);
        assert forall|k: int| i < k < s.len() implies #[trigger] s[k] != c by {
            if k < head.len() {
                assert(head[k] == s[k]);
            }
        }
        i
    }
}

/// When a deleted file is deleted for good: where its object is gone, and where
/// the object is the one that the tombstone was written for. An object whose
/// tombstone is gone stays, and so does one that has another entity tag by now
/// or has lost it.
pub proof fn law_purge_file(current: Option<Seq<char>>, tag: Seq<char>)
    ensures
        may_purge_file(None, None),
        may_purge_file(None, Some(Some(tag))),
        !may_purge_file(Some(current), None),
        may_purge_file(Some(Some(tag)), Some(Some(tag))),
        may_purge_file(Some(current), Some(None)),
        !may_purge_file(Some(None), Some(Some(tag))),
{
    crate::system_trash::law_etag_equivalence(tag, tag, tag);
}

/// Which tombstones are cleared for a key: those of that key in that form, of
/// any day, and no others.
pub proof fn law_tomb_of(prefix: Seq<char>, day: i32, key: Seq<char>, is_dir: bool, other: Seq<char>)
    requires
        key.len() > 0,
        key.last() != '/',
        crate::calendar::day_in_range(day as int),
    ensures
        is_tomb_of(prefix, crate::tombstone::tombstone_name(prefix, day, key, false), other) <==> other == key,
        is_tomb_of(prefix, crate::tombstone::tombstone_name(prefix, day, key, true), other) <==> other == key + seq!['/'],
{
    crate::tombstone::law_tombstone_tells(prefix, day, key, key);
}

/// Only what lies below something in the trash has an ancestor there.
pub proof fn law_ancestor_is_above(index: IndexView, path: Seq<char>)
    requires
        ancestor_covered(index, path),
    ensures
        exists|dir: Seq<char>, below: Seq<char>| path == #[trigger] (dir + seq!['/'] + below) && index.covers(dir),
    decreases path.len(),
{
    lemma_before_last_shorter(path, '/');
    if path.contains('/') {
        let i = lemma_last_place(path, '/');
        crate::text::lemma_last_at(path, '/', i);
        let up = path.subrange(0, i);
        let name = path.subrange(i + 1, path.len() as int);
        assert(path =~= up + seq!['/'] + name);
        if !index.covers(up) {
            law_ancestor_is_above(index, up);
            let (dir, below) = choose|dir: Seq<char>, below: Seq<char>|
                up == #[trigger] (dir + seq!['/'] + below) && index.covers(dir);
            let rest = below + seq!['/'] + name;
            assert(path =~= dir + seq!['/'] + rest);
        }
    } else {
        crate::text::lemma_last_none(path, '/');
    }
}

} // verus!
