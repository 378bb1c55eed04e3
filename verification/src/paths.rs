//! How paths and object keys correspond, and the parts of a path.

use vstd::prelude::*;
use vstd::string::*;

use crate::text::{
    after_last, before_last, concat2, ends_with_char, has_prefix, law_drop_tail_while, law_replace_char, law_skip_while,
    law_trim_all, law_trim_space, lemma_last_at, is_char, white_space,
    lemma_trim_end_none, replace, replace_char, strip_prefix, tail_from, text_after_last,
    text_before_last, trim_end, trim_end_char, trim_space, trim_start, trim_start_char, trim_white,
};

verus! {

/// A path without white space around it and without its leading slashes.
pub open spec fn rel_key_of(path: Seq<char>) -> Seq<char> {
    trim_start(trim_space(path), '/')
}

/// The last component of a path; that of the root is the root.
pub open spec fn basename_of(path: Seq<char>) -> Seq<char> {
    let trimmed = trim_end(path, '/');
    if trimmed.len() == 0 {
        seq!['/']
    } else {
        after_last(trimmed, '/')
    }
}

/// The directory that a path lies in; that of the root is the root.
pub open spec fn parent_of(path: Seq<char>) -> Seq<char> {
    match before_last(trim_end(path, '/'), '/') {
        Some(parent) => if parent.len() == 0 {
            seq!['/']
        } else {
            parent
        },
        None => seq!['/'],
    }
}

/// The path of a name in a directory.
pub open spec fn joined(parent: Seq<char>, name: Seq<char>) -> Seq<char> {
    if parent == seq!['/'] {
        seq!['/'] + name
    } else {
        parent + seq!['/'] + name
    }
}

/// The object key of a path below a prefix.
pub open spec fn key_of(prefix: Seq<char>, path: Seq<char>) -> Seq<char> {
    let rel = rel_key_of(path);
    if rel.len() == 0 {
        trim_end(prefix, '/')
    } else {
        prefix + rel
    }
}

/// The prefix of the keys of a directory's children.
pub open spec fn list_prefix_of(prefix: Seq<char>, dir: Seq<char>) -> Seq<char> {
    if dir == seq!['/'] {
        prefix
    } else {
        prefix + rel_key_of(dir) + seq!['/']
    }
}

/// A key with exactly one slash at its end.
pub open spec fn dir_prefix_of(key: Seq<char>) -> Seq<char> {
    trim_end(key, '/') + seq!['/']
}

/// A key without the prefix of the mount, where it has it.
pub open spec fn without_prefix(prefix: Seq<char>, key: Seq<char>) -> Seq<char> {
    if has_prefix(key, prefix) {
        tail_from(key, prefix.len() as int)
    } else {
        key
    }
}

/// The path under which a key is seen in the mount.
pub open spec fn view_path_of(prefix: Seq<char>, key: Seq<char>) -> Seq<char> {
    seq!['/'] + trim_end(without_prefix(prefix, key), '/')
}

/// The path of a key in the notation of the recycle bin.
pub open spec fn recycle_path_of(prefix: Seq<char>, key: Seq<char>) -> Seq<char> {
    "C:"@ + seq!['\\'] + replace_char(without_prefix(prefix, key), '/', '\\')
}

/// A path of the Windows side as a POSIX path.
pub open spec fn posix_of(name: Seq<char>) -> Seq<char> {
    let replaced = replace_char(trim_start(name, '\\'), '\\', '/');
    if replaced.len() > 0 && replaced[0] == '/' {
        replaced
    } else {
        seq!['/'] + replaced
    }
}

/// A POSIX path as a path of the Windows side, from the root.
pub open spec fn windows_of(path: Seq<char>) -> Seq<char> {
    seq!['\\'] + replace_char(trim_start(path, '/'), '/', '\\')
}

/// Whether the text is the single slash of the root.
pub fn is_root(path: &str) -> (r: bool)
    ensures
        r == (path@ == seq!['/']),
{
    let r = path.unicode_len() == 1 && path.get_char(0) == '/';
    proof {
        if r {
            assert(path@ =~= seq!['/']);
        }
    }
    r
}

fn slash() -> (r: String)
    ensures
        r@ == seq!['/'],
{
    let mut r = String::new();
    r.push('/');
    proof {
        assert(r@ =~= seq!['/']);
    }
    r
}

/// The path without its leading slashes.
pub fn rel_key(path: &str) -> (r: String)
    ensures
        r@ == rel_key_of(path@),
{
    let trimmed = trim_white(path);
    trim_start_char(trimmed.as_str(), '/')
}

/// The last component of the path.
pub fn basename(path: &str) -> (r: String)
    ensures
        r@ == basename_of(path@),
{
    let trimmed = trim_end_char(path, '/');
    if trimmed.as_str().is_empty() {
        slash()
    } else {
        text_after_last(trimmed.as_str(), '/')
    }
}

/// The directory that the path lies in.
pub fn parent_path(path: &str) -> (r: String)
    ensures
        r@ == parent_of(path@),
{
    let trimmed = trim_end_char(path, '/');
    match text_before_last(trimmed.as_str(), '/') {
        Some(parent) => if parent.as_str().is_empty() {
            slash()
        } else {
            parent
        },
        None => slash(),
    }
}

/// The path of a name in a directory.
pub fn join_path(parent: &str, name: &str) -> (r: String)
    ensures
        r@ == joined(parent@, name@),
{
    if is_root(parent) {
        let root = slash();
        concat2(root.as_str(), name)
    } else {
        let mut r = parent.to_owned();
        r.push('/');
        r.append(name);
        proof {
            assert(r@ =~= parent@ + seq!['/'] + name@);
        }
        r
    }
}

/// The object key of a path.
pub fn key_for(prefix: &str, path: &str) -> (r: String)
    ensures
        r@ == key_of(prefix@, path@),
{
    let rel = rel_key(path);
    if rel.as_str().is_empty() {
        trim_end_char(prefix, '/')
    } else {
        concat2(prefix, rel.as_str())
    }
}

/// The prefix of the keys of a directory's children.
pub fn list_prefix(prefix: &str, dir: &str) -> (r: String)
    ensures
        r@ == list_prefix_of(prefix@, dir@),
{
    if is_root(dir) {
        prefix.to_owned()
    } else {
        let rel = rel_key(dir);
        let mut r = concat2(prefix, rel.as_str());
        r.push('/');
        proof {
            assert(r@ =~= prefix@ + rel_key_of(dir@) + seq!['/']);
        }
        r
    }
}

/// The key with exactly one slash at its end.
pub fn dir_object_prefix(key: &str) -> (r: String)
    ensures
        r@ == dir_prefix_of(key@),
{
    let mut r = trim_end_char(key, '/');
    let ghost base = r@;
    r.push('/');
    proof {
        assert(r@ =~= base + seq!['/']);
    }
    r
}

/// The key without the prefix of the mount.
pub fn strip_mount_prefix(prefix: &str, key: &str) -> (r: String)
    ensures
        r@ == without_prefix(prefix@, key@),
{
    match strip_prefix(key, prefix) {
        Some(rel) => rel,
        None => key.to_owned(),
    }
}

/// The path under which a key is seen in the mount.
pub fn key_view_path(prefix: &str, key: &str) -> (r: String)
    ensures
        r@ == view_path_of(prefix@, key@),
{
    let rel = strip_mount_prefix(prefix, key);
    let trimmed = trim_end_char(rel.as_str(), '/');
    let root = slash();
    concat2(root.as_str(), trimmed.as_str())
}

/// The path of a key in the notation of the recycle bin.
pub fn i_view_path(prefix: &str, key: &str) -> (r: String)
    ensures
        r@ == recycle_path_of(prefix@, key@),
{
    let rel = strip_mount_prefix(prefix, key);
    let tail = replace(rel.as_str(), '/', '\\');
    let mut r = "C:".to_owned();
    r.push('\\');
    r.append(tail.as_str());
    proof {
        assert(r@ =~= recycle_path_of(prefix@, key@));
    }
    r
}

/// A path of the Windows side as a POSIX path.
pub fn win_path_to_posix(name: &str) -> (r: String)
    ensures
        r@ == posix_of(name@),
{
    let trimmed = trim_start_char(name, '\\');
    let replaced = replace(trimmed.as_str(), '\\', '/');
    if replaced.as_str().unicode_len() > 0 && replaced.as_str().get_char(0) == '/' {
        replaced
    } else {
        let root = slash();
        concat2(root.as_str(), replaced.as_str())
    }
}

/// A POSIX path as a path of the Windows side.
pub fn posix_to_win_path(path: &str) -> (r: String)
    ensures
        r@ == windows_of(path@),
{
    let trimmed = trim_start_char(path, '/');
    let tail = replace(trimmed.as_str(), '/', '\\');
    let mut r = String::new();
    r.push('\\');
    r.append(tail.as_str());
    proof {
        assert(r@ =~= windows_of(path@));
    }
    r
}

/// A name without slashes is the last component of its path.
pub proof fn law_basename_of_joined(parent: Seq<char>, name: Seq<char>)
    requires
        name.len() > 0,
        !name.contains('/'),
    ensures
        basename_of(joined(parent, name)) == name,
{
    let p = joined(parent, name);
    let i = p.len() - name.len() - 1;
    assert(p.last() == name.last());
    assert(name.contains(name.last()));
    lemma_trim_end_none(p, '/');
    assert(p[i] == '/');
    assert forall|k: int| i < k < p.len() implies #[trigger] p[k] != '/' by {
        assert(p[k] == name[k - i - 1]);
        assert(name.contains(name[k - i - 1]));
    }
    lemma_last_at(p, '/', i);
    assert(tail_from(p, i + 1) =~= name);
}

/// The directory of a joined path is the one that it was joined to, if that
/// is the root or does not end with a slash.
pub proof fn law_parent_of_joined(parent: Seq<char>, name: Seq<char>)
    requires
        name.len() > 0,
        !name.contains('/'),
        parent == seq!['/'] || (parent.len() > 0 && !ends_with_char(parent, '/')),
    ensures
        parent_of(joined(parent, name)) == parent,
{
    let p = joined(parent, name);
    let i = p.len() - name.len() - 1;
    assert(p.last() == name.last());
    assert(name.contains(name.last()));
    lemma_trim_end_none(p, '/');
    assert(p[i] == '/');
    assert forall|k: int| i < k < p.len() implies #[trigger] p[k] != '/' by {
        assert(p[k] == name[k - i - 1]);
        assert(name.contains(name[k - i - 1]));
    }
    lemma_last_at(p, '/', i);
    if parent == seq!['/'] {
        assert(p.subrange(0, i) =~= Seq::<char>::empty());
    } else {
        assert(p.subrange(0, i) =~= parent);
    }
}

/// Within a mount, different paths in normal form have different keys.
pub proof fn law_key_injective(prefix: Seq<char>, a: Seq<char>, b: Seq<char>)
    requires
        rel_key_of(a).len() > 0,
        rel_key_of(b).len() > 0,
        key_of(prefix, a) == key_of(prefix, b),
    ensures
        rel_key_of(a) == rel_key_of(b),
{
    let n = prefix.len() as int;
    assert(tail_from(prefix + rel_key_of(a), n) =~= rel_key_of(a));
    assert(tail_from(prefix + rel_key_of(b), n) =~= rel_key_of(b));
}

/// The prefix of the mount is taken off again where a key is shown.
pub proof fn law_key_view(prefix: Seq<char>, path: Seq<char>)
    requires
        rel_key_of(path).len() > 0,
    ensures
        without_prefix(prefix, key_of(prefix, path)) == rel_key_of(path),
{
    let key = key_of(prefix, path);
    assert(key.subrange(0, prefix.len() as int) =~= prefix);
    assert(tail_from(key, prefix.len() as int) =~= rel_key_of(path));
}

/// A key as paths spell it: not empty, not beginning with a slash, and without
/// white space at its ends.
pub open spec fn plain_key(r: Seq<char>) -> bool {
    r.len() > 0 && r[0] != '/' && !white_space(r[0]) && !white_space(r.last())
}

/// The key of a path is the path without its slash, character by character,
/// behind the prefix of the mount; that of the root is the prefix without its
/// slash. So different paths have different keys.
pub proof fn law_key_of_path(prefix: Seq<char>, r: Seq<char>, s: Seq<char>)
    requires
        plain_key(r),
        plain_key(s),
    ensures
        rel_key_of(seq!['/'] + r) == r,
        rel_key_of(r) == r,
        key_of(prefix, seq!['/'] + r) == prefix + r,
        key_of(prefix + seq!['/'], seq!['/']) == trim_end(prefix, '/'),
        key_of(Seq::empty(), seq!['/']) == Seq::<char>::empty(),
        key_of(prefix, seq!['/'] + r) == key_of(prefix, seq!['/'] + s) ==> r == s,
{
    lemma_rel_key(r);
    lemma_rel_key(s);
    let none = Seq::<char>::empty();
    let root = seq!['/'];
    law_trim_space(none, root, none);
    assert(none + root + none =~= root);
    law_trim_all(root, '/');
    law_trim_all(none, '/');
    assert((prefix + root).drop_last() =~= prefix);
    assert(tail_from(prefix + r, prefix.len() as int) =~= r);
    assert(tail_from(prefix + s, prefix.len() as int) =~= s);
}

proof fn lemma_rel_key(r: Seq<char>)
    requires
        plain_key(r),
    ensures
        rel_key_of(seq!['/'] + r) == r,
        rel_key_of(r) == r,
{
    let none = Seq::<char>::empty();
    let path = seq!['/'] + r;
    assert(path.last() == r.last() && path[0] == '/');
    law_trim_space(none, path, none);
    assert(none + path + none =~= path);
    law_skip_while(seq!['/'], r, is_char('/'));
    law_trim_space(none, r, none);
    assert(none + r + none =~= r);
    law_skip_while(none, r, is_char('/'));
    assert(none + r =~= r);
}

/// The children of a directory have the keys that begin with its key and a
/// slash; those of the root begin with the prefix of the mount. Nothing but the
/// name is added to the prefix of the directory to give the key of a child.
pub proof fn law_children_below(prefix: Seq<char>, r: Seq<char>, name: Seq<char>)
    requires
        plain_key(r),
        plain_key(name),
    ensures
        list_prefix_of(prefix, seq!['/']) == prefix,
        list_prefix_of(prefix, seq!['/'] + r) == prefix + r + seq!['/'],
        key_of(prefix, seq!['/'] + r + seq!['/'] + name) == list_prefix_of(prefix, seq!['/'] + r) + name,
        key_of(prefix, seq!['/'] + name) == list_prefix_of(prefix, seq!['/']) + name,
        !ends_with_char(r, '/') ==> dir_prefix_of(r) == r + seq!['/'] && dir_prefix_of(r + seq!['/']) == r + seq!['/'],
{
    let below = r + seq!['/'] + name;
    assert(below[0] == r[0] && below.last() == name.last());
    lemma_rel_key(r);
    lemma_rel_key(name);
    lemma_rel_key(below);
    assert(seq!['/'] + r + seq!['/'] + name =~= seq!['/'] + below);
    assert(prefix + below =~= prefix + r + seq!['/'] + name);
    assert((seq!['/'] + r).len() > 1);
    if !ends_with_char(r, '/') {
        law_drop_tail_while(r, Seq::empty(), is_char('/'));
        assert(r + Seq::<char>::empty() =~= r);
        law_drop_tail_while(r, seq!['/'], is_char('/'));
    }
}

/// A key of the mount is seen at the path that it is the key of: without the
/// prefix, without a slash at its end, and otherwise as it is. A key of another
/// place is seen as it is.
pub proof fn law_key_seen_at(prefix: Seq<char>, r: Seq<char>)
    requires
        r.len() > 0,
        !ends_with_char(r, '/'),
    ensures
        without_prefix(prefix, prefix + r) == r,
        view_path_of(prefix, prefix + r) == seq!['/'] + r,
        view_path_of(prefix, prefix + r + seq!['/']) == seq!['/'] + r,
        (forall|rest: Seq<char>| r != #[trigger] (prefix + rest)) ==> view_path_of(prefix, r) == seq!['/'] + r,
        plain_key(r) ==> key_of(prefix, view_path_of(prefix, prefix + r)) == prefix + r,
{
    let key = prefix + r;
    let dir = prefix + r + seq!['/'];
    let n = prefix.len() as int;
    assert(key.subrange(0, n) =~= prefix && dir.subrange(0, n) =~= prefix);
    assert(tail_from(key, n) =~= r);
    assert(tail_from(dir, n) =~= r + seq!['/']);
    law_drop_tail_while(r, Seq::empty(), is_char('/'));
    assert(r + Seq::<char>::empty() =~= r);
    law_drop_tail_while(r, seq!['/'], is_char('/'));
    if forall|rest: Seq<char>| r != #[trigger] (prefix + rest) {
        if has_prefix(r, prefix) {
            assert(r =~= prefix + tail_from(r, n));
        }
    }
    if plain_key(r) {
        lemma_rel_key(r);
    }
}

/// The recycle bin shows a key behind the drive, with backslashes for slashes
/// and every other character as it is.
pub proof fn law_recycle_path(prefix: Seq<char>, r: Seq<char>, i: int)
    requires
        0 <= i < r.len(),
    ensures
        recycle_path_of(prefix, prefix + r).len() == 3 + r.len(),
        recycle_path_of(prefix, prefix + r).subrange(0, 3) == seq!['C', ':', '\\'],
        recycle_path_of(prefix, prefix + r)[3 + i] == (if r[i] == '/' {
            '\\'
        } else {
            r[i]
        }),
{
    reveal_strlit("C:");
    let key = prefix + r;
    let n = prefix.len() as int;
    assert(key.subrange(0, n) =~= prefix);
    assert(tail_from(key, n) =~= r);
    let shown = recycle_path_of(prefix, key);
    assert(shown =~= seq!['C', ':', '\\'] + crate::text::replace_char(r, '/', '\\'));
    assert(shown.subrange(0, 3) =~= seq!['C', ':', '\\']);
}

/// A path of the Windows side and its POSIX form differ in nothing but the
/// direction of the slashes, and each form leads back to the other.
pub proof fn law_windows_paths(r: Seq<char>)
    requires
        !r.contains('\\'),
        r.len() > 0 ==> r[0] != '/',
    ensures
        windows_of(seq!['/'] + r).len() == 1 + r.len(),
        windows_of(seq!['/'] + r)[0] == '\\',
        forall|i: int|
            0 <= i < r.len() ==> #[trigger] windows_of(seq!['/'] + r)[1 + i] == (if r[i] == '/' {
                '\\'
            } else {
                r[i]
            }),
        posix_of(windows_of(seq!['/'] + r)) == seq!['/'] + r,
{
    law_skip_while(seq!['/'], r, is_char('/'));
    let w = crate::text::replace_char(r, '/', '\\');
    law_replace_char(r, '/', '\\');
    if r.len() > 0 {
        assert(r.contains(r[0]));
    }
    law_skip_while(seq!['\\'], w, is_char('\\'));
    assert(crate::text::replace_char(w, '\\', '/') == r);
}

/// A name is added to a directory behind a slash, and both stay as they are.
pub proof fn law_joined(parent: Seq<char>, name: Seq<char>)
    ensures
        parent != seq!['/'] ==> joined(parent, name) == parent + seq!['/'] + name,
        joined(seq!['/'], name) == seq!['/'] + name,
{
}

/// The last name of a key or a path, and what it lies in, also where there is
/// but one name, and where slashes follow it.
pub proof fn law_last_name(parent: Seq<char>, name: Seq<char>)
    requires
        name.len() > 0,
        !name.contains('/'),
        parent.len() > 0,
        parent.last() != '/',
    ensures
        basename_of(name) == name,
        basename_of(name + seq!['/']) == name,
        basename_of(parent + seq!['/'] + name + seq!['/']) == name,
        basename_of(seq!['/']) == seq!['/'],
        parent_of(name) == seq!['/'],
        parent_of(seq!['/'] + name) == seq!['/'],
        parent_of(seq!['/']) == seq!['/'],
        parent_of(parent + seq!['/'] + name + seq!['/']) == parent,
{
    let slash = seq!['/'];
    let none = Seq::<char>::empty();
    assert(name.contains(name.last()));
    law_drop_tail_while(name, none, is_char('/'));
    assert(name + none =~= name);
    law_drop_tail_while(name, slash, is_char('/'));
    crate::text::lemma_last_none(name, '/');
    law_trim_all(slash, '/');
    let path = parent + slash + name;
    assert(path.last() == name.last());
    law_drop_tail_while(path, slash, is_char('/'));
    let i = parent.len() as int;
    assert(path[i] == '/');
    assert forall|k: int| i < k < path.len() implies #[trigger] path[k] != '/' by {
        assert(path[k] == name[k - i - 1]);
        assert(name.contains(name[k - i - 1]));
    }
    lemma_last_at(path, '/', i);
    assert(tail_from(path, i + 1) =~= name);
    assert(path.subrange(0, i) =~= parent);
    let top = slash + name;
    assert(top.last() == name.last());
    law_drop_tail_while(top, none, is_char('/'));
    assert(top + none =~= top);
    assert forall|k: int| 0 < k < top.len() implies #[trigger] top[k] != '/' by {
        assert(top[k] == name[k - 1]);
        assert(name.contains(name[k - 1]));
    }
    lemma_last_at(top, '/', 0);
    crate::text::lemma_last_none(none, '/');
}

} // verus!
