//! What the store's answers mean: the entries of a listing, the attributes of
//! a path, ranges and statuses.

use vstd::prelude::*;
use vstd::string::*;

use crate::entry::{dir_entry, entry_views, DirEntry, EntryView};
use crate::numeral::{decimal, decimal_text};
use crate::paths::{basename, basename_of, is_root, key_for, key_of, list_prefix, list_prefix_of, strip_mount_prefix, without_prefix};
use crate::text::{
    contains_text, ends_with, ends_with_char, ends_with_text, has_prefix, has_suffix, has_text, is_char,
    law_drop_tail_while, law_prefix_and_rest,
    strip_prefix, tail_from, trim_end, trim_end_char,
};
use crate::trash_ops::{clamp_size, clamped_size};

verus! {

/// An object in a page of a listing.
#[derive(Debug)]
pub struct ObjectInfo {
    pub key: String,
    pub size: Option<i64>,
    pub modified_secs: Option<i64>,
}

/// The size of an object; zero where the store does not tell it.
pub open spec fn size_of(size: Option<i64>) -> u64 {
    match size {
        Some(s) => clamped_size(s),
        None => 0,
    }
}

/// The time of an object; zero where the store does not tell it.
pub open spec fn time_of(secs: Option<i64>) -> i64 {
    match secs {
        Some(s) => s,
        None => 0,
    }
}

fn size_or_zero(size: Option<i64>) -> (r: u64)
    ensures
        r == size_of(size),
{
    match size {
        Some(s) => clamp_size(s),
        None => 0,
    }
}

fn time_or_zero(secs: Option<i64>) -> (r: i64)
    ensures
        r == time_of(secs),
{
    match secs {
        Some(s) => s,
        None => 0,
    }
}

/// The directory that a common prefix denotes, below the prefix listed.
pub open spec fn listed_dir(prefix: Seq<char>, common: Seq<char>) -> Option<EntryView> {
    let name = trim_end(without_prefix(prefix, common), '/');
    if name.len() == 0 {
        None
    } else {
        Some(dir_entry(name))
    }
}

/// The file that an object denotes, below the prefix listed. The markers of
/// directories are none, and neither are objects outside the prefix; the
/// markers of other tools are left out where that is asked for.
pub open spec fn listed_file(prefix: Seq<char>, skip_markers: bool, o: ObjectInfo) -> Option<EntryView> {
    let name = tail_from(o.key@, prefix.len() as int);
    if !has_prefix(o.key@, prefix) || name.len() == 0 || ends_with_char(name, '/') {
        None
    } else if skip_markers && has_suffix(name, "_$folder$"@) {
        None
    } else {
        Some(
            EntryView {
                name,
                is_dir: false,
                size: size_of(o.size),
                mtime_secs: time_of(o.modified_secs),
            },
        )
    }
}

/// An entry added to others, if there is one.
pub open spec fn with_entry(s: Seq<EntryView>, e: Option<EntryView>) -> Seq<EntryView> {
    match e {
        Some(v) => s.push(v),
        None => s,
    }
}

/// The directories that common prefixes denote.
pub open spec fn listed_dirs(prefix: Seq<char>, commons: Seq<String>) -> Seq<EntryView>
    decreases commons.len(),
{
    if commons.len() == 0 {
        Seq::empty()
    } else {
        with_entry(
            listed_dirs(prefix, commons.drop_last()),
            listed_dir(prefix, commons.last()@),
        )
    }
}

/// The files that objects denote.
pub open spec fn listed_files(prefix: Seq<char>, skip_markers: bool, objects: Seq<ObjectInfo>) -> Seq<EntryView>
    decreases objects.len(),
{
    if objects.len() == 0 {
        Seq::empty()
    } else {
        with_entry(
            listed_files(prefix, skip_markers, objects.drop_last()),
            listed_file(prefix, skip_markers, objects.last()),
        )
    }
}

proof fn lemma_entry_views_push(v: Seq<DirEntry>, e: DirEntry)
    ensures
        entry_views(v.push(e)) == entry_views(v).push(e@),
{
    assert(entry_views(v.push(e)) =~= entry_views(v).push(e@));
}

/// Takes a page of the listing of a directory: its directories, then its
/// files.
pub fn list_page(prefix: &str, skip_markers: bool, commons: &Vec<String>, objects: &Vec<ObjectInfo>, out: &mut Vec<DirEntry>)
    ensures
        entry_views(final(out)@) == entry_views(old(out)@) + listed_dirs(prefix@, commons@)
            + listed_files(prefix@, skip_markers, objects@),
{
    let ghost base = entry_views(out@);
    let mut i: usize = 0;
    proof {
        assert(commons@.subrange(0, 0) =~= Seq::<String>::empty());
        assert(base + Seq::<EntryView>::empty() =~= base);
    }
    while i < commons.len()
        invariant
            i <= commons@.len(),
            entry_views(out@) == base + listed_dirs(prefix@, commons@.subrange(0, i as int)),
        decreases commons.len() - i,
    {
        proof {
            let upto = commons@.subrange(0, i + 1);
            assert(upto.drop_last() =~= commons@.subrange(0, i as int));
            assert(upto.last() == commons@[i as int]);
        }
        let rel = strip_mount_prefix(prefix, commons[i].as_str());
        let name = trim_end_char(rel.as_str(), '/');
        if !name.as_str().is_empty() {
            let ghost before = out@;
            let e = DirEntry::directory(name);
            proof {
                lemma_entry_views_push(before, e);
                let done = listed_dirs(prefix@, commons@.subrange(0, i as int));
                assert((base + done).push(e@) =~= base + done.push(e@));
            }
            out.push(e);
        }
        i = i + 1;
    }
    proof {
        assert(commons@.subrange(0, commons@.len() as int) =~= commons@);
    }
    let ghost mid = entry_views(out@);
    let mut j: usize = 0;
    proof {
        assert(objects@.subrange(0, 0) =~= Seq::<ObjectInfo>::empty());
        assert(mid + Seq::<EntryView>::empty() =~= mid);
    }
    while j < objects.len()
        invariant
            j <= objects@.len(),
            entry_views(out@) == mid + listed_files(
                prefix@,
                skip_markers,
                objects@.subrange(0, j as int),
            ),
        decreases objects.len() - j,
    {
        proof {
            let upto = objects@.subrange(0, j + 1);
            assert(upto.drop_last() =~= objects@.subrange(0, j as int));
            assert(upto.last() == objects@[j as int]);
        }
        let o = &objects[j];
        match strip_prefix(o.key.as_str(), prefix) {
            Some(name) => {
                let hidden = name.as_str().is_empty() || ends_with(name.as_str(), '/') || (skip_markers
                    && ends_with_text(name.as_str(), "_$folder$"));
                if !hidden {
                    let ghost before = out@;
                    let e = DirEntry {
                        name,
                        is_dir: false,
                        size: size_or_zero(o.size),
                        mtime_secs: time_or_zero(o.modified_secs),
                    };
                    proof {
                        lemma_entry_views_push(before, e);
                        let done = listed_files(prefix@, skip_markers, objects@.subrange(0, j as int));
                        assert((mid + done).push(e@) =~= mid + done.push(e@));
                    }
                    out.push(e);
                }
            },
            None => {},
        }
        j = j + 1;
    }
    proof {
        assert(objects@.subrange(0, objects@.len() as int) =~= objects@);
    }
}

/// The token of the next page: none where the listing is complete, or where
/// the store tells none.
pub fn next_page(truncated: Option<bool>, token: Option<String>) -> (r: Option<String>)
    ensures
        r == if truncated == Some(true) { token } else { None::<String> },
{
    match truncated {
        Some(t) => if t {
            token
        } else {
            None
        },
        None => None,
    }
}

/// A page of a listing is cut off, and the store does not tell how to go on.
#[derive(Debug, Clone, Copy, PartialEq, Eq, Structural)]
pub struct PageLost {}

/// The token of the next page, where a listing must not be cut short: none
/// where it is complete, and an error where the rest cannot be asked for.
pub fn next_page_token(truncated: Option<bool>, token: Option<String>) -> (r: Result<Option<String>, PageLost>)
    ensures
        r is Err <==> truncated == Some(true) && token is None,
        r matches Ok(next) ==> next == if truncated == Some(true) { token } else { None::<String> },
{
    match truncated {
        Some(t) => if t {
            match token {
                Some(token) => Ok(Some(token)),
                None => Err(PageLost {}),
            }
        } else {
            Ok(None)
        },
        None => Ok(None),
    }
}

/// How far the lookup of a path has come.
#[derive(Debug)]
pub enum StatState {
    /// The object of the path is to be looked up.
    Object { key: String },
    /// The marker of the directory is to be looked up.
    Marker { key: String },
    /// Something below the directory is to be looked for.
    Children { prefix: String },
    /// This is the result; none where there is nothing at the path.
    Done { result: Option<DirEntry> },
    /// The store failed.
    Failed,
}

/// What the store answered.
#[derive(Debug, Clone, Copy, PartialEq, Eq, Structural)]
pub enum StatReply {
    Found { size: Option<i64>, modified_secs: Option<i64> },
    Missing,
    Error,
}

/// The root of a mount.
pub open spec fn root_entry() -> EntryView {
    dir_entry(Seq::empty())
}

/// What a path is, from the answers of the store: an object makes it a file,
/// or a directory where its name ends with a slash; a marker makes it a
/// directory, and so does anything below it.
pub open spec fn stat_outcome(
    path: Seq<char>,
    key: Seq<char>,
    object: StatReply,
    marker: StatReply,
    children: StatReply,
) -> Result<Option<EntryView>, ()> {
    match object {
        StatReply::Found { size, modified_secs } => Ok(
            Some(
                EntryView {
                    name: basename_of(path),
                    is_dir: ends_with_char(path, '/') || ends_with_char(key, '/'),
                    size: size_of(size),
                    mtime_secs: time_of(modified_secs),
                },
            ),
        ),
        StatReply::Error => Err(()),
        StatReply::Missing => if ends_with_char(key, '/') {
            children_outcome(path, children)
        } else {
            match marker {
                StatReply::Found { size, modified_secs } => Ok(
                    Some(
                        EntryView {
                            name: basename_of(path),
                            is_dir: true,
                            size: size_of(size),
                            mtime_secs: time_of(modified_secs),
                        },
                    ),
                ),
                StatReply::Error => Err(()),
                StatReply::Missing => children_outcome(path, children),
            }
        },
    }
}

/// What a path without object and marker is.
pub open spec fn children_outcome(path: Seq<char>, children: StatReply) -> Result<Option<EntryView>, ()> {
    if ends_with_char(path, '/') {
        Ok(None)
    } else {
        match children {
            StatReply::Found { size: _, modified_secs: _ } => Ok(Some(dir_entry(basename_of(path)))),
            StatReply::Missing => Ok(None),
            StatReply::Error => Err(()),
        }
    }
}

impl StatState {
    /// The result, once there is one.
    pub open spec fn result(&self) -> Option<Result<Option<EntryView>, ()>> {
        match self {
            StatState::Done { result } => Some(
                Ok(
                    match result {
                        Some(e) => Some(e@),
                        None => None,
                    },
                ),
            ),
            StatState::Failed => Some(Err(())),
            _ => None,
        }
    }
}

/// Begins the lookup of a path. The root needs none.
pub fn stat_begin(mount_prefix: &str, path: &str) -> (r: StatState)
    ensures
        path@ == seq!['/'] ==> r.result() == Some(Ok::<Option<EntryView>, ()>(Some(root_entry()))),
        path@ != seq!['/'] ==> (r matches StatState::Object { key } && key@ == key_of(mount_prefix@, path@)),
{
    if is_root(path) {
        StatState::Done { result: Some(DirEntry::directory(String::new())) }
    } else {
        StatState::Object { key: key_for(mount_prefix, path) }
    }
}

fn after_missing(mount_prefix: &str, path: &str) -> (r: StatState)
    ensures
        ends_with_char(path@, '/') ==> r.result() == Some(Ok::<Option<EntryView>, ()>(None)),
        !ends_with_char(path@, '/') ==> (r matches StatState::Children { prefix } && prefix@
            == list_prefix_of(mount_prefix@, path@)),
{
    if ends_with(path, '/') {
        StatState::Done { result: None }
    } else {
        StatState::Children { prefix: list_prefix(mount_prefix, path) }
    }
}

/// Goes on with the lookup of a path: what was missing leads to the next
/// question, anything else ends it.
pub fn stat_next(mount_prefix: &str, path: &str, state: StatState, reply: StatReply) -> (r: StatState)
    ensures
        match state {
            StatState::Object { key } => if reply == StatReply::Missing && !ends_with_char(key@, '/') {
                r matches StatState::Marker { key: m } && m@ == key@.push('/')
            } else if reply == StatReply::Missing && !ends_with_char(path@, '/') {
                r matches StatState::Children { prefix } && prefix@ == list_prefix_of(mount_prefix@, path@)
            } else {
                r.result() == Some(stat_outcome(path@, key@, reply, StatReply::Missing, StatReply::Missing))
            },
            StatState::Marker { key } => if reply == StatReply::Missing && !ends_with_char(path@, '/') {
                r matches StatState::Children { prefix } && prefix@ == list_prefix_of(mount_prefix@, path@)
            } else {
                r.result() == Some(
                    stat_outcome(path@, Seq::empty(), StatReply::Missing, reply, StatReply::Missing),
                )
            },
            StatState::Children { prefix: _ } => r.result() == Some(
                match reply {
                    StatReply::Found { size: _, modified_secs: _ } => Ok::<Option<EntryView>, ()>(
                        Some(dir_entry(basename_of(path@))),
                    ),
                    StatReply::Missing => Ok::<Option<EntryView>, ()>(None),
                    StatReply::Error => Err::<Option<EntryView>, ()>(()),
                },
            ),
            _ => r == state,
        },
{
    match state {
        StatState::Object { key } => match reply {
            StatReply::Found { size, modified_secs } => {
                let is_dir = ends_with(path, '/') || ends_with(key.as_str(), '/');
                StatState::Done {
                    result: Some(
                        DirEntry {
                            name: basename(path),
                            is_dir,
                            size: size_or_zero(size),
                            mtime_secs: time_or_zero(modified_secs),
                        },
                    ),
                }
            },
            StatReply::Missing => if ends_with(key.as_str(), '/') {
                after_missing(mount_prefix, path)
            } else {
                let mut marker = key;
                marker.push('/');
                StatState::Marker { key: marker }
            },
            StatReply::Error => StatState::Failed,
        },
        StatState::Marker { key: _ } => match reply {
            StatReply::Found { size, modified_secs } => StatState::Done {
                result: Some(
                    DirEntry {
                        name: basename(path),
                        is_dir: true,
                        size: size_or_zero(size),
                        mtime_secs: time_or_zero(modified_secs),
                    },
                ),
            },
            StatReply::Missing => after_missing(mount_prefix, path),
            StatReply::Error => StatState::Failed,
        },
        StatState::Children { prefix: _ } => match reply {
            StatReply::Found { size: _, modified_secs: _ } => StatState::Done {
                result: Some(DirEntry::directory(basename(path))),
            },
            StatReply::Missing => StatState::Done { result: None },
            StatReply::Error => StatState::Failed,
        },
        other => other,
    }
}

/// Looks a path up, all answers of the store being given: the three questions
/// are asked in turn until one settles what the path is.
pub fn stat_run(mount_prefix: &str, path: &str, object: StatReply, marker: StatReply, children: StatReply) -> (r: StatState)
    ensures
        path@ == seq!['/'] ==> r.result() == Some(Ok::<Option<EntryView>, ()>(Some(root_entry()))),
        path@ != seq!['/'] ==> r.result() == Some(
            stat_outcome(path@, key_of(mount_prefix@, path@), object, marker, children),
        ),
{
    let first = stat_begin(mount_prefix, path);
    let second = stat_next(mount_prefix, path, first, object);
    let third = match second {
        StatState::Marker { key } => stat_next(mount_prefix, path, StatState::Marker { key }, marker),
        other => other,
    };
    match third {
        StatState::Children { prefix } => stat_next(
            mount_prefix,
            path,
            StatState::Children { prefix },
            children,
        ),
        other => other,
    }
}

/// The end of a range, as far as a word can count.
pub open spec fn range_end(offset: u64, len: usize) -> int {
    if offset + len <= u64::MAX {
        offset + len
    } else {
        u64::MAX as int
    }
}

/// The header that asks for `len` bytes from `offset`; a length without bound
/// from the start asks for the whole object.
pub open spec fn range_text(offset: u64, len: usize) -> Seq<char> {
    if offset == 0 && len == usize::MAX {
        "bytes=0-"@
    } else {
        "bytes="@ + decimal(offset as nat) + seq!['-'] + decimal(
            (if range_end(offset, len) > 0 { range_end(offset, len) - 1 } else { 0 }) as nat,
        )
    }
}

/// The header that asks for a range of an object.
pub fn range_header(offset: u64, len: usize) -> (r: String)
    ensures
        r@ == range_text(offset, len),
{
    if offset == 0 && len == usize::MAX {
        return "bytes=0-".to_owned();
    }
    let end: u64 = offset.saturating_add(len as u64);
    let last: u64 = end.saturating_sub(1);
    let mut r = "bytes=".to_owned();
    let from = decimal_text(offset);
    r.append(from.as_str());
    r.push('-');
    let to = decimal_text(last);
    r.append(to.as_str());
    proof {
        assert(r@ =~= range_text(offset, len));
    }
    r
}

/// Whether a status says that an object is missing.
pub fn is_s3_not_found(status: u16) -> (r: bool)
    ensures
        r == (status == 404),
{
    status == 404
}

/// Whether an answer says that a range lies behind the end of an object. Some
/// stores say so in the text of a general error.
pub fn is_s3_invalid_range(status: u16, body: &str) -> (r: bool)
    ensures
        r == (status == 416 || (status == 400 && contains_text(body@, "InvalidRange"@))),
{
    if status == 416 {
        true
    } else if status == 400 {
        has_text(body, "InvalidRange")
    } else {
        false
    }
}

/// The bytes to fetch for a read: a whole window where the read continues the
/// last one and is smaller than the window.
pub fn read_fetch_len(len: usize, window: usize, sequential: bool) -> (r: usize)
    ensures
        r == if window > 0 && len < window && sequential { window } else { len },
{
    if window > 0 && len < window && sequential {
        window
    } else {
        len
    }
}

/// No listing shows the directory itself or the marker of another one, and
/// the name that it shows for an object is the rest of its key.
pub proof fn law_listing_hides_markers(prefix: Seq<char>, skip_markers: bool, o: ObjectInfo)
    ensures
        o.key@ == prefix ==> listed_file(prefix, skip_markers, o) is None,
        ends_with_char(o.key@, '/') ==> listed_file(prefix, skip_markers, o) is None,
        listed_file(prefix, skip_markers, o) matches Some(e) ==> prefix + e.name == o.key@ && !e.is_dir,
{
    let name = tail_from(o.key@, prefix.len() as int);
    if has_prefix(o.key@, prefix) {
        assert(prefix + name =~= o.key@);
        if name.len() > 0 {
            assert(name.last() == o.key@.last());
        }
    }
}

/// The size that is shown for an object: what the store tells, and zero where
/// it tells none or a negative one. The time is what the store tells, or zero.
pub proof fn law_size_and_time(n: i64)
    ensures
        n >= 0 ==> size_of(Some(n)) == n,
        n < 0 ==> size_of(Some(n)) == 0,
        size_of(None) == 0,
        time_of(Some(n)) == n,
        time_of(None) == 0,
{
}

/// A listing leaves nothing out: every object of a page is shown as a file
/// under the name that its key has behind the prefix, whatever that is, with
/// its size and time. Only the directory itself, names that end with a slash
/// and, where that is asked for, the markers of other tools are not shown.
pub proof fn law_listing_complete(
    prefix: Seq<char>,
    skip_markers: bool,
    objects: Seq<ObjectInfo>,
    i: int,
    name: Seq<char>,
    size: i64,
    secs: i64,
)
    requires
        0 <= i < objects.len(),
        objects[i].key@ == prefix + name,
        objects[i].size == Some(size),
        objects[i].modified_secs == Some(secs),
        name.len() > 0,
        name.last() != '/',
        size >= 0,
        skip_markers ==> forall|head: Seq<char>| name != #[trigger] (head + "_$folder$"@),
    ensures
        listed_files(prefix, skip_markers, objects).contains(
            EntryView { name, is_dir: false, size: size as u64, mtime_secs: secs },
        ),
    decreases objects.len(),
{
    let all = listed_files(prefix, skip_markers, objects);
    let n = objects.len() - 1;
    let e = EntryView { name, is_dir: false, size: size as u64, mtime_secs: secs };
    if i == n {
        law_prefix_and_rest(prefix, name);
        law_prefix_and_rest("_$folder$"@, name);
        assert(listed_file(prefix, skip_markers, objects[i]) == Some(e));
        assert(all.last() == e);
        assert(all[all.len() - 1] == e);
    } else {
        law_listing_complete(prefix, skip_markers, objects.drop_last(), i, name, size, secs);
        let head = listed_files(prefix, skip_markers, objects.drop_last());
        let k = choose|k: int| 0 <= k < head.len() && head[k] == e;
        assert(all[k] == e);
    }
}

/// A listing makes nothing up: every file that it shows is an object of the
/// page, and its name is what the key has behind the prefix.
pub proof fn law_listing_sound(prefix: Seq<char>, skip_markers: bool, objects: Seq<ObjectInfo>, k: int)
    requires
        0 <= k < listed_files(prefix, skip_markers, objects).len(),
    ensures
        ({
            let e = listed_files(prefix, skip_markers, objects)[k];
            &&& !e.is_dir
            &&& e.name.len() > 0 && e.name.last() != '/'
            &&& skip_markers ==> forall|head: Seq<char>| e.name != #[trigger] (head + "_$folder$"@)
            &&& exists|i: int|
                0 <= i < objects.len() && (#[trigger] objects[i]).key@ == prefix + e.name && e.size == size_of(
                    objects[i].size,
                ) && e.mtime_secs == time_of(objects[i].modified_secs)
        }),
    decreases objects.len(),
{
    let all = listed_files(prefix, skip_markers, objects);
    if objects.len() > 0 {
        let head = listed_files(prefix, skip_markers, objects.drop_last());
        let n = objects.len() - 1;
        if k < head.len() {
            law_listing_sound(prefix, skip_markers, objects.drop_last(), k);
            let i = choose|i: int|
                0 <= i < objects.drop_last().len() && (#[trigger] objects.drop_last()[i]).key@ == prefix + head[k].name
                    && head[k].size == size_of(objects.drop_last()[i].size) && head[k].mtime_secs == time_of(
                    objects.drop_last()[i].modified_secs,
                );
            assert(objects[i] == objects.drop_last()[i]);
            assert(all[k] == head[k]);
        } else {
            let e = all[k];
            assert(listed_file(prefix, skip_markers, objects[n]) == Some(e));
            assert(prefix + e.name =~= objects[n].key@);
            law_prefix_and_rest("_$folder$"@, e.name);
        }
    }
}

/// Pages of a listing are shown one after the other.
pub proof fn law_listing_in_order(prefix: Seq<char>, skip_markers: bool, a: Seq<ObjectInfo>, b: Seq<ObjectInfo>)
    ensures
        listed_files(prefix, skip_markers, a + b) == listed_files(prefix, skip_markers, a) + listed_files(
            prefix,
            skip_markers,
            b,
        ),
        a.len() == 1 ==> listed_files(prefix, skip_markers, a).len() <= 1,
    decreases b.len(),
{
    if b.len() == 0 {
        assert(a + b =~= a);
        assert(listed_files(prefix, skip_markers, a) + Seq::<EntryView>::empty() =~= listed_files(prefix, skip_markers, a));
    } else {
        law_listing_in_order(prefix, skip_markers, a, b.drop_last());
        assert((a + b).drop_last() =~= a + b.drop_last());
        assert((a + b).last() == b.last());
        assert(listed_files(prefix, skip_markers, a + b) =~= listed_files(prefix, skip_markers, a) + listed_files(
            prefix,
            skip_markers,
            b,
        ));
    }
    if a.len() == 1 {
        assert(a.drop_last() =~= Seq::<ObjectInfo>::empty());
        assert(listed_files(prefix, skip_markers, a.drop_last()).len() == 0);
    }
}

/// Every directory of a page is shown as one under its name, and nothing else
/// is shown as a directory.
pub proof fn law_listed_dirs(prefix: Seq<char>, commons: Seq<String>)
    ensures
        forall|i: int, name: Seq<char>|
            0 <= i < commons.len() && name.len() > 0 && name.last() != '/' && (#[trigger] commons[i])@ == prefix + name + seq![
                '/',
            ] ==> #[trigger] listed_dirs(prefix, commons).contains(
                EntryView { name, is_dir: true, size: 0, mtime_secs: 0 },
            ),
        forall|k: int|
            0 <= k < listed_dirs(prefix, commons).len() ==> (#[trigger] listed_dirs(prefix, commons)[k]).is_dir
                && listed_dirs(prefix, commons)[k].name.len() > 0,
        listed_dirs(prefix, commons).len() <= commons.len(),
    decreases commons.len(),
{
    let all = listed_dirs(prefix, commons);
    if commons.len() > 0 {
        let less = commons.drop_last();
        let head = listed_dirs(prefix, less);
        let n = commons.len() - 1;
        law_listed_dirs(prefix, less);
        assert forall|i: int, name: Seq<char>|
            0 <= i < commons.len() && name.len() > 0 && name.last() != '/' && (#[trigger] commons[i])@ == prefix + name + seq![
                '/',
            ] implies #[trigger] listed_dirs(prefix, commons).contains(
            EntryView { name, is_dir: true, size: 0, mtime_secs: 0 },
        ) by {
            let e = EntryView { name, is_dir: true, size: 0, mtime_secs: 0 };
            if i == n {
                let below = name + seq!['/'];
                assert(prefix + name + seq!['/'] =~= prefix + below);
                law_prefix_and_rest(prefix, below);
                law_drop_tail_while(name, seq!['/'], is_char('/'));
                assert(listed_dir(prefix, commons[i]@) == Some(e));
                assert(all[all.len() - 1] == e);
            } else {
                assert(less[i] == commons[i]);
                assert(head.contains(e));
                let k = choose|k: int| 0 <= k < head.len() && head[k] == e;
                assert(all[k] == e);
            }
        }
        assert forall|k: int| 0 <= k < all.len() implies (#[trigger] all[k]).is_dir && all[k].name.len() > 0 by {
            if k < head.len() {
                assert(all[k] == head[k]);
            }
        }
    }
}

/// What a lookup finds. An object is a file of its size and time. Without an
/// object, its marker makes the path a directory, and so does anything below
/// it; where there is nothing at all, nothing is found. An answer that failed
/// is never taken for one.
pub proof fn law_lookup(
    parent: Seq<char>,
    name: Seq<char>,
    key: Seq<char>,
    object: StatReply,
    marker: StatReply,
    children: StatReply,
    size: i64,
    secs: i64,
)
    requires
        name.len() > 0,
        !name.contains('/'),
        !ends_with_char(key, '/'),
        size >= 0,
    ensures
        ({
            let found = stat_outcome(parent + seq!['/'] + name, key, object, marker, children);
            let there = StatReply::Found { size: Some(size), modified_secs: Some(secs) };
            &&& object == there ==> found == Ok::<Option<EntryView>, ()>(
                Some(EntryView { name, is_dir: false, size: size as u64, mtime_secs: secs }),
            )
            &&& object == StatReply::Missing && marker == there ==> found == Ok::<Option<EntryView>, ()>(
                Some(EntryView { name, is_dir: true, size: size as u64, mtime_secs: secs }),
            )
            &&& object == StatReply::Missing && marker == StatReply::Missing && children is Found ==> found
                == Ok::<Option<EntryView>, ()>(Some(EntryView { name, is_dir: true, size: 0, mtime_secs: 0 }))
            &&& object == StatReply::Missing && marker == StatReply::Missing && children == StatReply::Missing ==> found
                == Ok::<Option<EntryView>, ()>(None)
            &&& found is Err <==> object == StatReply::Error || (object == StatReply::Missing && (marker
                == StatReply::Error || (marker == StatReply::Missing && children == StatReply::Error)))
        }),
{
    let path = parent + seq!['/'] + name;
    assert(path.last() == name.last());
    assert(name.contains(name.last()));
    if parent == seq!['/'] {
        law_drop_tail_while(path, Seq::empty(), is_char('/'));
        assert(path + Seq::<char>::empty() =~= path);
        let i = parent.len() as int;
        assert(path[i] == '/');
        assert forall|k: int| i < k < path.len() implies #[trigger] path[k] != '/' by {
            assert(path[k] == name[k - i - 1]);
            assert(name.contains(name[k - i - 1]));
        }
        crate::text::lemma_last_at(path, '/', i);
        assert(tail_from(path, i + 1) =~= name);
    } else {
        crate::paths::law_basename_of_joined(parent, name);
    }
}

/// A read asks for the bytes from its offset up to the last one, both counted
/// in the header.
pub proof fn law_range_asked(offset: u64, len: usize)
    requires
        0 < len < usize::MAX,
        offset + len <= u64::MAX,
    ensures
        range_text(offset, len) == "bytes="@ + decimal(offset as nat) + seq!['-'] + decimal((offset + len - 1) as nat),
        range_text(0, usize::MAX) == "bytes=0-"@,
{
}

/// A path that ends with a slash is looked up as a directory: it is one where
/// there is an object by that name, and else there is nothing.
pub proof fn law_lookup_slashed(path: Seq<char>, key: Seq<char>, marker: StatReply, children: StatReply, size: i64, secs: i64)
    requires
        path.len() > 0 && path.last() == '/',
        key.len() > 0 && key.last() == '/',
        size >= 0,
    ensures
        stat_outcome(
            path,
            key,
            StatReply::Found { size: Some(size), modified_secs: Some(secs) },
            marker,
            children,
        ) matches Ok(Some(e)) && e.is_dir && e.size == size && e.mtime_secs == secs,
        stat_outcome(path, key, StatReply::Missing, marker, children) == Ok::<Option<EntryView>, ()>(None),
        stat_outcome(path, key, StatReply::Error, marker, children) is Err,
        root_entry() == (EntryView { name: Seq::empty(), is_dir: true, size: 0, mtime_secs: 0 }),
{
}

} // verus!
