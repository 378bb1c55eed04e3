//! The WinFsp mount: how files are opened and created, and what the system is
//! told about them.

use vstd::prelude::*;
use vstd::string::*;

use crate::budget::{reserve_now, units_of, BudgetError, DirtyBudget, DirtyPermit};
use crate::entry::{entry_views, DirEntry, EntryView};
use crate::object_fs::ObjectFs;
use crate::paths::is_root;
use crate::refresh::RefreshState;
use crate::system_trash::{filetime_of, unix_to_filetime};
use crate::text::{same_text, to_chars};
use crate::fuse_file::has_parts_left;
use crate::win_file::{reach, OssFileContext, WinWrite};

verus! {

pub const FILE_ATTRIBUTE_READONLY: u32 = 0x0000_0001;

pub const FILE_ATTRIBUTE_DIRECTORY: u32 = 0x0000_0010;

pub const FILE_ATTRIBUTE_ARCHIVE: u32 = 0x0000_0020;

/// An archive file that cannot be written.
pub const FILE_ATTRIBUTE_ARCHIVE_READONLY: u32 = 0x0000_0021;

pub const FILE_DIRECTORY_FILE: u32 = 0x0000_0001;

pub const FILE_NON_DIRECTORY_FILE: u32 = 0x0000_0040;

/// The right to write data.
pub const WRITE_DATA: u32 = 0x0000_0002;

/// The general right to write.
pub const GENERIC_WRITE: u32 = 0x4000_0000;

/// The size that is shown for a volume.
pub const VOLUME_SIZE: u64 = 1_125_899_906_842_624;

/// What the system is told about a file.
#[derive(Debug, Clone, Copy, PartialEq, Eq, Structural)]
pub struct FileInfo {
    pub file_attributes: u32,
    pub file_size: u64,
    pub allocation_size: u64,
    pub creation_time: u64,
    pub last_access_time: u64,
    pub last_write_time: u64,
    pub change_time: u64,
    pub index_number: u64,
    pub hard_links: u32,
}

/// What the system is told about an entry.
pub open spec fn info_of(e: EntryView, index: u64) -> FileInfo {
    let time = if e.mtime_secs <= 0 {
        0
    } else {
        filetime_of(e.mtime_secs as int)
    };
    FileInfo {
        file_attributes: if e.is_dir {
            FILE_ATTRIBUTE_DIRECTORY
        } else {
            FILE_ATTRIBUTE_ARCHIVE
        },
        file_size: e.size,
        allocation_size: e.size,
        creation_time: time,
        last_access_time: time,
        last_write_time: time,
        change_time: time,
        index_number: index,
        hard_links: 1,
    }
}

/// What the system is told about an entry.
pub fn file_info_from(entry: &DirEntry, index: u64) -> (r: FileInfo)
    ensures
        r == info_of(entry@, index),
{
    let time: u64 = unix_to_filetime(entry.mtime_secs);
    FileInfo {
        file_attributes: if entry.is_dir {
            FILE_ATTRIBUTE_DIRECTORY
        } else {
            FILE_ATTRIBUTE_ARCHIVE
        },
        file_size: entry.size,
        allocation_size: entry.size,
        creation_time: time,
        last_access_time: time,
        last_write_time: time,
        change_time: time,
        index_number: index,
        hard_links: 1,
    }
}

/// What the system is told about a file by its size alone.
pub fn sized_info(is_dir: bool, size: u64, index: u64) -> (r: FileInfo)
    ensures
        r == info_of((EntryView { name: Seq::empty(), is_dir, size, mtime_secs: 0 }), index),
{
    let entry = DirEntry { name: String::new(), is_dir, size, mtime_secs: 0 };
    proof {
        assert(entry@ =~= (EntryView { name: Seq::empty(), is_dir, size, mtime_secs: 0 }));
    }
    file_info_from(&entry, index)
}

/// A name matches a pattern, in which a star stands for any characters and a
/// question mark for any single one.
pub open spec fn matches_pattern(pattern: Seq<char>, name: Seq<char>) -> bool
    decreases pattern.len() + name.len(),
{
    if pattern.len() == 0 {
        name.len() == 0
    } else {
        let rest = pattern.subrange(1, pattern.len() as int);
        if pattern[0] == '*' {
            matches_pattern(rest, name) || (name.len() > 0 && matches_pattern(
                pattern,
                name.subrange(1, name.len() as int),
            ))
        } else {
            name.len() > 0 && (pattern[0] == '?' || pattern[0] == name[0]) && matches_pattern(
                rest,
                name.subrange(1, name.len() as int),
            )
        }
    }
}

fn matches_from(pattern: &Vec<char>, i: usize, name: &Vec<char>, j: usize) -> (r: bool)
    requires
        i <= pattern@.len(),
        j <= name@.len(),
    ensures
        r == matches_pattern(
            pattern@.subrange(i as int, pattern@.len() as int),
            name@.subrange(j as int, name@.len() as int),
        ),
    decreases (pattern@.len() - i) + (name@.len() - j),
{
    let ghost p = pattern@.subrange(i as int, pattern@.len() as int);
    let ghost n = name@.subrange(j as int, name@.len() as int);
    if i == pattern.len() {
        return j == name.len();
    }
    proof {
        assert(p.subrange(1, p.len() as int) =~= pattern@.subrange(i + 1, pattern@.len() as int));
        assert(p[0] == pattern@[i as int]);
        if n.len() > 0 {
            assert(n.subrange(1, n.len() as int) =~= name@.subrange(j + 1, name@.len() as int));
            assert(n[0] == name@[j as int]);
        }
    }
    if pattern[i] == '*' {
        matches_from(pattern, i + 1, name, j) || (j < name.len() && matches_from(pattern, i, name, j + 1))
    } else if j < name.len() && (pattern[i] == '?' || pattern[i] == name[j]) {
        matches_from(pattern, i + 1, name, j + 1)
    } else {
        false
    }
}

/// Whether a name matches a pattern.
pub fn wildcard_match(pattern: &str, name: &str) -> (r: bool)
    ensures
        r == matches_pattern(pattern@, name@),
{
    let p = to_chars(pattern);
    let n = to_chars(name);
    proof {
        assert(p@.subrange(0, p@.len() as int) =~= p@);
        assert(n@.subrange(0, n@.len() as int) =~= n@);
    }
    matches_from(&p, 0, &n, 0)
}

/// A star alone matches every name.
pub proof fn law_star_matches(name: Seq<char>)
    ensures
        matches_pattern(seq!['*'], name),
    decreases name.len(),
{
    reveal_with_fuel(matches_pattern, 2);
    assert(seq!['*'].subrange(1, 1) =~= Seq::<char>::empty());
    if name.len() > 0 {
        law_star_matches(name.subrange(1, name.len() as int));
    }
}

/// A name matches itself, where it holds neither star nor question mark, and
/// nothing else does.
pub proof fn law_plain_matches(pattern: Seq<char>, name: Seq<char>)
    requires
        !pattern.contains('*'),
        !pattern.contains('?'),
    ensures
        matches_pattern(pattern, name) <==> pattern == name,
    decreases pattern.len(),
{
    if pattern.len() > 0 {
        let rest = pattern.subrange(1, pattern.len() as int);
        assert(pattern.contains(pattern[0]));
        assert forall|c: char| rest.contains(c) implies pattern.contains(c) by {
            let k = rest.index_of(c);
            assert(pattern[k + 1] == c);
        }
        if name.len() > 0 {
            let tail = name.subrange(1, name.len() as int);
            law_plain_matches(rest, tail);
            if pattern[0] == name[0] && rest == tail {
                assert(pattern =~= seq![pattern[0]] + rest);
                assert(name =~= seq![name[0]] + tail);
            }
        }
    } else {
        if name.len() == 0 {
            assert(pattern =~= name);
        }
    }
}

/// Why a file is not opened or created.
#[derive(Debug, Clone, Copy, PartialEq, Eq, Structural)]
pub enum OpenError {
    NotFound,
    /// A directory was asked for.
    FileIsADirectory,
    /// A file was asked for.
    NotADirectory,
    AccessDenied,
}

/// The status code that an error is told by.
pub fn status_of(error: OpenError) -> (r: u32)
    ensures
        r == match error {
            OpenError::NotFound => 2u32,
            OpenError::FileIsADirectory => 0xC000_00BA,
            OpenError::NotADirectory => 0xC000_0103,
            OpenError::AccessDenied => 5,
        },
{
    match error {
        OpenError::NotFound => 2,
        OpenError::FileIsADirectory => 0xC000_00BA,
        OpenError::NotADirectory => 0xC000_0103,
        OpenError::AccessDenied => 5,
    }
}

/// What the system is told about the attributes of an entry.
pub fn security_attributes(found: &Option<DirEntry>, read_only: bool) -> (r: Result<u32, OpenError>)
    ensures
        *found is None ==> r == Err::<u32, OpenError>(OpenError::NotFound),
        *found matches Some(e) ==> r == Ok::<u32, OpenError>(
            if e.is_dir {
                FILE_ATTRIBUTE_DIRECTORY
            } else if read_only {
                FILE_ATTRIBUTE_ARCHIVE_READONLY
            } else {
                FILE_ATTRIBUTE_ARCHIVE
            },
        ),
{
    match found {
        None => Err(OpenError::NotFound),
        Some(e) => if e.is_dir {
            Ok(FILE_ATTRIBUTE_DIRECTORY)
        } else if read_only {
            Ok(FILE_ATTRIBUTE_ARCHIVE_READONLY)
        } else {
            Ok(FILE_ATTRIBUTE_ARCHIVE)
        },
    }
}

/// Access is asked for that allows writing.
pub open spec fn asks_to_write(access: u32) -> bool {
    access & WRITE_DATA != 0 || access & GENERIC_WRITE != 0
}

/// Opens what is at a path.
pub fn open_file(path: &str, found: &Option<DirEntry>, options: u32, access: u32, read_only: bool) -> (r: Result<OssFileContext, OpenError>)
    ensures
        match *found {
            None => r == Err::<OssFileContext, OpenError>(OpenError::NotFound),
            Some(e) => if options & FILE_DIRECTORY_FILE != 0 && !e.is_dir {
                r == Err::<OssFileContext, OpenError>(OpenError::FileIsADirectory)
            } else if options & FILE_NON_DIRECTORY_FILE != 0 && e.is_dir {
                r == Err::<OssFileContext, OpenError>(OpenError::NotADirectory)
            } else if asks_to_write(access) && read_only {
                r == Err::<OssFileContext, OpenError>(OpenError::AccessDenied)
            } else {
                r matches Ok(f) && f.wf() && f.is_fresh(path@, e.is_dir, !e.is_dir && asks_to_write(access), false)
            },
        },
{
    match found {
        None => Err(OpenError::NotFound),
        Some(e) => {
            if options & FILE_DIRECTORY_FILE != 0 && !e.is_dir {
                return Err(OpenError::FileIsADirectory);
            }
            if options & FILE_NON_DIRECTORY_FILE != 0 && e.is_dir {
                return Err(OpenError::NotADirectory);
            }
            let write = access & WRITE_DATA != 0 || access & GENERIC_WRITE != 0;
            if write && read_only {
                return Err(OpenError::AccessDenied);
            }
            Ok(OssFileContext::new(path, e.is_dir, !e.is_dir && write, false))
        },
    }
}

/// What creating something takes.
#[derive(Debug, Clone, Copy, PartialEq, Eq, Structural)]
pub enum CreateKind {
    Directory,
    File,
}

/// What creating something takes; nothing is created on a read-only mount.
pub fn create_kind(options: u32, read_only: bool) -> (r: Result<CreateKind, OpenError>)
    ensures
        read_only ==> r == Err::<CreateKind, OpenError>(OpenError::AccessDenied),
        !read_only ==> r == Ok::<CreateKind, OpenError>(
            if options & FILE_DIRECTORY_FILE != 0 {
                CreateKind::Directory
            } else {
                CreateKind::File
            },
        ),
{
    if read_only {
        Err(OpenError::AccessDenied)
    } else if options & FILE_DIRECTORY_FILE != 0 {
        Ok(CreateKind::Directory)
    } else {
        Ok(CreateKind::File)
    }
}

/// A file or directory that was created. What an existing file holds is kept:
/// it is fetched when it is needed. The size that is shown comes with it, and
/// whether an empty object is to be written.
pub fn create_file(path: &str, kind: CreateKind, existing: &Option<DirEntry>) -> (r: (OssFileContext, u64, bool))
    ensures
        r.0.wf(),
        kind is Directory ==> r.0.is_fresh(path@, true, false, true) && r.1 == 0 && !r.2,
        kind is File && *existing is None ==> r.0.is_fresh(path@, false, true, true) && r.1 == 0 && r.2,
        kind is File ==> (*existing matches Some(e) ==> r.0.is_fresh(path@, false, true, false) && r.1 == e.size && !r.2),
{
    match kind {
        CreateKind::Directory => (OssFileContext::new(path, true, false, true), 0, false),
        CreateKind::File => match existing {
            Some(e) => (OssFileContext::new(path, false, true, false), e.size, false),
            None => (OssFileContext::new(path, false, true, true), 0, true),
        },
    }
}

/// Where a listing is taken up again: behind the entry that was shown last,
/// or at the start where it is not there any more.
pub open spec fn resume_at(names: Seq<Seq<char>>, last: Seq<char>) -> int {
    if names.contains(last) {
        names.index_of_first(last)->0 + 1
    } else {
        0
    }
}

/// The names of entries.
pub open spec fn names_of(entries: Seq<EntryView>) -> Seq<Seq<char>> {
    entries.map_values(|e: EntryView| e.name)
}

/// Where a listing is taken up again.
pub fn directory_start(entries: &Vec<DirEntry>, last: Option<&str>) -> (r: usize)
    ensures
        last is None ==> r == 0,
        last matches Some(name) ==> r == resume_at(names_of(entry_views(entries@)), name@),
{
    let name = match last {
        None => return 0,
        Some(name) => name,
    };
    let ghost names = names_of(entry_views(entries@));
    let mut i: usize = 0;
    while i < entries.len()
        invariant
            i <= entries@.len(),
            last == Some(name),
            names == names_of(entry_views(entries@)),
            forall|k: int| 0 <= k < i ==> #[trigger] names[k] != name@,
        decreases entries.len() - i,
    {
        proof {
            assert(entry_views(entries@)[i as int] == entries@[i as int]@);
            assert(names[i as int] == entries@[i as int].name@);
        }
        if same_text(entries[i].name.as_str(), name) {
            proof {
                assert(names.contains(name@));
                names.index_of_first_ensures(name@);
                let j = names.index_of_first(name@)->0;
                assert(j == i) by {
                    if j < i {
                        assert(names[j] != name@);
                    }
                    if i < j {
                        assert(names[i as int] == name@);
                    }
                }
            }
            return i + 1;
        }
        i = i + 1;
    }
    0
}

/// Which of a directory itself and its parent are shown: on the first page of
/// any directory but the root, where they match the pattern.
pub fn directory_dots(path: &str, start: usize, pattern: Option<&str>) -> (r: (bool, bool))
    ensures
        ({
            let shown = path@ != seq!['/'] && start == 0;
            &&& r.0 == (shown && (pattern matches Some(p) ==> matches_pattern(p@, seq!['.'])))
            &&& r.1 == (shown && (pattern matches Some(p) ==> matches_pattern(p@, seq!['.', '.'])))
        }),
{
    if is_root(path) || start != 0 {
        return (false, false);
    }
    match pattern {
        None => (true, true),
        Some(p) => {
            proof {
                reveal_strlit(".");
                reveal_strlit("..");
                assert("."@ =~= seq!['.']);
                assert(".."@ =~= seq!['.', '.']);
            }
            (wildcard_match(p, "."), wildcard_match(p, ".."))
        },
    }
}

/// What a volume is mounted with.
#[derive(Debug, Clone, Copy, PartialEq, Eq, Structural)]
pub struct VolumeParams {
    pub read_only: bool,
    pub sector_size: u16,
    pub sectors_per_allocation_unit: u16,
    pub max_component_length: u16,
    pub case_sensitive_search: bool,
    pub case_preserved_names: bool,
    pub unicode_on_disk: bool,
    pub persistent_acls: bool,
    pub reparse_points: bool,
    pub post_cleanup_when_modified_only: bool,
    pub flush_and_purge_on_cleanup: bool,
    pub pass_query_directory_pattern: bool,
    pub file_info_timeout: u32,
    pub dir_info_timeout: u32,
}

/// What a volume is mounted with.
pub fn build_volume_params(read_only: bool) -> (r: VolumeParams)
    ensures
        r == (VolumeParams {
            read_only,
            sector_size: 512,
            sectors_per_allocation_unit: 8,
            max_component_length: 255,
            case_sensitive_search: true,
            case_preserved_names: true,
            unicode_on_disk: true,
            persistent_acls: false,
            reparse_points: false,
            post_cleanup_when_modified_only: true,
            flush_and_purge_on_cleanup: true,
            pass_query_directory_pattern: true,
            file_info_timeout: 1000,
            dir_info_timeout: 1000,
        }),
{
    VolumeParams {
        read_only,
        sector_size: 512,
        sectors_per_allocation_unit: 8,
        max_component_length: 255,
        case_sensitive_search: true,
        case_preserved_names: true,
        unicode_on_disk: true,
        persistent_acls: false,
        reparse_points: false,
        post_cleanup_when_modified_only: true,
        flush_and_purge_on_cleanup: true,
        pass_query_directory_pattern: true,
        file_info_timeout: 1000,
        dir_info_timeout: 1000,
    }
}

/// The state of a WinFsp mount.
pub struct OssMountContext {
    /// What was seen of directories.
    pub refresh: RefreshState,
    /// The budget for unsaved bytes, where there is one.
    pub dirty_budget: Option<DirtyBudget>,
    pub read_only: bool,
    /// The seconds after which an operation fails.
    pub operation_timeout: u64,
}

/// What a budget is once so many of its units are taken: its cap is kept, and
/// where none was taken it is the same.
pub open spec fn budget_after(before: Option<DirtyBudget>, units: nat, after: Option<DirtyBudget>) -> bool {
    match before {
        None => after is None,
        Some(b) => {
            &&& after matches Some(now) && now.spec_max() == b.spec_max() && now.spec_available() == b.spec_available()
                - units
            &&& units == 0 ==> after == before
        },
    }
}

impl OssMountContext {
    pub open spec fn wf(&self) -> bool {
        self.refresh.wf() && (self.dirty_budget matches Some(b) ==> b.wf())
    }

    /// The state of a new mount, which takes over the budget.
    pub fn new(fs: &mut ObjectFs) -> (r: OssMountContext)
        requires
            old(fs).wf(),
        ensures
            r.wf(),
            r.dirty_budget == old(fs).dirty_budget,
            r.read_only == old(fs).settings.read_only,
            r.operation_timeout == match old(fs).settings.readwrite_timeout_secs {
                Some(n) => n,
                None => crate::settings::READWRITE_TIMEOUT_SECS,
            },
            crate::text::views(r.refresh.dirs@) == seq![seq!['/']],
            r.refresh.snapshots@.dom().len() == 0,
            r.refresh.fits(),
            final(fs).wf(),
            *final(fs) == (ObjectFs { dirty_budget: None, ..*old(fs) }),
    {
        let read_only = fs.read_only();
        let operation_timeout: u64 = fs.operation_timeout();
        let mut dirty_budget: Option<DirtyBudget> = None;
        std::mem::swap(&mut dirty_budget, &mut fs.dirty_budget);
        OssMountContext { refresh: RefreshState::new(), dirty_budget, read_only, operation_timeout }
    }

    /// Takes of the budget what a file needs to hold so many bytes, or refuses
    /// at once; without a budget nothing is taken.
    pub fn reserve_dirty(&mut self, file: &mut OssFileContext, bytes: usize) -> (r: Result<DirtyPermit, BudgetError>)
        requires
            old(self).wf(),
        ensures
            final(self).wf(),
            *final(self) == (OssMountContext { dirty_budget: final(self).dirty_budget, ..*old(self) }),
            *final(file) == (OssFileContext { held: final(file).held, ..*old(file) }),
            r matches Ok(p) ==> budget_after(old(self).dirty_budget, p.spec_units(), final(self).dirty_budget),
            r is Err ==> final(self).dirty_budget == old(self).dirty_budget,
            match old(self).dirty_budget {
                None => (r matches Ok(p) && p.spec_units() == 0) && *final(file) == *old(file),
                Some(b) => {
                    let need = units_of(bytes as nat);
                    let more = need - old(file).held.units;
                    if need > b.spec_max() {
                        r == Err::<DirtyPermit, BudgetError>(BudgetError::TooLarge) && *final(file) == *old(file)
                    } else if more <= 0 {
                        (r matches Ok(p) && p.spec_units() == 0) && *final(file) == *old(file)
                    } else if more > b.spec_available() {
                        r == Err::<DirtyPermit, BudgetError>(BudgetError::Busy) && *final(file) == *old(file)
                    } else {
                        &&& r matches Ok(p) && p.spec_units() == more
                        &&& final(file).held.units == need
                    }
                },
            },
    {
        match &mut self.dirty_budget {
            None => Ok(DirtyPermit::noop()),
            Some(b) => reserve_now(b, &mut file.held, bytes),
        }
    }

    /// Writes to a file, once what it then takes in memory is held of the
    /// budget. Where that is refused nothing is written.
    pub fn write(&mut self, file: &mut OssFileContext, offset: u64, to_eof: bool, data: &[u8]) -> (r: Result<
        (WinWrite, DirtyPermit),
        BudgetError,
    >)
        requires
            old(self).wf(),
            old(file).wf(),
            old(file).stream matches Some(s) ==> has_parts_left(s.upload.content().len(), data@.len()),
        ensures
            final(self).wf(),
            *final(self) == (OssMountContext { dirty_budget: final(self).dirty_budget, ..*old(self) }),
            final(file).wf(),
            match r {
                Ok((step, permit)) => {
                    &&& budget_after(old(self).dirty_budget, permit.spec_units(), final(self).dirty_budget)
                    &&& (OssFileContext { held: final(file).held, ..*old(file) }).write_outcome(offset, to_eof, data@, step, final(file))
                    &&& final(file).held.units == old(file).held.units + permit.spec_units()
                    &&& old(self).dirty_budget is Some && data@.len() > 0 && old(file).stream is None
                        && !old(file).elsewhere()
                        ==> units_of(reach(old(file).write_start(offset, to_eof), data@.len()) as nat)
                        <= final(file).held.units
                },
                Err(e) => {
                    let size = reach(old(file).write_start(offset, to_eof), data@.len());
                    &&& *final(file) == *old(file)
                    &&& final(self).dirty_budget == old(self).dirty_budget
                    &&& old(self).dirty_budget matches Some(b) && if units_of(size as nat) > b.spec_max() {
                        e == BudgetError::TooLarge
                    } else {
                        e == BudgetError::Busy && units_of(size as nat) > old(file).held.units + b.spec_available()
                    }
                },
            },
    {
        if data.len() == 0 || file.stream.is_some() || file.spooled || !file.loaded {
            let step = file.write(offset, to_eof, data);
            return Ok((step, DirtyPermit::noop()));
        }
        let size: usize = file.write_size(offset, to_eof, data.len());
        match self.reserve_dirty(file, size) {
            Err(e) => Err(e),
            Ok(permit) => {
                let ghost mid = *file;
                let step = file.write(offset, to_eof, data);
                proof {
                    assert(mid == OssFileContext { held: file.held, ..*old(file) });
                }
                Ok((step, permit))
            },
        }
    }

    /// Notes that a directory was browsed, and what it holds.
    pub fn record_browsed(&mut self, dir: &str, entries: &Vec<DirEntry>)
        requires
            old(self).wf(),
        ensures
            final(self).wf(),
            exists|mid: RefreshState|
                old(self).refresh.browses(dir@, &mid) && #[trigger] mid.stores(
                    dir@,
                    entry_views(entries@),
                    &final(self).refresh,
                ),
            old(self).refresh.fits() ==> final(self).refresh.fits(),
            *final(self) == (OssMountContext { refresh: final(self).refresh, ..*old(self) }),
    {
        self.refresh.record_browsed(dir);
        self.refresh.store_snapshot(dir, entries);
    }
}

/// What the system is told about an entry is what the entry is: its kind, its
/// size and its time; one that is not known is told as zero.
pub proof fn law_info(e: EntryView, index: u64)
    ensures
        e.is_dir ==> info_of(e, index).file_attributes == 0x10,
        !e.is_dir ==> info_of(e, index).file_attributes == 0x20,
        info_of(e, index).file_size == e.size,
        info_of(e, index).index_number == index,
        e.mtime_secs <= 0 ==> info_of(e, index).last_write_time == 0,
        0 < e.mtime_secs < 1_000_000_000_000 ==> info_of(e, index).last_write_time == (e.mtime_secs + 11_644_473_600)
            * 10_000_000,
        info_of(e, index).creation_time == info_of(e, index).last_write_time,
        info_of(e, index).change_time == info_of(e, index).last_write_time,
{
    if 0 < e.mtime_secs < 1_000_000_000_000 {
        crate::system_trash::law_filetime(e.mtime_secs as int);
    }
}

/// What a pattern matches, character by character: a plain one matches itself, a
/// question mark any single one, and a star any number of them, also none.
pub proof fn law_pattern(pattern: Seq<char>, name: Seq<char>, c: char, d: char, head: Seq<char>)
    requires
        c != '*',
        c != '?',
    ensures
        matches_pattern(Seq::empty(), name) <==> name.len() == 0,
        matches_pattern(seq![c] + pattern, seq![d] + name) <==> c == d && matches_pattern(pattern, name),
        matches_pattern(seq!['?'] + pattern, seq![d] + name) <==> matches_pattern(pattern, name),
        !matches_pattern(seq![c] + pattern, Seq::empty()),
        !matches_pattern(seq!['?'] + pattern, Seq::empty()),
        matches_pattern(pattern, name) ==> matches_pattern(seq!['*'] + pattern, head + name),
        matches_pattern(seq!['*'] + pattern, name) ==> exists|k: int|
            0 <= k <= name.len() && #[trigger] matches_pattern(pattern, name.subrange(k, name.len() as int)),
{
    let p = seq![c] + pattern;
    let q = seq!['?'] + pattern;
    let s = seq!['*'] + pattern;
    let n = seq![d] + name;
    assert(p.subrange(1, p.len() as int) =~= pattern);
    assert(q.subrange(1, q.len() as int) =~= pattern);
    assert(s.subrange(1, s.len() as int) =~= pattern);
    assert(n.subrange(1, n.len() as int) =~= name);
    lemma_star_takes(pattern, head, name);
    lemma_star_gives(pattern, name);
}

proof fn lemma_star_takes(pattern: Seq<char>, head: Seq<char>, name: Seq<char>)
    ensures
        matches_pattern(pattern, name) ==> matches_pattern(seq!['*'] + pattern, head + name),
    decreases head.len(),
{
    let s = seq!['*'] + pattern;
    assert(s.subrange(1, s.len() as int) =~= pattern);
    if head.len() == 0 {
        assert(head + name =~= name);
    } else {
        let rest = head.subrange(1, head.len() as int);
        lemma_star_takes(pattern, rest, name);
        let all = head + name;
        assert(all.subrange(1, all.len() as int) =~= rest + name);
    }
}

proof fn lemma_star_gives(pattern: Seq<char>, name: Seq<char>)
    ensures
        matches_pattern(seq!['*'] + pattern, name) ==> exists|k: int|
            0 <= k <= name.len() && #[trigger] matches_pattern(pattern, name.subrange(k, name.len() as int)),
    decreases name.len(),
{
    let s = seq!['*'] + pattern;
    assert(s.subrange(1, s.len() as int) =~= pattern);
    if matches_pattern(s, name) {
        if matches_pattern(pattern, name) {
            assert(name.subrange(0, name.len() as int) =~= name);
        } else {
            let rest = name.subrange(1, name.len() as int);
            lemma_star_gives(pattern, rest);
            let k = choose|k: int|
                0 <= k <= rest.len() && #[trigger] matches_pattern(pattern, rest.subrange(k, rest.len() as int));
            assert(name.subrange(k + 1, name.len() as int) =~= rest.subrange(k, rest.len() as int));
        }
    }
}

/// A file is opened for writing where the right to write data is asked for, or
/// the general right to write.
pub proof fn law_asks_to_write(access: u32)
    ensures
        asks_to_write(access) <==> access & 0x2 != 0 || access & 0x4000_0000 != 0,
        !asks_to_write(0x1),
        !asks_to_write(0x8000_0000),
{
    assert(0x1u32 & 0x2 == 0 && 0x1u32 & 0x4000_0000 == 0) by (bit_vector);
    assert(0x8000_0000u32 & 0x2 == 0 && 0x8000_0000u32 & 0x4000_0000 == 0) by (bit_vector);
}

/// A listing is taken up behind the entry that was shown last, so that nothing
/// is shown twice and nothing is left out; one that is gone makes it begin anew.
pub proof fn law_resume(before: Seq<Seq<char>>, last: Seq<char>, behind: Seq<Seq<char>>)
    requires
        !before.contains(last),
    ensures
        resume_at(before + seq![last] + behind, last) == before.len() + 1,
        resume_at(before, last) == 0,
{
    let names = before + seq![last] + behind;
    let i = before.len() as int;
    assert(names[i] == last);
    names.index_of_first_ensures(last);
    let j = names.index_of_first(last)->0;
    if j < i {
        assert(before[j] == names[j]);
        assert(before.contains(last));
    }
    if j > i {
        assert(names[i] != last);
    }
}

/// What is taken of a budget is missing from it, and its cap stays.
pub proof fn law_budget_after(b: DirtyBudget, units: nat, after: Option<DirtyBudget>)
    ensures
        budget_after(Some(b), units, after) ==> after is Some && after->0.spec_max() == b.spec_max()
            && after->0.spec_available() + units == b.spec_available(),
        budget_after(None, units, after) ==> after is None,
        budget_after(Some(b), 0, after) ==> after == Some(b),
{
}

} // verus!
