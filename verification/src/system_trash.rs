//! The view of the trash as the recycle bin of the operating system: which
//! paths lie in it, and the records that describe its entries.

use vstd::prelude::*;
use vstd::string::*;

use crate::date::{Date, DAY_SECS, EPOCH_DAY};
use crate::numeral::{
    from_hex_digit, hex_digit, le_bytes, le_value, lemma_le_bytes_len, parse_number, parse_u64, to_le_bytes,
    to_utf16, utf16,
};
use crate::tombstone::word;
use crate::text::{
    equal_ignoring_case, has_prefix, same_but_case, same_text, split_first, split_on, split_once,
    split_text, tail_from, trim_both, trim_char, views,
};

verus! {

/// How the recycle bin is configured.
#[derive(Debug)]
pub struct SystemTrashConfig {
    /// The name of its directory, in place of the platform's own.
    pub dir_name: Option<String>,
    /// The user ids whose directories are shown; none for the current user's.
    pub macos_uid_dirs: Vec<u32>,
}

/// The kind of recycle bin.
#[derive(Debug, Clone, Copy, PartialEq, Eq, Structural)]
pub enum SystemTrashPlatform {
    /// Entries in pairs: `$R` for the content, `$I` for the record of it.
    WindowsRecycleBin,
    /// Entries by their own names.
    MacOsTrashes,
}

/// The recycle bin of a mount.
#[derive(Debug)]
pub struct SystemTrash {
    /// The name of its directory below the root of the mount.
    pub dir_name: String,
    pub platform: SystemTrashPlatform,
    /// The user ids whose directories are shown; none for the current user's.
    pub macos_uid_dirs: Vec<u32>,
    /// The user who mounted.
    pub current_uid: u32,
}

/// Where in the recycle bin a path lies.
#[derive(Debug, PartialEq, Eq)]
pub enum SystemTrashMatch {
    /// A directory: level 0 is the bin itself, level 1 a user's part of it.
    Dir { level: usize },
    /// An entry of a user's part.
    Entry { entry_name: String },
}

/// Where in the recycle bin a path lies.
#[verifier::ext_equal]
pub enum MatchView {
    Dir(nat),
    Entry(Seq<char>),
}

impl SystemTrashMatch {
    pub open spec fn view(&self) -> MatchView {
        match self {
            SystemTrashMatch::Dir { level } => MatchView::Dir(*level as nat),
            SystemTrashMatch::Entry { entry_name } => MatchView::Entry(entry_name@),
        }
    }
}

/// The user id that a text denotes.
pub open spec fn parse_uid(s: Seq<char>) -> Option<u32> {
    match parse_u64(s) {
        Some(n) => if n <= u32::MAX {
            Some(n as u32)
        } else {
            None
        },
        None => None,
    }
}

impl SystemTrash {
    /// The part of the bin belongs to a user whose entries are shown. On
    /// Windows every part does; on macOS those of the configured user ids, or
    /// that of the current user where none is configured.
    pub open spec fn shows(&self, part: Seq<char>) -> bool {
        self.platform == SystemTrashPlatform::WindowsRecycleBin || match parse_uid(part) {
            Some(uid) => if self.macos_uid_dirs@.len() == 0 {
                uid == self.current_uid
            } else {
                self.macos_uid_dirs@.contains(uid)
            },
            None => false,
        }
    }

    /// Where a path lies: its components are the name of the bin, a part that
    /// is shown, and the name of an entry; anything deeper lies outside.
    pub open spec fn place_of(&self, path: Seq<char>) -> Option<MatchView> {
        let parts = split_on(trim_both(path, '/'), '/');
        if parts[0] != self.dir_name@ {
            None
        } else if parts.len() == 1 {
            Some(MatchView::Dir(0))
        } else if !self.shows(parts[1]) {
            None
        } else if parts.len() == 2 {
            Some(MatchView::Dir(1))
        } else if parts.len() == 3 {
            Some(MatchView::Entry(parts[2]))
        } else {
            None
        }
    }

    /// The path goes below the directory of the bin, however deep.
    pub open spec fn named_below(&self, path: Seq<char>) -> bool {
        match split_once(trim_both(path, '/'), '/') {
            Some((first, _rest)) => first == self.dir_name@,
            None => false,
        }
    }

    /// Whether a user's part of the bin is shown.
    pub fn uid_in_scope(&self, uid: &str) -> (r: bool)
        ensures
            r == self.shows(uid@),
    {
        if self.platform == SystemTrashPlatform::WindowsRecycleBin {
            return true;
        }
        let n: u32 = match parse_number(uid) {
            Some(n) => if n <= u32::MAX as u64 {
                n as u32
            } else {
                return false;
            },
            None => {
                return false;
            },
        };
        if self.macos_uid_dirs.len() == 0 {
            return n == self.current_uid;
        }
        let mut i: usize = 0;
        while i < self.macos_uid_dirs.len()
            invariant
                i <= self.macos_uid_dirs@.len(),
                forall|k: int| 0 <= k < i ==> #[trigger] self.macos_uid_dirs@[k] != n,
                parse_uid(uid@) == Some(n),
                self.macos_uid_dirs@.len() > 0,
                self.platform != SystemTrashPlatform::WindowsRecycleBin,
            decreases self.macos_uid_dirs.len() - i,
        {
            if self.macos_uid_dirs[i] == n {
                assert(self.macos_uid_dirs@.contains(n));
                return true;
            }
            i = i + 1;
        }
        false
    }

    /// Where in the recycle bin a path lies, if it does.
    pub fn match_system_trash(&self, path: &str) -> (r: Option<SystemTrashMatch>)
        ensures
            r is Some <==> self.place_of(path@) is Some,
            r matches Some(m) ==> self.place_of(path@) == Some(m@),
    {
        let trimmed = trim_char(path, '/');
        let parts = split_text(trimmed.as_str(), '/');
        proof {
            lemma_split_some(trim_both(path@, '/'), '/');
            let ghost_parts = split_on(trim_both(path@, '/'), '/');
            assert(parts@.len() == ghost_parts.len());
            assert forall|k: int| 0 <= k < parts@.len() implies #[trigger] parts@[k]@ == ghost_parts[k] by {
                assert(views(parts@)[k] == parts@[k]@);
            }
        }
        if !same_text(parts[0].as_str(), self.dir_name.as_str()) {
            return None;
        }
        if parts.len() == 1 {
            return Some(SystemTrashMatch::Dir { level: 0 });
        }
        if !self.uid_in_scope(parts[1].as_str()) {
            return None;
        }
        if parts.len() == 2 {
            Some(SystemTrashMatch::Dir { level: 1 })
        } else if parts.len() == 3 {
            Some(SystemTrashMatch::Entry { entry_name: parts[2].clone() })
        } else {
            None
        }
    }

    /// Whether a path lies in the recycle bin.
    pub fn is_system_trash_path(&self, path: &str) -> (r: bool)
        ensures
            r == (self.place_of(path@) is Some),
    {
        self.match_system_trash(path).is_some()
    }

    /// Whether a path goes below the directory of the recycle bin.
    pub fn is_system_trash_named_path(&self, path: &str) -> (r: bool)
        ensures
            r == self.named_below(path@),
    {
        let trimmed = trim_char(path, '/');
        match split_first(trimmed.as_str(), '/') {
            Some((first, _rest)) => same_text(first.as_str(), self.dir_name.as_str()),
            None => false,
        }
    }

    /// The user's part that a path in the recycle bin goes through.
    pub open spec fn part_of(&self, path: Seq<char>) -> Option<Seq<char>> {
        let parts = split_on(trim_both(path, '/'), '/');
        match self.place_of(path) {
            Some(MatchView::Dir(level)) => if level == 1 && parts[1].len() > 0 {
                Some(parts[1])
            } else {
                None
            },
            Some(MatchView::Entry(_name)) => if parts[1].len() > 0 {
                Some(parts[1])
            } else {
                None
            },
            None => None,
        }
    }

    /// The user's part that a path goes through, on Windows its SID.
    pub fn part(&self, path: &str) -> (r: Option<String>)
        ensures
            r is Some <==> self.part_of(path@) is Some,
            r matches Some(p) ==> self.part_of(path@) == Some(p@),
    {
        let inside = match self.match_system_trash(path) {
            Some(SystemTrashMatch::Dir { level }) => level == 1,
            Some(SystemTrashMatch::Entry { entry_name: _ }) => true,
            None => false,
        };
        if !inside {
            return None;
        }
        let trimmed = trim_char(path, '/');
        let parts = split_text(trimmed.as_str(), '/');
        proof {
            let ghost_parts = split_on(trim_both(path@, '/'), '/');
            assert(parts@.len() == ghost_parts.len());
            assert(views(parts@)[1] == parts@[1]@);
        }
        if parts[1].as_str().is_empty() {
            None
        } else {
            Some(parts[1].clone())
        }
    }
}

/// There is always a first piece.
pub proof fn lemma_split_some(s: Seq<char>, c: char)
    ensures
        split_on(s, c).len() >= 1,
    decreases s.len(),
{
    if s.len() > 0 {
        lemma_split_some(s.subrange(1, s.len() as int), c);
    }
}

/// The name of a record in the recycle bin of Windows: `$I` and at least
/// eight hexadecimal digits.
pub open spec fn names_record(name: Seq<char>) -> bool {
    &&& name.len() >= 10
    &&& name[0] == '$'
    &&& name[1] == 'I'
    &&& forall|k: int| 2 <= k < 10 ==> hex_digit(#[trigger] name[k]) is Some
}

/// The name of the entry that a record describes.
pub open spec fn content_name(name: Seq<char>) -> Seq<char> {
    seq!['$', 'R'] + tail_from(name, 2)
}

/// The name of the record that describes an entry.
pub open spec fn record_name(name: Seq<char>) -> Seq<char> {
    seq!['$', 'I'] + tail_from(name, 2)
}

/// Whether a name is that of a record.
pub fn is_i_entry(name: &str) -> (r: bool)
    ensures
        r == names_record(name@),
{
    if name.unicode_len() < 10 || name.get_char(0) != '$' || name.get_char(1) != 'I' {
        return false;
    }
    let mut k: usize = 2;
    while k < 10
        invariant
            2 <= k <= 10,
            name@.len() >= 10,
            name@[0] == '$',
            name@[1] == 'I',
            forall|j: int| 2 <= j < k ==> hex_digit(#[trigger] name@[j]) is Some,
        decreases 10 - k,
    {
        let c = name.get_char(k);
        if from_hex_digit(c).is_none() {
            assert(hex_digit(name@[k as int]) is None);
            return false;
        }
        k = k + 1;
    }
    true
}

/// The name of the entry that a record describes, if it is one.
pub fn i_to_r_name(name: &str) -> (r: Option<String>)
    ensures
        r is Some <==> names_record(name@),
        r matches Some(t) ==> t@ == content_name(name@),
{
    if is_i_entry(name) {
        let mut r = String::new();
        r.push('$');
        r.push('R');
        r.append(name.substring_char(2, name.unicode_len()));
        proof {
            assert(r@ =~= content_name(name@));
        }
        Some(r)
    } else {
        None
    }
}

/// The name of the record of an entry whose name starts with `$R`.
pub fn r_to_i_name(name: &str) -> (r: Option<String>)
    ensures
        r is Some <==> has_prefix(name@, seq!['$', 'R']),
        r matches Some(t) ==> t@ == record_name(name@),
{
    if name.unicode_len() >= 2 && name.get_char(0) == '$' && name.get_char(1) == 'R' {
        let mut r = String::new();
        r.push('$');
        r.push('I');
        r.append(name.substring_char(2, name.unicode_len()));
        proof {
            assert(r@ =~= record_name(name@));
            assert(name@.subrange(0, 2) =~= seq!['$', 'R']);
        }
        Some(r)
    } else {
        proof {
            if has_prefix(name@, seq!['$', 'R']) {
                assert(name@.subrange(0, 2)[0] == '$');
                assert(name@.subrange(0, 2)[1] == 'R');
            }
        }
        None
    }
}

/// The record of an entry and the entry of a record name each other.
pub proof fn law_record_names(name: Seq<char>)
    requires
        name.len() >= 2,
    ensures
        name[0] == '$' && name[1] == 'I' ==> record_name(content_name(name)) == name,
        name[0] == '$' && name[1] == 'R' ==> content_name(record_name(name)) == name,
{
    assert(tail_from(content_name(name), 2) =~= tail_from(name, 2));
    assert(tail_from(record_name(name), 2) =~= tail_from(name, 2));
    assert(name =~= seq![name[0], name[1]] + tail_from(name, 2));
}

/// The seconds between the start of the Windows calendar and the epoch.
pub const FILETIME_OFFSET_SECS: i64 = 11_644_473_600;

/// The ticks of a second.
pub const FILETIME_TICKS: i64 = 10_000_000;

/// A point in time in ticks since the start of the Windows calendar, as the
/// lowest 64 bits.
pub open spec fn filetime_of(unix_secs: int) -> u64 {
    (((unix_secs + FILETIME_OFFSET_SECS) * FILETIME_TICKS) % 0x1_0000_0000_0000_0000) as u64
}

fn filetime_bits(unix_secs: i64) -> (r: u64)
    ensures
        r == filetime_of(unix_secs as int),
{
    let ticks: i128 = (unix_secs as i128 + FILETIME_OFFSET_SECS as i128) * FILETIME_TICKS as i128;
    let whole: i128 = 0x1_0000_0000_0000_0000;
    let shifted: u128 = (ticks + whole * 10_000_000) as u128;
    proof {
        let t = (unix_secs + FILETIME_OFFSET_SECS) * FILETIME_TICKS;
        vstd::arithmetic::div_mod::lemma_mod_multiples_vanish(10_000_000, t, 0x1_0000_0000_0000_0000);
    }
    (shifted % 0x1_0000_0000_0000_0000) as u64
}

/// The time of a date, which is its midnight, in ticks.
pub fn filenum_100ns(date: Date) -> (r: u64)
    ensures
        r == filetime_of((date.day() - EPOCH_DAY) * DAY_SECS),
{
    let secs: i64 = date.midnight();
    filetime_bits(secs)
}

/// The time in ticks of a modification time; zero for one that is not known.
pub fn unix_to_filetime(secs: i64) -> (r: u64)
    ensures
        r == if secs <= 0 { 0 } else { filetime_of(secs as int) },
{
    if secs <= 0 {
        0
    } else {
        filetime_bits(secs)
    }
}

/// The bytes of code units, each least significant byte first.
pub open spec fn units_bytes(units: Seq<u16>) -> Seq<u8>
    decreases units.len(),
{
    if units.len() == 0 {
        Seq::empty()
    } else {
        units_bytes(units.drop_last()) + le_bytes(units.last() as nat, 2)
    }
}

/// The record of an entry: a version, the size, the time of the deletion,
/// the length of the path, and the path.
pub open spec fn record_bytes(size: u64, filetime: u64, path: Seq<char>) -> Seq<u8> {
    le_bytes(1, 8) + le_bytes(size as nat, 8) + le_bytes(filetime as nat, 8) + le_bytes(
        utf16(path).len(),
        4,
    ) + units_bytes(utf16(path))
}

/// The length of the record of an entry.
pub open spec fn record_len(path: Seq<char>) -> nat {
    28 + 2 * utf16(path).len()
}

/// The length of the record of an entry with the given path, as far as a
/// machine word can count.
pub fn synthesized_i_len(path: &str) -> (r: usize)
    ensures
        r == word(record_len(path@)),
        record_len(path@) <= usize::MAX ==> r == record_len(path@),
{
    let n: usize = to_utf16(path).len();
    n.saturating_add(n).saturating_add(28)
}

/// The record of an entry.
pub fn synthesized_i_bytes(size: u64, filetime: u64, path: &str) -> (r: Vec<u8>)
    ensures
        r@ == record_bytes(size, filetime, path@),
{
    let units = to_utf16(path);
    let mut out = to_le_bytes(1, 8);
    let mut size_bytes = to_le_bytes(size, 8);
    out.append(&mut size_bytes);
    let mut time_bytes = to_le_bytes(filetime, 8);
    out.append(&mut time_bytes);
    let mut len_bytes = to_le_bytes(units.len() as u64, 4);
    out.append(&mut len_bytes);
    let ghost head = out@;
    let mut i: usize = 0;
    proof {
        assert(units@.subrange(0, 0) =~= Seq::<u16>::empty());
        assert(head + Seq::<u8>::empty() =~= head);
    }
    while i < units.len()
        invariant
            i <= units@.len(),
            out@ == head + units_bytes(units@.subrange(0, i as int)),
        decreases units.len() - i,
    {
        let mut pair = to_le_bytes(units[i] as u64, 2);
        proof {
            let upto = units@.subrange(0, i + 1);
            assert(upto.drop_last() =~= units@.subrange(0, i as int));
            assert(upto.last() == units@[i as int]);
            let done = units_bytes(units@.subrange(0, i as int));
            assert((head + done) + pair@ =~= head + (done + pair@));
        }
        out.append(&mut pair);
        i = i + 1;
    }
    proof {
        assert(units@.subrange(0, units@.len() as int) =~= units@);
    }
    out
}

proof fn lemma_units_bytes_len(units: Seq<u16>)
    ensures
        units_bytes(units).len() == 2 * units.len(),
    decreases units.len(),
{
    if units.len() > 0 {
        lemma_units_bytes_len(units.drop_last());
        lemma_le_bytes_len(units.last() as nat, 2);
    }
}

/// A record has the length that is shown for it.
pub proof fn law_record_len(size: u64, filetime: u64, path: Seq<char>)
    ensures
        record_bytes(size, filetime, path).len() == record_len(path),
{
    lemma_le_bytes_len(1, 8);
    lemma_le_bytes_len(size as nat, 8);
    lemma_le_bytes_len(filetime as nat, 8);
    lemma_le_bytes_len(utf16(path).len(), 4);
    lemma_units_bytes_len(utf16(path));
}

/// Two entity tags are the same: without their quotes they differ in no more
/// than the case of letters.
pub open spec fn same_etag(a: Seq<char>, b: Seq<char>) -> bool {
    same_but_case(trim_both(a, '"'), trim_both(b, '"'))
}

/// Whether two entity tags are the same.
pub fn etag_eq(a: &str, b: &str) -> (r: bool)
    ensures
        r == same_etag(a@, b@),
{
    let x = trim_char(a, '"');
    let y = trim_char(b, '"');
    equal_ignoring_case(x.as_str(), y.as_str())
}

/// To have the same entity tag is an equivalence.
pub proof fn law_etag_equivalence(a: Seq<char>, b: Seq<char>, c: Seq<char>)
    ensures
        same_etag(a, a),
        same_etag(a, b) ==> same_etag(b, a),
        same_etag(a, b) && same_etag(b, c) ==> same_etag(a, c),
{
    let x = trim_both(a, '"');
    let y = trim_both(b, '"');
    let z = trim_both(c, '"');
    if same_etag(a, b) && same_etag(b, c) {
        assert forall|i: int| 0 <= i < x.len() implies crate::text::fold_case(#[trigger] x[i]) == crate::text::fold_case(z[i]) by {
            assert(crate::text::fold_case(x[i]) == crate::text::fold_case(y[i]));
            assert(crate::text::fold_case(y[i]) == crate::text::fold_case(z[i]));
        }
    }
}

proof fn lemma_parts(a: Seq<char>, rest: Seq<char>)
    requires
        !a.contains('/'),
    ensures
        split_on(a, '/') == seq![a],
        split_on(a + seq!['/'] + rest, '/') == seq![a] + split_on(rest, '/'),
{
    let none = Seq::<char>::empty();
    crate::text::lemma_split_on_head(a, none, '/');
    assert(a + none =~= a);
    assert(split_on(none, '/') =~= seq![none]);
    assert(seq![a + none] + seq![none].subrange(1, 1) =~= seq![a]);
    let t = seq!['/'] + rest;
    crate::text::lemma_split_on_head(a, t, '/');
    assert(a + seq!['/'] + rest =~= a + t);
    assert(t.subrange(1, t.len() as int) =~= rest);
    assert(split_on(t, '/') =~= seq![none] + split_on(rest, '/'));
    let st = split_on(t, '/');
    assert(st.subrange(1, st.len() as int) =~= split_on(rest, '/'));
    assert(seq![a + none] + split_on(rest, '/') =~= seq![a] + split_on(rest, '/'));
}

proof fn lemma_trimmed(path: Seq<char>)
    requires
        path.len() > 0,
        path[0] != '/',
        path.last() != '/',
    ensures
        trim_both(seq!['/'] + path, '/') == path,
{
    crate::text::law_trim(seq!['/'], path, Seq::empty(), '/');
    assert(seq!['/'] + path + Seq::<char>::empty() =~= seq!['/'] + path);
}

/// Where in the recycle bin a path lies: its directory, a user's part of that,
/// or an entry, by its own name, in a part that is shown. What is deeper does
/// not lie there, and neither does anything of another directory.
pub proof fn law_place_in_bin(bin: &SystemTrash, user: Seq<char>, name: Seq<char>, deeper: Seq<char>, other: Seq<char>)
    requires
        bin.dir_name@.len() > 0,
        !bin.dir_name@.contains('/'),
        user.len() > 0,
        !user.contains('/'),
        name.len() > 0,
        !name.contains('/'),
        deeper.len() > 0,
        !deeper.contains('/'),
        other.len() > 0,
        !other.contains('/'),
        other != bin.dir_name@,
    ensures
        bin.place_of(seq!['/'] + bin.dir_name@) == Some(MatchView::Dir(0)),
        bin.shows(user) ==> {
            &&& bin.place_of(seq!['/'] + (bin.dir_name@ + seq!['/'] + user)) == Some(MatchView::Dir(1))
            &&& bin.place_of(seq!['/'] + (bin.dir_name@ + seq!['/'] + (user + seq!['/'] + name))) == Some(
                MatchView::Entry(name),
            )
        },
        !bin.shows(user) ==> {
            &&& bin.place_of(seq!['/'] + (bin.dir_name@ + seq!['/'] + user)) is None
            &&& bin.place_of(seq!['/'] + (bin.dir_name@ + seq!['/'] + (user + seq!['/'] + name))) is None
        },
        bin.place_of(
            seq!['/'] + (bin.dir_name@ + seq!['/'] + (user + seq!['/'] + (name + seq!['/'] + deeper))),
        ) is None,
        bin.place_of(seq!['/'] + other) is None,
        bin.place_of(seq!['/'] + (other + seq!['/'] + (user + seq!['/'] + name))) is None,
{
    let dir = bin.dir_name@;
    assert(dir.contains(dir[0]) && dir.contains(dir.last()));
    assert(user.contains(user[0]) && user.contains(user.last()));
    assert(name.contains(name.last()) && deeper.contains(deeper.last()));
    assert(other.contains(other[0]) && other.contains(other.last()));
    let three = user + seq!['/'] + name;
    let four = user + seq!['/'] + (name + seq!['/'] + deeper);
    lemma_trimmed(dir);
    lemma_trimmed(dir + seq!['/'] + user);
    lemma_trimmed(dir + seq!['/'] + three);
    lemma_trimmed(dir + seq!['/'] + four);
    lemma_trimmed(other);
    lemma_trimmed(other + seq!['/'] + three);
    lemma_parts(dir, user);
    lemma_parts(user, name);
    lemma_parts(name, deeper);
    lemma_parts(deeper, deeper);
    lemma_parts(dir, three);
    lemma_parts(user, name + seq!['/'] + deeper);
    lemma_parts(dir, four);
    lemma_parts(other, three);
    let s3 = split_on(dir + seq!['/'] + three, '/');
    assert(s3 =~= seq![dir, user, name]);
    let s2 = split_on(dir + seq!['/'] + user, '/');
    assert(s2 =~= seq![dir, user]);
    let s4 = split_on(dir + seq!['/'] + four, '/');
    assert(s4 =~= seq![dir, user, name, deeper]);
    assert(split_on(other + seq!['/'] + three, '/')[0] == other);
}

/// Whose parts of the recycle bin are shown: on Windows everybody's; else those
/// of the users who are named, or of the one who mounted where none is.
pub proof fn law_parts_shown(bin: &SystemTrash, uid: u32, text: Seq<char>)
    ensures
        bin.platform == SystemTrashPlatform::WindowsRecycleBin ==> bin.shows(text),
        bin.platform == SystemTrashPlatform::MacOsTrashes && bin.macos_uid_dirs@.len() == 0 ==> bin.shows(
            crate::numeral::decimal(uid as nat),
        ) == (uid == bin.current_uid),
        bin.platform == SystemTrashPlatform::MacOsTrashes && bin.macos_uid_dirs@.len() > 0 ==> bin.shows(
            crate::numeral::decimal(uid as nat),
        ) == bin.macos_uid_dirs@.contains(uid),
        bin.platform == SystemTrashPlatform::MacOsTrashes && (exists|i: int|
            0 <= i < text.len() && crate::calendar::is_letter(#[trigger] text[i])) ==> !bin.shows(text),
{
    crate::numeral::lemma_decimal_roundtrip(uid as u64);
    if exists|i: int| 0 <= i < text.len() && crate::calendar::is_letter(#[trigger] text[i]) {
        let i = choose|i: int| 0 <= i < text.len() && crate::calendar::is_letter(#[trigger] text[i]);
        let digits = crate::numeral::without_plus(text);
        if digits.len() < text.len() {
            assert(i > 0);
            assert(digits[i - 1] == text[i]);
        } else {
            assert(digits[i] == text[i]);
        }
    }
}

/// The record of an entry is called like its content, but for the letter behind
/// the dollar sign; it has eight hexadecimal digits behind that.
pub proof fn law_record_called(rest: Seq<char>)
    ensures
        content_name(seq!['$', 'I'] + rest) == seq!['$', 'R'] + rest,
        record_name(seq!['$', 'R'] + rest) == seq!['$', 'I'] + rest,
        names_record(seq!['$', 'I'] + rest) <==> rest.len() >= 8 && forall|k: int|
            0 <= k < 8 ==> ('0' <= #[trigger] rest[k] <= '9') || ('a' <= rest[k] <= 'f') || ('A' <= rest[k] <= 'F'),
        !names_record(seq!['$', 'R'] + rest),
{
    let i = seq!['$', 'I'] + rest;
    let r = seq!['$', 'R'] + rest;
    assert(tail_from(i, 2) =~= rest);
    assert(tail_from(r, 2) =~= rest);
    if names_record(i) {
        assert forall|k: int| 0 <= k < 8 implies ('0' <= #[trigger] rest[k] <= '9') || ('a' <= rest[k] <= 'f') || ('A'
            <= rest[k] <= 'F') by {
            assert(hex_digit(i[k + 2]) is Some);
            assert(i[k + 2] == rest[k]);
        }
    }
    if rest.len() >= 8 && forall|k: int|
        0 <= k < 8 ==> ('0' <= #[trigger] rest[k] <= '9') || ('a' <= rest[k] <= 'f') || ('A' <= rest[k] <= 'F') {
        assert forall|k: int| 2 <= k < 10 implies hex_digit(#[trigger] i[k]) is Some by {
            assert(i[k] == rest[k - 2]);
        }
    }
}

/// Times of the recycle bin are ticks of a hundred nanoseconds since the year
/// 1601, which began 11 644 473 600 seconds before Unix time did.
pub proof fn law_filetime(unix_secs: int)
    requires
        -11_644_473_600 <= unix_secs < 1_000_000_000_000,
    ensures
        filetime_of(unix_secs) == (unix_secs + 11_644_473_600) * 10_000_000,
{
}

/// What a record holds: its version, the size, the time of the deletion, and
/// the path with its length, one behind the other and each number with its least
/// significant byte first.
pub proof fn law_record_layout(size: u64, filetime: u64, path: Seq<char>)
    requires
        utf16(path).len() < 0x1_0000_0000,
    ensures
        ({
            let bytes = record_bytes(size, filetime, path);
            &&& bytes.len() == 28 + 2 * utf16(path).len()
            &&& le_value(bytes.subrange(0, 8)) == 1
            &&& le_value(bytes.subrange(8, 16)) == size
            &&& le_value(bytes.subrange(16, 24)) == filetime
            &&& le_value(bytes.subrange(24, 28)) == utf16(path).len()
            &&& bytes.subrange(28, bytes.len() as int) == units_bytes(utf16(path))
        }),
{
    let bytes = record_bytes(size, filetime, path);
    law_record_len(size, filetime, path);
    crate::numeral::lemma_pow256_u64();
    crate::numeral::lemma_le_roundtrip(1, 8);
    crate::numeral::lemma_le_roundtrip(size as nat, 8);
    crate::numeral::lemma_le_roundtrip(filetime as nat, 8);
    crate::numeral::lemma_le_roundtrip(utf16(path).len(), 4);
    assert(bytes.subrange(0, 8) =~= le_bytes(1, 8));
    assert(bytes.subrange(8, 16) =~= le_bytes(size as nat, 8));
    assert(bytes.subrange(16, 24) =~= le_bytes(filetime as nat, 8));
    assert(bytes.subrange(24, 28) =~= le_bytes(utf16(path).len(), 4));
    assert(bytes.subrange(28, bytes.len() as int) =~= units_bytes(utf16(path)));
}

/// The bytes of code units stand in the order of the units, two for each.
pub proof fn law_units_in_order(units: Seq<u16>, i: int)
    requires
        0 <= i < units.len(),
    ensures
        units_bytes(units).len() == 2 * units.len(),
        units_bytes(units)[2 * i] == units[i] % 256,
        units_bytes(units)[2 * i + 1] == units[i] / 256,
    decreases units.len(),
{
    let n = units.len() - 1;
    let less = units.drop_last();
    reveal_with_fuel(le_bytes, 3);
    let last = le_bytes(units.last() as nat, 2);
    assert(last.len() == 2 && last[0] == units.last() % 256 && last[1] == units.last() / 256);
    if n > 0 {
        law_units_in_order(less, if i < n { i } else { 0 });
    } else {
        assert(units_bytes(less).len() == 0);
    }
}

/// Two entity tags are the same where they differ in nothing but quotes around
/// them and the case of letters.
pub proof fn law_same_etag(a: Seq<char>, b: Seq<char>)
    requires
        a.len() > 0,
        b.len() > 0,
        a[0] != '"' && a.last() != '"',
        b[0] != '"' && b.last() != '"',
    ensures
        same_etag(a, b) <==> a.len() == b.len() && forall|i: int|
            0 <= i < a.len() ==> crate::text::fold_case(#[trigger] a[i]) == crate::text::fold_case(b[i]),
        same_etag(seq!['"'] + a + seq!['"'], b) == same_etag(a, b),
        same_etag(a, seq!['"'] + b + seq!['"']) == same_etag(a, b),
        same_etag(seq!['"'] + a + seq!['"'], seq!['"'] + b + seq!['"']) == same_etag(a, b),
{
    let none = Seq::<char>::empty();
    crate::text::law_trim(none, a, none, '"');
    crate::text::law_trim(none, b, none, '"');
    assert(none + a + none =~= a);
    assert(none + b + none =~= b);
    crate::text::law_trim(seq!['"'], a, seq!['"'], '"');
    crate::text::law_trim(seq!['"'], b, seq!['"'], '"');
}

/// What goes below the directory of the recycle bin: every path that begins with
/// its name and a slash, and no other.
pub proof fn law_named_below(bin: &SystemTrash, rest: Seq<char>, other: Seq<char>)
    requires
        bin.dir_name@.len() > 0,
        !bin.dir_name@.contains('/'),
        rest.len() > 0,
        rest.last() != '/',
        other.len() > 0,
        !other.contains('/'),
        other != bin.dir_name@,
    ensures
        bin.named_below(seq!['/'] + (bin.dir_name@ + seq!['/'] + rest)),
        !bin.named_below(seq!['/'] + bin.dir_name@),
        !bin.named_below(seq!['/'] + (other + seq!['/'] + rest)),
{
    let dir = bin.dir_name@;
    let a = dir + seq!['/'] + rest;
    let b = other + seq!['/'] + rest;
    assert(dir.contains(dir[0]) && dir.contains(dir.last()));
    assert(other.contains(other[0]));
    lemma_trimmed(a);
    lemma_trimmed(dir);
    lemma_trimmed(b);
    assert forall|k: int| 0 <= k < dir.len() implies #[trigger] a[k] != '/' by {
        assert(dir.contains(dir[k]));
    }
    assert forall|k: int| 0 <= k < other.len() implies #[trigger] b[k] != '/' by {
        assert(other.contains(other[k]));
    }
    crate::text::lemma_split_once_at(a, '/', dir.len() as int);
    crate::text::lemma_split_once_at(b, '/', other.len() as int);
    crate::text::lemma_split_once_none(dir, '/');
    assert(a.subrange(0, dir.len() as int) =~= dir);
    assert(b.subrange(0, other.len() as int) =~= other);
}

/// Whose part of the recycle bin a path goes through: that of the user named
/// behind its directory.
pub proof fn law_users_part(bin: &SystemTrash, user: Seq<char>, name: Seq<char>)
    requires
        bin.dir_name@.len() > 0,
        !bin.dir_name@.contains('/'),
        user.len() > 0,
        !user.contains('/'),
        name.len() > 0,
        !name.contains('/'),
        bin.shows(user),
    ensures
        bin.part_of(seq!['/'] + (bin.dir_name@ + seq!['/'] + user)) == Some(user),
        bin.part_of(seq!['/'] + (bin.dir_name@ + seq!['/'] + (user + seq!['/'] + name))) == Some(user),
        bin.part_of(seq!['/'] + bin.dir_name@) is None,
{
    let dir = bin.dir_name@;
    let other = dir + seq!['x'];
    assert(!other.contains('/')) by {
        if other.contains('/') {
            let i = choose|i: int| 0 <= i < other.len() && other[i] == '/';
            assert(dir[i] == '/');
            assert(dir.contains('/'));
        }
    }
    assert(other.len() > dir.len());
    law_place_in_bin(bin, user, name, name, other);
    assert(dir.contains(dir[0]) && dir.contains(dir.last()));
    assert(user.contains(user.last()) && name.contains(name.last()));
    let three = user + seq!['/'] + name;
    lemma_trimmed(dir + seq!['/'] + user);
    lemma_trimmed(dir + seq!['/'] + three);
    lemma_parts(user, name);
    lemma_parts(dir, user);
    lemma_parts(dir, three);
    assert(split_on(dir + seq!['/'] + user, '/')[1] == user);
    assert(split_on(dir + seq!['/'] + three, '/')[1] == user);
}

} // verus!
