//! Names and lines around mounting: lock files, records of running mounts and
//! the table of mounted file systems.

use vstd::prelude::*;
use vstd::string::*;

use crate::numeral::{decimal, decimal_text};
use crate::text::{is_white_space, to_chars, white_space};

verus! {

/// A letter or digit of ASCII, a hyphen or an underscore.
pub open spec fn safe_char(c: char) -> bool {
    ('a' <= c <= 'z') || ('A' <= c <= 'Z') || ('0' <= c <= '9') || c == '-' || c == '_'
}

/// A text with every other character replaced by an underscore.
pub open spec fn safe_text(s: Seq<char>) -> Seq<char> {
    s.map_values(
        |c: char|
            if safe_char(c) {
                c
            } else {
                '_'
            },
    )
}

/// The name of the file that keeps a second mount off a mount point.
pub fn lock_name(mount_point: &str) -> (r: String)
    ensures
        r@ == safe_text(mount_point@) + ".lock"@,
{
    let chars = to_chars(mount_point);
    let ghost f = |c: char|
        if safe_char(c) {
            c
        } else {
            '_'
        };
    let mut r = String::new();
    let mut i: usize = 0;
    while i < chars.len()
        invariant
            i <= chars@.len(),
            f == (|c: char|
                if safe_char(c) {
                    c
                } else {
                    '_'
                }),
            r@ == chars@.subrange(0, i as int).map_values(f),
        decreases chars.len() - i,
    {
        let c = chars[i];
        let keep = (c >= 'a' && c <= 'z') || (c >= 'A' && c <= 'Z') || (c >= '0' && c <= '9') || c == '-' || c == '_';
        let ghost before = r@;
        if keep {
            r.push(c);
        } else {
            r.push('_');
        }
        proof {
            assert(chars@.subrange(0, i + 1) =~= chars@.subrange(0, i as int).push(c));
            assert(r@ =~= before.push(f(c)));
            assert(r@ =~= chars@.subrange(0, i + 1).map_values(f));
        }
        i = i + 1;
    }
    proof {
        assert(chars@.subrange(0, chars@.len() as int) =~= mount_point@);
        assert(r@ =~= safe_text(mount_point@));
    }
    r.append(".lock");
    r
}

/// The words of a text, which white space separates.
pub open spec fn words(s: Seq<char>) -> Seq<Seq<char>>
    decreases s.len(),
{
    if s.len() == 0 {
        Seq::empty()
    } else {
        let head = words(s.drop_last());
        if white_space(s.last()) {
            head
        } else if s.len() > 1 && !white_space(s[s.len() - 2]) {
            head.update(head.len() - 1, head.last().push(s.last()))
        } else {
            head.push(seq![s.last()])
        }
    }
}

/// The mount point that a line of the mount table tells: its third word.
pub fn mounted_at(line: &str) -> (r: Option<String>)
    ensures
        words(line@).len() >= 3 <==> r is Some,
        r matches Some(p) ==> p@ == words(line@)[2],
{
    let chars = to_chars(line);
    let mut count: usize = 0;
    let mut third = String::new();
    let mut inside = false;
    let mut i: usize = 0;
    let ghost all = chars@;
    proof {
        assert(all.subrange(0, 0) =~= Seq::<char>::empty());
    }
    while i < chars.len()
        invariant
            i <= chars@.len(),
            all == chars@,
            count <= i,
            count == words(all.subrange(0, i as int)).len(),
            inside == (i > 0 && !white_space(all[i - 1])),
            inside ==> count > 0,
            count < 3 ==> third@.len() == 0,
            count >= 3 ==> third@ == words(all.subrange(0, i as int))[2],
        decreases chars.len() - i,
    {
        let c = chars[i];
        proof {
            let upto = all.subrange(0, i + 1);
            assert(upto.drop_last() =~= all.subrange(0, i as int));
            assert(upto.last() == c);
            if i > 0 {
                assert(upto[upto.len() - 2] == all[i - 1]);
            }
        }
        if is_white_space(c) {
            inside = false;
        } else {
            if !inside {
                count = count + 1;
                if count == 3 {
                    third.push(c);
                    proof {
                        assert(third@ =~= seq![c]);
                    }
                }
            } else if count == 3 {
                third.push(c);
            }
            inside = true;
        }
        i = i + 1;
    }
    proof {
        assert(all.subrange(0, all.len() as int) =~= all);
    }
    if count >= 3 {
        Some(third)
    } else {
        None
    }
}

/// The name of the record of a running mount.
pub fn runtime_record_name(pid: u32) -> (r: String)
    ensures
        r@ == decimal(pid as nat) + ".json"@,
{
    let mut r = decimal_text(pid as u64);
    r.append(".json");
    r
}

/// The name of the event that asks a mount to end.
pub fn unmount_event_name(pid: u32) -> (r: String)
    ensures
        r@ == "Local\\ossfs-unmount-"@ + decimal(pid as nat),
{
    let mut r = "Local\\ossfs-unmount-".to_owned();
    let number = decimal_text(pid as u64);
    r.append(number.as_str());
    r
}

/// Different processes have different records and events.
pub proof fn law_names_apart(a: u32, b: u32)
    ensures
        decimal(a as nat) + ".json"@ == decimal(b as nat) + ".json"@ ==> a == b,
        "Local\\ossfs-unmount-"@ + decimal(a as nat) == "Local\\ossfs-unmount-"@ + decimal(b as nat) ==> a == b,
{
    let x = decimal(a as nat);
    let y = decimal(b as nat);
    let json = ".json"@;
    let local = "Local\\ossfs-unmount-"@;
    crate::numeral::lemma_decimal_roundtrip(a as u64);
    crate::numeral::lemma_decimal_roundtrip(b as u64);
    if x + json == y + json {
        assert((x + json).len() == (y + json).len());
        assert((x + json).subrange(0, x.len() as int) =~= x);
        assert((y + json).subrange(0, y.len() as int) =~= y);
    }
    if local + x == local + y {
        assert((local + x).subrange(local.len() as int, (local + x).len() as int) =~= x);
        assert((local + y).subrange(local.len() as int, (local + y).len() as int) =~= y);
    }
}

/// How long a new mount may take to appear, in milliseconds.
pub const MOUNT_WAIT_MS: u64 = 8_000;

/// How the wait for a new mount goes on.
#[derive(Debug, Clone, Copy, PartialEq, Eq, Structural)]
pub enum MountWait {
    /// The mount is there.
    Done,
    /// The session ended before the mount appeared.
    Failed,
    /// The time is over.
    Late,
    /// The mount is to be looked for again.
    Wait,
}

/// How the wait for a new mount goes on.
pub fn mount_wait(mounted: bool, ended: bool, waited_ms: u64) -> (r: MountWait)
    ensures
        r is Done <==> mounted,
        r is Failed <==> !mounted && ended,
        r is Late <==> !mounted && !ended && waited_ms >= MOUNT_WAIT_MS,
        r is Wait <==> !mounted && !ended && waited_ms < MOUNT_WAIT_MS,
{
    if mounted {
        MountWait::Done
    } else if ended {
        MountWait::Failed
    } else if waited_ms >= MOUNT_WAIT_MS {
        MountWait::Late
    } else {
        MountWait::Wait
    }
}

/// The length of a change notice: the header and two bytes for each code unit
/// of the name, without an end mark.
pub fn notice_len(header: u16, units: usize) -> (r: Option<u16>)
    ensures
        r is Some <==> header + 2 * units <= u16::MAX,
        r matches Some(n) ==> n == header + 2 * units,
{
    if units > 32767 || 2 * units > 65535 - header as usize {
        None
    } else {
        Some(header + 2 * (units as u16))
    }
}

/// A name of a file keeps letters and digits of ASCII, hyphens and underscores;
/// every other character becomes an underscore.
pub proof fn law_safe_text(s: Seq<char>, i: int)
    requires
        0 <= i < s.len(),
    ensures
        safe_text(s).len() == s.len(),
        safe_text(s)[i] == (if ('a' <= s[i] <= 'z') || ('A' <= s[i] <= 'Z') || ('0' <= s[i] <= '9') || s[i] == '-' {
            s[i]
        } else {
            '_'
        }),
{
}

/// The words of a line are what stands between white space, whole and in order.
pub proof fn law_words(line: Seq<char>, blank: char, word: Seq<char>)
    requires
        white_space(blank),
        word.len() > 0,
        forall|i: int| 0 <= i < word.len() ==> !white_space(#[trigger] word[i]),
    ensures
        words(word) == seq![word],
        words(line.push(blank)) == words(line),
        words(line.push(blank) + word) == words(line).push(word),
    decreases word.len(),
{
    let less = word.drop_last();
    let start = line.push(blank);
    let all = start + word;
    assert(start.drop_last() =~= line);
    assert(all.drop_last() =~= start + less);
    assert(all.last() == word.last() && !white_space(word[word.len() - 1]));
    if less.len() > 0 {
        assert forall|i: int| 0 <= i < less.len() implies !white_space(#[trigger] less[i]) by {
            assert(less[i] == word[i]);
        }
        law_words(line, blank, less);
        assert(!white_space(word[word.len() - 2]));
        assert(all[all.len() - 2] == word[word.len() - 2]);
        let head = words(line).push(less);
        assert(words(all.drop_last()) == head);
        assert(words(all) == head.update(head.len() - 1, head.last().push(all.last())));
        assert(head.last() == less);
        assert(less.push(word.last()) =~= word);
        assert(head.update(head.len() - 1, word) =~= words(line).push(word));
        assert(seq![less].update(0, word) =~= seq![word]);
        assert(seq![less].last() == less);
    } else {
        assert(less =~= Seq::<char>::empty());
        assert(start + less =~= start);
        assert(all.drop_last() =~= start);
        assert(all[all.len() - 2] == blank);
        assert(words(start) == words(line));
        assert(words(all) == words(start).push(seq![all.last()]));
        assert(seq![word.last()] =~= word);
        assert(words(less) =~= Seq::<Seq<char>>::empty());
        assert(words(word) =~= seq![word]);
    }
}

} // verus!
