//! Which blocks of the disk cache leave first: the order of their use, the
//! bytes that they take, and the file that keeps the order between mounts.

use vstd::prelude::*;
use vstd::string::*;
use vstd::utf8::*;

use crate::checksum::{hex_decode, hex_encode, hex_of, law_hex_roundtrip, unhex_text};
use crate::disk_cache::{
    block_content_of, block_data_of, block_file_name, block_file_prefix, block_file_prefix_of, block_number,
    block_number_of, decode_block, encode_block, is_block_file, BlockFile, DISK_CACHE_BUDGET_UNIT,
};
use crate::numeral::{
    decimal, decimal_text, digit_char, le_u32_at, le_value, lemma_decimal_roundtrip, parse_number, parse_u64,
};
use crate::text::{
    copy_text, ends_with_char, has_prefix, lines_of, same_text, split_first, split_on, split_once,
    starts_with_text, tail_from, text_lines, views, without_return,
};

verus! {

/// Blocks as key and number.
pub open spec fn block_views(order: Seq<(String, u64)>) -> Seq<(Seq<char>, u64)> {
    order.map_values(|b: (String, u64)| (b.0@, b.1))
}

/// A sequence without the first occurrence of an item.
pub open spec fn without_first(s: Seq<(Seq<char>, u64)>, x: (Seq<char>, u64)) -> Seq<(Seq<char>, u64)>
    decreases s.len(),
{
    if s.len() == 0 {
        s
    } else if s[0] == x {
        s.subrange(1, s.len() as int)
    } else {
        seq![s[0]] + without_first(s.subrange(1, s.len() as int), x)
    }
}

/// The order after a block was used: it stands at the end.
pub open spec fn touched(s: Seq<(Seq<char>, u64)>, x: (Seq<char>, u64)) -> Seq<(Seq<char>, u64)> {
    without_first(s, x).push(x)
}

proof fn lemma_without_first_at(s: Seq<(Seq<char>, u64)>, x: (Seq<char>, u64), i: int)
    requires
        0 <= i < s.len(),
        s[i] == x,
        forall|k: int| 0 <= k < i ==> #[trigger] s[k] != x,
    ensures
        without_first(s, x) == s.remove(i),
    decreases i,
{
    if i == 0 {
        assert(s.subrange(1, s.len() as int) =~= s.remove(0));
    } else {
        let t = s.subrange(1, s.len() as int);
        assert forall|k: int| 0 <= k < i - 1 implies #[trigger] t[k] != x by {
            assert(t[k] == s[k + 1]);
        }
        lemma_without_first_at(t, x, i - 1);
        assert(s[0] != x);
        assert(seq![s[0]] + t.remove(i - 1) =~= s.remove(i));
    }
}

proof fn lemma_without_first_none(s: Seq<(Seq<char>, u64)>, x: (Seq<char>, u64))
    requires
        forall|k: int| 0 <= k < s.len() ==> #[trigger] s[k] != x,
    ensures
        without_first(s, x) == s,
    decreases s.len(),
{
    if s.len() > 0 {
        let t = s.subrange(1, s.len() as int);
        assert forall|k: int| 0 <= k < t.len() implies #[trigger] t[k] != x by {
            assert(t[k] == s[k + 1]);
        }
        lemma_without_first_none(t, x);
        assert(s[0] != x);
        assert(seq![s[0]] + t =~= s);
    }
}

/// Takes out the first occurrence of a block.
pub fn remove_first(order: &mut Vec<(String, u64)>, key: &str, block: u64)
    ensures
        block_views(final(order)@) == without_first(block_views(old(order)@), (key@, block)),
{
    let ghost all = block_views(order@);
    let ghost x = (key@, block);
    let mut i: usize = 0;
    while i < order.len()
        invariant
            i <= order@.len(),
            order@ == old(order)@,
            all == block_views(order@),
            x == (key@, block),
            forall|k: int| 0 <= k < i ==> #[trigger] all[k] != x,
        decreases order.len() - i,
    {
        proof {
            assert(all[i as int] == (order@[i as int].0@, order@[i as int].1));
        }
        if order[i].1 == block && same_text(order[i].0.as_str(), key) {
            let _entry = order.remove(i);
            proof {
                lemma_without_first_at(all, x, i as int);
                assert(block_views(order@) =~= all.remove(i as int));
            }
            return;
        }
        i = i + 1;
    }
    proof {
        lemma_without_first_none(all, x);
    }
}

/// One line of the file that keeps the order: the number of the block and its
/// key in hexadecimal.
pub open spec fn order_line(b: (Seq<char>, u64)) -> Seq<char> {
    decimal(b.1 as nat) + seq![' '] + hex_of(encode_utf8(b.0))
}

/// The text of the file that keeps the order.
pub open spec fn order_text_of(order: Seq<(Seq<char>, u64)>) -> Seq<char>
    decreases order.len(),
{
    if order.len() == 0 {
        Seq::empty()
    } else {
        order_line(order[0]) + seq!['\n'] + order_text_of(order.subrange(1, order.len() as int))
    }
}

proof fn lemma_order_text_push(order: Seq<(Seq<char>, u64)>, b: (Seq<char>, u64))
    ensures
        order_text_of(order.push(b)) == order_text_of(order) + order_line(b) + seq!['\n'],
    decreases order.len(),
{
    let all = order.push(b);
    if order.len() == 0 {
        assert(all.subrange(1, 1) =~= Seq::<(Seq<char>, u64)>::empty());
        assert(order_text_of(all) =~= order_text_of(order) + order_line(b) + seq!['\n']) by {
            reveal_with_fuel(order_text_of, 2);
        }
    } else {
        let t = order.subrange(1, order.len() as int);
        lemma_order_text_push(t, b);
        assert(all.subrange(1, all.len() as int) =~= t.push(b));
        assert(order_text_of(all) =~= order_text_of(order) + order_line(b) + seq!['\n']);
    }
}

/// The block that a line tells of.
pub open spec fn line_block(line: Seq<char>) -> Option<(Seq<char>, u64)> {
    match split_once(line, ' ') {
        Some((number, hex)) => match (parse_u64(number), unhex_text(hex)) {
            (Some(block), Some(key)) => Some((key, block)),
            _ => None,
        },
        None => None,
    }
}

/// The blocks that lines tell of; lines that tell of none are left out.
pub open spec fn line_blocks(lines: Seq<Seq<char>>) -> Seq<(Seq<char>, u64)>
    decreases lines.len(),
{
    if lines.len() == 0 {
        Seq::empty()
    } else {
        let head = line_blocks(lines.drop_last());
        match line_block(lines.last()) {
            Some(b) => head.push(b),
            None => head,
        }
    }
}

/// The text of the file that keeps the order.
pub fn order_text(order: &Vec<(String, u64)>) -> (r: String)
    ensures
        r@ == order_text_of(block_views(order@)),
{
    let ghost all = block_views(order@);
    let mut out = String::new();
    let mut i: usize = 0;
    proof {
        assert(all.subrange(0, 0) =~= Seq::<(Seq<char>, u64)>::empty());
    }
    while i < order.len()
        invariant
            i <= order@.len(),
            all == block_views(order@),
            out@ == order_text_of(all.subrange(0, i as int)),
        decreases order.len() - i,
    {
        let ghost before = out@;
        let number = decimal_text(order[i].1);
        let hex = hex_encode(order[i].0.as_str());
        out.append(number.as_str());
        out.push(' ');
        out.append(hex.as_str());
        out.push('\n');
        proof {
            let b = all[i as int];
            assert(b == (order@[i as int].0@, order@[i as int].1));
            assert(all.subrange(0, i + 1) =~= all.subrange(0, i as int).push(b));
            lemma_order_text_push(all.subrange(0, i as int), b);
            assert(out@ =~= before + order_line(b) + seq!['\n']);
        }
        i = i + 1;
    }
    proof {
        assert(all.subrange(0, all.len() as int) =~= all);
    }
    out
}

/// The order that the file tells.
pub fn load_order(raw: &str) -> (r: Vec<(String, u64)>)
    ensures
        block_views(r@) == line_blocks(lines_of(raw@)),
{
    let lines = text_lines(raw);
    let ghost all = lines_of(raw@);
    let mut out: Vec<(String, u64)> = Vec::new();
    let mut i: usize = 0;
    proof {
        assert(all.subrange(0, 0) =~= Seq::<Seq<char>>::empty());
        assert(block_views(out@) =~= Seq::<(Seq<char>, u64)>::empty());
    }
    while i < lines.len()
        invariant
            i <= lines@.len(),
            all == views(lines@),
            block_views(out@) == line_blocks(all.subrange(0, i as int)),
        decreases lines.len() - i,
    {
        proof {
            let upto = all.subrange(0, i + 1);
            assert(upto.drop_last() =~= all.subrange(0, i as int));
            assert(upto.last() == lines@[i as int]@);
        }
        match split_first(lines[i].as_str(), ' ') {
            Some((number, hex)) => match (parse_number(number.as_str()), hex_decode(hex.as_str())) {
                (Some(block), Some(key)) => {
                    let ghost before = out@;
                    let item = (key, block);
                    out.push(item);
                    proof {
                        assert(block_views(out@) =~= block_views(before).push((item.0@, item.1)));
                    }
                },
                _ => {},
            },
            None => {},
        }
        i = i + 1;
    }
    proof {
        assert(all.subrange(0, all.len() as int) =~= all);
    }
    out
}

proof fn lemma_decimal_plain(n: nat)
    ensures
        forall|k: int| 0 <= k < decimal(n).len() ==> '0' <= #[trigger] decimal(n)[k] <= '9',
    decreases n,
{
    let d = decimal(n);
    if n >= 10 {
        lemma_decimal_plain(n / 10);
        let head = decimal(n / 10);
        assert forall|k: int| 0 <= k < d.len() implies '0' <= #[trigger] d[k] <= '9' by {
            if k < head.len() {
                assert(d[k] == head[k]);
            }
        }
    } else {
        assert(d == seq![digit_char(n as int)]);
    }
}

proof fn lemma_hex_plain(data: Seq<u8>)
    ensures
        forall|k: int| 0 <= k < hex_of(data).len() ==> '0' <= #[trigger] hex_of(data)[k] <= 'f',
    decreases data.len(),
{
    let h = hex_of(data);
    if data.len() > 0 {
        lemma_hex_plain(data.drop_last());
        let head = hex_of(data.drop_last());
        assert forall|k: int| 0 <= k < h.len() implies '0' <= #[trigger] h[k] <= 'f' by {
            if k < head.len() {
                assert(h[k] == head[k]);
            }
        }
    }
}

proof fn lemma_line_roundtrip(b: (Seq<char>, u64))
    ensures
        line_block(order_line(b)) == Some(b),
        !order_line(b).contains('\n'),
        !ends_with_char(order_line(b), '\r'),
{
    let number = decimal(b.1 as nat);
    let hex = hex_of(encode_utf8(b.0));
    let line = order_line(b);
    lemma_decimal_plain(b.1 as nat);
    lemma_hex_plain(encode_utf8(b.0));
    let n = number.len() as int;
    assert(line[n] == ' ');
    assert forall|k: int| 0 <= k < n implies #[trigger] line[k] != ' ' by {
        assert(line[k] == number[k]);
    }
    crate::text::lemma_split_once_at(line, ' ', n);
    assert(line.subrange(0, n) =~= number);
    assert(tail_from(line, n + 1) =~= hex);
    lemma_decimal_roundtrip(b.1);
    law_hex_roundtrip(b.0);
    assert forall|k: int| 0 <= k < line.len() implies #[trigger] line[k] != '\n' && line[k] != '\r' by {
        if k < n {
            assert(line[k] == number[k]);
        } else if k > n {
            assert(line[k] == hex[k - n - 1]);
        }
    }
}

proof fn lemma_split_lines(order: Seq<(Seq<char>, u64)>)
    ensures
        split_on(order_text_of(order), '\n') == order.map_values(|b: (Seq<char>, u64)| order_line(b)).push(
            Seq::<char>::empty(),
        ),
    decreases order.len(),
{
    let f = |b: (Seq<char>, u64)| order_line(b);
    let text = order_text_of(order);
    if order.len() == 0 {
        assert(split_on(text, '\n') =~= order.map_values(f).push(Seq::<char>::empty()));
    } else {
        let t = order.subrange(1, order.len() as int);
        lemma_split_lines(t);
        let line = order_line(order[0]);
        lemma_line_roundtrip(order[0]);
        let rest = order_text_of(t);
        let tail = seq!['\n'] + rest;
        assert(text =~= line + tail);
        crate::text::lemma_split_on_head(line, tail, '\n');
        assert(tail.subrange(1, tail.len() as int) =~= rest);
        let pieces = split_on(rest, '\n');
        assert(split_on(tail, '\n') == seq![Seq::<char>::empty()] + pieces);
        assert(split_on(tail, '\n').subrange(1, split_on(tail, '\n').len() as int) =~= pieces);
        assert(line + Seq::<char>::empty() =~= line);
        assert(split_on(text, '\n') =~= seq![line] + pieces);
        assert(seq![line] + t.map_values(f).push(Seq::<char>::empty()) =~= order.map_values(f).push(
            Seq::<char>::empty(),
        ));
    }
}

proof fn lemma_blocks_of_lines(order: Seq<(Seq<char>, u64)>)
    ensures
        line_blocks(order.map_values(|b: (Seq<char>, u64)| order_line(b))) == order,
    decreases order.len(),
{
    let f = |b: (Seq<char>, u64)| order_line(b);
    let lines = order.map_values(f);
    if order.len() == 0 {
        assert(line_blocks(lines) =~= order);
    } else {
        lemma_blocks_of_lines(order.drop_last());
        assert(lines.drop_last() =~= order.drop_last().map_values(f));
        lemma_line_roundtrip(order.last());
        assert(order.drop_last().push(order.last()) =~= order);
    }
}

/// The order that is read from the file is the one that was written to it.
pub proof fn law_order_roundtrip(order: Seq<(Seq<char>, u64)>)
    ensures
        line_blocks(lines_of(order_text_of(order))) == order,
{
    let f = |b: (Seq<char>, u64)| order_line(b);
    let lines = order.map_values(f);
    lemma_split_lines(order);
    let pieces = split_on(order_text_of(order), '\n');
    let ended = Seq::new((pieces.len() - 1) as nat, |i: int| without_return(pieces[i]));
    assert(pieces.last() == Seq::<char>::empty());
    assert forall|i: int| 0 <= i < lines.len() implies ended[i] == lines[i] by {
        assert(pieces[i] == lines[i]);
        lemma_line_roundtrip(order[i]);
    }
    assert(ended =~= lines);
    lemma_blocks_of_lines(order);
}

/// The block that a file of the cache holds: its name tells the number, its
/// content the key.
pub open spec fn block_in_file(name: Seq<char>, raw: Seq<u8>) -> Option<(Seq<char>, u64)> {
    let n = le_value(raw.subrange(0, 4)) as int;
    if !block_file_name(name) || raw.len() < 4 || raw.len() < 4 + n {
        None
    } else {
        match block_number_of(name) {
            Some(block) => Some((lossy_text(raw.subrange(4, 4 + n)), block)),
            None => None,
        }
    }
}

/// The text of `bytes` with what is not UTF-8 in it replaced, as
/// `String::from_utf8_lossy` gives it.
pub uninterp spec fn lossy_text(bytes: Seq<u8>) -> Seq<char>;

/// `String::from_utf8_lossy` decodes valid UTF-8 as it is. Which characters
/// stand for bytes that are not valid is left to the name of the result.
#[verifier::external_body]
fn utf8_lossy(bytes: &[u8]) -> (r: String)
    ensures
        r@ == lossy_text(bytes@),
        valid_utf8(bytes@) ==> r@ == decode_utf8(bytes@),
{
    String::from_utf8_lossy(bytes).to_string()
}

/// The block that a file of the cache holds.
pub fn found_block(name: &str, raw: &Vec<u8>) -> (r: Option<(String, u64)>)
    ensures
        match (r, block_in_file(name@, raw@)) {
            (Some(b), Some(v)) => b.0@ == v.0 && b.1 == v.1,
            (None, None) => true,
            _ => false,
        },
{
    if !is_block_file(name) || raw.len() < 4 {
        return None;
    }
    let block: u64 = match block_number(name) {
        Some(b) => b,
        None => return None,
    };
    let klen: usize = le_u32_at(raw, 0) as usize;
    if raw.len() - 4 < klen {
        return None;
    }
    let key = crate::caches::copy_range(raw, 4, 4 + klen);
    Some((utf8_lossy(key.as_slice()), block))
}

/// A file of the cache, with the time of its last change.
#[derive(Debug)]
pub struct CacheFile {
    pub name: String,
    pub modified: u64,
    pub len: u64,
}

/// The position of the file that was changed longest ago, the last one if
/// several were changed at once.
pub open spec fn is_oldest_file(files: Seq<CacheFile>, at: int) -> bool {
    &&& 0 <= at < files.len()
    &&& forall|k: int| 0 <= k < files.len() ==> files[at].modified <= #[trigger] files[k].modified
    &&& forall|k: int| at < k < files.len() ==> files[at].modified < #[trigger] files[k].modified
}

/// A block put in behind those that are not newer.
pub open spec fn put_by_time(s: Seq<(u64, Seq<char>, u64)>, b: (u64, Seq<char>, u64)) -> Seq<(u64, Seq<char>, u64)>
    decreases s.len(),
{
    if s.len() == 0 || s.last().0 <= b.0 {
        s.push(b)
    } else {
        put_by_time(s.drop_last(), b).push(s.last())
    }
}

/// Blocks by the time of their last change, the oldest first.
pub open spec fn by_time(s: Seq<(u64, Seq<char>, u64)>) -> Seq<(u64, Seq<char>, u64)>
    decreases s.len(),
{
    if s.len() == 0 {
        s
    } else {
        put_by_time(by_time(s.drop_last()), s.last())
    }
}

/// Blocks with their times, by views.
pub open spec fn timed_views(s: Seq<(u64, String, u64)>) -> Seq<(u64, Seq<char>, u64)> {
    s.map_values(|b: (u64, String, u64)| (b.0, b.1@, b.2))
}

/// Blocks without their times.
pub open spec fn untimed(s: Seq<(u64, Seq<char>, u64)>) -> Seq<(Seq<char>, u64)> {
    s.map_values(|b: (u64, Seq<char>, u64)| (b.1, b.2))
}

/// The blocks of other keys.
pub open spec fn other_key(key: Seq<char>) -> spec_fn((Seq<char>, u64)) -> bool {
    |b: (Seq<char>, u64)| b.0 != key
}

/// The bytes of block files, as far as a word can count.
pub open spec fn bytes_of_files(files: Seq<CacheFile>) -> nat
    decreases files.len(),
{
    if files.len() == 0 {
        0
    } else if block_file_name(files.last().name@) {
        bytes_of_files(files.drop_last()) + files.last().len as nat
    } else {
        bytes_of_files(files.drop_last())
    }
}

proof fn lemma_put_by_time_at(s: Seq<(u64, Seq<char>, u64)>, b: (u64, Seq<char>, u64), at: int)
    requires
        0 <= at <= s.len(),
        forall|k: int| at <= k < s.len() ==> (#[trigger] s[k]).0 > b.0,
        at > 0 ==> s[at - 1].0 <= b.0,
    ensures
        put_by_time(s, b) == s.insert(at, b),
    decreases s.len(),
{
    if at == s.len() {
        assert(s.push(b) =~= s.insert(at, b));
    } else {
        assert(s.last() == s[s.len() - 1]);
        lemma_put_by_time_at(s.drop_last(), b, at);
        assert(s.drop_last().insert(at, b).push(s.last()) =~= s.insert(at, b));
    }
}

/// The blocks of the disk cache in the order of their use, the least recently
/// used first, and the bytes that their files take.
#[derive(Debug)]
pub struct DiskCache {
    pub max_bytes: u64,
    pub block_size: u64,
    /// The free space that is left on the disk.
    pub min_free_bytes: u64,
    pub used: u64,
    pub order: Vec<(String, u64)>,
}

impl DiskCache {
    /// The blocks in the order of their use.
    pub open spec fn blocks(&self) -> Seq<(Seq<char>, u64)> {
        block_views(self.order@)
    }

    /// Everything but the order and the bytes in use is as in `other`.
    pub open spec fn same_limits(&self, other: &DiskCache) -> bool {
        &&& self.max_bytes == other.max_bytes
        &&& self.block_size == other.block_size
        &&& self.min_free_bytes == other.min_free_bytes
    }

    /// An empty cache whose size is rounded up to a whole unit.
    pub fn new(max_bytes: usize, block_size: u64, min_free_bytes: u64) -> (r: DiskCache)
        requires
            max_bytes <= u64::MAX - DISK_CACHE_BUDGET_UNIT,
        ensures
            r.max_bytes % DISK_CACHE_BUDGET_UNIT == 0,
            max_bytes <= r.max_bytes < max_bytes + DISK_CACHE_BUDGET_UNIT,
            r.block_size == block_size,
            r.min_free_bytes == min_free_bytes,
            r.used == 0,
            r.blocks() == Seq::<(Seq<char>, u64)>::empty(),
    {
        let bytes: u64 = max_bytes as u64;
        let rest: u64 = bytes % DISK_CACHE_BUDGET_UNIT;
        let rounded: u64 = if rest == 0 {
            bytes
        } else {
            bytes - rest + DISK_CACHE_BUDGET_UNIT
        };
        let r = DiskCache { max_bytes: rounded, block_size, min_free_bytes, used: 0, order: Vec::new() };
        proof {
            assert(r.blocks() =~= Seq::<(Seq<char>, u64)>::empty());
        }
        r
    }

    /// Takes over the order that was kept from an earlier mount.
    pub fn load_order(&mut self, raw: &str)
        ensures
            final(self).blocks() == old(self).blocks() + line_blocks(lines_of(raw@)),
            final(self).used == old(self).used,
            final(self).same_limits(old(self)),
    {
        let mut loaded = load_order(raw);
        let ghost before = self.order@;
        let ghost more = loaded@;
        self.order.append(&mut loaded);
        proof {
            assert(self.blocks() =~= block_views(before) + block_views(more));
        }
    }

    /// The text that keeps the order for a later mount.
    pub fn save_order(&self) -> (r: String)
        ensures
            r@ == order_text_of(self.blocks()),
    {
        order_text(&self.order)
    }

    /// Takes over blocks that were found on disk, in the order of their last
    /// change.
    pub fn rebuild_order_from_mtime(&mut self, found: Vec<(u64, String, u64)>)
        ensures
            final(self).blocks() == old(self).blocks() + untimed(by_time(timed_views(found@))),
            final(self).used == old(self).used,
            final(self).same_limits(old(self)),
    {
        let ghost all = timed_views(found@);
        let mut sorted: Vec<(u64, String, u64)> = Vec::new();
        let mut i: usize = 0;
        proof {
            assert(all.subrange(0, 0) =~= Seq::<(u64, Seq<char>, u64)>::empty());
            assert(timed_views(sorted@) =~= Seq::<(u64, Seq<char>, u64)>::empty());
        }
        while i < found.len()
            invariant
                i <= found@.len(),
                all == timed_views(found@),
                timed_views(sorted@) == by_time(all.subrange(0, i as int)),
            decreases found.len() - i,
        {
            let mut at: usize = sorted.len();
            while at > 0 && sorted[at - 1].0 > found[i].0
                invariant
                    at <= sorted@.len(),
                    i < found@.len(),
                    forall|k: int| at <= k < sorted@.len() ==> (#[trigger] sorted@[k]).0 > found@[i as int].0,
                decreases at,
            {
                at = at - 1;
            }
            let ghost before = sorted@;
            let item = (found[i].0, copy_text(found[i].1.as_str()), found[i].2);
            sorted.insert(at, item);
            proof {
                let b = all[i as int];
                assert(b == (found@[i as int].0, found@[i as int].1@, found@[i as int].2));
                let s = timed_views(before);
                assert forall|k: int| at <= k < s.len() implies (#[trigger] s[k]).0 > b.0 by {
                    assert(s[k].0 == before[k].0);
                }
                if at > 0 {
                    assert(s[at - 1].0 == before[at - 1].0);
                }
                lemma_put_by_time_at(s, b, at as int);
                assert(timed_views(sorted@) =~= s.insert(at as int, b));
                let upto = all.subrange(0, i + 1);
                assert(upto.drop_last() =~= all.subrange(0, i as int));
                assert(upto.last() == b);
            }
            i = i + 1;
        }
        proof {
            assert(all.subrange(0, all.len() as int) =~= all);
        }
        let ghost start = self.blocks();
        let ghost sorted_all = timed_views(sorted@);
        let mut j: usize = 0;
        proof {
            assert(start =~= start + untimed(sorted_all.subrange(0, 0)));
        }
        while j < sorted.len()
            invariant
                j <= sorted@.len(),
                sorted_all == timed_views(sorted@),
                self.blocks() == start + untimed(sorted_all.subrange(0, j as int)),
                self.used == old(self).used,
                self.same_limits(old(self)),
            decreases sorted.len() - j,
        {
            let ghost before = self.order@;
            let item = (copy_text(sorted[j].1.as_str()), sorted[j].2);
            self.order.push(item);
            proof {
                assert(self.blocks() =~= block_views(before).push((item.0@, item.1)));
                assert(untimed(sorted_all.subrange(0, j + 1)) =~= untimed(sorted_all.subrange(0, j as int)).push(
                    (item.0@, item.1),
                ));
                assert(self.blocks() =~= start + untimed(sorted_all.subrange(0, j + 1)));
            }
            j = j + 1;
        }
        proof {
            assert(sorted_all.subrange(0, sorted_all.len() as int) =~= sorted_all);
        }
    }

    /// Counts the bytes in use anew, from the files that were found.
    pub fn rescan_used(&mut self, files: &Vec<CacheFile>)
        ensures
            final(self).used == if bytes_of_files(files@) <= u64::MAX {
                bytes_of_files(files@) as u64
            } else {
                u64::MAX
            },
            final(self).order == old(self).order,
            final(self).same_limits(old(self)),
    {
        let mut used: u64 = 0;
        let mut i: usize = 0;
        proof {
            assert(files@.subrange(0, 0) =~= Seq::<CacheFile>::empty());
        }
        while i < files.len()
            invariant
                i <= files@.len(),
                used == if bytes_of_files(files@.subrange(0, i as int)) <= u64::MAX {
                    bytes_of_files(files@.subrange(0, i as int)) as u64
                } else {
                    u64::MAX
                },
            decreases files.len() - i,
        {
            proof {
                let upto = files@.subrange(0, i + 1);
                assert(upto.drop_last() =~= files@.subrange(0, i as int));
                assert(upto.last() == files@[i as int]);
            }
            if is_block_file(files[i].name.as_str()) {
                used = used.saturating_add(files[i].len);
            }
            i = i + 1;
        }
        proof {
            assert(files@.subrange(0, files@.len() as int) =~= files@);
        }
        self.used = used;
    }

    /// Notes that a block was used.
    pub fn touch(&mut self, key: &str, block: u64)
        ensures
            final(self).blocks() == touched(old(self).blocks(), (key@, block)),
            final(self).used == old(self).used,
            final(self).same_limits(old(self)),
    {
        remove_first(&mut self.order, key, block);
        let ghost before = self.order@;
        let entry = (copy_text(key), block);
        self.order.push(entry);
        proof {
            assert(self.blocks() =~= block_views(before).push((key@, block)));
        }
    }

    /// Reads what the file of a block holds; a block that is served counts as
    /// used. A damaged file is to be removed.
    pub fn read_block(&mut self, key: &str, block: u64, raw: &Vec<u8>) -> (r: BlockFile)
        ensures
            raw@.len() < 12 <==> r is Short,
            block_data_of(key@, raw@) is Some <==> r is Data,
            r matches BlockFile::Data { data } ==> block_data_of(key@, raw@) == Some(data@),
            final(self).blocks() == if block_data_of(key@, raw@) is Some {
                touched(old(self).blocks(), (key@, block))
            } else {
                old(self).blocks()
            },
            final(self).used == old(self).used,
            final(self).same_limits(old(self)),
    {
        let r = decode_block(key, raw);
        if let BlockFile::Data { .. } = &r {
            self.touch(key, block);
        }
        r
    }

    /// The content of the file of a block, unless the disk, of which `free`
    /// bytes are free, would fall below the space to be left on it.
    pub fn write_block(&self, key: &str, data: &[u8], free: Option<u64>) -> (r: Option<Vec<u8>>)
        ensures
            r is None <==> self.min_free_bytes > 0 && free is Some && free->0 < self.min_free_bytes + 12 + encode_utf8(
                key@,
            ).len() + data@.len(),
            r matches Some(content) ==> content@ == block_content_of(key@, data@),
    {
        if self.min_free_bytes > 0 {
            if let Some(avail) = free {
                let len: u128 = 12 + key.as_bytes().len() as u128 + data.len() as u128;
                if (avail as u128) < self.min_free_bytes as u128 + len {
                    return None;
                }
            }
        }
        Some(encode_block(key, data))
    }

    /// Notes that the file of a block was written, and tells whether blocks
    /// have to leave.
    pub fn commit_block(&mut self, key: &str, block: u64, len: u64) -> (over: bool)
        ensures
            final(self).blocks() == touched(old(self).blocks(), (key@, block)),
            final(self).used == u64::wrapping_add(old(self).used, len),
            final(self).same_limits(old(self)),
            over == (final(self).used > final(self).max_bytes),
    {
        self.touch(key, block);
        crate::metrics::count(&mut self.used, len);
        self.used > self.max_bytes
    }

    /// Takes out the least recently used block, while too much is in use.
    pub fn evict(&mut self) -> (r: Option<(String, u64)>)
        ensures
            r is Some <==> old(self).used > old(self).max_bytes && old(self).blocks().len() > 0,
            r matches Some(b) ==> (b.0@, b.1) == old(self).blocks()[0] && final(self).blocks() == old(
                self,
            ).blocks().subrange(1, old(self).blocks().len() as int),
            r is None ==> final(self).order == old(self).order,
            final(self).used == old(self).used,
            final(self).same_limits(old(self)),
    {
        if self.used <= self.max_bytes || self.order.len() == 0 {
            return None;
        }
        let ghost before = self.order@;
        let entry = self.order.remove(0);
        proof {
            assert(self.blocks() =~= block_views(before).subrange(1, before.len() as int));
        }
        Some(entry)
    }

    /// Takes out the file that was changed longest ago, while too much is in
    /// use.
    pub fn evict_by_mtime(&self, files: &mut Vec<CacheFile>) -> (r: Option<CacheFile>)
        ensures
            r is Some <==> self.used > self.max_bytes && old(files)@.len() > 0,
            r matches Some(f) ==> exists|at: int| #[trigger]
                is_oldest_file(old(files)@, at) && f == old(files)@[at] && final(files)@ == old(files)@.remove(at),
            r is None ==> final(files)@ == old(files)@,
    {
        if self.used <= self.max_bytes || files.len() == 0 {
            return None;
        }
        let mut at: usize = 0;
        let mut i: usize = 1;
        while i < files.len()
            invariant
                at < i <= files@.len(),
                files@ == old(files)@,
                forall|k: int| 0 <= k < i ==> files@[at as int].modified <= #[trigger] files@[k].modified,
                forall|k: int| at < k < i ==> files@[at as int].modified < #[trigger] files@[k].modified,
            decreases files.len() - i,
        {
            if files[i].modified <= files[at].modified {
                at = i;
            }
            i = i + 1;
        }
        proof {
            assert(is_oldest_file(files@, at as int));
        }
        Some(files.remove(at))
    }

    /// Notes that the file of a block that had to leave was removed.
    pub fn removed(&mut self, len: u64)
        ensures
            final(self).used == if old(self).used >= len {
                (old(self).used - len) as u64
            } else {
                0
            },
            final(self).order == old(self).order,
            final(self).same_limits(old(self)),
    {
        self.used = self.used.saturating_sub(len);
    }

    /// Forgets the blocks of a key.
    pub fn invalidate(&mut self, key: &str)
        ensures
            final(self).blocks() == old(self).blocks().filter(other_key(key@)),
            final(self).used == old(self).used,
            final(self).same_limits(old(self)),
    {
        let ghost all = self.blocks();
        let ghost pred = other_key(key@);
        let mut kept: Vec<(String, u64)> = Vec::new();
        let mut i: usize = 0;
        proof {
            assert(all.subrange(0, 0) =~= Seq::<(Seq<char>, u64)>::empty());
            reveal(Seq::filter);
            assert(block_views(kept@) =~= all.subrange(0, 0).filter(pred));
        }
        while i < self.order.len()
            invariant
                i <= self.order@.len(),
                all == self.blocks(),
                all == old(self).blocks(),
                pred == other_key(key@),
                block_views(kept@) == all.subrange(0, i as int).filter(pred),
                self.used == old(self).used,
                self.same_limits(old(self)),
            decreases self.order.len() - i,
        {
            let ghost before = kept@;
            proof {
                let upto = all.subrange(0, i + 1);
                assert(upto.drop_last() =~= all.subrange(0, i as int));
                assert(upto.last() == (self.order@[i as int].0@, self.order@[i as int].1));
                reveal(Seq::filter);
            }
            if !same_text(self.order[i].0.as_str(), key) {
                let item = (copy_text(self.order[i].0.as_str()), self.order[i].1);
                kept.push(item);
                proof {
                    assert(block_views(kept@) =~= block_views(before).push((item.0@, item.1)));
                }
            }
            i = i + 1;
        }
        proof {
            assert(all.subrange(0, all.len() as int) =~= all);
        }
        self.order = kept;
    }

    /// Whether a file is to be removed with the blocks of a key.
    pub fn is_block_of(&self, name: &str, key: &str) -> (r: bool)
        ensures
            r == (block_file_name(name@) && has_prefix(name@, block_file_prefix_of(key@))),
    {
        let prefix = block_file_prefix(key);
        is_block_file(name) && starts_with_text(name, prefix.as_str())
    }

    /// Notes that the file of a block of a forgotten key was removed.
    pub fn released(&mut self, len: u64)
        ensures
            final(self).used == u64::wrapping_sub(old(self).used, len),
            final(self).order == old(self).order,
            final(self).same_limits(old(self)),
    {
        self.used = self.used.wrapping_sub(len);
    }

    /// Forgets every block.
    pub fn clear(&mut self)
        ensures
            final(self).blocks() == Seq::<(Seq<char>, u64)>::empty(),
            final(self).used == 0,
            final(self).same_limits(old(self)),
    {
        self.order = Vec::new();
        self.used = 0;
        proof {
            assert(self.blocks() =~= Seq::<(Seq<char>, u64)>::empty());
        }
    }
}

proof fn lemma_without_first(s: Seq<(Seq<char>, u64)>, x: (Seq<char>, u64))
    requires
        s.no_duplicates(),
    ensures
        without_first(s, x).no_duplicates(),
        forall|y: (Seq<char>, u64)| #[trigger] without_first(s, x).contains(y) <==> s.contains(y) && y != x,
{
    if s.contains(x) {
        let i = s.index_of(x);
        assert forall|k: int| 0 <= k < i implies #[trigger] s[k] != x by {}
        lemma_without_first_at(s, x, i);
        let t = s.remove(i);
        assert forall|y: (Seq<char>, u64)| #[trigger] t.contains(y) <==> s.contains(y) && y != x by {
            if t.contains(y) {
                let k = t.index_of(y);
                let j = if k < i {
                    k
                } else {
                    k + 1
                };
                assert(s[j] == y);
            }
            if s.contains(y) && y != x {
                let j = s.index_of(y);
                let k = if j < i {
                    j
                } else {
                    j - 1
                };
                assert(t[k] == y);
            }
        }
    } else {
        assert forall|k: int| 0 <= k < s.len() implies #[trigger] s[k] != x by {
            assert(s.contains(s[k]));
        }
        lemma_without_first_none(s, x);
    }
}

/// A block that was just used is the last to leave; no other block comes or
/// goes, and none is in the order twice.
pub proof fn law_used_last(order: Seq<(Seq<char>, u64)>, x: (Seq<char>, u64))
    requires
        order.no_duplicates(),
    ensures
        touched(order, x).last() == x,
        touched(order, x).no_duplicates(),
        forall|y: (Seq<char>, u64)| #[trigger] touched(order, x).contains(y) <==> order.contains(y) || y == x,
{
    lemma_without_first(order, x);
    let s = without_first(order, x);
    let t = touched(order, x);
    assert forall|i: int, j: int| 0 <= i < t.len() && 0 <= j < t.len() && i != j implies t[i] != t[j] by {
        if i < s.len() {
            assert(s.contains(s[i]));
        }
        if j < s.len() {
            assert(s.contains(s[j]));
        }
    }
    assert forall|y: (Seq<char>, u64)| #[trigger] t.contains(y) <==> order.contains(y) || y == x by {
        if t.contains(y) {
            let k = t.index_of(y);
            if k < s.len() {
                assert(s.contains(s[k]));
            }
        }
        if order.contains(y) && y != x {
            assert(s.contains(y));
            let k = s.index_of(y);
            assert(t[k] == y);
        }
        if y == x {
            assert(t[s.len() as int] == x);
        }
    }
}

/// After a key was forgotten no block of it is in the order.
pub proof fn law_forgotten_key(order: Seq<(Seq<char>, u64)>, key: Seq<char>, block: u64)
    ensures
        !order.filter(other_key(key)).contains((key, block)),
{
    broadcast use vstd::seq_lib::group_filter_ensures;

    let kept = order.filter(other_key(key));
    if kept.contains((key, block)) {
        let k = kept.index_of((key, block));
        assert(other_key(key)(kept[k]));
    }
}

/// A block that is used goes to the end of the order; all others keep theirs.
pub proof fn law_touched(a: Seq<(Seq<char>, u64)>, x: (Seq<char>, u64), b: Seq<(Seq<char>, u64)>)
    requires
        !a.contains(x),
    ensures
        touched(a + seq![x] + b, x) == a + b + seq![x],
        touched(a, x) == a + seq![x],
        without_first(a + seq![x] + b, x) == a + b,
        without_first(a, x) == a,
    decreases a.len(),
{
    let s = a + seq![x] + b;
    if a.len() > 0 {
        let rest = a.subrange(1, a.len() as int);
        assert(a.contains(a[0]));
        if rest.contains(x) {
            let i = choose|i: int| 0 <= i < rest.len() && rest[i] == x;
            assert(a[i + 1] == x);
        }
        law_touched(rest, x, b);
        assert(s.subrange(1, s.len() as int) =~= rest + seq![x] + b);
        assert(without_first(s, x) =~= a + b);
        assert(seq![a[0]] + rest =~= a);
    } else {
        assert(s.subrange(1, s.len() as int) =~= b);
        assert(a + b =~= b);
    }
    assert(touched(s, x) =~= a + b + seq![x]);
    assert(touched(a, x) =~= a + seq![x]);
}

/// Forgetting a key drops its blocks and no others, and keeps the order.
pub proof fn law_forgets_only(order: Seq<(Seq<char>, u64)>, key: Seq<char>, b: (Seq<char>, u64))
    ensures
        order.filter(other_key(key)).contains(b) <==> order.contains(b) && b.0 != key,
{
    broadcast use vstd::seq_lib::group_filter_ensures;
    let p = other_key(key);
    let r = order.filter(p);
    if r.contains(b) {
        order.lemma_filter_contains_rev(p, b);
        let i = choose|i: int| 0 <= i < r.len() && r[i] == b;
        assert(p(r[i]));
    }
    if order.contains(b) && b.0 != key {
        let i = choose|i: int| 0 <= i < order.len() && order[i] == b;
        assert(p(order[i]));
        assert(r.contains(order[i]));
    }
}

/// Blocks are put in the order of their times, and none is lost.
pub proof fn law_by_time(s: Seq<(u64, Seq<char>, u64)>)
    ensures
        forall|i: int, j: int| 0 <= i <= j < by_time(s).len() ==> (#[trigger] by_time(s)[i]).0 <= (#[trigger] by_time(s)[j]).0,
        by_time(s).to_multiset() == s.to_multiset(),
        by_time(s).len() == s.len(),
    decreases s.len(),
{
    broadcast use vstd::seq_lib::group_to_multiset_ensures;
    if s.len() > 0 {
        law_by_time(s.drop_last());
        lemma_put_by_time(by_time(s.drop_last()), s.last());
        assert(s =~= s.drop_last().push(s.last()));
    }
}

proof fn lemma_put_by_time(s: Seq<(u64, Seq<char>, u64)>, b: (u64, Seq<char>, u64))
    requires
        forall|i: int, j: int| 0 <= i <= j < s.len() ==> (#[trigger] s[i]).0 <= (#[trigger] s[j]).0,
    ensures
        forall|i: int, j: int|
            0 <= i <= j < put_by_time(s, b).len() ==> (#[trigger] put_by_time(s, b)[i]).0 <= (#[trigger] put_by_time(s, b)[j]).0,
        put_by_time(s, b).to_multiset() == s.to_multiset().insert(b),
        put_by_time(s, b).len() == s.len() + 1,
        forall|k: int| 0 <= k < put_by_time(s, b).len() ==> (#[trigger] put_by_time(s, b)[k]).0 == b.0 || (exists|m: int|
            0 <= m < s.len() && put_by_time(s, b)[k].0 == (#[trigger] s[m]).0),
    decreases s.len(),
{
    broadcast use vstd::seq_lib::group_to_multiset_ensures;
    let r = put_by_time(s, b);
    if s.len() == 0 || s.last().0 <= b.0 {
        assert forall|i: int, j: int| 0 <= i <= j < r.len() implies (#[trigger] r[i]).0 <= (#[trigger] r[j]).0 by {
            if i < s.len() {
                assert(s[i].0 <= s[s.len() - 1].0);
            }
        }
        assert forall|k: int| 0 <= k < r.len() implies (#[trigger] r[k]).0 == b.0 || (exists|m: int|
            0 <= m < s.len() && r[k].0 == (#[trigger] s[m]).0) by {
            if k < s.len() {
                assert(r[k].0 == s[k].0);
            }
        }
    } else {
        let head = s.drop_last();
        assert forall|i: int, j: int| 0 <= i <= j < head.len() implies (#[trigger] head[i]).0 <= (#[trigger] head[j]).0 by {
            assert(head[i] == s[i] && head[j] == s[j]);
        }
        lemma_put_by_time(head, b);
        let h = put_by_time(head, b);
        assert(s =~= head.push(s.last()));
        assert forall|k: int| 0 <= k < h.len() implies (#[trigger] h[k]).0 <= s.last().0 && (h[k].0 == b.0 || (exists|m: int|
            0 <= m < s.len() && h[k].0 == (#[trigger] s[m]).0)) by {
            if h[k].0 != b.0 {
                let m = choose|m: int| 0 <= m < head.len() && h[k].0 == (#[trigger] head[m]).0;
                assert(head[m] == s[m]);
                assert(s[m].0 <= s[s.len() - 1].0);
            }
        }
        assert forall|i: int, j: int| 0 <= i <= j < r.len() implies (#[trigger] r[i]).0 <= (#[trigger] r[j]).0 by {
            if i < h.len() {
                assert(h[i].0 <= s.last().0);
            }
        }
        assert forall|k: int| 0 <= k < r.len() implies (#[trigger] r[k]).0 == b.0 || (exists|m: int|
            0 <= m < s.len() && r[k].0 == (#[trigger] s[m]).0) by {
            if k < h.len() {
                assert(r[k] == h[k]);
            } else {
                assert(r[k].0 == s[s.len() - 1].0);
            }
        }
    }
}

/// The bytes of a cache are those of its block files, each counted once, and of
/// nothing else.
pub proof fn law_bytes_counted(files: Seq<CacheFile>, f: CacheFile)
    ensures
        bytes_of_files(Seq::empty()) == 0,
        block_file_name(f.name@) ==> bytes_of_files(files.push(f)) == bytes_of_files(files) + f.len,
        !block_file_name(f.name@) ==> bytes_of_files(files.push(f)) == bytes_of_files(files),
{
    assert(files.push(f).drop_last() =~= files);
}

/// A line of the order tells a block by its number and the key in hexadecimal
/// digits; a line without a blank tells none.
pub proof fn law_order_line(key: Seq<char>, block: u64, word: Seq<char>)
    requires
        !word.contains(' '),
    ensures
        order_line((key, block)) == decimal(block as nat) + seq![' '] + hex_of(encode_utf8(key)),
        line_block(order_line((key, block))) == Some((key, block)),
        line_block(word) is None,
{
    crate::text::lemma_split_once_none(word, ' ');
    lemma_line_roundtrip((key, block));
}

/// A block file tells the block that it was written for: its key, and the number
/// in its name.
pub proof fn law_block_in_file(key: Seq<char>, block: u64, data: Seq<u8>)
    requires
        encode_utf8(key).len() < 0x1_0000_0000,
    ensures
        block_in_file(crate::disk_cache::block_file_of(key, block), block_content_of(key, data)) == Some((lossy_text(encode_utf8(key)), block)),
{
    let raw = block_content_of(key, data);
    let name = crate::disk_cache::block_file_of(key, block);
    let k = encode_utf8(key);
    crate::numeral::lemma_pow256_u64();
    crate::numeral::lemma_le_roundtrip(k.len(), 4);
    crate::numeral::lemma_le_bytes_len(crate::checksum::crc64_of(data) as nat, 8);
    assert(raw.subrange(0, 4) =~= crate::numeral::le_bytes(k.len(), 4));
    assert(raw.subrange(4, 4 + k.len() as int) =~= k);
    crate::disk_cache::law_block_file_number(key, block);
    let stem = crate::disk_cache::block_file_prefix_of(key) + crate::numeral::zero_padded(
        crate::numeral::hexadecimal(block as nat),
        8,
    );
    crate::numeral::lemma_decimal_roundtrip(crate::checksum::fnv1a_of(k));
    assert(stem.len() > 0);
    crate::disk_cache::law_cache_files(stem);
}

/// The file that goes first is one that was used the longest time ago.
pub proof fn law_oldest_file(files: Seq<CacheFile>, at: int, k: int)
    requires
        is_oldest_file(files, at),
        0 <= k < files.len(),
    ensures
        0 <= at < files.len(),
        files[at].modified <= files[k].modified,
{
}

/// What a cache may hold stays as it was set.
pub proof fn law_limits_kept(a: &DiskCache, b: &DiskCache)
    requires
        a.same_limits(b),
    ensures
        a.max_bytes == b.max_bytes,
        a.block_size == b.block_size,
        a.min_free_bytes == b.min_free_bytes,
{
}

} // verus!
