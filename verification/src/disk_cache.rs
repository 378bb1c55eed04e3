//! The cache of object blocks on disk: the names and the content of its
//! files, which blocks leave first, and how a read is put together of blocks.
//! The files themselves are read and written by the caller.

use vstd::prelude::*;
use vstd::string::*;
use vstd::utf8::*;

use crate::checksum::{crc64_of, crc64ecma, fnv1a64, fnv1a_of};
use crate::numeral::{
    decimal, decimal_text, hex_text, hexadecimal, le_bytes, le_u32_at, le_u64_at, le_value,
    lemma_le_bytes_len, lemma_le_roundtrip, lemma_pow256_u64, parse_hex_number, parse_hex_u64,
    parse_number, parse_u64, to_le_bytes, zero_padded,
};
use crate::text::{
    after_last, before_last, ends_with_text, has_prefix, has_suffix, law_prefix_and_rest, lines_of, same_text,
    strip_prefix, tail_from, text_after_last, text_before_last, text_lines, views,
};

verus! {

/// The version of the layout of the files.
pub const DISK_CACHE_META_VERSION: u64 = 2;

/// The unit that the size of the cache is rounded up to.
pub const DISK_CACHE_BUDGET_UNIT: u64 = 1_048_576;

/// The first bytes of a sequence.
pub open spec fn bytes_between(content: Seq<u8>, from: int, to: int) -> Seq<u8> {
    let n = content.len() as int;
    let a = if from < n { from } else { n };
    let b = if to < n { to } else { n };
    if a <= b {
        content.subrange(a, b)
    } else {
        Seq::empty()
    }
}

/// A block of an object: shorter where the object ends in it.
pub open spec fn block_of(content: Seq<u8>, block: int, block_size: int) -> Seq<u8> {
    bytes_between(content, block * block_size, (block + 1) * block_size)
}

/// The text of the file that describes the cache.
pub open spec fn meta_text_of(block_size: u64) -> Seq<char> {
    "version="@ + decimal(DISK_CACHE_META_VERSION as nat) + "\nblock_size="@ + decimal(
        block_size as nat,
    ) + "\n"@
}

/// The text of the file that describes the cache.
pub fn meta_text(block_size: u64) -> (r: String)
    ensures
        r@ == meta_text_of(block_size),
{
    let mut r = "version=".to_owned();
    let version = decimal_text(DISK_CACHE_META_VERSION);
    r.append(version.as_str());
    r.append("\nblock_size=");
    let size = decimal_text(block_size);
    r.append(size.as_str());
    r.append("\n");
    r
}

/// The number in the last of the lines that start with `name`; none where no
/// line does, or where that one tells no number.
pub open spec fn last_field(lines: Seq<Seq<char>>, name: Seq<char>) -> Option<u64>
    decreases lines.len(),
{
    if lines.len() == 0 {
        None
    } else if has_prefix(lines.last(), name) {
        parse_u64(tail_from(lines.last(), name.len() as int))
    } else {
        last_field(lines.drop_last(), name)
    }
}

/// The cache that a description tells of can be used with blocks of the size
/// asked for.
pub open spec fn meta_matches(raw: Seq<char>, block_size: u64) -> bool {
    last_field(lines_of(raw), "version="@) == Some(DISK_CACHE_META_VERSION) && last_field(
        lines_of(raw),
        "block_size="@,
    ) == Some(block_size)
}

proof fn lemma_fields_differ(line: Seq<char>)
    ensures
        !(has_prefix(line, "version="@) && has_prefix(line, "block_size="@)),
{
    reveal_strlit("version=");
    reveal_strlit("block_size=");
    if has_prefix(line, "version="@) && has_prefix(line, "block_size="@) {
        assert(line[0] == line.subrange(0, "version="@.len() as int)[0]);
        assert(line[0] == line.subrange(0, "block_size="@.len() as int)[0]);
        assert("version="@[0] == 'v');
        assert("block_size="@[0] == 'b');
    }
}

/// Whether the cache that a description tells of can be used.
pub fn meta_reusable(raw: &str, block_size: u64) -> (r: bool)
    ensures
        r == meta_matches(raw@, block_size),
{
    let lines = text_lines(raw);
    let ghost all = lines_of(raw@);
    let mut version: Option<u64> = None;
    let mut size: Option<u64> = None;
    let mut i: usize = 0;
    proof {
        assert(all.subrange(0, 0) =~= Seq::<Seq<char>>::empty());
    }
    while i < lines.len()
        invariant
            i <= lines@.len(),
            all == views(lines@),
            version == last_field(all.subrange(0, i as int), "version="@),
            size == last_field(all.subrange(0, i as int), "block_size="@),
        decreases lines.len() - i,
    {
        proof {
            let upto = all.subrange(0, i + 1);
            assert(upto.drop_last() =~= all.subrange(0, i as int));
            assert(upto.last() == lines@[i as int]@);
            lemma_fields_differ(upto.last());
        }
        match strip_prefix(lines[i].as_str(), "version=") {
            Some(v) => {
                version = parse_number(v.as_str());
            },
            None => match strip_prefix(lines[i].as_str(), "block_size=") {
                Some(v) => {
                    size = parse_number(v.as_str());
                },
                None => {},
            },
        }
        i = i + 1;
    }
    proof {
        assert(all.subrange(0, all.len() as int) =~= all);
    }
    match (version, size) {
        (Some(v), Some(b)) => v == DISK_CACHE_META_VERSION && b == block_size,
        _ => false,
    }
}

/// What becomes of the blocks in a cache directory.
#[derive(Debug)]
pub enum CacheInit {
    /// They are used.
    Reuse,
    /// They are deleted, and the description is written anew.
    Rebuild { meta: String },
}

/// The size of blocks, at least one byte.
pub open spec fn block_size_of(requested: usize) -> u64 {
    if requested < 1 {
        1
    } else {
        requested as u64
    }
}

/// What becomes of the blocks in a cache directory: they are used where the
/// description says that they have the layout and the size asked for.
pub fn load_or_init_block_size(raw: Option<&str>, requested: usize) -> (r: (u64, CacheInit))
    ensures
        r.0 == block_size_of(requested),
        raw matches Some(text) && meta_matches(text@, r.0) ==> r.1 is Reuse,
        !(raw matches Some(text) && meta_matches(text@, r.0)) ==> (r.1 matches CacheInit::Rebuild { meta }
            && meta@ == meta_text_of(r.0)),
{
    let size: u64 = if requested < 1 {
        1
    } else {
        requested as u64
    };
    let reuse = match raw {
        Some(text) => meta_reusable(text, size),
        None => false,
    };
    if reuse {
        (size, CacheInit::Reuse)
    } else {
        (size, CacheInit::Rebuild { meta: meta_text(size) })
    }
}

/// The name of a file has an extension, which comes behind a dot that is not
/// its first character.
pub open spec fn has_extension(name: Seq<char>, dotted: Seq<char>) -> bool {
    has_suffix(name, dotted) && name.len() > dotted.len()
}

/// The file holds a block.
pub open spec fn block_file_name(name: Seq<char>) -> bool {
    has_extension(name, ".blk"@)
}

/// The file goes where the blocks are deleted: a block, an entity tag, or the
/// order of the blocks.
pub open spec fn cache_file(name: Seq<char>) -> bool {
    block_file_name(name) || has_extension(name, ".etag"@) || name == "lru.order"@
}

fn extension_is(name: &str, dotted: &str) -> (r: bool)
    ensures
        r == has_extension(name@, dotted@),
{
    ends_with_text(name, dotted) && name.unicode_len() > dotted.unicode_len()
}

/// Whether a file holds a block.
pub fn is_block_file(name: &str) -> (r: bool)
    ensures
        r == block_file_name(name@),
{
    extension_is(name, ".blk")
}

/// Whether a file goes where the blocks are deleted.
pub fn is_cache_file(name: &str) -> (r: bool)
    ensures
        r == cache_file(name@),
{
    is_block_file(name) || extension_is(name, ".etag") || same_text(name, "lru.order")
}

/// The name of the file with the entity tag of an object.
pub open spec fn etag_file_of(key: Seq<char>) -> Seq<char> {
    decimal(fnv1a_of(encode_utf8(key)) as nat) + ".etag"@
}

/// The name of the file with the entity tag of an object.
pub fn etag_file(key: &str) -> (r: String)
    ensures
        r@ == etag_file_of(key@),
{
    let mut r = decimal_text(fnv1a64(key));
    r.append(".etag");
    r
}

/// The start of the names of the files with the blocks of an object.
pub open spec fn block_file_prefix_of(key: Seq<char>) -> Seq<char> {
    decimal(fnv1a_of(encode_utf8(key)) as nat) + "-"@
}

/// The name of the file with a block of an object.
pub open spec fn block_file_of(key: Seq<char>, block: u64) -> Seq<char> {
    block_file_prefix_of(key) + zero_padded(hexadecimal(block as nat), 8) + ".blk"@
}

/// The start of the names of the files with the blocks of an object.
pub fn block_file_prefix(key: &str) -> (r: String)
    ensures
        r@ == block_file_prefix_of(key@),
{
    let mut r = decimal_text(fnv1a64(key));
    r.append("-");
    r
}

/// The name of the file with a block of an object.
pub fn block_file(key: &str, block: u64) -> (r: String)
    ensures
        r@ == block_file_of(key@, block),
{
    let mut r = block_file_prefix(key);
    let number = hex_text(block, 8);
    r.append(number.as_str());
    r.append(".blk");
    r
}

/// The number of the block that the name of a file tells.
pub open spec fn block_number_of(name: Seq<char>) -> Option<u64> {
    let stem = if has_suffix(name, ".blk"@) {
        name.subrange(0, name.len() - 4)
    } else {
        name
    };
    match before_last(stem, '-') {
        Some(_head) => parse_hex_u64(after_last(stem, '-')),
        None => None,
    }
}

/// The number of the block that the name of a file tells.
pub fn block_number(name: &str) -> (r: Option<u64>)
    ensures
        r == block_number_of(name@),
{
    proof {
        reveal_strlit(".blk");
    }
    let n: usize = name.unicode_len();
    let stem = if ends_with_text(name, ".blk") {
        name.substring_char(0, n - 4)
    } else {
        name
    };
    match text_before_last(stem, '-') {
        Some(_head) => {
            let tail = text_after_last(stem, '-');
            parse_hex_number(tail.as_str())
        },
        None => None,
    }
}

/// The name of the file of a block tells its number.
pub proof fn law_block_file_number(key: Seq<char>, block: u64)
    ensures
        block_number_of(block_file_of(key, block)) == Some(block),
{
    let digits = zero_padded(hexadecimal(block as nat), 8);
    let hash = decimal(fnv1a_of(encode_utf8(key)) as nat);
    let name = block_file_of(key, block);
    reveal_strlit(".blk");
    reveal_strlit("-");
    assert("-"@ =~= seq!['-']);
    assert(name.subrange(name.len() - 4, name.len() as int) =~= ".blk"@);
    let stem = name.subrange(0, name.len() - 4);
    assert(stem =~= hash + seq!['-'] + digits);
    crate::numeral::lemma_hex_roundtrip(block, 8);
    assert forall|k: int| 0 <= k < digits.len() implies #[trigger] digits[k] != '-' by {
        lemma_hex_no_dash(block as nat);
        let h = hexadecimal(block as nat);
        if h.len() < 8 && k < 8 - h.len() {
        } else if h.len() < 8 {
            assert(digits[k] == h[k - (8 - h.len())]);
        }
    }
    let i = hash.len() as int;
    assert(stem[i] == '-');
    assert forall|k: int| i < k < stem.len() implies #[trigger] stem[k] != '-' by {
        assert(stem[k] == digits[k - i - 1]);
    }
    crate::text::lemma_last_at(stem, '-', i);
    assert(tail_from(stem, i + 1) =~= digits);
}

proof fn lemma_hex_no_dash(n: nat)
    ensures
        forall|k: int| 0 <= k < hexadecimal(n).len() ==> #[trigger] hexadecimal(n)[k] != '-',
    decreases n,
{
    let h = hexadecimal(n);
    if n >= 16 {
        lemma_hex_no_dash(n / 16);
        let head = hexadecimal(n / 16);
        assert forall|k: int| 0 <= k < h.len() implies #[trigger] h[k] != '-' by {
            if k < head.len() {
                assert(h[k] == head[k]);
            }
        }
    } else {
        assert(h == seq![crate::numeral::digit_char(n as int)]);
    }
}

/// The content of the file with a block: the length of the key, the key, a
/// checksum and the data.
pub open spec fn block_content_of(key: Seq<char>, data: Seq<u8>) -> Seq<u8> {
    le_bytes(encode_utf8(key).len(), 4) + encode_utf8(key) + le_bytes(crc64_of(data) as nat, 8) + data
}

/// What the file with a block turns out to be.
#[derive(Debug)]
pub enum BlockFile {
    /// It is too short to be one, and is left where it is.
    Short,
    /// It belongs to another key or is damaged, and is deleted.
    Damaged,
    /// This is the data of the block.
    Data { data: Vec<u8> },
}

/// The data in the file with a block, if it is one of this key and has not
/// been damaged.
pub open spec fn block_data_of(key: Seq<char>, raw: Seq<u8>) -> Option<Seq<u8>> {
    let klen = le_value(raw.subrange(0, 4)) as int;
    if raw.len() < 12 || raw.len() < 12 + klen || raw.subrange(4, 4 + klen) != encode_utf8(key) {
        None
    } else {
        let data = raw.subrange(12 + klen, raw.len() as int);
        if crc64_of(data) as nat == le_value(raw.subrange(4 + klen, 12 + klen)) {
            Some(data)
        } else {
            None
        }
    }
}

/// Puts `data` behind what is there.
pub fn append_slice(out: &mut Vec<u8>, data: &[u8])
    ensures
        final(out)@ == old(out)@ + data@,
{
    let ghost base = out@;
    let mut i: usize = 0;
    proof {
        assert(base + data@.subrange(0, 0) =~= base);
    }
    while i < data.len()
        invariant
            i <= data@.len(),
            out@ == base + data@.subrange(0, i as int),
        decreases data.len() - i,
    {
        out.push(data[i]);
        proof {
            assert(base + data@.subrange(0, i + 1) =~= (base + data@.subrange(0, i as int)).push(data@[i as int]));
        }
        i = i + 1;
    }
    proof {
        assert(data@.subrange(0, data@.len() as int) =~= data@);
    }
}

/// The content of the file with a block.
pub fn encode_block(key: &str, data: &[u8]) -> (r: Vec<u8>)
    ensures
        r@ == block_content_of(key@, data@),
{
    let name = key.as_bytes();
    let mut out = to_le_bytes(name.len() as u64, 4);
    append_slice(&mut out, name);
    let crc: u64 = crc64ecma(data);
    let mut check = to_le_bytes(crc, 8);
    out.append(&mut check);
    append_slice(&mut out, data);
    out
}

fn same_bytes(raw: &Vec<u8>, from: usize, name: &[u8]) -> (r: bool)
    requires
        from + name@.len() <= raw@.len(),
    ensures
        r == (raw@.subrange(from as int, from + name@.len()) == name@),
{
    let ghost part = raw@.subrange(from as int, from + name@.len());
    let total: usize = raw.len();
    assert(from + name@.len() <= total);
    let mut i: usize = 0;
    while i < name.len()
        invariant
            i <= name@.len(),
            total == raw@.len(),
            from + name@.len() <= total,
            part == raw@.subrange(from as int, from + name@.len()),
            forall|k: int| 0 <= k < i ==> #[trigger] part[k] == name@[k],
        decreases name.len() - i,
    {
        assert(part[i as int] == raw@[from + i]);
        if raw[from + i] != name[i] {
            return false;
        }
        i = i + 1;
    }
    proof {
        assert(part =~= name@);
    }
    true
}

/// What the file with a block turns out to be.
pub fn decode_block(key: &str, raw: &Vec<u8>) -> (r: BlockFile)
    ensures
        raw@.len() < 12 <==> r is Short,
        block_data_of(key@, raw@) is Some <==> r is Data,
        r matches BlockFile::Data { data } ==> block_data_of(key@, raw@) == Some(data@),
{
    let total: usize = raw.len();
    if total < 12 {
        return BlockFile::Short;
    }
    let klen: u32 = le_u32_at(raw.as_slice(), 0);
    if klen as u64 > (total - 12) as u64 {
        return BlockFile::Damaged;
    }
    let n: usize = klen as usize;
    let name = key.as_bytes();
    if name.len() != n {
        proof {
            assert(raw@.subrange(4, 4 + n).len() == n);
        }
        return BlockFile::Damaged;
    }
    if !same_bytes(raw, 4, name) {
        return BlockFile::Damaged;
    }
    let crc: u64 = le_u64_at(raw.as_slice(), 4 + n);
    let data = crate::caches::copy_range(raw, 12 + n, total);
    if crc64ecma(data.as_slice()) != crc {
        return BlockFile::Damaged;
    }
    BlockFile::Data { data }
}

/// Reading the file of a block gives the data that it was written with.
pub proof fn law_block_roundtrip(key: Seq<char>, data: Seq<u8>)
    requires
        encode_utf8(key).len() < 0x1_0000_0000,
    ensures
        block_data_of(key, block_content_of(key, data)) == Some(data),
{
    let name = encode_utf8(key);
    let raw = block_content_of(key, data);
    let crc = crc64_of(data);
    lemma_pow256_u64();
    lemma_le_roundtrip(name.len(), 4);
    lemma_le_roundtrip(crc as nat, 8);
    let n = name.len() as int;
    assert(raw.subrange(0, 4) =~= le_bytes(name.len(), 4));
    assert(raw.subrange(4, 4 + n) =~= name);
    assert(raw.subrange(4 + n, 12 + n) =~= le_bytes(crc as nat, 8));
    assert(raw.subrange(12 + n, raw.len() as int) =~= data);
}

/// The file of a block is never read as one of another key.
pub proof fn law_block_other_key(key: Seq<char>, other: Seq<char>, data: Seq<u8>)
    requires
        encode_utf8(key).len() < 0x1_0000_0000,
        other != key,
    ensures
        block_data_of(other, block_content_of(key, data)) is None,
{
    let name = encode_utf8(key);
    let raw = block_content_of(key, data);
    lemma_pow256_u64();
    lemma_le_roundtrip(name.len(), 4);
    lemma_le_bytes_len(crc64_of(data) as nat, 8);
    let n = name.len() as int;
    assert(raw.subrange(0, 4) =~= le_bytes(name.len(), 4));
    assert(raw.subrange(4, 4 + n) =~= name);
    if encode_utf8(other) == name {
        crate::text::lemma_encoding_injective(other, key);
    }
}

/// A read that is put together of blocks.
pub struct BlockRead {
    block_size: u64,
    /// Where the read ends.
    end: u64,
    /// Up to where it has come.
    pos: u64,
    /// The block that is needed next.
    block: u64,
    /// The last block.
    last_block: u64,
    /// The object ended.
    eof: bool,
    out: Vec<u8>,
}

impl BlockRead {
    pub closed spec fn spec_block(&self) -> u64 {
        self.block
    }

    pub closed spec fn spec_block_size(&self) -> u64 {
        self.block_size
    }

    pub closed spec fn spec_end(&self) -> u64 {
        self.end
    }

    pub closed spec fn spec_eof(&self) -> bool {
        self.eof
    }

    pub closed spec fn spec_last_block(&self) -> u64 {
        self.last_block
    }

    pub closed spec fn spec_out(&self) -> Seq<u8> {
        self.out@
    }

    /// No further block is needed.
    pub open spec fn complete(&self) -> bool {
        self.spec_eof() || self.spec_block() > self.spec_last_block()
    }

    pub closed spec fn wf(&self) -> bool {
        &&& self.block_size > 0
        &&& self.pos <= self.end
        &&& self.last_block < u64::MAX
        &&& self.block <= self.last_block + 1
        &&& !self.eof ==> self.end > 0 && self.last_block == (self.end - 1) as u64 / self.block_size
        &&& !self.eof && self.block <= self.last_block ==> self.block as int * self.block_size as int
            <= self.pos < (self.block + 1) * self.block_size
        &&& !self.eof && self.block > self.last_block ==> self.pos == self.end
    }

    /// What was put together so far is what the object holds from `offset` on.
    pub closed spec fn reads(&self, content: Seq<u8>, offset: u64) -> bool {
        if self.eof {
            self.out@ == bytes_between(content, offset as int, self.end as int)
        } else {
            &&& offset <= self.pos
            &&& self.out@ == bytes_between(content, offset as int, self.pos as int)
            &&& self.pos > offset ==> self.pos <= content.len()
        }
    }

    /// Begins a read of `len` bytes from `offset`. A read of nothing is
    /// complete at once.
    pub fn begin(offset: u64, len: usize, block_size: u64) -> (r: BlockRead)
        requires
            block_size > 0,
        ensures
            r.wf(),
            r.spec_block_size() == block_size,
            r.spec_block() == offset / block_size,
            r.spec_end() == crate::listing::range_end(offset, len),
            r.complete() <==> r.spec_end() == offset,
            !r.complete() ==> r.spec_last_block() == (r.spec_end() - 1) as u64 / block_size,
            forall|content: Seq<u8>| #[trigger] r.reads(content, offset),
    {
        let end: u64 = offset.saturating_add(len as u64);
        let block: u64 = offset / block_size;
        if end == offset {
            let last_block: u64 = if block == 0 {
                0
            } else {
                block - 1
            };
            let r = BlockRead {
                block_size,
                end,
                pos: offset,
                block,
                last_block,
                eof: true,
                out: Vec::new(),
            };
            proof {
                assert forall|content: Seq<u8>| #[trigger] r.reads(content, offset) by {
                    assert(bytes_between(content, offset as int, offset as int) =~= Seq::<u8>::empty());
                }
            }
            return r;
        }
        let last_block: u64 = (end - 1) / block_size;
        proof {
            let b = block_size as int;
            let o = offset as int;
            let e = end as int;
            assert((o / b) * b <= o < (o / b + 1) * b) by (nonlinear_arith)
                requires
                    b > 0,
                    o >= 0,
            ;
            assert(((e - 1) / b) * b <= e - 1) by (nonlinear_arith)
                requires
                    b > 0,
                    e >= 1,
            ;
            assert(o / b <= (e - 1) / b) by (nonlinear_arith)
                requires
                    b > 0,
                    0 <= o <= e - 1,
            ;
            assert((e - 1) / b <= e - 1) by (nonlinear_arith)
                requires
                    b > 0,
                    e >= 1,
            ;
        }
        let r = BlockRead { block_size, end, pos: offset, block, last_block, eof: false, out: Vec::new() };
        proof {
            assert forall|content: Seq<u8>| #[trigger] r.reads(content, offset) by {
                assert(bytes_between(content, offset as int, offset as int) =~= Seq::<u8>::empty());
            }
        }
        r
    }

    /// The block that is needed next.
    pub fn next_block(&self) -> (r: Option<u64>)
        ensures
            r is None <==> self.complete(),
            r matches Some(b) ==> b == self.spec_block(),
    {
        if self.eof || self.block > self.last_block {
            None
        } else {
            Some(self.block)
        }
    }

    /// Whether the object ended within the read.
    pub fn reached_end(&self) -> (r: bool)
        ensures
            r == self.spec_eof(),
    {
        self.eof
    }

    /// The last block that the read goes to.
    pub fn last_block(&self) -> (r: u64)
        ensures
            r == self.spec_last_block(),
    {
        self.last_block
    }

    /// Takes the block that was needed. A block that is not full is the last
    /// one of the object.
    #[verifier::rlimit(40)]
    pub fn feed(&mut self, data: &Vec<u8>)
        requires
            old(self).wf(),
            !old(self).complete(),
        ensures
            final(self).wf(),
            final(self).spec_block_size() == old(self).spec_block_size(),
            final(self).spec_end() == old(self).spec_end(),
            final(self).spec_last_block() == old(self).spec_last_block(),
            !final(self).spec_eof() ==> final(self).spec_block() == old(self).spec_block() + 1,
            final(self).spec_eof() <==> data@.len() < old(self).spec_block_size(),
            forall|content: Seq<u8>, offset: u64|
                #![trigger old(self).reads(content, offset)]
                old(self).reads(content, offset) && data@ == block_of(
                    content,
                    old(self).spec_block() as int,
                    old(self).spec_block_size() as int,
                ) ==> final(self).reads(content, offset),
    {
        let ghost b = self.block as int;
        let ghost bs = self.block_size as int;
        let ghost p0 = self.pos as int;
        let ghost e = self.end as int;
        proof {
            assert((b + 1) * bs == b * bs + bs) by (nonlinear_arith);
            let q0 = (e - 1) / bs;
            assert(q0 * bs <= e - 1) by (nonlinear_arith)
                requires
                    q0 == (e - 1) / bs,
                    bs > 0,
                    e >= 1,
            ;
            if b < self.last_block {
                assert((b + 1) * bs <= self.last_block as int * bs) by (nonlinear_arith)
                    requires
                        b + 1 <= self.last_block as int,
                        bs > 0,
                ;
            } else {
                let q = (e - 1) / bs;
                assert(e - 1 < (q + 1) * bs) by (nonlinear_arith)
                    requires
                        q == (e - 1) / bs,
                        bs > 0,
                        e >= 1,
                ;
            }
        }
        let start: u64 = self.block * self.block_size;
        let within: u64 = self.pos - start;
        let room: u64 = self.block_size - within;
        let want: u64 = if self.end - self.pos < room {
            self.end - self.pos
        } else {
            room
        };
        let have: u64 = data.len() as u64;
        let ghost before = self.out@;
        if within >= have {
            self.eof = true;
            proof {
                assert forall|content: Seq<u8>, offset: u64|
                    #![trigger old(self).reads(content, offset)]
                    old(self).reads(content, offset) && data@ == block_of(content, b, bs) implies self.reads(content, offset) by {
                    let n = content.len() as int;
                    lemma_block_len(content, b, bs);
                    assert(n <= p0);
                    assert(bytes_between(content, offset as int, p0) =~= bytes_between(content, offset as int, e));
                }
            }
            return;
        }
        let left: u64 = have - within;
        let take: u64 = if want < left {
            want
        } else {
            left
        };
        let part = crate::caches::copy_range(data, within as usize, (within + take) as usize);
        append_slice(&mut self.out, part.as_slice());
        self.pos = self.pos + take;
        let short = have < self.block_size || take < want;
        if short {
            self.eof = true;
        } else {
            self.block = self.block + 1;
        }
        proof {
            assert forall|content: Seq<u8>, offset: u64|
                #![trigger old(self).reads(content, offset)]
                old(self).reads(content, offset) && data@ == block_of(content, b, bs) implies self.reads(content, offset) by {
                lemma_feed(content, offset as int, b, bs, p0, e, within as int, take as int, want as int, data@, before);
            }
            if !short {
                assert(take == want);
                if b < self.last_block {
                    assert(self.pos == (b + 1) * bs);
                    assert((b + 2) * bs == (b + 1) * bs + bs) by (nonlinear_arith);
                } else {
                    assert(self.pos == self.end);
                }
            }
        }
    }

    /// The bytes that were read.
    pub fn finish(self) -> (r: Vec<u8>)
        requires
            self.wf(),
            self.complete(),
        ensures
            r@ == self.spec_out(),
            forall|content: Seq<u8>, offset: u64|
                #![trigger self.reads(content, offset)]
                self.reads(content, offset) ==> r@ == bytes_between(
                    content,
                    offset as int,
                    self.spec_end() as int,
                ),
    {
        self.out
    }
}

proof fn lemma_block_len(content: Seq<u8>, b: int, bs: int)
    requires
        b >= 0,
        bs > 0,
    ensures
        ({
            let n = content.len() as int;
            let start = b * bs;
            block_of(content, b, bs).len() == if n <= start {
                0
            } else if n - start < bs {
                n - start
            } else {
                bs
            }
        }),
        forall|i: int| 0 <= i < block_of(content, b, bs).len() ==> block_of(content, b, bs)[i] == content[b * bs + i],
{
    assert((b + 1) * bs == b * bs + bs) by (nonlinear_arith);
    assert(b * bs >= 0) by (nonlinear_arith)
        requires
            b >= 0,
            bs > 0,
    ;
}

proof fn lemma_feed(
    content: Seq<u8>,
    offset: int,
    b: int,
    bs: int,
    p0: int,
    e: int,
    within: int,
    take: int,
    want: int,
    data: Seq<u8>,
    before: Seq<u8>,
)
    requires
        b >= 0,
        bs > 0,
        0 <= offset,
        p0 == b * bs + within,
        0 <= within < bs,
        p0 <= e,
        0 <= want <= e - p0,
        want == e - p0 || want == bs - within,
        want <= bs - within,
        data == block_of(content, b, bs),
        within < data.len(),
        take == if want < data.len() - within { want } else { data.len() - within },
        before == bytes_between(content, offset, p0),
        p0 > offset ==> p0 <= content.len(),
        offset <= p0,
    ensures
        ({
            let after = before + data.subrange(within, within + take);
            let short = data.len() < bs || take < want;
            &&& short ==> after == bytes_between(content, offset, e)
            &&& !short ==> after == bytes_between(content, offset, p0 + take) && (p0 + take > offset ==> p0 + take
                <= content.len())
        }),
{
    let n = content.len() as int;
    lemma_block_len(content, b, bs);
    let part = data.subrange(within, within + take);
    assert(p0 < n);
    assert(p0 + take <= n);
    assert(before =~= content.subrange(offset, p0));
    assert forall|i: int| 0 <= i < part.len() implies part[i] == content[p0 + i] by {
        assert(part[i] == data[within + i]);
    }
    assert(part =~= content.subrange(p0, p0 + take));
    assert(before + part =~= content.subrange(offset, p0 + take));
    if data.len() < bs || take < want {
        if take == want {
            assert(data.len() < bs);
            if want == e - p0 {
            } else {
                assert(false);
            }
        } else {
            assert(p0 + take == n || data.len() == bs);
        }
    }
}

/// The bytes from one place to another are those of the content in between, as
/// far as it goes.
pub proof fn law_bytes_between(content: Seq<u8>, from: int, to: int)
    requires
        0 <= from <= to,
    ensures
        to <= content.len() ==> bytes_between(content, from, to) == content.subrange(from, to),
        from <= content.len() < to ==> bytes_between(content, from, to) == content.subrange(from, content.len() as int),
        from >= content.len() ==> bytes_between(content, from, to).len() == 0,
{
}

/// Blocks that follow one another hold the content without gap or overlap.
pub proof fn law_blocks_join(content: Seq<u8>, block: int, block_size: int)
    requires
        block >= 0,
        block_size > 0,
    ensures
        bytes_between(content, 0, block * block_size) + block_of(content, block, block_size) == bytes_between(
            content,
            0,
            (block + 1) * block_size,
        ),
        block_of(content, block, block_size).len() <= block_size,
        (block + 1) * block_size <= content.len() ==> block_of(content, block, block_size).len() == block_size,
{
    let a = block * block_size;
    let b = (block + 1) * block_size;
    assert(b == a + block_size && a >= 0) by (nonlinear_arith)
        requires
            a == block * block_size,
            b == (block + 1) * block_size,
            block >= 0,
            block_size > 0,
    ;
    assert(bytes_between(content, 0, a) + bytes_between(content, a, b) =~= bytes_between(content, 0, b));
}

/// The size of the blocks is the one asked for, and never zero.
pub proof fn law_block_size(requested: usize)
    ensures
        requested > 0 ==> block_size_of(requested) == requested,
        block_size_of(0) == 1,
{
}

/// Of a directory only block files, the tags of objects and the order belong to
/// the cache; a name that is only an extension is none of them.
pub proof fn law_cache_files(stem: Seq<char>)
    requires
        stem.len() > 0,
    ensures
        block_file_name(stem + ".blk"@),
        cache_file(stem + ".blk"@),
        cache_file(stem + ".etag"@),
        cache_file("lru.order"@),
        !block_file_name(".blk"@),
        !block_file_name(stem + ".etag"@),
        !cache_file(stem + ".txt"@),
{
    reveal_strlit(".blk");
    reveal_strlit(".etag");
    reveal_strlit("lru.order");
    reveal_strlit(".txt");
    law_prefix_and_rest(stem, ".blk"@);
    law_prefix_and_rest(stem, ".etag"@);
    let e = stem + ".etag"@;
    let t = stem + ".txt"@;
    assert(e.last() == 'g' && t.last() == 't');
    assert("lru.order"@.last() == 'r');
    if has_suffix(e, ".blk"@) {
        assert(e.subrange(e.len() - 4, e.len() as int).last() == 'k');
    }
    if has_suffix(t, ".blk"@) {
        assert(t.subrange(t.len() - 4, t.len() as int).last() == 'k');
    }
    if has_suffix(t, ".etag"@) {
        assert(t.subrange(t.len() - 5, t.len() as int).last() == 'g');
    }
}

/// What a cache writes about itself it takes for its own again, with the same
/// size of blocks and with no other.
pub proof fn law_meta(block_size: u64, other: u64)
    ensures
        meta_matches(meta_text_of(block_size), other) <==> block_size == other,
        !meta_matches(Seq::empty(), other),
{
    reveal_strlit("version=");
    reveal_strlit("\nblock_size=");
    reveal_strlit("block_size=");
    reveal_strlit("\n");
    let none = Seq::<char>::empty();
    let a = "version="@ + decimal(2);
    let b = "block_size="@ + decimal(block_size as nat);
    let text = meta_text_of(block_size);
    crate::numeral::lemma_decimal_roundtrip(2);
    crate::numeral::lemma_decimal_roundtrip(block_size);
    assert(!a.contains('\n')) by {
        if a.contains('\n') {
            let i = choose|i: int| 0 <= i < a.len() && a[i] == '\n';
            if i >= 8 {
                assert(a[i] == decimal(2)[i - 8]);
            }
        }
    }
    assert(!b.contains('\n')) by {
        if b.contains('\n') {
            let i = choose|i: int| 0 <= i < b.len() && b[i] == '\n';
            if i >= 11 {
                assert(b[i] == decimal(block_size as nat)[i - 11]);
            }
        }
    }
    let t = seq!['\n'] + (b + seq!['\n']);
    assert(text =~= a + t);
    crate::text::lemma_split_on_head(a, t, '\n');
    assert(t.subrange(1, t.len() as int) =~= b + seq!['\n']);
    let u = seq!['\n'];
    crate::text::lemma_split_on_head(b, u, '\n');
    assert(u.subrange(1, 1) =~= none);
    assert(crate::text::split_on(none, '\n') =~= seq![none]);
    assert(crate::text::split_on(u, '\n') =~= seq![none, none]);
    assert(crate::text::split_on(b + u, '\n') =~= seq![b, none]);
    assert(crate::text::split_on(t, '\n') =~= seq![none, b, none]);
    let pieces = crate::text::split_on(text, '\n');
    assert(pieces =~= seq![a, b, none]);
    assert(a.last() == decimal(2).last());
    assert(b.last() == decimal(block_size as nat).last());
    let da = decimal(2);
    let db = decimal(block_size as nat);
    assert('0' <= da[da.len() - 1] <= '9' && '0' <= db[db.len() - 1] <= '9');
    let lines = lines_of(text);
    assert(lines =~= seq![a, b]);
    assert(lines.drop_last() =~= seq![a]);
    assert(has_prefix(a, "version="@)) by {
        assert(a.subrange(0, 8) =~= "version="@);
    }
    assert(has_prefix(b, "block_size="@)) by {
        assert(b.subrange(0, 11) =~= "block_size="@);
    }
    assert(!has_prefix(b, "version="@)) by {
        assert(b[0] == 'b' && "version="@[0] == 'v');
        if has_prefix(b, "version="@) {
            assert(b.subrange(0, 8)[0] == 'v');
        }
    }
    assert(tail_from(a, 8) =~= decimal(2));
    assert(tail_from(b, 11) =~= decimal(block_size as nat));
    reveal_with_fuel(last_field, 3);
    assert(last_field(lines, "version="@) == Some(2u64));
    assert(last_field(lines, "block_size="@) == Some(block_size));
    let empty = lines_of(none);
    assert(empty =~= Seq::<Seq<char>>::empty());
}

/// Objects whose keys have different hashes have different files in the cache,
/// and so have different blocks of an object.
pub proof fn law_files_apart(a: Seq<char>, b: Seq<char>, m: u64, n: u64)
    ensures
        fnv1a_of(encode_utf8(a)) != fnv1a_of(encode_utf8(b)) ==> etag_file_of(a) != etag_file_of(b),
        m != n ==> block_file_of(a, m) != block_file_of(b, n),
        has_prefix(block_file_of(a, m), block_file_prefix_of(a)),
{
    let ha = fnv1a_of(encode_utf8(a));
    let hb = fnv1a_of(encode_utf8(b));
    crate::numeral::lemma_decimal_roundtrip(ha);
    crate::numeral::lemma_decimal_roundtrip(hb);
    law_block_file_number(a, m);
    law_block_file_number(b, n);
    if etag_file_of(a) == etag_file_of(b) {
        let da = decimal(ha as nat);
        let db = decimal(hb as nat);
        let s = etag_file_of(a);
        let tag = ".etag"@;
        assert(s.len() - tag.len() == da.len() && s.len() - tag.len() == db.len());
        assert(s.subrange(0, da.len() as int) =~= da);
        assert(s.subrange(0, db.len() as int) =~= db);
    }
    let p = block_file_prefix_of(a);
    let f = block_file_of(a, m);
    assert(f.subrange(0, p.len() as int) =~= p);
}

/// A block that was damaged is not used: where a byte of its data is another
/// one than was written, and where the file is too short to hold a block.
pub proof fn law_damaged_block(key: Seq<char>, head: Seq<u8>, a: u8, b: u8, tail: Seq<u8>, short: Seq<u8>)
    requires
        encode_utf8(key).len() < 0x1_0000_0000,
        a != b,
        short.len() < 12,
    ensures
        block_data_of(
            key,
            le_bytes(encode_utf8(key).len(), 4) + encode_utf8(key) + le_bytes(crc64_of(head + seq![a] + tail) as nat, 8) + (head
                + seq![b] + tail),
        ) is None,
        block_data_of(key, short) is None,
{
    let k = encode_utf8(key);
    let n = k.len() as int;
    let written = head + seq![a] + tail;
    let damaged = head + seq![b] + tail;
    let raw = le_bytes(k.len(), 4) + k + le_bytes(crc64_of(written) as nat, 8) + damaged;
    crate::numeral::lemma_pow256_u64();
    crate::numeral::lemma_le_roundtrip(k.len(), 4);
    crate::numeral::lemma_le_roundtrip(crc64_of(written) as nat, 8);
    assert(raw.subrange(0, 4) =~= le_bytes(k.len(), 4));
    assert(raw.subrange(4 + n, 12 + n) =~= le_bytes(crc64_of(written) as nat, 8));
    assert(raw.subrange(12 + n, raw.len() as int) =~= damaged);
    crate::checksum::law_crc64_detects(head, a, b, tail);
}

} // verus!
