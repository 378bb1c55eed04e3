//! Checksums and hashes: CRC-64/ECMA-182 of object data, FNV-1a of paths and
//! keys, the hexadecimal form of keys in cache files, and the `Content-MD5`
//! header.

use base64::Engine;
use md5::Digest;
use vstd::prelude::*;
use vstd::string::*;
use vstd::utf8::*;

use crate::numeral::{digit_char, from_hex_digit, hex_digit, to_digit_char};

verus! {

/// The reflected polynomial of CRC-64/ECMA-182.
pub const CRC64_POLY: u64 = 0xC96C_5795_D787_0F42;

/// The state before the first byte, and the mask applied to the result.
pub const CRC64_ONES: u64 = 0xFFFF_FFFF_FFFF_FFFF;

/// The FNV-1a offset basis.
pub const FNV_OFFSET: u64 = 0xcbf2_9ce4_8422_2325;

/// The FNV-1a prime.
pub const FNV_PRIME: u64 = 0x100_0000_01b3;

/// One bit of the division by the polynomial.
pub open spec fn crc64_bit(crc: u64) -> u64 {
    (crc >> 1) ^ (if crc & 1 == 1 {
        CRC64_POLY
    } else {
        0
    })
}

/// `n` bits of the division.
pub open spec fn crc64_bits(crc: u64, n: nat) -> u64
    decreases n,
{
    if n == 0 {
        crc
    } else {
        crc64_bit(crc64_bits(crc, (n - 1) as nat))
    }
}

/// The state after the bytes of `data`, from the state `crc`.
pub open spec fn crc64_state(crc: u64, data: Seq<u8>) -> u64
    decreases data.len(),
{
    if data.len() == 0 {
        crc
    } else {
        crc64_bits(crc64_state(crc, data.drop_last()) ^ (data.last() as u64), 8)
    }
}

/// The CRC-64/ECMA-182 checksum of `data`.
pub open spec fn crc64_of(data: Seq<u8>) -> u64 {
    crc64_state(CRC64_ONES, data) ^ CRC64_ONES
}

/// The FNV-1a hash of `data`.
pub open spec fn fnv1a_of(data: Seq<u8>) -> u64
    decreases data.len(),
{
    if data.len() == 0 {
        FNV_OFFSET
    } else {
        u64::wrapping_mul(fnv1a_of(data.drop_last()) ^ (data.last() as u64), FNV_PRIME)
    }
}

/// Feeding two pieces one after the other is feeding them joined.
pub proof fn law_crc64_incremental(crc: u64, a: Seq<u8>, b: Seq<u8>)
    ensures
        crc64_state(crc, a + b) == crc64_state(crc64_state(crc, a), b),
    decreases b.len(),
{
    if b.len() == 0 {
        assert(a + b =~= a);
    } else {
        law_crc64_incremental(crc, a, b.drop_last());
        assert((a + b).drop_last() =~= a + b.drop_last());
    }
}

/// The checksum of an object, taken piece by piece.
pub struct Crc64Ecma {
    crc: u64,
}

impl Crc64Ecma {
    /// The internal state of the division.
    pub closed spec fn state(&self) -> u64 {
        self.crc
    }

    /// The bytes of `data` have been taken so far.
    pub open spec fn covers(&self, data: Seq<u8>) -> bool {
        self.state() == crc64_state(CRC64_ONES, data)
    }

    /// A checksum of nothing yet.
    pub fn new() -> (r: Self)
        ensures
            r.state() == CRC64_ONES,
            r.covers(Seq::<u8>::empty()),
    {
        Crc64Ecma { crc: CRC64_ONES }
    }

    /// Takes the next piece.
    pub fn update(&mut self, data: &[u8])
        ensures
            final(self).state() == crc64_state(old(self).state(), data@),
            forall|before: Seq<u8>|
                #![trigger old(self).covers(before)]
                old(self).covers(before) ==> final(self).covers(before + data@),
    {
        let ghost start = self.crc;
        let mut i: usize = 0;
        proof {
            assert(data@.subrange(0, 0) =~= Seq::<u8>::empty());
        }
        while i < data.len()
            invariant
                i <= data@.len(),
                self.crc == crc64_state(start, data@.subrange(0, i as int)),
            decreases data.len() - i,
        {
            proof {
                let upto = data@.subrange(0, i + 1);
                assert(upto.drop_last() =~= data@.subrange(0, i as int));
                assert(upto.last() == data@[i as int]);
            }
            let mut crc: u64 = self.crc ^ (data[i] as u64);
            let ghost first = crc;
            let mut k: u64 = 0;
            while k < 8
                invariant
                    k <= 8,
                    crc == crc64_bits(first, k as nat),
                decreases 8 - k,
            {
                let feed: u64 = if crc & 1 == 1 {
                    CRC64_POLY
                } else {
                    0
                };
                crc = (crc >> 1) ^ feed;
                k = k + 1;
            }
            self.crc = crc;
            i = i + 1;
        }
        proof {
            assert(data@.subrange(0, data@.len() as int) =~= data@);
            assert forall|before: Seq<u8>|
                #![trigger old(self).covers(before)]
                old(self).covers(before) implies self.covers(before + data@) by {
                law_crc64_incremental(CRC64_ONES, before, data@);
            }
        }
    }

    /// The checksum of what was taken.
    pub fn finalize(self) -> (r: u64)
        ensures
            r == self.state() ^ CRC64_ONES,
            forall|data: Seq<u8>|
                #![trigger self.covers(data)]
                self.covers(data) ==> r == crc64_of(data),
    {
        self.crc ^ CRC64_ONES
    }
}

/// The CRC-64/ECMA-182 checksum of the data.
pub fn crc64ecma(data: &[u8]) -> (r: u64)
    ensures
        r == crc64_of(data@),
{
    let mut c = Crc64Ecma::new();
    assert(c.covers(Seq::<u8>::empty()));
    c.update(data);
    assert(Seq::<u8>::empty() + data@ =~= data@);
    assert(c.covers(data@));
    c.finalize()
}

/// The FNV-1a hash of the bytes.
pub fn fnv1a_bytes(data: &[u8]) -> (r: u64)
    ensures
        r == fnv1a_of(data@),
{
    let mut hash: u64 = FNV_OFFSET;
    let mut i: usize = 0;
    proof {
        assert(data@.subrange(0, 0) =~= Seq::<u8>::empty());
    }
    while i < data.len()
        invariant
            i <= data@.len(),
            hash == fnv1a_of(data@.subrange(0, i as int)),
        decreases data.len() - i,
    {
        proof {
            let upto = data@.subrange(0, i + 1);
            assert(upto.drop_last() =~= data@.subrange(0, i as int));
            assert(upto.last() == data@[i as int]);
        }
        hash = (hash ^ (data[i] as u64)).wrapping_mul(FNV_PRIME);
        i = i + 1;
    }
    proof {
        assert(data@.subrange(0, data@.len() as int) =~= data@);
    }
    hash
}

/// The FNV-1a hash of a key.
pub fn fnv1a64(s: &str) -> (r: u64)
    ensures
        r == fnv1a_of(encode_utf8(s@)),
{
    fnv1a_bytes(s.as_bytes())
}

/// The inode of the root directory.
pub const ROOT_INODE: u64 = 1;

/// The inode of a path: one for the root, for any other path its hash, made
/// odd, or two where that would be the root's.
pub open spec fn inode_of(path: Seq<char>) -> u64 {
    if path == seq!['/'] {
        ROOT_INODE
    } else {
        let hash = fnv1a_of(encode_utf8(path));
        if hash | 1 == ROOT_INODE {
            2
        } else {
            hash | 1
        }
    }
}

/// The inode of a path.
pub fn inode_for_path(path: &str) -> (r: u64)
    ensures
        r == inode_of(path@),
{
    if path.unicode_len() == 1 && path.get_char(0) == '/' {
        proof {
            assert(path@ =~= seq!['/']);
        }
        return ROOT_INODE;
    }
    let odd: u64 = fnv1a64(path) | 1;
    if odd == ROOT_INODE {
        2
    } else {
        odd
    }
}

/// No path has the inode zero, and none but the root has the root's.
pub proof fn law_inode_not_reserved(path: Seq<char>)
    ensures
        inode_of(path) != 0,
        inode_of(path) == ROOT_INODE <==> path == seq!['/'],
{
    let hash = fnv1a_of(encode_utf8(path));
    assert(hash | 1 != 0) by (bit_vector);
}

/// The start value of the index of a path in a directory buffer.
pub const INDEX_SEED: u64 = 0x9E37_79B9;

/// The index of a path: its bytes as digits in base 31.
pub open spec fn index_of(data: Seq<u8>) -> u64
    decreases data.len(),
{
    if data.len() == 0 {
        INDEX_SEED
    } else {
        u64::wrapping_add(u64::wrapping_mul(index_of(data.drop_last()), 31), data.last() as u64)
    }
}

/// The index of a path.
pub fn file_index(path: &str) -> (r: u64)
    ensures
        r == index_of(encode_utf8(path@)),
{
    let data = path.as_bytes();
    let mut acc: u64 = INDEX_SEED;
    let mut i: usize = 0;
    proof {
        assert(data@.subrange(0, 0) =~= Seq::<u8>::empty());
    }
    while i < data.len()
        invariant
            i <= data@.len(),
            acc == index_of(data@.subrange(0, i as int)),
        decreases data.len() - i,
    {
        proof {
            let upto = data@.subrange(0, i + 1);
            assert(upto.drop_last() =~= data@.subrange(0, i as int));
            assert(upto.last() == data@[i as int]);
        }
        acc = acc.wrapping_mul(31).wrapping_add(data[i] as u64);
        i = i + 1;
    }
    proof {
        assert(data@.subrange(0, data@.len() as int) =~= data@);
    }
    acc
}

/// Two hexadecimal digits for each byte.
pub open spec fn hex_of(data: Seq<u8>) -> Seq<char>
    decreases data.len(),
{
    if data.len() == 0 {
        Seq::empty()
    } else {
        hex_of(data.drop_last()).push(digit_char(data.last() as int / 16)).push(
            digit_char(data.last() as int % 16),
        )
    }
}

/// The bytes that pairs of hexadecimal digits denote, if all are digits.
pub open spec fn unhex(digits: Seq<u8>) -> Option<Seq<u8>>
    decreases digits.len(),
{
    if digits.len() == 0 {
        Some(Seq::empty())
    } else if digits.len() == 1 {
        None
    } else {
        let n = digits.len() as int;
        match (unhex(digits.subrange(0, n - 2)), hex_digit(digits[n - 2] as char), hex_digit(
            digits[n - 1] as char,
        )) {
            (Some(head), Some(hi), Some(lo)) => Some(head.push((hi * 16 + lo) as u8)),
            _ => None,
        }
    }
}

/// The text whose bytes `digits` denotes in hexadecimal, if it is valid.
pub open spec fn unhex_text(digits: Seq<char>) -> Option<Seq<char>> {
    match unhex(encode_utf8(digits)) {
        Some(bytes) => if valid_utf8(bytes) {
            Some(decode_utf8(bytes))
        } else {
            None
        },
        None => None,
    }
}

/// The bytes of a key in hexadecimal.
pub fn hex_encode(s: &str) -> (r: String)
    ensures
        r@ == hex_of(encode_utf8(s@)),
{
    let data = s.as_bytes();
    let mut r = String::new();
    let mut i: usize = 0;
    proof {
        assert(data@.subrange(0, 0) =~= Seq::<u8>::empty());
    }
    while i < data.len()
        invariant
            i <= data@.len(),
            r@ == hex_of(data@.subrange(0, i as int)),
        decreases data.len() - i,
    {
        proof {
            let upto = data@.subrange(0, i + 1);
            assert(upto.drop_last() =~= data@.subrange(0, i as int));
            assert(upto.last() == data@[i as int]);
        }
        let b: u64 = data[i] as u64;
        r.push(to_digit_char(b / 16));
        r.push(to_digit_char(b % 16));
        i = i + 1;
    }
    proof {
        assert(data@.subrange(0, data@.len() as int) =~= data@);
    }
    r
}

/// `String::from_utf8` accepts exactly the valid UTF-8 sequences and returns
/// the text that they encode.
#[verifier::external_body]
fn utf8_text(bytes: Vec<u8>) -> (r: Option<String>)
    ensures
        r is Some <==> valid_utf8(bytes@),
        r matches Some(t) ==> t@ == decode_utf8(bytes@),
{
    String::from_utf8(bytes).ok()
}

/// The hexadecimal digit that a byte is, read as a character.
fn byte_digit(b: u8) -> (d: Option<u8>)
    ensures
        d == hex_digit(b as char),
{
    from_hex_digit(b as char)
}

proof fn lemma_unhex_prefix(digits: Seq<u8>, i: int)
    requires
        0 <= i <= digits.len(),
        i % 2 == 0,
        digits.len() % 2 == 0,
        unhex(digits.subrange(0, i)) is None,
    ensures
        unhex(digits) is None,
    decreases digits.len(),
{
    if i == digits.len() {
        assert(digits.subrange(0, i) =~= digits);
    } else {
        let t = digits.subrange(0, digits.len() - 2);
        assert(t.subrange(0, i) =~= digits.subrange(0, i));
        lemma_unhex_prefix(t, i);
    }
}

proof fn lemma_unhex_even(digits: Seq<u8>)
    requires
        digits.len() % 2 == 1,
    ensures
        unhex(digits) is None,
    decreases digits.len(),
{
    if digits.len() > 1 {
        lemma_unhex_even(digits.subrange(0, digits.len() - 2));
    }
}

/// The key that hexadecimal digits denote: an even number of digits that
/// encode valid text.
pub fn hex_decode(s: &str) -> (r: Option<String>)
    ensures
        r is Some <==> unhex_text(s@) is Some,
        r matches Some(t) ==> Some(t@) == unhex_text(s@),
{
    let digits = s.as_bytes();
    if digits.len() % 2 != 0 {
        proof {
            lemma_unhex_even(digits@);
        }
        return None;
    }
    let mut out: Vec<u8> = Vec::new();
    let mut i: usize = 0;
    proof {
        assert(digits@.subrange(0, 0) =~= Seq::<u8>::empty());
        assert(out@ =~= Seq::<u8>::empty());
    }
    while i < digits.len()
        invariant
            i <= digits@.len(),
            i % 2 == 0,
            digits@.len() % 2 == 0,
            digits@ == encode_utf8(s@),
            unhex(digits@.subrange(0, i as int)) == Some(out@),
        decreases digits.len() - i,
    {
        proof {
            let upto = digits@.subrange(0, i + 2);
            assert(upto.subrange(0, upto.len() - 2) =~= digits@.subrange(0, i as int));
            assert(upto[i as int] == digits@[i as int]);
            assert(upto[i + 1] == digits@[i + 1]);
            assert(unhex(upto) is None ==> unhex(digits@) is None) by {
                if unhex(upto) is None {
                    lemma_unhex_prefix(digits@, i + 2);
                }
            }
        }
        match (byte_digit(digits[i]), byte_digit(digits[i + 1])) {
            (Some(hi), Some(lo)) => {
                out.push(hi * 16 + lo);
            },
            _ => {
                return None;
            },
        }
        i = i + 2;
    }
    proof {
        assert(digits@.subrange(0, digits@.len() as int) =~= digits@);
    }
    utf8_text(out)
}

proof fn lemma_hex_of_ascii(data: Seq<u8>)
    ensures
        hex_of(data).len() == 2 * data.len(),
        is_ascii_chars(hex_of(data)),
    decreases data.len(),
{
    if data.len() > 0 {
        lemma_hex_of_ascii(data.drop_last());
    }
}

proof fn lemma_unhex_hex_of(data: Seq<u8>)
    ensures
        unhex(Seq::new(hex_of(data).len(), |i: int| hex_of(data)[i] as u8)) == Some(data),
    decreases data.len(),
{
    lemma_hex_of_ascii(data);
    let chars = hex_of(data);
    let digits = Seq::new(chars.len(), |i: int| chars[i] as u8);
    if data.len() == 0 {
        assert(data =~= Seq::<u8>::empty());
    } else {
        let head = data.drop_last();
        lemma_hex_of_ascii(head);
        lemma_unhex_hex_of(head);
        let hc = hex_of(head);
        let n = digits.len() as int;
        assert(digits.subrange(0, n - 2) =~= Seq::new(hc.len(), |i: int| hc[i] as u8));
        let b = data.last() as int;
        assert(chars[n - 2] == digit_char(b / 16));
        assert(chars[n - 1] == digit_char(b % 16));
        assert(hex_digit(chars[n - 2]) == Some((b / 16) as u8));
        assert(hex_digit(chars[n - 1]) == Some((b % 16) as u8));
        assert(digits[n - 2] as char == chars[n - 2]);
        assert(digits[n - 1] as char == chars[n - 1]);
        assert(data =~= head.push(data.last()));
    }
}

/// Decoding the hexadecimal form of a key gives the key back.
pub proof fn law_hex_roundtrip(key: Seq<char>)
    ensures
        unhex_text(hex_of(encode_utf8(key))) == Some(key),
{
    let data = encode_utf8(key);
    lemma_hex_of_ascii(data);
    is_ascii_chars_encode_utf8(hex_of(data));
    lemma_unhex_hex_of(data);
    assert(encode_utf8(hex_of(data)) =~= Seq::new(hex_of(data).len(), |i: int| hex_of(data)[i] as u8));
    encode_utf8_valid_utf8(key);
    encode_utf8_decode_utf8(key);
}

/// The MD5 digest of `data`, as `md5::Md5::digest` computes it.
pub uninterp spec fn md5_of(data: Seq<u8>) -> Seq<u8>;

/// `md5::Md5::digest` returns the sixteen bytes of the MD5 digest of its input.
#[verifier::external_body]
fn md5_digest(data: &[u8]) -> (r: Vec<u8>)
    ensures
        r@ == md5_of(data@),
        r@.len() == 16,
{
    md5::Md5::digest(data).to_vec()
}

/// The character for a six-bit value in the standard base64 alphabet.
pub open spec fn base64_char(v: int) -> char {
    if v < 26 {
        ('A' as int + v) as char
    } else if v < 52 {
        ('a' as int + (v - 26)) as char
    } else if v < 62 {
        ('0' as int + (v - 52)) as char
    } else if v == 62 {
        '+'
    } else {
        '/'
    }
}

/// The standard base64 notation with padding: four characters for each group
/// of three bytes, the last group filled up with `=`.
pub open spec fn base64_of(data: Seq<u8>) -> Seq<char>
    decreases data.len(),
{
    let n = data.len() as int;
    if n == 0 {
        Seq::empty()
    } else {
        let b0 = data[0] as int;
        let b1 = if n > 1 { data[1] as int } else { 0 };
        let b2 = if n > 2 { data[2] as int } else { 0 };
        let group = seq![
            base64_char(b0 / 4),
            base64_char((b0 % 4) * 16 + b1 / 16),
            if n > 1 { base64_char((b1 % 16) * 4 + b2 / 64) } else { '=' },
            if n > 2 { base64_char(b2 % 64) } else { '=' },
        ];
        if n <= 3 {
            group
        } else {
            group + base64_of(data.subrange(3, n))
        }
    }
}

/// `base64::engine::general_purpose::STANDARD.encode` writes its input in the
/// standard alphabet, with padding. It panics where the length of the result
/// does not fit, which the bound leaves out.
#[verifier::external_body]
fn base64_text(data: &[u8]) -> (r: String)
    requires
        data@.len() <= usize::MAX / 4,
    ensures
        r@ == base64_of(data@),
{
    base64::engine::general_purpose::STANDARD.encode(data)
}

/// The value of the `Content-MD5` header for a body: its MD5 digest in base64.
pub fn content_md5(data: &[u8]) -> (r: String)
    ensures
        r@ == base64_of(md5_of(data@)),
{
    let digest = md5_digest(data);
    base64_text(digest.as_slice())
}

/// What became of comparing the checksum that the store reports for an upload
/// with the one taken locally.
#[derive(Clone, Copy, PartialEq, Eq, Structural, Debug)]
pub enum CrcCheck {
    Match,
    Mismatch { actual: u64 },
    Missing,
}

/// How the checksum reported by the store compares to the expected one.
pub open spec fn crc_check(reported: Option<u64>, expected: u64) -> CrcCheck {
    match reported {
        Some(actual) => if actual == expected {
            CrcCheck::Match
        } else {
            CrcCheck::Mismatch { actual }
        },
        None => CrcCheck::Missing,
    }
}

/// The checksum of content that is checked in pieces is that of the whole.
pub proof fn law_crc64_of_pieces(a: Seq<u8>, b: Seq<u8>)
    ensures
        crc64_of(a + b) == crc64_state(crc64_state(0xFFFF_FFFF_FFFF_FFFF, a), b) ^ 0xFFFF_FFFF_FFFF_FFFF,
        crc64_of(Seq::empty()) == 0,
{
    law_crc64_incremental(CRC64_ONES, a, b);
    assert(0xFFFF_FFFF_FFFF_FFFFu64 ^ 0xFFFF_FFFF_FFFF_FFFF == 0) by (bit_vector);
}

proof fn lemma_bits_apart(a: u64, b: u64, n: nat)
    requires
        a != b,
    ensures
        crc64_bits(a, n) != crc64_bits(b, n),
    decreases n,
{
    if n > 0 {
        let m = (n - 1) as nat;
        lemma_bits_apart(a, b, m);
        let x = crc64_bits(a, m);
        let y = crc64_bits(b, m);
        assert(x != y ==> ((x >> 1) ^ (if x & 1 == 1 {
            0xC96C_5795_D787_0F42u64
        } else {
            0
        })) != ((y >> 1) ^ (if y & 1 == 1 {
            0xC96C_5795_D787_0F42u64
        } else {
            0
        }))) by (bit_vector);
    }
}

proof fn lemma_states_apart(a: u64, b: u64, data: Seq<u8>)
    requires
        a != b,
    ensures
        crc64_state(a, data) != crc64_state(b, data),
    decreases data.len(),
{
    if data.len() > 0 {
        lemma_states_apart(a, b, data.drop_last());
        let x = crc64_state(a, data.drop_last());
        let y = crc64_state(b, data.drop_last());
        let z = data.last() as u64;
        assert(x != y ==> x ^ z != y ^ z) by (bit_vector);
        lemma_bits_apart(x ^ z, y ^ z, 8);
    }
}

/// Content that differs in a single byte, wherever that is, has another
/// checksum.
pub proof fn law_crc64_detects(head: Seq<u8>, a: u8, b: u8, tail: Seq<u8>)
    requires
        a != b,
    ensures
        crc64_of(head + seq![a] + tail) != crc64_of(head + seq![b] + tail),
{
    let s = head + seq![a];
    let t = head + seq![b];
    law_crc64_incremental(CRC64_ONES, s, tail);
    law_crc64_incremental(CRC64_ONES, t, tail);
    assert(s.drop_last() =~= head && t.drop_last() =~= head);
    let x = crc64_state(CRC64_ONES, head);
    let p = a as u64;
    let q = b as u64;
    assert(p != q ==> x ^ p != x ^ q) by (bit_vector);
    lemma_bits_apart(x ^ p, x ^ q, 8);
    lemma_states_apart(crc64_state(CRC64_ONES, s), crc64_state(CRC64_ONES, t), tail);
    let u = crc64_state(CRC64_ONES, s + tail);
    let v = crc64_state(CRC64_ONES, t + tail);
    assert(u != v ==> u ^ 0xFFFF_FFFF_FFFF_FFFF != v ^ 0xFFFF_FFFF_FFFF_FFFF) by (bit_vector);
}

/// A checksum that the store reports is the one expected or another, and where
/// it reports none nothing is known.
pub proof fn law_crc_check(expected: u64, other: u64)
    requires
        other != expected,
    ensures
        crc_check(Some(expected), expected) == CrcCheck::Match,
        crc_check(Some(other), expected) == (CrcCheck::Mismatch { actual: other }),
        crc_check(None, expected) == CrcCheck::Missing,
{
}

/// The hash of a text goes on with each byte of it, so that texts that differ in
/// their last byte alone have different hashes.
pub proof fn law_fnv_step(data: Seq<u8>, b: u8)
    ensures
        fnv1a_of(Seq::empty()) == 0xcbf2_9ce4_8422_2325,
        fnv1a_of(data.push(b)) == u64::wrapping_mul(fnv1a_of(data) ^ (b as u64), 0x100_0000_01b3),
        index_of(Seq::empty()) == 0x9E37_79B9,
        index_of(data.push(b)) == u64::wrapping_add(u64::wrapping_mul(index_of(data), 31), b as u64),
{
    assert(data.push(b).drop_last() =~= data);
}

/// What is no hexadecimal text of bytes is not taken for one.
pub proof fn law_unhex_rejects(head: Seq<u8>, a: u8, b: u8)
    ensures
        unhex(seq![a]) is None,
        unhex(Seq::empty()) == Some(Seq::<u8>::empty()),
        hex_digit(a as char) is None || hex_digit(b as char) is None || unhex(head) is None ==> unhex(
            head.push(a).push(b),
        ) is None,
        (hex_digit(a as char) matches Some(hi) && hex_digit(b as char) matches Some(lo) && unhex(head) is Some) ==> unhex(
            head.push(a).push(b),
        ) == Some(unhex(head)->0.push((hex_digit(a as char)->0 * 16 + hex_digit(b as char)->0) as u8)),
{
    let all = head.push(a).push(b);
    assert(all.subrange(0, all.len() - 2) =~= head);
}

/// The number of a path is its hash, made odd; only where that would be the
/// root's it is two.
pub proof fn law_inode_is_hash(path: Seq<char>)
    requires
        path != seq!['/'],
    ensures
        fnv1a_of(encode_utf8(path)) | 1 != 1 ==> inode_of(path) == fnv1a_of(encode_utf8(path)) | 1,
        fnv1a_of(encode_utf8(path)) | 1 == 1 ==> inode_of(path) == 2,
        inode_of(seq!['/']) == 1,
{
}

} // verus!
