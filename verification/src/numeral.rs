//! Notations for numbers: decimal and hexadecimal text, little-endian bytes
//! and UTF-16 code units.

use vstd::prelude::*;
use vstd::string::*;

use crate::text::{tail_from, to_chars};

verus! {

/// The digit `d` as a character.
pub open spec fn digit_char(d: int) -> char {
    if d == 0 {
        '0'
    } else if d == 1 {
        '1'
    } else if d == 2 {
        '2'
    } else if d == 3 {
        '3'
    } else if d == 4 {
        '4'
    } else if d == 5 {
        '5'
    } else if d == 6 {
        '6'
    } else if d == 7 {
        '7'
    } else if d == 8 {
        '8'
    } else if d == 9 {
        '9'
    } else if d == 10 {
        'a'
    } else if d == 11 {
        'b'
    } else if d == 12 {
        'c'
    } else if d == 13 {
        'd'
    } else if d == 14 {
        'e'
    } else {
        'f'
    }
}

/// The value of a hexadecimal digit, in either case.
pub open spec fn hex_digit(c: char) -> Option<u8> {
    if '0' <= c <= '9' {
        Some((c as int - '0' as int) as u8)
    } else if 'a' <= c <= 'f' {
        Some((c as int - 'a' as int + 10) as u8)
    } else if 'A' <= c <= 'F' {
        Some((c as int - 'A' as int + 10) as u8)
    } else {
        None
    }
}

/// `n` in decimal notation, without leading zeros.
pub open spec fn decimal(n: nat) -> Seq<char>
    decreases n,
{
    if n < 10 {
        seq![digit_char(n as int)]
    } else {
        decimal(n / 10).push(digit_char((n % 10) as int))
    }
}

/// The value of a digit sequence read in decimal.
pub open spec fn decimal_value(s: Seq<char>) -> nat
    decreases s.len(),
{
    if s.len() == 0 {
        0
    } else {
        decimal_value(s.drop_last()) * 10 + (s.last() as int - '0' as int) as nat
    }
}

/// Every character is an ASCII digit.
pub open spec fn all_digits(s: Seq<char>) -> bool {
    forall|i: int| 0 <= i < s.len() ==> '0' <= #[trigger] s[i] <= '9'
}

/// A number as it is written: behind an optional plus sign.
pub open spec fn without_plus(s: Seq<char>) -> Seq<char> {
    if s.len() > 0 && s[0] == '+' {
        tail_from(s, 1)
    } else {
        s
    }
}

/// The unsigned 64-bit number that `s` denotes: at least one digit, behind an
/// optional plus sign, and no more than 64 bits.
pub open spec fn parse_u64(s: Seq<char>) -> Option<u64> {
    let digits = without_plus(s);
    if digits.len() > 0 && all_digits(digits) && decimal_value(digits) <= u64::MAX {
        Some(decimal_value(digits) as u64)
    } else {
        None
    }
}

/// `n` in hexadecimal notation, without leading zeros.
pub open spec fn hexadecimal(n: nat) -> Seq<char>
    decreases n,
{
    if n < 16 {
        seq![digit_char(n as int)]
    } else {
        hexadecimal(n / 16).push(digit_char((n % 16) as int))
    }
}

/// `s` filled up on the left with zeros to at least `width` characters.
pub open spec fn zero_padded(s: Seq<char>, width: nat) -> Seq<char> {
    if s.len() < width {
        Seq::new((width - s.len()) as nat, |i: int| '0') + s
    } else {
        s
    }
}

/// The value of a sequence of hexadecimal digits.
pub open spec fn hex_value(s: Seq<char>) -> nat
    decreases s.len(),
{
    if s.len() == 0 {
        0
    } else {
        hex_value(s.drop_last()) * 16 + hex_digit(s.last())->0 as nat
    }
}

/// Every character is a hexadecimal digit.
pub open spec fn all_hex(s: Seq<char>) -> bool {
    forall|i: int| 0 <= i < s.len() ==> hex_digit(#[trigger] s[i]) is Some
}

/// The unsigned 64-bit number that `s` denotes in hexadecimal, behind an
/// optional plus sign.
pub open spec fn parse_hex_u64(s: Seq<char>) -> Option<u64> {
    let digits = without_plus(s);
    if digits.len() > 0 && all_hex(digits) && hex_value(digits) <= u64::MAX {
        Some(hex_value(digits) as u64)
    } else {
        None
    }
}

/// The last `width` bytes of `n`, least significant first.
pub open spec fn le_bytes(n: nat, width: nat) -> Seq<u8>
    decreases width,
{
    if width == 0 {
        Seq::empty()
    } else {
        seq![(n % 256) as u8] + le_bytes(n / 256, (width - 1) as nat)
    }
}

/// The number that bytes denote, least significant first.
pub open spec fn le_value(s: Seq<u8>) -> nat
    decreases s.len(),
{
    if s.len() == 0 {
        0
    } else {
        s[0] as nat + 256 * le_value(s.subrange(1, s.len() as int))
    }
}

/// The UTF-16 code units of one character: the code point itself, or a pair
/// of surrogates where it takes more than 16 bits.
pub open spec fn utf16_char(c: char) -> Seq<u16> {
    if (c as int) < 0x1_0000 {
        seq![c as u16]
    } else {
        seq![
            (0xd800 + (c as int - 0x1_0000) / 0x400) as u16,
            (0xdc00 + (c as int - 0x1_0000) % 0x400) as u16,
        ]
    }
}

/// The UTF-16 code units of a text.
pub open spec fn utf16(s: Seq<char>) -> Seq<u16>
    decreases s.len(),
{
    if s.len() == 0 {
        Seq::empty()
    } else {
        utf16(s.drop_last()) + utf16_char(s.last())
    }
}

/// The code point of a character.
pub fn code_point(c: char) -> (n: u32)
    ensures
        n as int == c as int,
{
    c as u32
}

/// The digit `d` below sixteen as a character.
pub fn to_digit_char(d: u64) -> (c: char)
    requires
        d < 16,
    ensures
        c == digit_char(d as int),
{
    if d == 0 {
        '0'
    } else if d == 1 {
        '1'
    } else if d == 2 {
        '2'
    } else if d == 3 {
        '3'
    } else if d == 4 {
        '4'
    } else if d == 5 {
        '5'
    } else if d == 6 {
        '6'
    } else if d == 7 {
        '7'
    } else if d == 8 {
        '8'
    } else if d == 9 {
        '9'
    } else if d == 10 {
        'a'
    } else if d == 11 {
        'b'
    } else if d == 12 {
        'c'
    } else if d == 13 {
        'd'
    } else if d == 14 {
        'e'
    } else {
        'f'
    }
}

/// The value of a hexadecimal digit, in either case.
pub fn from_hex_digit(c: char) -> (d: Option<u8>)
    ensures
        d == hex_digit(c),
{
    let n: u32 = code_point(c);
    if 48 <= n && n <= 57 {
        Some((n - 48) as u8)
    } else if 97 <= n && n <= 102 {
        Some((n - 97 + 10) as u8)
    } else if 65 <= n && n <= 70 {
        Some((n - 65 + 10) as u8)
    } else {
        None
    }
}

/// A number in decimal notation.
pub fn decimal_text(n: u64) -> (r: String)
    ensures
        r@ == decimal(n as nat),
    decreases n,
{
    let mut r = if n < 10 {
        String::new()
    } else {
        decimal_text(n / 10)
    };
    r.push(to_digit_char(n % 10));
    proof {
        assert(n < 10 ==> Seq::<char>::empty().push(digit_char(n as int)) =~= seq![
            digit_char(n as int),
        ]);
    }
    r
}

/// A number in hexadecimal notation, filled up with zeros to `width`.
pub fn hex_text(n: u64, width: usize) -> (r: String)
    ensures
        r@ == zero_padded(hexadecimal(n as nat), width as nat),
{
    let digits = hex_digits(n);
    let len: usize = digits.as_str().unicode_len();
    let mut r = String::new();
    let mut i: usize = len;
    while i < width
        invariant
            len <= i,
            i == len || i <= width,
            r@ == Seq::new((i - len) as nat, |k: int| '0'),
        decreases width - i,
    {
        r.push('0');
        i = i + 1;
        proof {
            assert(Seq::new((i - 1 - len) as nat, |k: int| '0').push('0') =~= Seq::new(
                (i - len) as nat,
                |k: int| '0',
            ));
        }
    }
    r.append(digits.as_str());
    proof {
        if len >= width {
            assert(r@ =~= digits@);
        } else {
            assert(r@ =~= zero_padded(digits@, width as nat));
        }
    }
    r
}

fn hex_digits(n: u64) -> (r: String)
    ensures
        r@ == hexadecimal(n as nat),
    decreases n,
{
    let mut r = if n < 16 {
        String::new()
    } else {
        hex_digits(n / 16)
    };
    r.push(to_digit_char(n % 16));
    proof {
        assert(n < 16 ==> Seq::<char>::empty().push(digit_char(n as int)) =~= seq![
            digit_char(n as int),
        ]);
    }
    r
}

proof fn lemma_decimal_value_monotone(s: Seq<char>, i: int)
    requires
        0 <= i <= s.len(),
    ensures
        decimal_value(s.subrange(0, i)) <= decimal_value(s),
    decreases s.len() - i,
{
    if i == s.len() {
        assert(s.subrange(0, i) =~= s);
    } else {
        lemma_decimal_value_monotone(s, i + 1);
        assert(s.subrange(0, i + 1).drop_last() =~= s.subrange(0, i));
    }
}

proof fn lemma_hex_value_monotone(s: Seq<char>, i: int)
    requires
        0 <= i <= s.len(),
    ensures
        hex_value(s.subrange(0, i)) <= hex_value(s),
    decreases s.len() - i,
{
    if i == s.len() {
        assert(s.subrange(0, i) =~= s);
    } else {
        lemma_hex_value_monotone(s, i + 1);
        assert(s.subrange(0, i + 1).drop_last() =~= s.subrange(0, i));
    }
}

/// The unsigned 64-bit number that the text denotes in decimal.
pub fn parse_number(s: &str) -> (r: Option<u64>)
    ensures
        r == parse_u64(s@),
{
    let chars = to_chars(s);
    let start: usize = if chars.len() > 0 && chars[0] == '+' {
        1
    } else {
        0
    };
    let ghost digits = without_plus(s@);
    proof {
        assert(digits =~= tail_from(s@, start as int));
    }
    if start == chars.len() {
        return None;
    }
    let mut v: u64 = 0;
    let mut i: usize = start;
    proof {
        assert(digits.subrange(0, 0) =~= Seq::<char>::empty());
    }
    while i < chars.len()
        invariant
            start <= i <= chars@.len(),
            start <= 1,
            chars@ == s@,
            digits == tail_from(s@, start as int),
            digits == without_plus(s@),
            digits.len() > 0,
            v == decimal_value(digits.subrange(0, i - start)),
            forall|k: int| 0 <= k < i - start ==> '0' <= #[trigger] digits[k] <= '9',
        decreases chars.len() - i,
    {
        let c = chars[i];
        proof {
            assert(digits[i - start] == c);
        }
        let n: u32 = code_point(c);
        if n < 48 || n > 57 {
            return None;
        }
        let d: u64 = (n - 48) as u64;
        proof {
            let before = digits.subrange(0, i - start);
            let upto = digits.subrange(0, i - start + 1);
            assert(upto.drop_last() =~= before);
            assert(upto.last() == c);
            lemma_decimal_value_monotone(digits, i - start + 1);
        }
        if v > u64::MAX / 10 {
            return None;
        }
        let w: u64 = v * 10;
        if w > u64::MAX - d {
            return None;
        }
        v = w + d;
        i = i + 1;
    }
    proof {
        assert(digits.subrange(0, digits.len() as int) =~= digits);
    }
    Some(v)
}

/// The unsigned 64-bit number that the text denotes in hexadecimal.
pub fn parse_hex_number(s: &str) -> (r: Option<u64>)
    ensures
        r == parse_hex_u64(s@),
{
    let chars = to_chars(s);
    let start: usize = if chars.len() > 0 && chars[0] == '+' {
        1
    } else {
        0
    };
    let ghost digits = without_plus(s@);
    proof {
        assert(digits =~= tail_from(s@, start as int));
    }
    if start == chars.len() {
        return None;
    }
    let mut v: u64 = 0;
    let mut i: usize = start;
    proof {
        assert(digits.subrange(0, 0) =~= Seq::<char>::empty());
    }
    while i < chars.len()
        invariant
            start <= i <= chars@.len(),
            start <= 1,
            chars@ == s@,
            digits == tail_from(s@, start as int),
            digits == without_plus(s@),
            digits.len() > 0,
            v == hex_value(digits.subrange(0, i - start)),
            forall|k: int| 0 <= k < i - start ==> hex_digit(#[trigger] digits[k]) is Some,
        decreases chars.len() - i,
    {
        let c = chars[i];
        proof {
            assert(digits[i - start] == c);
        }
        match from_hex_digit(c) {
            None => {
                return None;
            },
            Some(digit) => {
                let d: u64 = digit as u64;
                proof {
                    let before = digits.subrange(0, i - start);
                    let upto = digits.subrange(0, i - start + 1);
                    assert(upto.drop_last() =~= before);
                    assert(upto.last() == c);
                    lemma_hex_value_monotone(digits, i - start + 1);
                }
                if v > u64::MAX / 16 {
                    return None;
                }
                let w: u64 = v * 16;
                if w > u64::MAX - d {
                    return None;
                }
                v = w + d;
            },
        }
        i = i + 1;
    }
    proof {
        assert(digits.subrange(0, digits.len() as int) =~= digits);
    }
    Some(v)
}

/// The `width` lowest bytes of a number, least significant first.
pub fn to_le_bytes(n: u64, width: usize) -> (r: Vec<u8>)
    requires
        width <= 8,
    ensures
        r@ == le_bytes(n as nat, width as nat),
{
    let mut r: Vec<u8> = Vec::new();
    let mut rest: u64 = n;
    let mut i: usize = 0;
    proof {
        assert(r@ + le_bytes(n as nat, width as nat) =~= le_bytes(n as nat, width as nat));
    }
    while i < width
        invariant
            i <= width <= 8,
            r@ + le_bytes(rest as nat, (width - i) as nat) == le_bytes(n as nat, width as nat),
        decreases width - i,
    {
        let b: u8 = (rest % 256) as u8;
        proof {
            let tail = le_bytes(rest as nat / 256, (width - i - 1) as nat);
            assert(r@ + (seq![b] + tail) =~= r@.push(b) + tail);
        }
        r.push(b);
        rest = rest / 256;
        i = i + 1;
    }
    proof {
        assert(r@ + Seq::<u8>::empty() =~= r@);
    }
    r
}

/// The number in the four bytes from position `at`.
pub fn le_u32_at(s: &[u8], at: usize) -> (r: u32)
    requires
        at + 4 <= s@.len(),
    ensures
        r as nat == le_value(s@.subrange(at as int, at + 4)),
{
    let r: u32 = s[at] as u32 + 256 * (s[at + 1] as u32) + 0x1_0000 * (s[at + 2] as u32)
        + 0x100_0000 * (s[at + 3] as u32);
    proof {
        reveal_with_fuel(le_value, 5);
        let t = s@.subrange(at as int, at + 4);
        let t1 = t.subrange(1, 4);
        let t2 = t1.subrange(1, 3);
        let t3 = t2.subrange(1, 2);
        let t4 = t3.subrange(1, 1);
        assert(t4.len() == 0);
        assert(le_value(t) == t[0] as nat + 256 * (t1[0] as nat + 256 * (t2[0] as nat + 256 * (
        t3[0] as nat))));
    }
    r
}

/// The number in the eight bytes from position `at`.
pub fn le_u64_at(s: &[u8], at: usize) -> (r: u64)
    requires
        at + 8 <= s@.len(),
    ensures
        r as nat == le_value(s@.subrange(at as int, at + 8)),
{
    let len: usize = s.len();
    assert(at + 8 <= len);
    let lo: u32 = le_u32_at(s, at);
    let hi: u32 = le_u32_at(s, at + 4);
    proof {
        let t = s@.subrange(at as int, at + 8);
        lemma_le_value_append(s@.subrange(at as int, at + 4), s@.subrange(at + 4, at + 8));
        assert(t =~= s@.subrange(at as int, at + 4) + s@.subrange(at + 4, at + 8));
        assert(pow256(4) == 0x1_0000_0000) by {
            reveal_with_fuel(pow256, 5);
        }
    }
    lo as u64 + 0x1_0000_0000 * (hi as u64)
}

/// 256 to the power of `n`.
pub open spec fn pow256(n: nat) -> nat
    decreases n,
{
    if n == 0 {
        1
    } else {
        256 * pow256((n - 1) as nat)
    }
}

proof fn lemma_le_value_append(a: Seq<u8>, b: Seq<u8>)
    ensures
        le_value(a + b) == le_value(a) + pow256(a.len()) * le_value(b),
    decreases a.len(),
{
    if a.len() == 0 {
        assert(a + b =~= b);
        assert(1 * le_value(b) == le_value(b));
    } else {
        let t = a.subrange(1, a.len() as int);
        lemma_le_value_append(t, b);
        assert((a + b).subrange(1, (a + b).len() as int) =~= t + b);
        let p = pow256(t.len());
        let v = le_value(b);
        assert(256 * (p * v) == (256 * p) * v) by (nonlinear_arith);
    }
}

/// Reading back the bytes of a number gives the number, if it fits.
pub proof fn lemma_le_roundtrip(n: nat, width: nat)
    requires
        n < pow256(width),
    ensures
        le_bytes(n, width).len() == width,
        le_value(le_bytes(n, width)) == n,
    decreases width,
{
    if width > 0 {
        let tail = le_bytes(n / 256, (width - 1) as nat);
        lemma_le_roundtrip(n / 256, (width - 1) as nat);
        let all = le_bytes(n, width);
        assert(all.subrange(1, all.len() as int) =~= tail);
        assert(all[0] as nat == n % 256);
    }
}

/// The bytes of a number have the width asked for.
pub proof fn lemma_le_bytes_len(n: nat, width: nat)
    ensures
        le_bytes(n, width).len() == width,
    decreases width,
{
    if width > 0 {
        lemma_le_bytes_len(n / 256, (width - 1) as nat);
    }
}

/// What eight bytes can hold.
pub proof fn lemma_pow256_u64()
    ensures
        pow256(4) == 0x1_0000_0000,
        pow256(8) == 0x1_0000_0000_0000_0000,
{
    reveal_with_fuel(pow256, 9);
}

proof fn lemma_decimal_digits(n: nat)
    ensures
        decimal(n).len() > 0,
        all_digits(decimal(n)),
        decimal_value(decimal(n)) == n,
    decreases n,
{
    reveal_with_fuel(decimal_value, 2);
    if n < 10 {
        assert(decimal(n).drop_last() =~= Seq::<char>::empty());
    } else {
        lemma_decimal_digits(n / 10);
        assert(decimal(n).drop_last() =~= decimal(n / 10));
    }
}

/// Reading a number's decimal notation gives the number back.
pub proof fn lemma_decimal_roundtrip(n: u64)
    ensures
        parse_u64(decimal(n as nat)) == Some(n),
        all_digits(decimal(n as nat)),
        decimal(n as nat).len() > 0,
{
    lemma_decimal_digits(n as nat);
    assert('0' <= decimal(n as nat)[0]);
}

proof fn lemma_hexadecimal_digits(n: nat)
    ensures
        hexadecimal(n).len() > 0,
        all_hex(hexadecimal(n)),
        hex_value(hexadecimal(n)) == n,
    decreases n,
{
    reveal_with_fuel(hex_value, 2);
    if n < 16 {
        assert(hexadecimal(n).drop_last() =~= Seq::<char>::empty());
    } else {
        lemma_hexadecimal_digits(n / 16);
        assert(hexadecimal(n).drop_last() =~= hexadecimal(n / 16));
    }
}

proof fn lemma_hex_zeros(k: nat, s: Seq<char>)
    ensures
        hex_value(Seq::new(k, |i: int| '0') + s) == hex_value(s),
    decreases k + s.len(),
{
    let zeros = Seq::new(k, |i: int| '0');
    let full = zeros + s;
    if s.len() > 0 {
        assert(full.drop_last() =~= zeros + s.drop_last());
        lemma_hex_zeros(k, s.drop_last());
    } else if k > 0 {
        let fewer = Seq::new((k - 1) as nat, |i: int| '0');
        assert(full.drop_last() =~= fewer + s);
        lemma_hex_zeros((k - 1) as nat, s);
        assert(full.last() == '0');
    } else {
        assert(full =~= s);
    }
}

/// Reading a number's hexadecimal notation gives the number back, whatever
/// width it was filled up to.
pub proof fn lemma_hex_roundtrip(n: u64, width: nat)
    ensures
        parse_hex_u64(zero_padded(hexadecimal(n as nat), width)) == Some(n),
{
    let digits = hexadecimal(n as nat);
    lemma_hexadecimal_digits(n as nat);
    let full = zero_padded(digits, width);
    assert(hex_digit('+') is None);
    if digits.len() < width {
        let k = (width - digits.len()) as nat;
        lemma_hex_zeros(k, digits);
        assert forall|i: int| 0 <= i < full.len() implies hex_digit(#[trigger] full[i]) is Some by {
            if i >= k {
                assert(full[i] == digits[i - k]);
            }
        }
    }
    assert(hex_digit(full[0]) is Some);
}

/// The UTF-16 code units of the text.
pub fn to_utf16(s: &str) -> (r: Vec<u16>)
    ensures
        r@ == utf16(s@),
{
    let chars = to_chars(s);
    let mut r: Vec<u16> = Vec::new();
    let mut i: usize = 0;
    proof {
        assert(s@.subrange(0, 0) =~= Seq::<char>::empty());
    }
    while i < chars.len()
        invariant
            i <= chars@.len(),
            chars@ == s@,
            r@ == utf16(s@.subrange(0, i as int)),
        decreases chars.len() - i,
    {
        let c = chars[i];
        let n: u32 = code_point(c);
        proof {
            let upto = s@.subrange(0, i + 1);
            assert(upto.drop_last() =~= s@.subrange(0, i as int));
            assert(upto.last() == c);
        }
        let ghost before = r@;
        if n < 0x1_0000 {
            r.push(n as u16);
            proof {
                assert(r@ =~= before + utf16_char(c));
            }
        } else {
            r.push((0xd800 + (n - 0x1_0000) / 0x400) as u16);
            r.push((0xdc00 + (n - 0x1_0000) % 0x400) as u16);
            proof {
                assert(r@ =~= before + utf16_char(c));
            }
        }
        i = i + 1;
    }
    proof {
        assert(s@.subrange(0, s@.len() as int) =~= s@);
    }
    r
}

/// Conversions of numbers that are known to fit.
pub trait NumCastExt {
    /// The number.
    spec fn number(&self) -> int;

    fn as_u32(&self) -> (r: u32)
        requires
            0 <= self.number() <= u32::MAX,
        ensures
            r == self.number(),
    ;

    fn as_usize(&self) -> (r: usize)
        requires
            0 <= self.number() <= usize::MAX,
        ensures
            r == self.number(),
    ;

    fn as_i64(&self) -> (r: i64)
        requires
            i64::MIN <= self.number() <= i64::MAX,
        ensures
            r == self.number(),
    ;
}

impl NumCastExt for u64 {
    open spec fn number(&self) -> int {
        *self as int
    }

    fn as_u32(&self) -> (r: u32) {
        *self as u32
    }

    fn as_usize(&self) -> (r: usize) {
        *self as usize
    }

    fn as_i64(&self) -> (r: i64) {
        *self as i64
    }
}

/// A text is turned into code units character by character.
pub proof fn law_utf16_joins(a: Seq<char>, b: Seq<char>)
    ensures
        utf16(a + b) == utf16(a) + utf16(b),
    decreases b.len(),
{
    if b.len() == 0 {
        assert(a + b =~= a);
        assert(utf16(a) + Seq::<u16>::empty() =~= utf16(a));
    } else {
        law_utf16_joins(a, b.drop_last());
        assert((a + b).drop_last() =~= a + b.drop_last());
        assert((a + b).last() == b.last());
        assert(utf16(a + b) =~= utf16(a) + utf16(b));
    }
}

/// A character of the basic plane is one code unit, its own number; any other is
/// a pair of surrogates that tell the number.
pub proof fn law_utf16_char(c: char)
    ensures
        utf16(seq![c]) == utf16_char(c),
        (c as int) < 0x1_0000 ==> utf16_char(c).len() == 1 && utf16_char(c)[0] as int == c as int,
        (c as int) >= 0x1_0000 ==> utf16_char(c).len() == 2 && 0xd800 <= utf16_char(c)[0] <= 0xdbff && 0xdc00
            <= utf16_char(c)[1] <= 0xdfff && 0x1_0000 + (utf16_char(c)[0] - 0xd800) * 0x400 + (utf16_char(c)[1] - 0xdc00)
            == c as int,
{
    assert(seq![c].drop_last() =~= Seq::<char>::empty());
    assert(utf16(Seq::<char>::empty()) =~= Seq::<u16>::empty());
    assert(utf16(seq![c]) =~= utf16_char(c));
}

/// The digits of a number are characters that stand for them.
pub proof fn law_digit_char(d: int)
    requires
        0 <= d < 16,
    ensures
        d < 10 ==> digit_char(d) as int == '0' as int + d,
        d >= 10 ==> digit_char(d) as int == 'a' as int + d - 10,
        hex_digit(digit_char(d)) == Some(d as u8),
{
}

/// What is read as a number: a text of digits, with a plus sign or without, each
/// digit counting ten times as much as the next. Anything else is none, and
/// neither is what a word of 64 bits cannot hold.
pub proof fn law_parsed(digits: Seq<char>, d: char, i: int)
    requires
        '0' <= d <= '9',
    ensures
        decimal_value(Seq::empty()) == 0,
        decimal_value(digits.push(d)) == decimal_value(digits) * 10 + (d as int - '0' as int),
        digits.len() > 0 && all_digits(digits) && decimal_value(digits) <= u64::MAX ==> parse_u64(digits) == Some(
            decimal_value(digits) as u64,
        ) && parse_u64(seq!['+'] + digits) == Some(decimal_value(digits) as u64),
        parse_u64(Seq::empty()) is None,
        0 < i < digits.len() && !('0' <= digits[i] <= '9') ==> parse_u64(digits) is None,
        all_digits(digits) && decimal_value(digits) > u64::MAX ==> parse_u64(digits) is None,
{
    assert(digits.push(d).drop_last() =~= digits);
    let plus = seq!['+'] + digits;
    assert(tail_from(plus, 1) =~= digits);
    if digits.len() > 0 && all_digits(digits) {
        assert('0' <= digits[0] <= '9');
    }
    if 0 < i < digits.len() && !('0' <= digits[i] <= '9') {
        if digits[0] == '+' {
            assert(tail_from(digits, 1)[i - 1] == digits[i]);
        }
    }
}

} // verus!
