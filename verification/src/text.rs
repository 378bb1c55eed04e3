//! Text as sequences of characters: trimming, splitting, searching, ordering
//! and the decimal and hexadecimal notations that object keys and cache files
//! are written in.

use vstd::prelude::*;
use vstd::string::*;
use vstd::utf8::*;

verus! {

/// `String::push` appends one character to the end of the string.
pub assume_specification[ String::push ](s: &mut String, c: char)
    ensures
        final(s)@ == old(s)@.push(c),
;

/// The character sequences of a sequence of strings.
pub open spec fn views(v: Seq<String>) -> Seq<Seq<char>> {
    v.map_values(|s: String| s@)
}

/// The text ends with the character `c`.
pub open spec fn ends_with_char(s: Seq<char>, c: char) -> bool {
    s.len() > 0 && s.last() == c
}

/// The text starts with `prefix`.
pub open spec fn has_prefix(s: Seq<char>, prefix: Seq<char>) -> bool {
    prefix.len() <= s.len() && s.subrange(0, prefix.len() as int) == prefix
}

/// What is left of `s` behind its first `n` characters.
pub open spec fn tail_from(s: Seq<char>, n: int) -> Seq<char> {
    s.subrange(n, s.len() as int)
}

/// `s` without the longest run of characters at its start that satisfy `p`.
pub open spec fn skip_while(s: Seq<char>, p: spec_fn(char) -> bool) -> Seq<char>
    decreases s.len(),
{
    if s.len() > 0 && p(s[0]) {
        skip_while(s.subrange(1, s.len() as int), p)
    } else {
        s
    }
}

/// `s` without the longest run of characters at its end that satisfy `p`.
pub open spec fn drop_tail_while(s: Seq<char>, p: spec_fn(char) -> bool) -> Seq<char>
    decreases s.len(),
{
    if s.len() > 0 && p(s.last()) {
        drop_tail_while(s.drop_last(), p)
    } else {
        s
    }
}

/// The test for the one character `c`.
pub open spec fn is_char(c: char) -> spec_fn(char) -> bool {
    |x: char| x == c
}

/// `s` without leading occurrences of `c`.
pub open spec fn trim_start(s: Seq<char>, c: char) -> Seq<char> {
    skip_while(s, is_char(c))
}

/// `s` without trailing occurrences of `c`.
pub open spec fn trim_end(s: Seq<char>, c: char) -> Seq<char> {
    drop_tail_while(s, is_char(c))
}

/// `s` without leading and trailing occurrences of `c`.
pub open spec fn trim_both(s: Seq<char>, c: char) -> Seq<char> {
    trim_end(trim_start(s, c), c)
}

/// The characters with the Unicode `White_Space` property.
pub open spec fn white_space(c: char) -> bool {
    ||| '\u{9}' <= c <= '\u{d}'
    ||| c == ' '
    ||| c == '\u{85}'
    ||| c == '\u{a0}'
    ||| c == '\u{1680}'
    ||| '\u{2000}' <= c <= '\u{200a}'
    ||| c == '\u{2028}'
    ||| c == '\u{2029}'
    ||| c == '\u{202f}'
    ||| c == '\u{205f}'
    ||| c == '\u{3000}'
}

/// `s` without leading and trailing white space.
pub open spec fn trim_space(s: Seq<char>) -> Seq<char> {
    drop_tail_while(skip_while(s, |x: char| white_space(x)), |x: char| white_space(x))
}

/// The pieces of `s` between occurrences of `c`; one piece more than there
/// are occurrences.
pub open spec fn split_on(s: Seq<char>, c: char) -> Seq<Seq<char>>
    decreases s.len(),
{
    if s.len() == 0 {
        seq![Seq::<char>::empty()]
    } else {
        let rest = split_on(s.subrange(1, s.len() as int), c);
        if s[0] == c {
            seq![Seq::<char>::empty()] + rest
        } else {
            seq![seq![s[0]] + rest[0]] + rest.subrange(1, rest.len() as int)
        }
    }
}

/// `s` with every occurrence of `from` replaced by `to`.
pub open spec fn replace_char(s: Seq<char>, from: char, to: char) -> Seq<char> {
    s.map_values(|x: char| if x == from { to } else { x })
}

/// The number of occurrences of `c` in `s`.
pub open spec fn count_char(s: Seq<char>, c: char) -> nat
    decreases s.len(),
{
    if s.len() == 0 {
        0
    } else {
        count_char(s.drop_last(), c) + if s.last() == c { 1nat } else { 0nat }
    }
}

/// The code point of a character, of an upper-case ASCII letter that of its
/// lower-case form.
pub open spec fn fold_case(c: char) -> int {
    if 'A' <= c <= 'Z' {
        c as int + 32
    } else {
        c as int
    }
}

/// The texts are the same but for the case of ASCII letters.
pub open spec fn same_but_case(a: Seq<char>, b: Seq<char>) -> bool {
    a.len() == b.len() && forall|i: int| 0 <= i < a.len() ==> fold_case(#[trigger] a[i]) == fold_case(b[i])
}

/// The bytes of `a` come before those of `b` in lexicographic order.
pub open spec fn bytes_less(a: Seq<u8>, b: Seq<u8>) -> bool
    decreases a.len(),
{
    if b.len() == 0 {
        false
    } else if a.len() == 0 {
        true
    } else if a[0] != b[0] {
        a[0] < b[0]
    } else {
        bytes_less(a.subrange(1, a.len() as int), b.subrange(1, b.len() as int))
    }
}

/// The order of strings: lexicographic by the bytes of their encoding.
pub open spec fn text_less(a: Seq<char>, b: Seq<char>) -> bool {
    bytes_less(encode_utf8(a), encode_utf8(b))
}

/// How one string stands to another.
#[derive(Clone, Copy, PartialEq, Eq, Structural, Debug)]
pub enum Place {
    Before,
    Same,
    After,
}

pub proof fn lemma_bytes_less_irreflexive(a: Seq<u8>)
    ensures
        !bytes_less(a, a),
    decreases a.len(),
{
    if a.len() > 0 {
        lemma_bytes_less_irreflexive(a.subrange(1, a.len() as int));
    }
}

pub proof fn lemma_bytes_less_transitive(a: Seq<u8>, b: Seq<u8>, c: Seq<u8>)
    requires
        bytes_less(a, b),
        bytes_less(b, c),
    ensures
        bytes_less(a, c),
    decreases a.len(),
{
    if a.len() > 0 && b.len() > 0 && c.len() > 0 && a[0] == b[0] && b[0] == c[0] {
        lemma_bytes_less_transitive(
            a.subrange(1, a.len() as int),
            b.subrange(1, b.len() as int),
            c.subrange(1, c.len() as int),
        );
    }
}

pub proof fn lemma_bytes_less_total(a: Seq<u8>, b: Seq<u8>)
    ensures
        a == b || bytes_less(a, b) || bytes_less(b, a),
    decreases a.len(),
{
    if a.len() > 0 && b.len() > 0 && a[0] == b[0] {
        let ta = a.subrange(1, a.len() as int);
        let tb = b.subrange(1, b.len() as int);
        lemma_bytes_less_total(ta, tb);
        if ta == tb {
            assert(a =~= seq![a[0]] + ta);
            assert(b =~= seq![b[0]] + tb);
        }
    } else if a.len() == 0 && b.len() == 0 {
        assert(a =~= b);
    }
}

/// Two texts with the same encoding are the same text.
pub proof fn lemma_encoding_injective(a: Seq<char>, b: Seq<char>)
    requires
        encode_utf8(a) == encode_utf8(b),
    ensures
        a == b,
{
    encode_utf8_decode_utf8(a);
    encode_utf8_decode_utf8(b);
}

/// The order of strings is irreflexive.
pub proof fn lemma_text_less_irreflexive(a: Seq<char>)
    ensures
        !text_less(a, a),
{
    lemma_bytes_less_irreflexive(encode_utf8(a));
}

/// The order of strings is transitive.
pub proof fn lemma_text_less_transitive(a: Seq<char>, b: Seq<char>, c: Seq<char>)
    requires
        text_less(a, b),
        text_less(b, c),
    ensures
        text_less(a, c),
{
    lemma_bytes_less_transitive(encode_utf8(a), encode_utf8(b), encode_utf8(c));
}

/// Of two different strings one comes before the other.
pub proof fn lemma_text_less_total(a: Seq<char>, b: Seq<char>)
    ensures
        a == b || text_less(a, b) || text_less(b, a),
{
    lemma_bytes_less_total(encode_utf8(a), encode_utf8(b));
    if encode_utf8(a) == encode_utf8(b) {
        lemma_encoding_injective(a, b);
    }
}

pub proof fn lemma_bytes_less_step(a: Seq<u8>, b: Seq<u8>, i: int)
    requires
        0 <= i <= a.len(),
        i <= b.len(),
        a.subrange(0, i) == b.subrange(0, i),
    ensures
        bytes_less(a, b) == bytes_less(
            a.subrange(i, a.len() as int),
            b.subrange(i, b.len() as int),
        ),
    decreases i,
{
    if i == 0 {
        assert(a.subrange(0, a.len() as int) =~= a);
        assert(b.subrange(0, b.len() as int) =~= b);
    } else {
        let ta = a.subrange(1, a.len() as int);
        let tb = b.subrange(1, b.len() as int);
        assert(a[0] == a.subrange(0, i)[0] && b[0] == b.subrange(0, i)[0]);
        assert forall|k: int| 0 <= k < i - 1 implies #[trigger] ta[k] == tb[k] by {
            let m = k + 1;
            assert(a.subrange(0, i)[m] == a[m]);
            assert(b.subrange(0, i)[m] == b[m]);
            assert(ta[k] == a[m] && tb[k] == b[m]);
        }
        assert(ta.subrange(0, i - 1) =~= tb.subrange(0, i - 1));
        lemma_bytes_less_step(ta, tb, i - 1);
        assert(ta.subrange(i - 1, ta.len() as int) =~= a.subrange(i, a.len() as int));
        assert(tb.subrange(i - 1, tb.len() as int) =~= b.subrange(i, b.len() as int));
    }
}

/// Where `a` stands to `b` in the order of strings.
pub fn place(a: &str, b: &str) -> (r: Place)
    ensures
        r == Place::Before <==> text_less(a@, b@),
        r == Place::Same <==> a@ == b@,
        r == Place::After <==> text_less(b@, a@),
{
    let x = a.as_bytes();
    let y = b.as_bytes();
    proof {
        lemma_text_less_irreflexive(a@);
        lemma_text_less_irreflexive(b@);
        lemma_text_less_total(a@, b@);
        if text_less(a@, b@) && text_less(b@, a@) {
            lemma_text_less_transitive(a@, b@, a@);
        }
    }
    let mut i: usize = 0;
    while i < x.len() && i < y.len()
        invariant
            i <= x@.len(),
            i <= y@.len(),
            x@ == encode_utf8(a@),
            y@ == encode_utf8(b@),
            x@.subrange(0, i as int) == y@.subrange(0, i as int),
            !(text_less(a@, b@) && text_less(b@, a@)),
            !text_less(a@, a@),
        decreases x.len() - i,
    {
        if x[i] != y[i] {
            proof {
                lemma_bytes_less_step(x@, y@, i as int);
                lemma_bytes_less_step(y@, x@, i as int);
                assert(x@.subrange(i as int, x@.len() as int)[0] == x@[i as int]);
                assert(y@.subrange(i as int, y@.len() as int)[0] == y@[i as int]);
            }
            if x[i] < y[i] {
                return Place::Before;
            } else {
                return Place::After;
            }
        }
        proof {
            assert(x@.subrange(0, i + 1) =~= x@.subrange(0, i as int).push(x@[i as int]));
            assert(y@.subrange(0, i + 1) =~= y@.subrange(0, i as int).push(y@[i as int]));
        }
        i = i + 1;
    }
    proof {
        lemma_bytes_less_step(x@, y@, i as int);
        lemma_bytes_less_step(y@, x@, i as int);
    }
    if x.len() == y.len() {
        proof {
            assert(x@ =~= x@.subrange(0, i as int));
            assert(y@ =~= y@.subrange(0, i as int));
            lemma_encoding_injective(a@, b@);
        }
        Place::Same
    } else if x.len() < y.len() {
        Place::Before
    } else {
        Place::After
    }
}

/// Whether two strings are the same.
pub fn same_text(a: &str, b: &str) -> (r: bool)
    ensures
        r == (a@ == b@),
{
    match place(a, b) {
        Place::Same => true,
        _ => false,
    }
}

/// The characters of a string.
pub fn to_chars(s: &str) -> (r: Vec<char>)
    ensures
        r@ == s@,
{
    let mut r: Vec<char> = Vec::new();
    for c in it: s.chars()
        invariant
            it.seq() == s@,
            r@ == s@.subrange(0, it.index()),
    {
        proof {
            assert(s@.subrange(0, it.index() + 1) =~= s@.subrange(0, it.index()).push(c));
        }
        r.push(c);
    }
    proof {
        assert(s@.subrange(0, s@.len() as int) =~= s@);
    }
    r
}

/// The string of the characters from `from` up to `to`.
pub fn from_chars(chars: &Vec<char>, from: usize, to: usize) -> (r: String)
    requires
        from <= to <= chars@.len(),
    ensures
        r@ == chars@.subrange(from as int, to as int),
{
    let mut r = String::new();
    let mut i: usize = from;
    while i < to
        invariant
            from <= i <= to,
            to <= chars@.len(),
            r@ == chars@.subrange(from as int, i as int),
        decreases to - i,
    {
        r.push(chars[i]);
        proof {
            assert(chars@.subrange(from as int, i + 1) =~= chars@.subrange(
                from as int,
                i as int,
            ).push(chars@[i as int]));
        }
        i = i + 1;
    }
    r
}

/// A fresh string with the same text.
pub fn copy_text(s: &str) -> (r: String)
    ensures
        r@ == s@,
{
    s.to_owned()
}

/// Two strings joined.
pub fn concat2(a: &str, b: &str) -> (r: String)
    ensures
        r@ == a@ + b@,
{
    let mut r = a.to_owned();
    r.append(b);
    r
}

proof fn lemma_skip_while_done(s: Seq<char>, p: spec_fn(char) -> bool, i: int)
    requires
        0 <= i <= s.len(),
        forall|k: int| 0 <= k < i ==> p(#[trigger] s[k]),
        i < s.len() ==> !p(s[i]),
    ensures
        skip_while(s, p) == tail_from(s, i),
    decreases i,
{
    if i == 0 {
        assert(tail_from(s, 0) =~= s);
    } else {
        let t = s.subrange(1, s.len() as int);
        assert forall|k: int| 0 <= k < i - 1 implies p(#[trigger] t[k]) by {
            assert(t[k] == s[k + 1]);
        }
        assert(p(s[0]));
        lemma_skip_while_done(t, p, i - 1);
        assert(tail_from(t, i - 1) =~= tail_from(s, i));
    }
}

proof fn lemma_drop_tail_done(s: Seq<char>, p: spec_fn(char) -> bool, i: int)
    requires
        0 <= i <= s.len(),
        forall|k: int| i <= k < s.len() ==> p(#[trigger] s[k]),
        i > 0 ==> !p(s[i - 1]),
    ensures
        drop_tail_while(s, p) == s.subrange(0, i),
    decreases s.len(),
{
    if i == s.len() {
        assert(s.subrange(0, i) =~= s);
    } else {
        let t = s.drop_last();
        assert(p(s.last()));
        assert forall|k: int| i <= k < t.len() implies p(#[trigger] t[k]) by {
            assert(t[k] == s[k]);
        }
        lemma_drop_tail_done(t, p, i);
        assert(t.subrange(0, i) =~= s.subrange(0, i));
    }
}

/// Whether a character is white space.
pub fn is_white_space(c: char) -> (r: bool)
    ensures
        r == white_space(c),
{
    let n: u32 = c as u32;
    (0x9 <= n && n <= 0xd) || n == 0x20 || n == 0x85 || n == 0xa0 || n == 0x1680 || (0x2000 <= n
        && n <= 0x200a) || n == 0x2028 || n == 0x2029 || n == 0x202f || n == 0x205f || n == 0x3000
}

/// The text without leading occurrences of `c`.
pub fn trim_start_char(s: &str, c: char) -> (r: String)
    ensures
        r@ == trim_start(s@, c),
{
    let chars = to_chars(s);
    let mut i: usize = 0;
    while i < chars.len() && chars[i] == c
        invariant
            i <= chars@.len(),
            forall|k: int| 0 <= k < i ==> #[trigger] chars@[k] == c,
        decreases chars.len() - i,
    {
        i = i + 1;
    }
    proof {
        lemma_skip_while_done(s@, is_char(c), i as int);
    }
    from_chars(&chars, i, chars.len())
}

/// The text without trailing occurrences of `c`.
pub fn trim_end_char(s: &str, c: char) -> (r: String)
    ensures
        r@ == trim_end(s@, c),
{
    let chars = to_chars(s);
    let mut i: usize = chars.len();
    while i > 0 && chars[i - 1] == c
        invariant
            i <= chars@.len(),
            forall|k: int| i <= k < chars@.len() ==> #[trigger] chars@[k] == c,
        decreases i,
    {
        i = i - 1;
    }
    proof {
        lemma_drop_tail_done(s@, is_char(c), i as int);
    }
    from_chars(&chars, 0, i)
}

/// The text without leading and trailing occurrences of `c`.
pub fn trim_char(s: &str, c: char) -> (r: String)
    ensures
        r@ == trim_both(s@, c),
{
    let t = trim_start_char(s, c);
    trim_end_char(t.as_str(), c)
}

/// The text without leading and trailing white space.
pub fn trim_white(s: &str) -> (r: String)
    ensures
        r@ == trim_space(s@),
{
    let chars = to_chars(s);
    let mut i: usize = 0;
    while i < chars.len() && is_white_space(chars[i])
        invariant
            i <= chars@.len(),
            forall|k: int| 0 <= k < i ==> white_space(#[trigger] chars@[k]),
        decreases chars.len() - i,
    {
        i = i + 1;
    }
    let ghost p = |x: char| white_space(x);
    proof {
        lemma_skip_while_done(s@, p, i as int);
    }
    let mut j: usize = chars.len();
    while j > i && is_white_space(chars[j - 1])
        invariant
            i <= j <= chars@.len(),
            forall|k: int| j <= k < chars@.len() ==> white_space(#[trigger] chars@[k]),
        decreases j,
    {
        j = j - 1;
    }
    proof {
        let t = tail_from(s@, i as int);
        assert forall|k: int| j - i <= k < t.len() implies p(#[trigger] t[k]) by {
            assert(t[k] == chars@[k + i]);
        }
        lemma_drop_tail_done(t, p, j - i);
        assert(t.subrange(0, j - i) =~= s@.subrange(i as int, j as int));
    }
    from_chars(&chars, i, j)
}

/// Whether the text ends with the character `c`.
pub fn ends_with(s: &str, c: char) -> (r: bool)
    ensures
        r == ends_with_char(s@, c),
{
    let n: usize = s.unicode_len();
    n > 0 && s.get_char(n - 1) == c
}

/// Whether the text starts with the character `c`.
pub fn starts_with(s: &str, c: char) -> (r: bool)
    ensures
        r == (s@.len() > 0 && s@[0] == c),
{
    s.unicode_len() > 0 && s.get_char(0) == c
}

/// Whether the text starts with `prefix`.
pub fn starts_with_text(s: &str, prefix: &str) -> (r: bool)
    ensures
        r == has_prefix(s@, prefix@),
{
    let n: usize = prefix.unicode_len();
    if s.unicode_len() < n {
        return false;
    }
    same_text(s.substring_char(0, n), prefix)
}

/// The rest of the text behind `prefix`, where it starts with it.
pub fn strip_prefix(s: &str, prefix: &str) -> (r: Option<String>)
    ensures
        r is Some <==> has_prefix(s@, prefix@),
        r matches Some(t) ==> t@ == tail_from(s@, prefix@.len() as int),
{
    if starts_with_text(s, prefix) {
        Some(s.substring_char(prefix.unicode_len(), s.unicode_len()).to_owned())
    } else {
        None
    }
}

/// The text ends with `suffix`.
pub open spec fn has_suffix(s: Seq<char>, suffix: Seq<char>) -> bool {
    suffix.len() <= s.len() && s.subrange(s.len() - suffix.len(), s.len() as int) == suffix
}

/// Whether the text ends with `suffix`.
pub fn ends_with_text(s: &str, suffix: &str) -> (r: bool)
    ensures
        r == has_suffix(s@, suffix@),
{
    let n: usize = suffix.unicode_len();
    let m: usize = s.unicode_len();
    if m < n {
        return false;
    }
    same_text(s.substring_char(m - n, m), suffix)
}

/// The position of the first `c`.
pub fn find_char(s: &str, c: char) -> (r: Option<usize>)
    ensures
        r is None <==> !s@.contains(c),
        r matches Some(i) ==> i < s@.len() && s@[i as int] == c && forall|k: int|
            0 <= k < i ==> #[trigger] s@[k] != c,
{
    let chars = to_chars(s);
    let mut i: usize = 0;
    while i < chars.len()
        invariant
            i <= chars@.len(),
            chars@ == s@,
            forall|k: int| 0 <= k < i ==> #[trigger] chars@[k] != c,
        decreases chars.len() - i,
    {
        if chars[i] == c {
            return Some(i);
        }
        i = i + 1;
    }
    None
}

/// The position of the last `c`.
pub fn rfind_char(s: &str, c: char) -> (r: Option<usize>)
    ensures
        r is None <==> !s@.contains(c),
        r matches Some(i) ==> i < s@.len() && s@[i as int] == c && forall|k: int|
            i < k < s@.len() ==> #[trigger] s@[k] != c,
{
    let chars = to_chars(s);
    let mut i: usize = chars.len();
    while i > 0
        invariant
            i <= chars@.len(),
            chars@ == s@,
            forall|k: int| i <= k < chars@.len() ==> #[trigger] chars@[k] != c,
        decreases i,
    {
        i = i - 1;
        if chars[i] == c {
            return Some(i);
        }
    }
    None
}

/// `pat` occurs somewhere in `s`.
pub open spec fn contains_text(s: Seq<char>, pat: Seq<char>) -> bool {
    exists|i: int| 0 <= i <= s.len() - pat.len() && #[trigger] s.subrange(i, i + pat.len()) == pat
}

/// Whether `pat` occurs in the text.
pub fn has_text(s: &str, pat: &str) -> (r: bool)
    ensures
        r == contains_text(s@, pat@),
{
    let n: usize = s.unicode_len();
    let m: usize = pat.unicode_len();
    if m > n {
        return false;
    }
    let mut i: usize = 0;
    while i <= n - m
        invariant
            m <= n,
            n == s@.len(),
            m == pat@.len(),
            i <= n - m + 1,
            forall|k: int| 0 <= k < i ==> #[trigger] s@.subrange(k, k + m) != pat@,
        decreases n - m + 1 - i,
    {
        if same_text(s.substring_char(i, i + m), pat) {
            return true;
        }
        if i == n - m {
            return false;
        }
        i = i + 1;
    }
    false
}

/// The text with every `from` replaced by `to`.
pub fn replace(s: &str, from: char, to: char) -> (r: String)
    ensures
        r@ == replace_char(s@, from, to),
{
    let chars = to_chars(s);
    let mut r = String::new();
    let mut i: usize = 0;
    while i < chars.len()
        invariant
            i <= chars@.len(),
            chars@ == s@,
            r@ == replace_char(s@, from, to).subrange(0, i as int),
        decreases chars.len() - i,
    {
        let c = if chars[i] == from {
            to
        } else {
            chars[i]
        };
        r.push(c);
        proof {
            let full = replace_char(s@, from, to);
            assert(full.subrange(0, i + 1) =~= full.subrange(0, i as int).push(full[i as int]));
        }
        i = i + 1;
    }
    proof {
        let full = replace_char(s@, from, to);
        assert(full.subrange(0, full.len() as int) =~= full);
    }
    r
}

proof fn lemma_split_on_nonempty(s: Seq<char>, c: char)
    ensures
        split_on(s, c).len() >= 1,
    decreases s.len(),
{
    if s.len() > 0 {
        lemma_split_on_nonempty(s.subrange(1, s.len() as int), c);
    }
}

/// The pieces of `head + t`, where `head` holds no `c`.
pub proof fn lemma_split_on_head(head: Seq<char>, t: Seq<char>, c: char)
    requires
        !head.contains(c),
    ensures
        split_on(head + t, c) == seq![head + split_on(t, c)[0]] + split_on(t, c).subrange(
            1,
            split_on(t, c).len() as int,
        ),
    decreases head.len(),
{
    let full = split_on(t, c);
    lemma_split_on_nonempty(t, c);
    if head.len() == 0 {
        assert(head + t =~= t);
        assert(head + full[0] =~= full[0]);
        assert(full =~= seq![full[0]] + full.subrange(1, full.len() as int));
    } else {
        let h = head.subrange(1, head.len() as int);
        let s = head + t;
        assert(s.subrange(1, s.len() as int) =~= h + t);
        assert(!h.contains(c)) by {
            if h.contains(c) {
                let k = choose|k: int| 0 <= k < h.len() && h[k] == c;
                assert(head[k + 1] == c);
            }
        }
        lemma_split_on_head(h, t, c);
        assert(head[0] != c) by {
            if head[0] == c {
                assert(head.contains(c));
            }
        }
        let rest = split_on(h + t, c);
        assert(rest.subrange(1, rest.len() as int) =~= full.subrange(1, full.len() as int));
        assert(seq![s[0]] + rest[0] =~= head + full[0]);
    }
}

/// The pieces of the text between occurrences of `c`.
pub fn split_text(s: &str, c: char) -> (r: Vec<String>)
    ensures
        views(r@) == split_on(s@, c),
{
    let chars = to_chars(s);
    let mut out: Vec<String> = Vec::new();
    let mut start: usize = 0;
    let mut i: usize = 0;
    proof {
        assert(tail_from(s@, 0) =~= s@);
        assert(views(out@) + split_on(s@, c) =~= split_on(s@, c));
    }
    while i < chars.len()
        invariant
            start <= i <= chars@.len(),
            chars@ == s@,
            forall|k: int| start <= k < i ==> #[trigger] chars@[k] != c,
            split_on(s@, c) == views(out@) + split_on(tail_from(s@, start as int), c),
        decreases chars.len() - i,
    {
        if chars[i] == c {
            let piece = from_chars(&chars, start, i);
            proof {
                let t = tail_from(s@, start as int);
                let head = s@.subrange(start as int, i as int);
                let rest = tail_from(s@, i as int);
                let after = tail_from(s@, i + 1);
                assert(t =~= head + rest);
                assert(!head.contains(c)) by {
                    if head.contains(c) {
                        let k = choose|k: int| 0 <= k < head.len() && head[k] == c;
                        assert(chars@[start + k] == c);
                    }
                }
                lemma_split_on_head(head, rest, c);
                assert(rest.subrange(1, rest.len() as int) =~= after);
                assert(rest[0] == c);
                assert(split_on(rest, c) == seq![Seq::<char>::empty()] + split_on(after, c));
                assert(head + Seq::<char>::empty() =~= head);
                assert(split_on(rest, c).subrange(1, split_on(rest, c).len() as int) =~= split_on(
                    after,
                    c,
                ));
                assert(split_on(t, c) =~= seq![head] + split_on(after, c));
                assert(views(out@.push(piece)) =~= views(out@).push(head));
                assert(views(out@) + split_on(t, c) =~= views(out@.push(piece)) + split_on(
                    after,
                    c,
                ));
            }
            out.push(piece);
            start = i + 1;
        }
        i = i + 1;
    }
    let piece = from_chars(&chars, start, chars.len());
    proof {
        let head = tail_from(s@, start as int);
        assert(!head.contains(c)) by {
            if head.contains(c) {
                let k = choose|k: int| 0 <= k < head.len() && head[k] == c;
                assert(chars@[start + k] == c);
            }
        }
        let none = Seq::<char>::empty();
        lemma_split_on_head(head, none, c);
        assert(head + none =~= head);
        assert(split_on(none, c) =~= seq![none]);
        assert(split_on(head, c) =~= seq![head]);
        assert(views(out@.push(piece)) =~= views(out@) + seq![head]);
    }
    out.push(piece);
    out
}

/// The text before and behind the first `c`, if there is one.
pub open spec fn split_once(s: Seq<char>, c: char) -> Option<(Seq<char>, Seq<char>)>
    decreases s.len(),
{
    if s.len() == 0 {
        None
    } else if s[0] == c {
        Some((Seq::empty(), tail_from(s, 1)))
    } else {
        match split_once(tail_from(s, 1), c) {
            Some((a, b)) => Some((seq![s[0]] + a, b)),
            None => None,
        }
    }
}

/// Where the first `c` stands is where the text is split.
pub proof fn lemma_split_once_at(s: Seq<char>, c: char, i: int)
    requires
        0 <= i < s.len(),
        s[i] == c,
        forall|k: int| 0 <= k < i ==> #[trigger] s[k] != c,
    ensures
        split_once(s, c) == Some((s.subrange(0, i), tail_from(s, i + 1))),
    decreases i,
{
    if i == 0 {
        assert(s.subrange(0, 0) =~= Seq::<char>::empty());
    } else {
        let t = tail_from(s, 1);
        assert forall|k: int| 0 <= k < i - 1 implies #[trigger] t[k] != c by {
            assert(t[k] == s[k + 1]);
        }
        assert(s[0] != c);
        lemma_split_once_at(t, c, i - 1);
        assert(seq![s[0]] + t.subrange(0, i - 1) =~= s.subrange(0, i));
        assert(tail_from(t, i) =~= tail_from(s, i + 1));
    }
}

/// A text without `c` is not split.
pub proof fn lemma_split_once_none(s: Seq<char>, c: char)
    requires
        !s.contains(c),
    ensures
        split_once(s, c) is None,
    decreases s.len(),
{
    if s.len() > 0 {
        let t = tail_from(s, 1);
        assert(s[0] != c) by {
            if s[0] == c {
                assert(s.contains(c));
            }
        }
        if t.contains(c) {
            let k = choose|k: int| 0 <= k < t.len() && t[k] == c;
            assert(s[k + 1] == c);
        }
        lemma_split_once_none(t, c);
    }
}

/// The text before and behind the first `c`, if there is one.
pub fn split_first(s: &str, c: char) -> (r: Option<(String, String)>)
    ensures
        r is Some <==> split_once(s@, c) is Some,
        r matches Some((a, b)) ==> split_once(s@, c) == Some((a@, b@)),
{
    match find_char(s, c) {
        Some(i) => {
            proof {
                lemma_split_once_at(s@, c, i as int);
            }
            let n: usize = s.unicode_len();
            Some((s.substring_char(0, i).to_owned(), s.substring_char(i + 1, n).to_owned()))
        },
        None => {
            proof {
                lemma_split_once_none(s@, c);
            }
            None
        },
    }
}

/// The text behind the last `c`; the whole text if there is none.
pub open spec fn after_last(s: Seq<char>, c: char) -> Seq<char>
    decreases s.len(),
{
    if s.len() == 0 || s.last() == c {
        Seq::empty()
    } else {
        after_last(s.drop_last(), c).push(s.last())
    }
}

/// The text before the last `c`, if there is one.
pub open spec fn before_last(s: Seq<char>, c: char) -> Option<Seq<char>>
    decreases s.len(),
{
    if s.len() == 0 {
        None
    } else if s.last() == c {
        Some(s.drop_last())
    } else {
        before_last(s.drop_last(), c)
    }
}

/// Where the last `c` stands is where the two parts meet.
pub proof fn lemma_last_at(s: Seq<char>, c: char, i: int)
    requires
        0 <= i < s.len(),
        s[i] == c,
        forall|k: int| i < k < s.len() ==> #[trigger] s[k] != c,
    ensures
        before_last(s, c) == Some(s.subrange(0, i)),
        after_last(s, c) == tail_from(s, i + 1),
    decreases s.len(),
{
    if i == s.len() - 1 {
        assert(s.drop_last() =~= s.subrange(0, i));
        assert(tail_from(s, i + 1) =~= Seq::<char>::empty());
    } else {
        let t = s.drop_last();
        assert forall|k: int| i < k < t.len() implies #[trigger] t[k] != c by {
            assert(t[k] == s[k]);
        }
        assert(s.last() != c);
        lemma_last_at(t, c, i);
        assert(t.subrange(0, i) =~= s.subrange(0, i));
        assert(tail_from(t, i + 1).push(s.last()) =~= tail_from(s, i + 1));
    }
}

/// A text without `c` lies behind the last `c` as a whole.
pub proof fn lemma_last_none(s: Seq<char>, c: char)
    requires
        !s.contains(c),
    ensures
        before_last(s, c) is None,
        after_last(s, c) == s,
    decreases s.len(),
{
    if s.len() > 0 {
        let t = s.drop_last();
        if t.contains(c) {
            let k = choose|k: int| 0 <= k < t.len() && t[k] == c;
            assert(s[k] == c);
        }
        assert(s.last() != c) by {
            if s.last() == c {
                assert(s.contains(c));
            }
        }
        lemma_last_none(t, c);
        assert(t.push(s.last()) =~= s);
    } else {
        assert(s =~= Seq::<char>::empty());
    }
}

/// The text behind the last `c`.
pub fn text_after_last(s: &str, c: char) -> (r: String)
    ensures
        r@ == after_last(s@, c),
{
    match rfind_char(s, c) {
        Some(i) => {
            proof {
                lemma_last_at(s@, c, i as int);
            }
            let n: usize = s.unicode_len();
            s.substring_char(i + 1, n).to_owned()
        },
        None => {
            proof {
                lemma_last_none(s@, c);
            }
            s.to_owned()
        },
    }
}

/// The text before the last `c`, if there is one.
pub fn text_before_last(s: &str, c: char) -> (r: Option<String>)
    ensures
        r is Some <==> before_last(s@, c) is Some,
        r matches Some(t) ==> before_last(s@, c) == Some(t@),
{
    match rfind_char(s, c) {
        Some(i) => {
            proof {
                lemma_last_at(s@, c, i as int);
            }
            Some(s.substring_char(0, i).to_owned())
        },
        None => {
            proof {
                lemma_last_none(s@, c);
            }
            None
        },
    }
}

/// A text that does not end with `c` has nothing to trim there.
pub proof fn lemma_trim_end_none(s: Seq<char>, c: char)
    requires
        !ends_with_char(s, c),
    ensures
        trim_end(s, c) == s,
{
}

/// Trimming leaves no `c` at the end, and takes away nothing else.
pub proof fn lemma_trim_end_result(s: Seq<char>, c: char)
    ensures
        !ends_with_char(trim_end(s, c), c),
        trim_end(s, c).len() <= s.len(),
        trim_end(s, c) == s.subrange(0, trim_end(s, c).len() as int),
        forall|k: int| trim_end(s, c).len() <= k < s.len() ==> #[trigger] s[k] == c,
    decreases s.len(),
{
    if ends_with_char(s, c) {
        lemma_trim_end_result(s.drop_last(), c);
        let t = trim_end(s.drop_last(), c);
        assert(s.subrange(0, t.len() as int) =~= s.drop_last().subrange(0, t.len() as int));
        assert forall|k: int| t.len() <= k < s.len() implies #[trigger] s[k] == c by {
            if k < s.len() - 1 {
                assert(s.drop_last()[k] == s[k]);
            }
        }
    } else {
        assert(s.subrange(0, s.len() as int) =~= s);
    }
}

fn folded(c: char) -> (n: u32)
    ensures
        n as int == fold_case(c),
{
    let n: u32 = c as u32;
    if 65 <= n && n <= 90 {
        n + 32
    } else {
        n
    }
}

/// Whether the texts are the same but for the case of ASCII letters.
pub fn equal_ignoring_case(a: &str, b: &str) -> (r: bool)
    ensures
        r == same_but_case(a@, b@),
{
    let x = to_chars(a);
    let y = to_chars(b);
    if x.len() != y.len() {
        return false;
    }
    let mut i: usize = 0;
    while i < x.len()
        invariant
            i <= x@.len(),
            x@ == a@,
            y@ == b@,
            x@.len() == y@.len(),
            forall|k: int| 0 <= k < i ==> fold_case(#[trigger] a@[k]) == fold_case(b@[k]),
        decreases x.len() - i,
    {
        if folded(x[i]) != folded(y[i]) {
            assert(fold_case(a@[i as int]) != fold_case(b@[i as int]));
            return false;
        }
        i = i + 1;
    }
    true
}

/// A line without the carriage return before its end.
pub open spec fn without_return(line: Seq<char>) -> Seq<char> {
    if ends_with_char(line, '\r') {
        line.drop_last()
    } else {
        line
    }
}

/// The lines of a text. A line feed ends a line, with a carriage return
/// before it or not; what is left behind the last one is a line too, unless
/// it is empty.
pub open spec fn lines_of(s: Seq<char>) -> Seq<Seq<char>> {
    let pieces = split_on(s, '\n');
    let ended = Seq::new((pieces.len() - 1) as nat, |i: int| without_return(pieces[i]));
    if pieces.last().len() == 0 {
        ended
    } else {
        ended.push(pieces.last())
    }
}

/// The lines of a text.
pub fn text_lines(s: &str) -> (r: Vec<String>)
    ensures
        views(r@) == lines_of(s@),
{
    let pieces = split_text(s, '\n');
    let ghost all = split_on(s@, '\n');
    proof {
        lemma_split_on_nonempty(s@, '\n');
        assert(pieces@.len() == all.len());
        assert forall|k: int| 0 <= k < pieces@.len() implies #[trigger] pieces@[k]@ == all[k] by {
            assert(views(pieces@)[k] == pieces@[k]@);
        }
    }
    let n: usize = pieces.len();
    let mut out: Vec<String> = Vec::new();
    let mut i: usize = 0;
    while i < n - 1
        invariant
            i <= n - 1,
            n == pieces@.len(),
            n == all.len(),
            n >= 1,
            forall|k: int| 0 <= k < pieces@.len() ==> #[trigger] pieces@[k]@ == all[k],
            out@.len() == i,
            forall|k: int| 0 <= k < i ==> (#[trigger] out@[k])@ == without_return(all[k]),
        decreases n - 1 - i,
    {
        let piece = pieces[i].as_str();
        if ends_with(piece, '\r') {
            let m: usize = piece.unicode_len();
            out.push(piece.substring_char(0, m - 1).to_owned());
            proof {
                assert(all[i as int].subrange(0, m - 1) =~= all[i as int].drop_last());
            }
        } else {
            out.push(piece.to_owned());
        }
        i = i + 1;
    }
    if !pieces[n - 1].as_str().is_empty() {
        out.push(pieces[n - 1].clone());
    }
    proof {
        assert(views(out@) =~= lines_of(s@));
    }
    out
}

/// A text that was put together begins with its first piece, and what is behind
/// that is the second. A text that begins with another is put together so.
pub proof fn law_prefix_and_rest(a: Seq<char>, b: Seq<char>)
    ensures
        has_prefix(a + b, a),
        tail_from(a + b, a.len() as int) == b,
        has_suffix(a + b, b),
        has_prefix(b, a) <==> exists|rest: Seq<char>| b == #[trigger] (a + rest),
        has_suffix(b, a) <==> exists|head: Seq<char>| b == #[trigger] (head + a),
{
    assert((a + b).subrange(0, a.len() as int) =~= a);
    assert(tail_from(a + b, a.len() as int) =~= b);
    assert((a + b).subrange(a.len() as int, (a + b).len() as int) =~= b);
    if has_prefix(b, a) {
        let rest = b.subrange(a.len() as int, b.len() as int);
        assert(b =~= a + rest);
    }
    if exists|rest: Seq<char>| b == #[trigger] (a + rest) {
        let rest = choose|rest: Seq<char>| b == #[trigger] (a + rest);
        assert(b.subrange(0, a.len() as int) =~= a);
    }
    if has_suffix(b, a) {
        let head = b.subrange(0, b.len() - a.len());
        assert(b =~= head + a);
    }
    if exists|head: Seq<char>| b == #[trigger] (head + a) {
        let head = choose|head: Seq<char>| b == #[trigger] (head + a);
        assert(b.subrange(b.len() - a.len(), b.len() as int) =~= a);
    }
}

/// Characters that are dropped at the front are dropped up to the first other
/// one, and none behind it.
pub proof fn law_skip_while(head: Seq<char>, rest: Seq<char>, p: spec_fn(char) -> bool)
    requires
        forall|i: int| 0 <= i < head.len() ==> p(#[trigger] head[i]),
        rest.len() > 0 ==> !p(rest[0]),
    ensures
        skip_while(head + rest, p) == rest,
    decreases head.len(),
{
    let s = head + rest;
    if head.len() > 0 {
        let tail = head.subrange(1, head.len() as int);
        assert(p(head[0]) && s[0] == head[0]);
        assert forall|i: int| 0 <= i < tail.len() implies p(#[trigger] tail[i]) by {
            assert(tail[i] == head[i + 1]);
        }
        law_skip_while(tail, rest, p);
        assert(s.subrange(1, s.len() as int) =~= tail + rest);
    } else {
        assert(s =~= rest);
    }
}

/// Characters that are dropped at the end are dropped down to the last other
/// one, and none before it.
pub proof fn law_drop_tail_while(rest: Seq<char>, tail: Seq<char>, p: spec_fn(char) -> bool)
    requires
        forall|i: int| 0 <= i < tail.len() ==> p(#[trigger] tail[i]),
        rest.len() > 0 ==> !p(rest.last()),
    ensures
        drop_tail_while(rest + tail, p) == rest,
    decreases tail.len(),
{
    let s = rest + tail;
    if tail.len() > 0 {
        let less = tail.drop_last();
        assert(p(tail[tail.len() - 1]) && s.last() == tail[tail.len() - 1]);
        assert forall|i: int| 0 <= i < less.len() implies p(#[trigger] less[i]) by {
            assert(less[i] == tail[i]);
        }
        law_drop_tail_while(rest, less, p);
        assert(s.drop_last() =~= rest + less);
    } else {
        assert(s =~= rest);
    }
}

/// A character is trimmed from the ends of a text, and from nowhere else.
pub proof fn law_trim(head: Seq<char>, rest: Seq<char>, tail: Seq<char>, c: char)
    requires
        forall|i: int| 0 <= i < head.len() ==> #[trigger] head[i] == c,
        forall|i: int| 0 <= i < tail.len() ==> #[trigger] tail[i] == c,
        rest.len() > 0,
        rest[0] != c,
        rest.last() != c,
    ensures
        trim_start(head + rest + tail, c) == rest + tail,
        trim_end(head + rest + tail, c) == head + rest,
        trim_both(head + rest + tail, c) == rest,
{
    assert(head + rest + tail =~= head + (rest + tail));
    assert((rest + tail)[0] == rest[0]);
    law_skip_while(head, rest + tail, is_char(c));
    assert((head + rest).last() == rest.last());
    law_drop_tail_while(head + rest, tail, is_char(c));
    law_drop_tail_while(rest, tail, is_char(c));
}

/// Of a text of one character nothing is left where that is trimmed.
pub proof fn law_trim_all(s: Seq<char>, c: char)
    requires
        forall|i: int| 0 <= i < s.len() ==> #[trigger] s[i] == c,
    ensures
        trim_start(s, c) == Seq::<char>::empty(),
        trim_end(s, c) == Seq::<char>::empty(),
        trim_both(s, c) == Seq::<char>::empty(),
{
    let none = Seq::<char>::empty();
    law_skip_while(s, none, is_char(c));
    law_drop_tail_while(none, s, is_char(c));
    assert(s + none =~= s);
    assert(none + s =~= s);
}

/// Of ASCII the blank and the characters from the tab to the carriage return
/// are white space.
pub proof fn law_white_space_ascii(c: char)
    requires
        c < '\u{80}',
    ensures
        white_space(c) <==> c == ' ' || c == '\t' || c == '\n' || c == '\r' || c == '\u{b}' || c == '\u{c}',
{
}

/// White space is trimmed from the ends of a text, and from nowhere else.
pub proof fn law_trim_space(head: Seq<char>, rest: Seq<char>, tail: Seq<char>)
    requires
        forall|i: int| 0 <= i < head.len() ==> white_space(#[trigger] head[i]),
        forall|i: int| 0 <= i < tail.len() ==> white_space(#[trigger] tail[i]),
        rest.len() > 0 ==> !white_space(rest[0]) && !white_space(rest.last()),
    ensures
        trim_space(head + rest + tail) == rest,
{
    let p = |x: char| white_space(x);
    assert(head + rest + tail =~= head + (rest + tail));
    if rest.len() > 0 {
        assert((rest + tail)[0] == rest[0]);
        law_skip_while(head, rest + tail, p);
        law_drop_tail_while(rest, tail, p);
    } else {
        let all = head + tail;
        assert(head + (rest + tail) =~= all + Seq::<char>::empty());
        assert forall|i: int| 0 <= i < all.len() implies p(#[trigger] all[i]) by {
            if i < head.len() {
                assert(all[i] == head[i]);
            } else {
                assert(all[i] == tail[i - head.len()]);
            }
        }
        law_skip_while(all, Seq::<char>::empty(), p);
        assert(rest =~= Seq::<char>::empty());
    }
}

/// Replacing a character changes its occurrences and leaves all others alone.
pub proof fn law_replace_char(s: Seq<char>, from: char, to: char)
    ensures
        replace_char(s, from, to).len() == s.len(),
        forall|i: int|
            0 <= i < s.len() ==> #[trigger] replace_char(s, from, to)[i] == (if s[i] == from {
                to
            } else {
                s[i]
            }),
        !s.contains(to) ==> replace_char(replace_char(s, from, to), to, from) == s,
{
    if !s.contains(to) {
        let back = replace_char(replace_char(s, from, to), to, from);
        assert forall|i: int| 0 <= i < s.len() implies back[i] == s[i] by {
            assert(s.contains(s[i]));
        }
        assert(back =~= s);
    }
}

/// Pieces, joined with a character between them.
pub open spec fn joined_with(pieces: Seq<Seq<char>>, c: char) -> Seq<char>
    decreases pieces.len(),
{
    if pieces.len() == 0 {
        Seq::empty()
    } else if pieces.len() == 1 {
        pieces[0]
    } else {
        pieces[0] + seq![c] + joined_with(pieces.subrange(1, pieces.len() as int), c)
    }
}

/// The pieces that a text is split into hold the character no more, and joined
/// with it they are the text.
pub proof fn law_split_joins(s: Seq<char>, c: char)
    ensures
        split_on(s, c).len() > 0,
        joined_with(split_on(s, c), c) == s,
        forall|i: int| 0 <= i < split_on(s, c).len() ==> !(#[trigger] split_on(s, c)[i]).contains(c),
    decreases s.len(),
{
    let pieces = split_on(s, c);
    if s.len() > 0 {
        let tail = s.subrange(1, s.len() as int);
        let rest = split_on(tail, c);
        law_split_joins(tail, c);
        assert(s =~= seq![s[0]] + tail);
        if s[0] == c {
            assert(pieces.subrange(1, pieces.len() as int) =~= rest);
            assert(joined_with(pieces, c) =~= s);
            assert forall|i: int| 0 <= i < pieces.len() implies !(#[trigger] pieces[i]).contains(c) by {
                if i > 0 {
                    assert(pieces[i] == rest[i - 1]);
                }
            }
        } else {
            let more = rest.subrange(1, rest.len() as int);
            assert(pieces.subrange(1, pieces.len() as int) =~= more);
            assert(pieces[0] == seq![s[0]] + rest[0]);
            assert(joined_with(pieces, c) =~= seq![s[0]] + joined_with(rest, c));
            assert forall|i: int| 0 <= i < pieces.len() implies !(#[trigger] pieces[i]).contains(c) by {
                if i > 0 {
                    assert(pieces[i] == rest[i]);
                } else if pieces[0].contains(c) {
                    let k = choose|k: int| 0 <= k < pieces[0].len() && pieces[0][k] == c;
                    assert(rest[0][k - 1] == c);
                    assert(rest[0].contains(c));
                }
            }
        }
    }
}

/// Letters of ASCII are the same whatever their case; every other character is
/// only the same as itself.
pub proof fn law_fold_case(a: char, b: char)
    ensures
        fold_case(a) == fold_case(b) <==> a == b || ('A' <= a <= 'Z' && b as int == a as int + 32) || ('A' <= b <= 'Z'
            && a as int == b as int + 32),
{
}

/// Texts are ordered by their bytes: a text comes before what it is the
/// beginning of, and the first byte that differs decides.
pub proof fn law_bytes_in_order(head: Seq<u8>, a: u8, b: u8, x: Seq<u8>, y: Seq<u8>)
    ensures
        bytes_less(head, head + seq![a] + x),
        a < b ==> bytes_less(head + seq![a] + x, head + seq![b] + y),
{
    let n = head.len() as int;
    let s = head + seq![a] + x;
    let t = head + seq![b] + y;
    assert(head.subrange(0, n) =~= head && s.subrange(0, n) =~= head && t.subrange(0, n) =~= head);
    lemma_bytes_less_step(head, s, n);
    lemma_bytes_less_step(s, t, n);
    assert(s.subrange(n, s.len() as int)[0] == a);
    assert(t.subrange(n, t.len() as int)[0] == b);
}

/// A text holds another where it stands somewhere within.
pub proof fn law_contains(a: Seq<char>, pat: Seq<char>, b: Seq<char>)
    ensures
        contains_text(a + pat + b, pat),
        contains_text(a, pat) ==> exists|head: Seq<char>, tail: Seq<char>| a == #[trigger] (head + pat + tail),
{
    let s = a + pat + b;
    assert(s.subrange(a.len() as int, a.len() as int + pat.len()) =~= pat);
    if contains_text(a, pat) {
        let i = choose|i: int| 0 <= i <= a.len() - pat.len() && #[trigger] a.subrange(i, i + pat.len()) == pat;
        let head = a.subrange(0, i);
        let tail = a.subrange(i + pat.len(), a.len() as int);
        assert(a =~= head + pat + tail);
    }
}

/// A line ends at a line feed; a carriage return before that is no part of it.
pub proof fn law_first_line(line: Seq<char>, rest: Seq<char>)
    requires
        !line.contains('\n'),
        rest.len() > 0,
        line.len() > 0 ==> line.last() != '\r',
    ensures
        lines_of(line + seq!['\r'] + seq!['\n'] + rest)[0] == line,
        lines_of(line + seq!['\n'] + rest).len() > 0,
        lines_of(line + seq!['\n'] + rest)[0] == line,
        lines_of(line + seq!['\n'] + rest).subrange(1, lines_of(line + seq!['\n'] + rest).len() as int) == lines_of(rest),
{
    let t = seq!['\n'] + rest;
    assert(line + seq!['\n'] + rest =~= line + t);
    lemma_split_on_head(line, t, '\n');
    assert(t.subrange(1, t.len() as int) =~= rest);
    let after = split_on(rest, '\n');
    law_split_joins(rest, '\n');
    let long = line + seq!['\r'];
    assert(!long.contains('\n')) by {
        if long.contains('\n') {
            let i = choose|i: int| 0 <= i < long.len() && long[i] == '\n';
            assert(line[i] == '\n');
        }
    }
    assert(line + seq!['\r'] + seq!['\n'] + rest =~= long + t);
    lemma_split_on_head(long, t, '\n');
    assert(split_on(long + t, '\n')[0] =~= long);
    assert(without_return(long) =~= line);
    assert(split_on(t, '\n') =~= seq![Seq::<char>::empty()] + after);
    let pieces = split_on(line + t, '\n');
    assert(pieces =~= seq![line] + after);
    let all = lines_of(line + t);
    assert(all[0] == line);
    assert(all.subrange(1, all.len() as int) =~= lines_of(rest)) by {
        assert(pieces.last() == after.last());
    }
}

} // verus!
