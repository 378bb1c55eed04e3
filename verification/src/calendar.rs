//! The calendar: which dates there are, how their days are numbered, and how
//! they are written.

use vstd::prelude::*;
use vstd::utf8::*;

use crate::numeral::digit_char;
use crate::text::{bytes_less, lemma_bytes_less_step, text_less};

verus! {

/// The first day that a date can denote: January 1 of the year -262143.
pub const FIRST_DAY: i32 = -95_746_129;

/// The last day that a date can denote: December 31 of the year 262142.
pub const LAST_DAY: i32 = 95_745_399;

/// The day is one that a date can denote.
pub open spec fn day_in_range(day: int) -> bool {
    FIRST_DAY <= day <= LAST_DAY
}

/// The year has a February 29.
pub open spec fn leap(year: int) -> bool {
    year % 4 == 0 && (year % 100 != 0 || year % 400 == 0)
}

/// The days of a month.
pub open spec fn month_len(year: int, month: int) -> int {
    if month == 2 {
        if leap(year) {
            29
        } else {
            28
        }
    } else if month == 4 || month == 6 || month == 9 || month == 11 {
        30
    } else {
        31
    }
}

/// The days of a year before a month begins.
pub open spec fn before_month(year: int, month: int) -> int
    decreases month,
{
    if month <= 1 {
        0
    } else {
        before_month(year, month - 1) + month_len(year, month - 1)
    }
}

/// The days from the beginning of the year 1 to that of a year.
pub open spec fn before_year(year: int) -> int {
    365 * (year - 1) + (year - 1) / 4 - (year - 1) / 100 + (year - 1) / 400
}

/// There is such a date.
pub open spec fn is_date(year: int, month: int, day: int) -> bool {
    1 <= month <= 12 && 1 <= day <= month_len(year, month)
}

/// The number of a date, January 1 of the year 1 being day 1.
pub open spec fn day_number(year: int, month: int, day: int) -> int {
    before_year(year) + before_month(year, month) + day
}

/// The last `width` decimal digits of a number.
pub open spec fn digits(n: int, width: nat) -> Seq<char>
    decreases width,
{
    if width == 0 {
        Seq::empty()
    } else {
        digits(n / 10, (width - 1) as nat).push(digit_char(n % 10))
    }
}

/// The digits of a year, four of them at least.
pub open spec fn year_digits(n: int) -> Seq<char> {
    if n < 10_000 {
        digits(n, 4)
    } else if n < 100_000 {
        digits(n, 5)
    } else {
        digits(n, 6)
    }
}

/// A year as it is written: with a sign where it has not four digits.
pub open spec fn year_text(year: int) -> Seq<char> {
    if 0 <= year < 10_000 {
        digits(year, 4)
    } else if year < 0 {
        seq!['-'] + year_digits(-year)
    } else {
        seq!['+'] + year_digits(year)
    }
}

/// A date as it is written: year, month and day with hyphens between.
pub open spec fn date_text(year: int, month: int, day: int) -> Seq<char> {
    year_text(year) + seq!['-'] + digits(month, 2) + seq!['-'] + digits(day, 2)
}

/// The text is that of the date, and the date is in range.
pub open spec fn writes(text: Seq<char>, date: (int, int, int)) -> bool {
    &&& is_date(date.0, date.1, date.2)
    &&& day_in_range(day_number(date.0, date.1, date.2))
    &&& text == date_text(date.0, date.1, date.2)
}

/// The number of the date that a text is the written form of.
pub open spec fn written_day(text: Seq<char>) -> Option<i32> {
    if exists|date: (int, int, int)| writes(text, date) {
        let date = choose|date: (int, int, int)| writes(text, date);
        Some(day_number(date.0, date.1, date.2) as i32)
    } else {
        None
    }
}

/// A decimal digit of ASCII.
pub open spec fn is_digit(c: char) -> bool {
    '0' <= c <= '9'
}

/// A letter of ASCII.
pub open spec fn is_letter(c: char) -> bool {
    ('a' <= c <= 'z') || ('A' <= c <= 'Z')
}

/// The text has the form of a date: four digits, two and two, with hyphens
/// between.
pub open spec fn has_date_form(text: Seq<char>) -> bool {
    &&& text.len() == 10
    &&& text[4] == '-' && text[7] == '-'
    &&& forall|i: int| 0 <= i < 10 && i != 4 && i != 7 ==> is_digit(#[trigger] text[i])
}

/// The text can denote no date but one that it is the written form of: it has
/// the form of a date, or it holds a letter, or it holds no digit.
pub open spec fn strict(text: Seq<char>) -> bool {
    ||| has_date_form(text)
    ||| exists|i: int| 0 <= i < text.len() && is_letter(#[trigger] text[i])
    ||| forall|i: int| 0 <= i < text.len() ==> !is_digit(#[trigger] text[i])
}

/// The date has the number.
pub open spec fn numbered(date: (int, int, int), day: int) -> bool {
    is_date(date.0, date.1, date.2) && day_number(date.0, date.1, date.2) == day
}

/// The written form of the date with a number.
pub open spec fn day_text(day: i32) -> Seq<char> {
    let date = choose|date: (int, int, int)| numbered(date, day as int);
    date_text(date.0, date.1, date.2)
}

proof fn lemma_months(year: int)
    ensures
        before_month(year, 1) == 0,
        before_month(year, 2) == 31,
        before_month(year, 3) == 31 + month_len(year, 2),
        before_month(year, 4) == 62 + month_len(year, 2),
        before_month(year, 5) == 92 + month_len(year, 2),
        before_month(year, 6) == 123 + month_len(year, 2),
        before_month(year, 7) == 153 + month_len(year, 2),
        before_month(year, 8) == 184 + month_len(year, 2),
        before_month(year, 9) == 215 + month_len(year, 2),
        before_month(year, 10) == 245 + month_len(year, 2),
        before_month(year, 11) == 276 + month_len(year, 2),
        before_month(year, 12) == 306 + month_len(year, 2),
{
    reveal_with_fuel(before_month, 12);
}

/// A year is as long as its months.
proof fn lemma_year_len(year: int)
    ensures
        before_year(year + 1) == before_year(year) + 337 + month_len(year, 2),
{
}

proof fn lemma_within_year(year: int, month: int, day: int)
    requires
        is_date(year, month, day),
    ensures
        before_year(year) < day_number(year, month, day) <= before_year(year + 1),
{
    lemma_months(year);
    lemma_year_len(year);
}

proof fn lemma_years_grow(a: int, b: int)
    requires
        a <= b,
    ensures
        before_year(a) <= before_year(b),
{
}

/// Days are numbered in the order of the calendar.
pub proof fn law_days_in_order(y1: int, m1: int, d1: int, y2: int, m2: int, d2: int)
    requires
        is_date(y1, m1, d1),
        is_date(y2, m2, d2),
        y1 < y2 || (y1 == y2 && m1 < m2) || (y1 == y2 && m1 == m2 && d1 < d2),
    ensures
        day_number(y1, m1, d1) < day_number(y2, m2, d2),
{
    lemma_within_year(y1, m1, d1);
    lemma_within_year(y2, m2, d2);
    if y1 < y2 {
        lemma_years_grow(y1 + 1, y2);
    } else {
        lemma_months(y1);
    }
}

/// The year that a day lies in.
proof fn lemma_year_of(day: int) -> (year: int)
    ensures
        before_year(year) < day <= before_year(year + 1),
    decreases
            if day >= 1 {
                day
            } else {
                1 - day
            },
{
    if day == 1 {
        1
    } else if day > 1 {
        let y = lemma_year_of(day - 1);
        lemma_year_len(y + 1);
        if day <= before_year(y + 1) {
            y
        } else {
            y + 1
        }
    } else if day == 0 {
        0
    } else {
        let y = lemma_year_of(day + 1);
        lemma_year_len(y - 1);
        if before_year(y) < day {
            y
        } else {
            y - 1
        }
    }
}

/// Every day has a date.
proof fn lemma_date_of(day: int) -> (date: (int, int, int))
    ensures
        numbered(date, day),
{
    let year = lemma_year_of(day);
    lemma_year_len(year);
    lemma_months(year);
    let n = day - before_year(year);
    let february = month_len(year, 2);
    let month: int = if n <= 31 {
        1
    } else if n <= 31 + february {
        2
    } else if n <= 62 + february {
        3
    } else if n <= 92 + february {
        4
    } else if n <= 123 + february {
        5
    } else if n <= 153 + february {
        6
    } else if n <= 184 + february {
        7
    } else if n <= 215 + february {
        8
    } else if n <= 245 + february {
        9
    } else if n <= 276 + february {
        10
    } else if n <= 306 + february {
        11
    } else {
        12
    };
    (year, month, n - before_month(year, month))
}

/// The number has no more digits than that.
spec fn fits(n: int, width: nat) -> bool
    decreases width,
{
    if width == 0 {
        n == 0
    } else {
        n >= 0 && fits(n / 10, (width - 1) as nat)
    }
}

proof fn lemma_fits()
    ensures
        forall|n: int| 0 <= n < 100 ==> #[trigger] fits(n, 2),
        forall|n: int| 0 <= n < 10_000 ==> #[trigger] fits(n, 4),
        forall|n: int| 0 <= n < 100_000 ==> #[trigger] fits(n, 5),
        forall|n: int| 0 <= n < 1_000_000 ==> #[trigger] fits(n, 6),
{
    reveal_with_fuel(fits, 7);
}

proof fn lemma_digits(n: int, width: nat)
    ensures
        digits(n, width).len() == width,
        forall|i: int| 0 <= i < width ==> '0' <= #[trigger] digits(n, width)[i] <= '9',
    decreases width,
{
    if width > 0 {
        lemma_digits(n / 10, (width - 1) as nat);
        let head = digits(n / 10, (width - 1) as nat);
        assert forall|i: int| 0 <= i < width implies '0' <= #[trigger] digits(n, width)[i] <= '9' by {
            if i < width - 1 {
                assert(digits(n, width)[i] == head[i]);
            }
        }
    }
}

/// Where the digits of two numbers first differ.
proof fn lemma_digits_less(a: int, b: int, width: nat) -> (at: int)
    requires
        fits(a, width),
        fits(b, width),
        a < b,
    ensures
        0 <= at < width,
        digits(a, width).len() == width,
        digits(b, width).len() == width,
        digits(a, width)[at] < digits(b, width)[at],
        forall|i: int| 0 <= i < at ==> #[trigger] digits(a, width)[i] == digits(b, width)[i],
    decreases width,
{
    lemma_digits(a, width);
    lemma_digits(b, width);
    let w = (width - 1) as nat;
    let x = digits(a / 10, w);
    let y = digits(b / 10, w);
    lemma_digits(a / 10, w);
    lemma_digits(b / 10, w);
    assert(digits(a, width) == x.push(digit_char(a % 10)));
    assert(digits(b, width) == y.push(digit_char(b % 10)));
    if a / 10 < b / 10 {
        let at = lemma_digits_less(a / 10, b / 10, w);
        assert(x[at] == digits(a, width)[at] && y[at] == digits(b, width)[at]);
        assert forall|i: int| 0 <= i < at implies #[trigger] digits(a, width)[i] == digits(b, width)[i] by {
            assert(x[i] == y[i]);
        }
        at
    } else {
        w as int
    }
}

proof fn lemma_digits_injective(a: int, b: int, width: nat)
    requires
        fits(a, width),
        fits(b, width),
        digits(a, width) == digits(b, width),
    ensures
        a == b,
{
    if a < b {
        let at = lemma_digits_less(a, b, width);
    } else if b < a {
        let at = lemma_digits_less(b, a, width);
    }
}

proof fn lemma_year_text(year: int)
    requires
        -1_000_000 < year < 1_000_000,
    ensures
        4 <= year_text(year).len() <= 7,
        forall|i: int| 0 <= i < year_text(year).len() ==> #[trigger] year_text(year)[i] != '/',
        0 <= year < 10_000 <==> year_text(year).len() == 4,
        year < 0 ==> year_text(year)[0] == '-',
        year >= 10_000 ==> year_text(year)[0] == '+',
{
    let n = if year < 0 {
        -year
    } else {
        year
    };
    lemma_digits(n, 4);
    lemma_digits(n, 5);
    lemma_digits(n, 6);
    assert forall|i: int| 0 <= i < year_text(year).len() implies #[trigger] year_text(year)[i] != '/' by {
        if !(0 <= year < 10_000) && i > 0 {
            assert(year_text(year)[i] == year_digits(n)[i - 1]);
        }
    }
}

proof fn lemma_year_text_injective(a: int, b: int)
    requires
        -1_000_000 < a < 1_000_000,
        -1_000_000 < b < 1_000_000,
        year_text(a) == year_text(b),
    ensures
        a == b,
{
    lemma_year_text(a);
    lemma_year_text(b);
    lemma_fits();
    if 0 <= a < 10_000 {
        lemma_digits_injective(a, b, 4);
    } else {
        let m = if a < 0 {
            -a
        } else {
            a
        };
        let n = if b < 0 {
            -b
        } else {
            b
        };
        let x = year_digits(m);
        let y = year_digits(n);
        lemma_digits(m, 4);
        lemma_digits(m, 5);
        lemma_digits(m, 6);
        lemma_digits(n, 4);
        lemma_digits(n, 5);
        lemma_digits(n, 6);
        assert(year_text(a).subrange(1, year_text(a).len() as int) =~= x);
        assert(year_text(b).subrange(1, year_text(b).len() as int) =~= y);
        if x.len() == 4 {
            lemma_digits_injective(m, n, 4);
        } else if x.len() == 5 {
            lemma_digits_injective(m, n, 5);
        } else {
            lemma_digits_injective(m, n, 6);
        }
    }
}

/// A date in range has a year of at most six digits.
proof fn lemma_year_in_range(year: int, month: int, day: int)
    requires
        is_date(year, month, day),
        day_in_range(day_number(year, month, day)),
    ensures
        -1_000_000 < year < 1_000_000,
{
    lemma_within_year(year, month, day);
    if year >= 1_000_000 {
        lemma_years_grow(1_000_000, year);
    }
    if year <= -1_000_000 {
        lemma_years_grow(year + 1, -999_999);
    }
}

/// The parts of a written date.
proof fn lemma_date_text(year: int, month: int, day: int)
    ensures
        ({
            let t = date_text(year, month, day);
            let n = year_text(year).len() as int;
            &&& t.len() == n + 6
            &&& t.subrange(0, n) == year_text(year)
            &&& t[n] == '-' && t[n + 3] == '-'
            &&& t.subrange(n + 1, n + 3) == digits(month, 2)
            &&& t.subrange(n + 4, n + 6) == digits(day, 2)
        }),
{
    lemma_digits(month, 2);
    lemma_digits(day, 2);
    let t = date_text(year, month, day);
    let n = year_text(year).len() as int;
    assert(t.subrange(0, n) =~= year_text(year));
    assert(t.subrange(n + 1, n + 3) =~= digits(month, 2));
    assert(t.subrange(n + 4, n + 6) =~= digits(day, 2));
}

/// A text is that of one date at most.
proof fn lemma_one_date(text: Seq<char>, a: (int, int, int), b: (int, int, int))
    requires
        writes(text, a),
        writes(text, b),
    ensures
        a == b,
{
    lemma_year_in_range(a.0, a.1, a.2);
    lemma_year_in_range(b.0, b.1, b.2);
    lemma_date_text(a.0, a.1, a.2);
    lemma_date_text(b.0, b.1, b.2);
    lemma_fits();
    lemma_year_text_injective(a.0, b.0);
    lemma_digits_injective(a.1, b.1, 2);
    lemma_digits_injective(a.2, b.2, 2);
}

/// The written form of a date is that of the day with its number, and reads
/// back as it.
pub proof fn law_date_roundtrip(year: int, month: int, day: int)
    requires
        is_date(year, month, day),
        day_in_range(day_number(year, month, day)),
    ensures
        day_text(day_number(year, month, day) as i32) == date_text(year, month, day),
        written_day(date_text(year, month, day)) == Some(day_number(year, month, day) as i32),
{
    let date = (year, month, day);
    let n = day_number(year, month, day);
    assert(numbered(date, n));
    let number = n as i32;
    let shown = choose|date: (int, int, int)| numbered(date, number as int);
    assert(numbered(shown, n));
    if shown != date {
        if shown.0 < year || (shown.0 == year && shown.1 < month) || (shown.0 == year && shown.1 == month && shown.2
            < day) {
            law_days_in_order(shown.0, shown.1, shown.2, year, month, day);
        } else {
            law_days_in_order(year, month, day, shown.0, shown.1, shown.2);
        }
    }
    let text = date_text(year, month, day);
    assert(writes(text, date));
    let read = choose|d: (int, int, int)| writes(text, d);
    lemma_one_date(text, read, date);
}

/// A text in the form of a date that there is not is the written form of none.
pub proof fn law_no_such_date(year: int, month: int, day: int)
    requires
        0 <= year < 10_000,
        0 <= month < 100,
        0 <= day < 100,
        !is_date(year, month, day),
    ensures
        has_date_form(date_text(year, month, day)),
        written_day(date_text(year, month, day)) is None,
{
    let text = date_text(year, month, day);
    lemma_date_text(year, month, day);
    lemma_digits(year, 4);
    lemma_digits(month, 2);
    lemma_digits(day, 2);
    assert forall|i: int| 0 <= i < 10 && i != 4 && i != 7 implies is_digit(#[trigger] text[i]) by {
        if i < 4 {
            assert(text.subrange(0, 4)[i] == text[i]);
        } else if i < 7 {
            assert(text.subrange(5, 7)[i - 5] == text[i]);
        } else {
            assert(text.subrange(8, 10)[i - 8] == text[i]);
        }
    }
    if exists|date: (int, int, int)| writes(text, date) {
        let d = choose|date: (int, int, int)| writes(text, date);
        lemma_year_in_range(d.0, d.1, d.2);
        lemma_year_text(d.0);
        lemma_date_text(d.0, d.1, d.2);
        lemma_fits();
        lemma_year_text_injective(year, d.0);
        lemma_digits_injective(month, d.1, 2);
        lemma_digits_injective(day, d.2, 2);
    }
}

/// The written form of a date holds a digit, and no letter.
pub proof fn law_written_chars(text: Seq<char>)
    requires
        written_day(text) is Some,
    ensures
        exists|i: int| 0 <= i < text.len() && is_digit(#[trigger] text[i]),
        forall|i: int| 0 <= i < text.len() ==> !is_letter(#[trigger] text[i]),
{
    let d = choose|date: (int, int, int)| writes(text, date);
    lemma_year_in_range(d.0, d.1, d.2);
    lemma_year_text(d.0);
    lemma_date_text(d.0, d.1, d.2);
    lemma_digits(d.1, 2);
    lemma_digits(d.2, 2);
    let year = year_text(d.0);
    let n = year.len() as int;
    let abs = if d.0 < 0 {
        -d.0
    } else {
        d.0
    };
    lemma_digits(abs, 4);
    lemma_digits(abs, 5);
    lemma_digits(abs, 6);
    assert(text.subrange(n + 4, n + 6)[0] == text[n + 4]);
    assert(is_digit(text[n + 4]));
    assert forall|i: int| 0 <= i < text.len() implies !is_letter(#[trigger] text[i]) by {
        if i < n {
            assert(text.subrange(0, n)[i] == text[i]);
            if !(0 <= d.0 < 10_000) && i > 0 {
                assert(year[i] == year_digits(abs)[i - 1]);
            }
        } else if n + 1 <= i < n + 3 {
            assert(text.subrange(n + 1, n + 3)[i - n - 1] == text[i]);
        } else if n + 4 <= i {
            assert(text.subrange(n + 4, n + 6)[i - n - 4] == text[i]);
        }
    }
}

/// The text of a day holds no slash and reads back as the day.
pub proof fn law_day_text(day: i32)
    requires
        day_in_range(day as int),
    ensures
        !day_text(day).contains('/'),
        written_day(day_text(day)) == Some(day),
{
    let date = lemma_date_of(day as int);
    law_date_roundtrip(date.0, date.1, date.2);
    lemma_year_in_range(date.0, date.1, date.2);
    lemma_year_text(date.0);
    lemma_date_text(date.0, date.1, date.2);
    lemma_digits(date.1, 2);
    lemma_digits(date.2, 2);
    let t = date_text(date.0, date.1, date.2);
    let n = year_text(date.0).len() as int;
    assert forall|i: int| 0 <= i < t.len() implies #[trigger] t[i] != '/' by {
        if i < n {
            assert(t.subrange(0, n)[i] == t[i]);
        } else if n + 1 <= i < n + 3 {
            assert(t.subrange(n + 1, n + 3)[i - n - 1] == t[i]);
        } else if n + 4 <= i {
            assert(t.subrange(n + 4, n + 6)[i - n - 4] == t[i]);
        }
    }
}

proof fn lemma_ascii_date(year: int, month: int, day: int)
    requires
        0 <= year < 10_000,
    ensures
        is_ascii_chars(date_text(year, month, day)),
        date_text(year, month, day).len() == 10,
{
    lemma_digits(year, 4);
    lemma_digits(month, 2);
    lemma_digits(day, 2);
}

proof fn lemma_text_less_at(a: Seq<char>, b: Seq<char>, at: int)
    requires
        is_ascii_chars(a),
        is_ascii_chars(b),
        0 <= at < a.len(),
        at < b.len(),
        forall|i: int| 0 <= i < at ==> #[trigger] a[i] == b[i],
        a[at] < b[at],
    ensures
        text_less(a, b),
{
    is_ascii_chars_encode_utf8(a);
    is_ascii_chars_encode_utf8(b);
    let x = encode_utf8(a);
    let y = encode_utf8(b);
    assert(x.subrange(0, at) =~= y.subrange(0, at)) by {
        assert forall|i: int| 0 <= i < at implies x[i] == y[i] by {
            assert(a[i] == b[i]);
        }
    }
    lemma_bytes_less_step(x, y, at);
    assert(x.subrange(at, x.len() as int)[0] == x[at]);
    assert(y.subrange(at, y.len() as int)[0] == y[at]);
}

/// The texts of dates sort as the dates do, as long as their years have four
/// digits: the latest partition is the last one by name.
pub proof fn law_texts_in_order(y1: int, m1: int, d1: int, y2: int, m2: int, d2: int)
    requires
        is_date(y1, m1, d1),
        is_date(y2, m2, d2),
        0 <= y1 < 10_000,
        0 <= y2 < 10_000,
        day_number(y1, m1, d1) < day_number(y2, m2, d2),
    ensures
        text_less(date_text(y1, m1, d1), date_text(y2, m2, d2)),
{
    let a = date_text(y1, m1, d1);
    let b = date_text(y2, m2, d2);
    lemma_fits();
    lemma_ascii_date(y1, m1, d1);
    lemma_ascii_date(y2, m2, d2);
    lemma_date_text(y1, m1, d1);
    lemma_date_text(y2, m2, d2);
    lemma_digits(y1, 4);
    lemma_digits(y2, 4);
    lemma_digits(m1, 2);
    lemma_digits(m2, 2);
    lemma_digits(d1, 2);
    lemma_digits(d2, 2);
    if y1 > y2 || (y1 == y2 && m1 > m2) || (y1 == y2 && m1 == m2 && d1 > d2) {
        law_days_in_order(y2, m2, d2, y1, m1, d1);
    }
    let at: int = if y1 < y2 {
        lemma_digits_less(y1, y2, 4)
    } else if m1 < m2 {
        5 + lemma_digits_less(m1, m2, 2)
    } else {
        8 + lemma_digits_less(d1, d2, 2)
    };
    assert forall|i: int| 0 <= i < 4 implies a[i] == #[trigger] digits(y1, 4)[i] && b[i] == digits(y2, 4)[i] by {
        assert(a.subrange(0, 4)[i] == a[i]);
        assert(b.subrange(0, 4)[i] == b[i]);
    }
    assert forall|i: int| 0 <= i < 2 implies a[5 + i] == #[trigger] digits(m1, 2)[i] && b[5 + i] == digits(m2, 2)[i] by {
        assert(a.subrange(5, 7)[i] == a[5 + i]);
        assert(b.subrange(5, 7)[i] == b[5 + i]);
    }
    assert forall|i: int| 0 <= i < 2 implies a[8 + i] == #[trigger] digits(d1, 2)[i] && b[8 + i] == digits(d2, 2)[i] by {
        assert(a.subrange(8, 10)[i] == a[8 + i]);
        assert(b.subrange(8, 10)[i] == b[8 + i]);
    }
    assert forall|i: int| 0 <= i < at implies #[trigger] a[i] == b[i] by {
        if i < 4 {
            assert(digits(y1, 4)[i] == digits(y2, 4)[i]);
        } else if 5 <= i < 7 {
            assert(digits(m1, 2)[i - 5] == digits(m2, 2)[i - 5]);
        } else if 8 <= i {
            assert(digits(d1, 2)[i - 8] == digits(d2, 2)[i - 8]);
        }
    }
    assert(a[at] < b[at]) by {
        if y1 < y2 {
            assert(digits(y1, 4)[at] < digits(y2, 4)[at]);
        } else if m1 < m2 {
            assert(digits(m1, 2)[at - 5] < digits(m2, 2)[at - 5]);
        } else {
            assert(digits(d1, 2)[at - 8] < digits(d2, 2)[at - 8]);
        }
    }
    lemma_text_less_at(a, b, at);
}

/// The numbers of some days, from which those of all others follow: the first
/// of January of the year one, and the day that Unix time begins with.
pub proof fn law_days_counted()
    ensures
        day_number(1, 1, 1) == 1,
        day_number(1970, 1, 1) == 719_163,
        forall|year: int, month: int, day: int| #[trigger]
            day_number(year, month, day + 1) == day_number(year, month, day) + 1,
{
}

/// The day after the last of a month is the first of the next, and the day
/// after the last of a year the first of the next. February has 29 days in every
/// fourth year, but not in every hundredth that is no four hundredth.
pub proof fn law_calendar(year: int, month: int)
    requires
        1 <= month <= 12,
    ensures
        month < 12 ==> day_number(year, month + 1, 1) == day_number(year, month, month_len(year, month)) + 1,
        month == 12 ==> day_number(year + 1, 1, 1) == day_number(year, 12, 31) + 1,
        month_len(year, 2) == (if year % 4 == 0 && (year % 100 != 0 || year % 400 == 0) {
            29int
        } else {
            28int
        }),
        month == 1 || month == 3 || month == 5 || month == 7 || month == 8 || month == 10 || month == 12 ==> month_len(
            year,
            month,
        ) == 31,
        month == 4 || month == 6 || month == 9 || month == 11 ==> month_len(year, month) == 30,
{
    lemma_months(year);
    lemma_months(year + 1);
    lemma_year_len(year);
}

/// A date of a year of four digits is written with ten characters: the digits of
/// the year, the month and the day, with hyphens between.
pub proof fn law_date_spelled(year: int, month: int, day: int)
    requires
        0 <= year < 10_000,
        is_date(year, month, day),
    ensures
        date_text(year, month, day) == seq![
            digit_char(year / 1000),
            digit_char(year / 100 % 10),
            digit_char(year / 10 % 10),
            digit_char(year % 10),
            '-',
            digit_char(month / 10),
            digit_char(month % 10),
            '-',
            digit_char(day / 10),
            digit_char(day % 10),
        ],
{
    lemma_two_digits(month);
    lemma_two_digits(day);
    lemma_two_digits(year);
    lemma_two_digits(year / 100);
    reveal_with_fuel(digits, 3);
    let y = digits(year, 4);
    assert(y =~= digits(year / 10 / 10, 2) + seq![digit_char(year / 10 % 10), digit_char(year % 10)]);
    assert(year / 10 / 10 == year / 100);
    assert(year / 100 / 10 == year / 1000);
    assert(date_text(year, month, day) =~= seq![
        y[0],
        y[1],
        y[2],
        y[3],
        '-',
        digit_char(month / 10),
        digit_char(month % 10),
        '-',
        digit_char(day / 10),
        digit_char(day % 10),
    ]);
}

proof fn lemma_two_digits(n: int)
    requires
        n >= 0,
    ensures
        digits(n, 2) == seq![digit_char(n / 10 % 10), digit_char(n % 10)],
{
    reveal_with_fuel(digits, 3);
    assert(digits(n / 10 / 10, 0) =~= Seq::<char>::empty());
    assert(digits(n, 2) =~= seq![digit_char(n / 10 % 10), digit_char(n % 10)]);
}

} // verus!
