//! Calendar dates: the day partitions of the trash, and their text form.

use chrono::Datelike;
use vstd::prelude::*;
use vstd::string::*;

use crate::calendar::{
    date_text, day_in_range, day_text, is_date, is_digit, is_letter, law_day_text, law_no_such_date, law_written_chars,
    strict, written_day, FIRST_DAY, LAST_DAY,
};

verus! {

/// The number of January 1, 1970.
pub const EPOCH_DAY: i32 = 719_163;

/// The seconds of a day.
pub const DAY_SECS: i64 = 86_400;

/// The day that `chrono::NaiveDate::parse_from_str` reads in the format
/// `%Y-%m-%d` from a text that is not the written form of a date, if it
/// accepts the text: it is lenient on leading zeros and white space.
pub uninterp spec fn loose_day(text: Seq<char>) -> Option<i32>;

/// The day that a text denotes: that of the date that it is the written form
/// of, or what else is read from it. From a text in the form of a date, with a
/// letter or without a digit nothing else is read.
pub open spec fn parsed_day(text: Seq<char>) -> Option<i32> {
    match written_day(text) {
        Some(day) => Some(day),
        None => if strict(text) {
            None
        } else {
            loose_day(text)
        },
    }
}

/// A text in the form of a date that there is not denotes no day.
pub proof fn law_no_such_day(year: int, month: int, day: int)
    requires
        0 <= year < 10_000,
        0 <= month < 100,
        0 <= day < 100,
        !is_date(year, month, day),
    ensures
        parsed_day(date_text(year, month, day)) is None,
{
    law_no_such_date(year, month, day);
}

/// A text with a letter or without a digit denotes no day.
pub proof fn law_no_day_in_words(text: Seq<char>)
    requires
        (exists|i: int| 0 <= i < text.len() && is_letter(#[trigger] text[i])) || (forall|i: int|
            0 <= i < text.len() ==> !is_digit(#[trigger] text[i])),
    ensures
        parsed_day(text) is None,
{
    if written_day(text) is Some {
        law_written_chars(text);
    }
}

/// `chrono::NaiveDate::parse_from_str` with the format `%Y-%m-%d`; the date is
/// taken by its day number, which `num_days_from_ce` gives. It reads the
/// written form of every date as that date. It takes nothing but digits, signs,
/// hyphens and white space, needs a digit, and takes at most four digits of a
/// year without a sign and two of a month or a day, so that from a text in the
/// form of a date no other date is read. Every date lies between the first and
/// the last day.
#[verifier::external_body]
fn parse_day(text: &str) -> (r: Option<i32>)
    ensures
        r == match written_day(text@) {
            Some(day) => Some(day),
            None => if strict(text@) {
                None
            } else {
                loose_day(text@)
            },
        },
        r matches Some(day) ==> day_in_range(day as int),
{
    match chrono::NaiveDate::parse_from_str(text, "%Y-%m-%d") {
        Ok(date) => Some(date.num_days_from_ce()),
        Err(_) => None,
    }
}

/// The `Display` form of the `chrono::NaiveDate` with the given day number,
/// which `from_num_days_from_ce_opt` gives for every day in range: year, month
/// and day with hyphens between, the month and the day with two digits and the
/// year with four, or with a sign where four digits do not tell it.
#[verifier::external_body]
fn show_day(day: i32) -> (r: String)
    requires
        day_in_range(day as int),
    ensures
        r@ == day_text(day),
{
    chrono::NaiveDate::from_num_days_from_ce_opt(day).unwrap().to_string()
}

/// A calendar date.
#[derive(Debug, Clone, Copy, PartialEq, Eq, PartialOrd, Ord, Structural)]
pub struct Date {
    day: i32,
}

impl Date {
    /// The number of the day, January 1 of the year 1 being day 1.
    pub closed spec fn day(&self) -> int {
        self.day as int
    }

    /// Every date is one that the calendar can show.
    #[verifier::type_invariant]
    closed spec fn calendar_day(&self) -> bool {
        day_in_range(self.day as int)
    }

    /// The day as a machine number.
    pub open spec fn number(&self) -> i32 {
        self.day() as i32
    }

    /// The machine number of the day is the number of the day.
    pub proof fn lemma_number(&self)
        ensures
            self.number() == self.day(),
    {
    }

    /// A date is determined by its day.
    pub proof fn lemma_same_day(a: Date, b: Date)
        requires
            a.day() == b.day(),
        ensures
            a == b,
    {
    }

    /// The date that a text in the form `YYYY-MM-DD` denotes.
    pub fn parse(text: &str) -> (r: Option<Date>)
        ensures
            r is Some <==> parsed_day(text@) is Some,
            r matches Some(d) ==> parsed_day(text@) == Some(d.number()) && day_in_range(d.day()),
    {
        match parse_day(text) {
            Some(day) => Some(Date { day }),
            None => None,
        }
    }

    /// The text form of the date. It holds no slash and reads back as the date.
    pub fn text(&self) -> (r: String)
        ensures
            r@ == day_text(self.number()),
            !r@.contains('/'),
            parsed_day(r@) == Some(self.number()),
    {
        proof {
            use_type_invariant(self);
            law_day_text(self.day);
        }
        show_day(self.day)
    }

    /// Whether this date is later than the other.
    pub fn later_than(&self, other: &Date) -> (r: bool)
        ensures
            r == (self.day() > other.day()),
    {
        self.day > other.day
    }

    /// Whether both are the same date.
    pub fn same_as(&self, other: &Date) -> (r: bool)
        ensures
            r == (self.day() == other.day()),
            r == (*self == *other),
    {
        self.day == other.day
    }

    /// The date `n` days before, if the calendar reaches that far.
    pub fn minus_days(&self, n: u64) -> (r: Option<Date>)
        ensures
            r is Some <==> n <= i32::MAX && day_in_range(self.day() - n),
            r matches Some(d) ==> d.day() == self.day() - n,
    {
        proof {
            use_type_invariant(self);
        }
        if n > i32::MAX as u64 {
            return None;
        }
        let day: i64 = self.day as i64 - n as i64;
        if day < FIRST_DAY as i64 {
            None
        } else {
            Some(Date { day: day as i32 })
        }
    }

    /// The UTC date of a point in time, in seconds since the epoch.
    pub fn of_unix(secs: i64) -> (r: Option<Date>)
        ensures
            r is Some <==> day_in_range(EPOCH_DAY + secs as int / DAY_SECS as int),
            r matches Some(d) ==> d.day() == EPOCH_DAY + secs as int / DAY_SECS as int,
    {
        let whole: i64 = secs / DAY_SECS;
        let days: i64 = if secs % DAY_SECS < 0 {
            whole - 1
        } else {
            whole
        };
        let day: i64 = EPOCH_DAY as i64 + days;
        if day < FIRST_DAY as i64 || day > LAST_DAY as i64 {
            None
        } else {
            Some(Date { day: day as i32 })
        }
    }

    /// The first second of the date in UTC, since the epoch.
    pub fn midnight(&self) -> (r: i64)
        ensures
            r == (self.day() - EPOCH_DAY) * DAY_SECS,
    {
        proof {
            use_type_invariant(self);
        }
        (self.day as i64 - EPOCH_DAY as i64) * DAY_SECS
    }
}

/// The UTC date under which something that is deleted now is filed, `secs`
/// being the seconds since the epoch.
pub fn date_partition_utc(secs: i64) -> (r: Option<Date>)
    ensures
        r is Some <==> day_in_range(EPOCH_DAY + secs as int / DAY_SECS as int),
        r matches Some(d) ==> d.day() == EPOCH_DAY + secs as int / DAY_SECS as int,
{
    Date::of_unix(secs)
}

} // verus!
