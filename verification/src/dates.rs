//! The library's calendar model: ISO `YYYY-MM-DD` tokens, proleptic Gregorian
//! validity, a linear day index for consecutiveness tests, and day-of-week
//! computation (Sunday-start convention).
use vstd::prelude::*;

use crate::chars::{char_digit_val, char_is_digit, digit_val, is_digit, to_char_vec};

verus! {

/// A calendar date, year `0..=9999`, month `1..=12`, day bounded by the
/// month's length.
#[derive(Debug, Clone, Copy, PartialEq, Eq, Structural)]
pub struct Date {
    pub year: u16,
    pub month: u8,
    pub day: u8,
}

/// Gregorian leap-year rule.
pub open spec fn is_leap(y: int) -> bool {
    y % 4 == 0 && (y % 100 != 0 || y % 400 == 0)
}

/// Length of a month in the given year.
pub open spec fn month_len(y: int, m: int) -> int {
    if m == 2 {
        if is_leap(y) {
            29
        } else {
            28
        }
    } else if m == 4 || m == 6 || m == 9 || m == 11 {
        30
    } else {
        31
    }
}

impl Date {
    /// A well-formed calendar date.
    pub open spec fn valid(self) -> bool {
        &&& self.year <= 9999
        &&& 1 <= self.month <= 12
        &&& 1 <= self.day <= month_len(self.year as int, self.month as int)
    }
}

/// Days in all years before year `y` (counting from year 0).
pub open spec fn days_before_year(y: int) -> int
    decreases y,
{
    if y <= 0 {
        0
    } else {
        days_before_year(y - 1) + if is_leap(y - 1) {
            366int
        } else {
            365int
        }
    }
}

/// Days in all months of year `y` before month `m`.
pub open spec fn days_before_month(y: int, m: int) -> int
    decreases m,
{
    if m <= 1 {
        0
    } else {
        days_before_month(y, m - 1) + month_len(y, m - 1)
    }
}

/// Linear day index: the number of days from 0000-01-01 to the given date.
/// Two dates are consecutive exactly when their indices differ by one.
pub open spec fn day_index(y: int, m: int, d: int) -> int {
    days_before_year(y) + days_before_month(y, m) + (d - 1)
}

/// Day of week, `0` = Sunday through `6` = Saturday.
/// (0000-01-01 of the proleptic Gregorian calendar is a Saturday.)
pub open spec fn weekday_of(y: int, m: int, d: int) -> int {
    (day_index(y, m, d) + 6) % 7
}

pub open spec fn date_index(date: Date) -> int {
    day_index(date.year as int, date.month as int, date.day as int)
}

pub open spec fn date_weekday(date: Date) -> int {
    weekday_of(date.year as int, date.month as int, date.day as int)
}

proof fn lemma_days_before_year_bounds(y: int)
    requires
        0 <= y,
    ensures
        365 * y <= days_before_year(y) <= 366 * y,
    decreases y,
{
    if y > 0 {
        lemma_days_before_year_bounds(y - 1);
    }
}

proof fn lemma_days_before_month_bounds(y: int, m: int)
    requires
        1 <= m <= 13,
    ensures
        0 <= days_before_month(y, m) <= 31 * (m - 1),
    decreases m,
{
    if m > 1 {
        lemma_days_before_month_bounds(y, m - 1);
    }
}

/// Executable leap-year test.
pub fn is_leap_year(y: u16) -> (b: bool)
    ensures
        b == is_leap(y as int),
{
    y % 4 == 0 && (y % 100 != 0 || y % 400 == 0)
}

/// Executable month length.
pub fn month_length(y: u16, m: u8) -> (n: u8)
    requires
        1 <= m <= 12,
    ensures
        n as int == month_len(y as int, m as int),
{
    if m == 2 {
        if is_leap_year(y) {
            29
        } else {
            28
        }
    } else if m == 4 || m == 6 || m == 9 || m == 11 {
        30
    } else {
        31
    }
}

/// Executable day index of a valid date.
#[verifier::loop_isolation(false)]
pub fn day_index_of(date: &Date) -> (n: u32)
    requires
        date.valid(),
    ensures
        n as int == date_index(*date),
        n < 3700000,
{
    let mut acc: u32 = 0;
    let mut y: u16 = 0;
    while y < date.year
        invariant
            y <= date.year,
            acc as int == days_before_year(y as int),
        decreases date.year as int - y as int,
    {
        proof {
            lemma_days_before_year_bounds(y as int);
        }
        acc = acc + (if is_leap_year(y) {
            366
        } else {
            365
        });
        y = y + 1;
    }
    proof {
        lemma_days_before_year_bounds(date.year as int);
    }
    let mut m: u8 = 1;
    while m < date.month
        invariant
            1 <= m <= date.month,
            acc as int == days_before_year(date.year as int) + days_before_month(
                date.year as int,
                m as int,
            ),
        decreases date.month as int - m as int,
    {
        proof {
            lemma_days_before_month_bounds(date.year as int, m as int);
        }
        acc = acc + month_length(date.year, m) as u32;
        m = m + 1;
    }
    proof {
        lemma_days_before_month_bounds(date.year as int, date.month as int);
    }
    acc + (date.day - 1) as u32
}

/// Executable day of week of a valid date, `0` = Sunday.
pub fn weekday_of_date(date: &Date) -> (w: u8)
    requires
        date.valid(),
    ensures
        w as int == date_weekday(*date),
        w < 7,
{
    (((day_index_of(date) + 6) % 7) as u8)
}

/// Shape of an ISO calendar-date token: `dddd-dd-dd`.
pub open spec fn is_date_token(t: Seq<char>) -> bool {
    &&& t.len() == 10
    &&& is_digit(t[0])
    &&& is_digit(t[1])
    &&& is_digit(t[2])
    &&& is_digit(t[3])
    &&& t[4] == '-'
    &&& is_digit(t[5])
    &&& is_digit(t[6])
    &&& t[7] == '-'
    &&& is_digit(t[8])
    &&& is_digit(t[9])
}

pub open spec fn token_year(t: Seq<char>) -> int {
    digit_val(t[0]) * 1000 + digit_val(t[1]) * 100 + digit_val(t[2]) * 10 + digit_val(t[3])
}

pub open spec fn token_month(t: Seq<char>) -> int {
    digit_val(t[5]) * 10 + digit_val(t[6])
}

pub open spec fn token_day(t: Seq<char>) -> int {
    digit_val(t[8]) * 10 + digit_val(t[9])
}

/// Numeric key `yyyymmdd` of a date token; on valid dates its order is the
/// chronological order.
pub open spec fn date_key(t: Seq<char>) -> int {
    token_year(t) * 10000 + token_month(t) * 100 + token_day(t)
}

/// The date a token denotes, when its shape is right and the calendar accepts
/// the fields; `None` otherwise.
pub open spec fn spec_parse_date(t: Seq<char>) -> Option<Date> {
    if is_date_token(t) {
        let date = Date {
            year: token_year(t) as u16,
            month: token_month(t) as u8,
            day: token_day(t) as u8,
        };
        if date.valid() {
            Some(date)
        } else {
            None
        }
    } else {
        None
    }
}

/// Reads two digit characters as a two-digit number.
fn two_digits(v: &Vec<char>, i: usize) -> (n: u8)
    requires
        i + 2 <= v.len(),
        is_digit(v@[i as int]),
        is_digit(v@[i as int + 1]),
    ensures
        n as int == digit_val(v@[i as int]) * 10 + digit_val(v@[i as int + 1]),
{
    char_digit_val(v[i]) * 10 + char_digit_val(v[i + 1])
}

/// Parses a date from a vector of characters holding an ISO token.
pub fn parse_date_chars(v: &Vec<char>) -> (r: Option<Date>)
    ensures
        r == spec_parse_date(v@),
{
    if v.len() != 10 {
        return None;
    }
    if !(char_is_digit(v[0]) && char_is_digit(v[1]) && char_is_digit(v[2]) && char_is_digit(v[3])
        && v[4] == '-' && char_is_digit(v[5]) && char_is_digit(v[6]) && v[7] == '-'
        && char_is_digit(v[8]) && char_is_digit(v[9])) {
        return None;
    }
    let year: u16 = char_digit_val(v[0]) as u16 * 1000 + char_digit_val(v[1]) as u16 * 100
        + char_digit_val(v[2]) as u16 * 10 + char_digit_val(v[3]) as u16;
    let month: u8 = two_digits(v, 5);
    let day: u8 = two_digits(v, 8);
    if month < 1 || month > 12 {
        return None;
    }
    if day < 1 || day > month_length(year, month) {
        return None;
    }
    Some(Date { year, month, day })
}

/// Parses a date from an ISO `YYYY-MM-DD` string.
pub fn parse_date_str(s: &str) -> (r: Option<Date>)
    ensures
        r == spec_parse_date(s@),
{
    let v = to_char_vec(s);
    parse_date_chars(&v)
}

/// The calendar successor relation: `b` is the day after `a`.
pub open spec fn spec_next_date(a: Date, b: Date) -> bool {
    if (a.day as int) < month_len(a.year as int, a.month as int) {
        b == (Date { year: a.year, month: a.month, day: (a.day + 1) as u8 })
    } else if a.month < 12 {
        b == (Date { year: a.year, month: (a.month + 1) as u8, day: 1u8 })
    } else {
        b == (Date { year: (a.year + 1) as u16, month: 1u8, day: 1u8 })
    }
}

/// Consecutive calendar days are consecutive in the day index.
pub proof fn lemma_day_index_succ(a: Date, b: Date)
    requires
        a.valid(),
        a.year < 9999 || !(a.month == 12 && a.day == 31),
        spec_next_date(a, b),
    ensures
        b.valid(),
        date_index(b) == date_index(a) + 1,
{
    let y = a.year as int;
    if (a.day as int) < month_len(y, a.month as int) {
        // same month: the index grows with the day field
    } else if a.month < 12 {
        // month rollover: days_before_month absorbs the finished month
        assert(days_before_month(y, a.month as int + 1) == days_before_month(y, a.month as int)
            + month_len(y, a.month as int));
    } else {
        // year rollover: the year's length is 365 or 366
        assert(days_before_month(y, 12) + month_len(y, 12) == if is_leap(y) {
            366int
        } else {
            365int
        }) by {
            assert(days_before_month(y, 1) == 0);
            assert(days_before_month(y, 2) == 31);
            assert(days_before_month(y, 3) == days_before_month(y, 2) + month_len(y, 2));
            assert(days_before_month(y, 4) == days_before_month(y, 3) + 31);
            assert(days_before_month(y, 5) == days_before_month(y, 4) + 30);
            assert(days_before_month(y, 6) == days_before_month(y, 5) + 31);
            assert(days_before_month(y, 7) == days_before_month(y, 6) + 30);
            assert(days_before_month(y, 8) == days_before_month(y, 7) + 31);
            assert(days_before_month(y, 9) == days_before_month(y, 8) + 31);
            assert(days_before_month(y, 10) == days_before_month(y, 9) + 30);
            assert(days_before_month(y, 11) == days_before_month(y, 10) + 31);
            assert(days_before_month(y, 12) == days_before_month(y, 11) + 30);
        }
        assert(days_before_year(y + 1) == days_before_year(y) + if is_leap(y) {
            366int
        } else {
            365int
        });
    }
}

} // verus!
