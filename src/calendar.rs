//! Calendar days of the proleptic Gregorian calendar, their order, their
//! text, and the strict `YYYY-MM-DD` form in which they are written.

use chrono::Datelike;
use crate::text::{
    all_digits, chars_of, digit_value, digits_value, is_digit_char, lemma_digits_push, decimal,
};
use vstd::prelude::*;

verus! {

/// The earliest year that the underlying calendar type can hold.
pub const MIN_YEAR: i32 = -262143;

/// The latest year that the underlying calendar type can hold.
pub const MAX_YEAR: i32 = 262142;

pub open spec fn is_leap_year(y: int) -> bool {
    (y % 4 == 0 && y % 100 != 0) || y % 400 == 0
}

pub open spec fn month_length(y: int, m: int) -> int {
    if m == 2 {
        if is_leap_year(y) {
            29
        } else {
            28
        }
    } else if m == 4 || m == 6 || m == 9 || m == 11 {
        30
    } else {
        31
    }
}

/// A day that exists in the calendar, within the years it can hold.
pub open spec fn valid_date(y: int, m: int, d: int) -> bool {
    MIN_YEAR <= y <= MAX_YEAR && 1 <= m <= 12 && 1 <= d <= month_length(y, m)
}

/// A calendar day, without time of day or time zone.
#[derive(Clone, Copy, Debug, PartialEq, Eq, Structural)]
pub struct Date {
    pub year: i32,
    pub month: u32,
    pub day: u32,
}

impl Date {
    pub open spec fn wf(&self) -> bool {
        valid_date(self.year as int, self.month as int, self.day as int)
    }

    /// `self` is the same day as `other` or an earlier one.
    pub open spec fn spec_le(&self, other: Date) -> bool {
        self.year < other.year || (self.year == other.year && (self.month < other.month || (
        self.month == other.month && self.day <= other.day)))
    }

    pub fn le(&self, other: &Date) -> (r: bool)
        ensures
            r == self.spec_le(*other),
    {
        self.year < other.year || (self.year == other.year && (self.month < other.month || (
        self.month == other.month && self.day <= other.day)))
    }
}

/// The days of the years before year `y`, counted from the first day of
/// year 1.
pub open spec fn days_before_year(y: int) -> int {
    let p = y - 1;
    365 * p + p / 4 - p / 100 + p / 400
}

/// The days of the months of year `y` before month `m`.
pub open spec fn days_before_month(y: int, m: int) -> int {
    let common: int = if m <= 1 {
        0
    } else if m == 2 {
        31
    } else if m == 3 {
        59
    } else if m == 4 {
        90
    } else if m == 5 {
        120
    } else if m == 6 {
        151
    } else if m == 7 {
        181
    } else if m == 8 {
        212
    } else if m == 9 {
        243
    } else if m == 10 {
        273
    } else if m == 11 {
        304
    } else {
        334
    };
    if m > 2 && is_leap_year(y) {
        common + 1
    } else {
        common
    }
}

/// The number of a day, counted so that the first day of year 1 is day 1;
/// consecutive days have consecutive numbers.
pub open spec fn day_number(d: Date) -> int {
    days_before_year(d.year as int) + days_before_month(d.year as int, d.month as int) + d.day
}

/// The last day that the calendar holds.
pub open spec fn last_date() -> Date {
    Date { year: MAX_YEAR, month: 12, day: 31 }
}

/// The day that comes `days` days after `start`, or `None` past the last
/// day the calendar holds.
pub uninterp spec fn date_after(start: Date, days: int) -> Option<Date>;

/// Relies on chrono's `NaiveDate::from_ymd_opt`: it gives a date exactly
/// for a valid month and day of a year from `MIN_YEAR` to `MAX_YEAR`.
#[verifier::external_body]
fn is_calendar_date(year: i32, month: u32, day: u32) -> (r: bool)
    ensures
        r == valid_date(year as int, month as int, day as int),
{
    chrono::NaiveDate::from_ymd_opt(year, month, day).is_some()
}

/// Relies on chrono's `NaiveDate::checked_add_days`: the valid date whose
/// day number is `days` more, which is not earlier, or `None` exactly when
/// that would come after the last day the calendar holds.
#[verifier::external_body]
fn add_days(start: Date, days: u64) -> (r: Option<Date>)
    requires
        start.wf(),
    ensures
        r == date_after(start, days as int),
        r matches Some(e) ==> e.wf() && start.spec_le(e) && day_number(e) == day_number(start)
            + days,
        r is None <==> day_number(start) + days > day_number(last_date()),
        days == 0 ==> r == Some(start),
{
    let d = chrono::NaiveDate::from_ymd_opt(start.year, start.month, start.day).unwrap();
    d.checked_add_days(chrono::Days::new(days)).map(
        |e| Date { year: e.year(), month: e.month(), day: e.day() },
    )
}

/// The last day of a stay of `duration` days that begins on `start`.
pub fn last_day(start: Date, duration: u64) -> (r: Option<Date>)
    requires
        start.wf(),
        duration >= 1,
    ensures
        r == date_after(start, duration - 1),
        r matches Some(e) ==> e.wf() && start.spec_le(e) && day_number(e) == day_number(start)
            + duration - 1,
        r is None <==> day_number(start) + duration - 1 > day_number(last_date()),
        duration == 1 ==> r == Some(start),
{
    add_days(start, duration - 1)
}

/// A number written with at least `width` digits, padded with zeros.
pub open spec fn padded(n: nat, width: nat) -> Seq<char> {
    let digits = decimal(n);
    if digits.len() < width {
        Seq::new((width - digits.len()) as nat, |i: int| '0') + digits
    } else {
        digits
    }
}

/// The text of a date: `YYYY-MM-DD`, the year as four digits from 0 to
/// 9999 and with its sign and at least four digits otherwise.
pub open spec fn date_text_of(d: Date) -> Seq<char> {
    let year = if 0 <= d.year <= 9999 {
        padded(d.year as nat, 4)
    } else if d.year > 9999 {
        seq!['+'] + padded(d.year as nat, 4)
    } else {
        seq!['-'] + padded((-d.year) as nat, 4)
    };
    year + seq!['-'] + padded(d.month as nat, 2) + seq!['-'] + padded(d.day as nat, 2)
}

/// Relies on chrono's `Display` for `NaiveDate`, which writes the date in
/// the form that `date_text_of` states.
#[verifier::external_body]
pub(crate) fn date_text(d: Date) -> (r: String)
    requires
        d.wf(),
    ensures
        r@ == date_text_of(d),
{
    chrono::NaiveDate::from_ymd_opt(d.year, d.month, d.day).unwrap().to_string()
}

/// `t` has the shape `DDDD-DD-DD` of four, two and two decimal digits.
pub open spec fn date_shape(t: Seq<char>) -> bool {
    &&& t.len() == 10
    &&& t[4] == '-'
    &&& t[7] == '-'
    &&& all_digits(t.subrange(0, 4))
    &&& all_digits(t.subrange(5, 7))
    &&& all_digits(t.subrange(8, 10))
}

/// The date that `t` writes in the form `YYYY-MM-DD`, if it writes one.
pub open spec fn date_of_text(t: Seq<char>) -> Option<Date> {
    if date_shape(t) {
        let y = digits_value(t.subrange(0, 4));
        let m = digits_value(t.subrange(5, 7));
        let d = digits_value(t.subrange(8, 10));
        if valid_date(y, m, d) {
            Some(Date { year: y as i32, month: m as u32, day: d as u32 })
        } else {
            None
        }
    } else {
        None
    }
}

/// The value of the digits `t[from..to]`, at most four of them.
fn digits_at(t: &Vec<char>, from: usize, to: usize) -> (r: u32)
    requires
        from <= to <= t@.len(),
        to - from <= 4,
        all_digits(t@.subrange(from as int, to as int)),
    ensures
        r as int == digits_value(t@.subrange(from as int, to as int)),
        r <= 9999,
{
    let mut v: u32 = 0;
    let mut i: usize = from;
    let mut bound: u32 = 1;
    while i < to
        invariant
            from <= i <= to <= t@.len(),
            to - from <= 4,
            all_digits(t@.subrange(from as int, to as int)),
            v as int == digits_value(t@.subrange(from as int, i as int)),
            v < bound,
            bound == 1 || bound == 10 || bound == 100 || bound == 1000 || bound == 10000,
            i - from == 0 ==> bound == 1,
            i - from == 1 ==> bound == 10,
            i - from == 2 ==> bound == 100,
            i - from == 3 ==> bound == 1000,
            i - from == 4 ==> bound == 10000,
        decreases to - i,
    {
        assert(t@.subrange(from as int, to as int)[i - from] == t@[i as int]);
        let d = t[i] as u32 - 48;
        proof {
            lemma_digits_push(t@, from as int, i as int);
        }
        v = v * 10 + d;
        bound = bound * 10;
        i += 1;
    }
    v
}

/// The date written in the strict form `YYYY-MM-DD`: four-digit year,
/// two-digit month and day, separated by hyphens, and a day that exists.
pub fn parse_date_text(t: &Vec<char>) -> (r: Option<Date>)
    ensures
        r == date_of_text(t@),
{
    if t.len() != 10 || t[4] != '-' || t[7] != '-' {
        return None;
    }
    if !digits_in(t, 0, 4) || !digits_in(t, 5, 7) || !digits_in(t, 8, 10) {
        return None;
    }
    let y = digits_at(t, 0, 4);
    let m = digits_at(t, 5, 7);
    let d = digits_at(t, 8, 10);
    if is_calendar_date(y as i32, m, d) {
        Some(Date { year: y as i32, month: m, day: d })
    } else {
        None
    }
}

fn digits_in(t: &Vec<char>, from: usize, to: usize) -> (r: bool)
    requires
        from <= to <= t@.len(),
    ensures
        r == all_digits(t@.subrange(from as int, to as int)),
{
    let mut i: usize = from;
    while i < to
        invariant
            from <= i <= to <= t@.len(),
            all_digits(t@.subrange(from as int, i as int)),
        decreases to - i,
    {
        if !is_digit_char(t[i]) {
            assert(t@.subrange(from as int, to as int)[i - from] == t@[i as int]);
            return false;
        }
        i += 1;
    }
    true
}

/// The date that `s` writes as `YYYY-MM-DD`.
pub fn parse_date(s: &str) -> (r: Option<Date>)
    ensures
        r == date_of_text(s@),
        r matches Some(d) ==> d.wf(),
{
    let t = chars_of(s);
    parse_date_text(&t)
}

} // verus!
