//! Validation of a booking request given as raw text: a start date and a
//! duration in days.

use crate::calendar::{date_of_text, parse_date_text, Date};
use crate::text::{all_digits, chars_of, is_digit, digits_value, is_digit_char, lemma_digits_push, trimmed, trimmed_chars};
use vstd::prelude::*;

verus! {

/// Why a booking request was refused.
#[derive(Clone, Debug, PartialEq, Eq)]
pub enum BookingError {
    /// The start date or the duration is empty once trimmed.
    MissingInput,
    /// The duration is not a whole number of days of at least one, or the
    /// stay would end past the last day the calendar holds.
    InvalidDuration,
    /// The start date is not a day written as `YYYY-MM-DD`.
    InvalidDate,
    /// The item is already reserved for part of the period.
    PeriodAlreadyReserved(String),
}

/// The digits of a number written with an optional leading `+`.
pub open spec fn unsigned_digits(t: Seq<char>) -> Seq<char> {
    if t.len() > 0 && t[0] == '+' {
        t.drop_first()
    } else {
        t
    }
}

/// The duration that `t` writes: a signed 64-bit integer of at least one.
/// A leading `-` writes no positive number, so only `+` is allowed.
pub open spec fn duration_of(t: Seq<char>) -> Option<u64> {
    let u = unsigned_digits(t);
    if u.len() > 0 && all_digits(u) && 1 <= digits_value(u) <= i64::MAX {
        Some(digits_value(u) as u64)
    } else {
        None
    }
}

/// The outcome of validating a request: the start date and the duration,
/// or the first reason to refuse it.
pub open spec fn request_of(start: Seq<char>, duration: Seq<char>) -> Result<
    (Date, u64),
    BookingError,
> {
    if trimmed(start).len() == 0 || trimmed(duration).len() == 0 {
        Err(BookingError::MissingInput)
    } else {
        match duration_of(trimmed(duration)) {
            None => Err(BookingError::InvalidDuration),
            Some(n) => match date_of_text(start) {
                None => Err(BookingError::InvalidDate),
                Some(d) => Ok((d, n)),
            },
        }
    }
}

/// The duration written in `t`, as `duration_of` states it.
pub fn parse_duration_text(t: &Vec<char>) -> (r: Option<u64>)
    ensures
        r == duration_of(t@),
{
    let ghost u = unsigned_digits(t@);
    let start: usize = if t.len() > 0 && t[0] == '+' {
        1
    } else {
        0
    };
    assert(u =~= t@.subrange(start as int, t@.len() as int));
    if start == t.len() {
        return None;
    }
    let mut v: u64 = 0;
    let mut too_big = false;
    let mut i: usize = start;
    while i < t.len()
        invariant
            start <= i <= t@.len(),
            u == unsigned_digits(t@),
            u =~= t@.subrange(start as int, t@.len() as int),
            all_digits(t@.subrange(start as int, i as int)),
            !too_big ==> v as int == digits_value(t@.subrange(start as int, i as int)),
            !too_big ==> v <= i64::MAX,
            too_big ==> digits_value(t@.subrange(start as int, i as int)) > i64::MAX,
        decreases t@.len() - i,
    {
        if !is_digit_char(t[i]) {
            assert(u[i - start] == t@[i as int]);
            assert(!is_digit(u[i - start]));
            return None;
        }
        proof {
            lemma_digits_push(t@, start as int, i as int);
        }
        if !too_big {
            let next: u128 = v as u128 * 10 + (t[i] as u32 as u128 - 48);
            if next > i64::MAX as u128 {
                too_big = true;
            } else {
                v = next as u64;
            }
        }
        i += 1;
        assert(forall|k: int|
            0 <= k < i - start ==> t@.subrange(start as int, i as int)[k] == t@[start + k]);
    }
    assert(u =~= t@.subrange(start as int, i as int));
    if too_big || v == 0 {
        None
    } else {
        Some(v)
    }
}

/// Checks a request: a start date written exactly as `YYYY-MM-DD` and a
/// duration of at least one day, which may carry surrounding white space.
/// Fields that are empty once trimmed are reported first, then the
/// duration, then the date.
pub fn validate_request(start: &str, duration: &str) -> (r: Result<(Date, u64), BookingError>)
    ensures
        r == request_of(start@, duration@),
        r matches Ok((d, n)) ==> d.wf() && n >= 1,
{
    let s = trimmed_chars(start);
    let t = trimmed_chars(duration);
    if s.len() == 0 || t.len() == 0 {
        return Err(BookingError::MissingInput);
    }
    let n = match parse_duration_text(&t) {
        Some(n) => n,
        None => {
            return Err(BookingError::InvalidDuration);
        },
    };
    let c = chars_of(start);
    match parse_date_text(&c) {
        Some(d) => Ok((d, n)),
        None => Err(BookingError::InvalidDate),
    }
}

} // verus!
