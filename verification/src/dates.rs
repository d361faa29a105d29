//! Calendar dates in the user's local timezone, with the little arithmetic
//! the reports need: validity, the previous day, and stepping a bounded
//! number of days back.

use vstd::arithmetic::div_mod::lemma_mod_multiples_vanish;
use vstd::prelude::*;

verus! {

/// A calendar date, as observed in the user's local timezone.
#[derive(Clone, Copy, Debug, PartialEq, Eq, Structural)]
pub struct Date {
    pub year: i32,
    pub month: u8,
    pub day: u8,
}

pub open spec fn leap_year(y: int) -> bool {
    y % 4 == 0 && (y % 100 != 0 || y % 400 == 0)
}

pub open spec fn days_in_month(y: int, m: int) -> int
    recommends
        1 <= m <= 12,
{
    if m == 2 {
        if leap_year(y) {
            29
        } else {
            28
        }
    } else if m == 4 || m == 6 || m == 9 || m == 11 {
        30
    } else {
        31
    }
}

/// The month exists and the day exists in that month of that year.
pub open spec fn date_valid(d: Date) -> bool {
    &&& 1 <= d.month <= 12
    &&& 1 <= d.day <= days_in_month(d.year as int, d.month as int)
}

/// The weaker guarantee a decoded timestamp gives: fields are in range.
pub open spec fn date_in_range(d: Date) -> bool {
    1 <= d.month <= 12 && 1 <= d.day <= 31
}

pub fn is_leap_year(y: i32) -> (r: bool)
    ensures
        r == leap_year(y as int),
{
    let yy: u64 = ((y as i64) + 2_400_000_000i64) as u64;
    proof {
        lemma_mod_multiples_vanish(600_000_000, y as int, 4);
        lemma_mod_multiples_vanish(24_000_000, y as int, 100);
        lemma_mod_multiples_vanish(6_000_000, y as int, 400);
    }
    yy % 4 == 0 && (yy % 100 != 0 || yy % 400 == 0)
}

pub fn month_length(y: i32, m: u8) -> (r: u8)
    requires
        1 <= m <= 12,
    ensures
        r as int == days_in_month(y as int, m as int),
{
    if m == 2 {
        if is_leap_year(y) {
            29
        } else {
            28
        }
    } else if m == 4 || m == 6 || m == 9 || m == 11 {
        30
    } else {
        31
    }
}

pub fn date_is_valid(d: &Date) -> (r: bool)
    ensures
        r == date_valid(*d),
{
    if d.month < 1 || d.month > 12 {
        return false;
    }
    1 <= d.day && d.day <= month_length(d.year, d.month)
}

/// The calendar day immediately before `d`.
pub open spec fn date_pred(d: Date) -> Date {
    if d.day > 1 {
        Date { year: d.year, month: d.month, day: (d.day - 1) as u8 }
    } else if d.month > 1 {
        Date {
            year: d.year,
            month: (d.month - 1) as u8,
            day: days_in_month(d.year as int, d.month - 1) as u8,
        }
    } else {
        Date { year: (d.year - 1) as i32, month: 12, day: 31 }
    }
}

pub fn prev_date(d: &Date) -> (r: Date)
    requires
        date_valid(*d),
        d.year > i32::MIN,
    ensures
        r == date_pred(*d),
        date_valid(r),
        d.year - 1 <= r.year <= d.year,
{
    if d.day > 1 {
        Date { year: d.year, month: d.month, day: d.day - 1 }
    } else if d.month > 1 {
        Date { year: d.year, month: d.month - 1, day: month_length(d.year, d.month - 1) }
    } else {
        Date { year: d.year - 1, month: 12, day: 31 }
    }
}

/// The date `n` days before `d`.
pub open spec fn date_minus_days(d: Date, n: nat) -> Date
    decreases n,
{
    if n == 0 {
        d
    } else {
        date_pred(date_minus_days(d, (n - 1) as nat))
    }
}

pub fn days_earlier(d: &Date, n: u8) -> (r: Date)
    requires
        date_valid(*d),
        d.year > i32::MIN + 256,
    ensures
        r == date_minus_days(*d, n as nat),
        date_valid(r),
        d.year - 256 <= r.year <= d.year,
{
    let mut cur: Date = *d;
    let mut i: u8 = 0;
    while i < n
        invariant
            i <= n,
            date_valid(cur),
            cur == date_minus_days(*d, i as nat),
            d.year - i <= cur.year <= d.year,
            d.year > i32::MIN + 256,
        decreases n - i,
    {
        cur = prev_date(&cur);
        i = i + 1;
    }
    cur
}

} // verus!
