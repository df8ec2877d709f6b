//! Easter dates as days of the year: the Western (Gregorian) computus and
//! the Orthodox (Julian) computus, the latter carried onto the Gregorian
//! calendar.

use vstd::prelude::*;

use crate::date::{
    days_in_month, is_leap_year, leap_years_before, month_start, weekday_of, year_start, Year,
};

verus! {

/// Which Easter a rule follows.
#[derive(Debug, Clone, Copy, PartialEq, Eq, Hash, Structural)]
pub enum EasterMethod {
    /// Gregorian computus (Catholic and Protestant churches).
    Western,
    /// Julian computus, expressed as a Gregorian date (Orthodox churches).
    Orthodox,
}

/// Easter Sunday of year `y` under the Gregorian computus, as
/// (month, day).
pub open spec fn gregorian_easter_sunday(y: int) -> (int, int) {
    let a = y % 19;
    let b = y / 100;
    let c = y % 100;
    let d = b / 4;
    let e = b % 4;
    let f = (b + 8) / 25;
    let g = (b - f + 1) / 3;
    let h = (19 * a + b - d - g + 15) % 30;
    let i = c / 4;
    let k = c % 4;
    let l = (32 + 2 * e + 2 * i - h - k) % 7;
    let m = (a + 11 * h + 22 * l) / 451;
    ((h + l - 7 * m + 114) / 31, (h + l - 7 * m + 114) % 31 + 1)
}

/// Easter Sunday of year `y` under the Julian computus, as a (month, day)
/// of the Julian calendar.
pub open spec fn julian_easter_sunday(y: int) -> (int, int) {
    let a = y % 4;
    let b = y % 7;
    let c = y % 19;
    let d = (19 * c + 15) % 30;
    let e = (2 * a + 4 * b - d + 34) % 7;
    ((d + e + 114) / 31, (d + e + 114) % 31 + 1)
}

/// Days by which the Julian calendar trails the Gregorian one in year `y`.
pub open spec fn julian_lag(y: int) -> int {
    if y >= 2100 { 14 } else { 13 }
}

/// The 1-based day of the year of Easter Monday in year `y`.
pub open spec fn easter_monday_doy(y: int, method: EasterMethod) -> int {
    match method {
        EasterMethod::Western => {
            let (m, d) = gregorian_easter_sunday(y);
            month_start(y, m) + d + 1
        },
        EasterMethod::Orthodox => {
            let (m, d) = julian_easter_sunday(y);
            month_start(y, m) + d + julian_lag(y) + 1
        },
    }
}

/// Day of the year (1-based) of Easter Monday in `year`.
pub fn easter_monday(year: Year, method: EasterMethod) -> (r: u16)
    ensures
        r == easter_monday_doy(year@, method),
        81 <= r <= 140,
{
    let y = year.get() as u32;
    let leap = year.is_leap();
    match method {
        EasterMethod::Western => {
            let a = y % 19;
            let b = y / 100;
            let c = y % 100;
            let d = b / 4;
            let e = b % 4;
            let f = (b + 8) / 25;
            let g = (b - f + 1) / 3;
            let h = (19 * a + b + 15 - d - g) % 30;
            let i = c / 4;
            let k = c % 4;
            let l = (32 + 2 * e + 2 * i - h - k) % 7;
            let m = (a + 11 * h + 22 * l) / 451;
            let month = (h + l + 114 - 7 * m) / 31;
            let day = (h + l + 114 - 7 * m) % 31 + 1;
            let start: u32 = if month == 3 {
                59
            } else {
                90
            };
            let start = if leap {
                start + 1
            } else {
                start
            };
            proof {
                assert(month == 3 || month == 4);
                assert(is_leap_year(y as int) == leap);
            }
            (start + day + 1) as u16
        },
        EasterMethod::Orthodox => {
            let a = y % 4;
            let b = y % 7;
            let c = y % 19;
            let d = (19 * c + 15) % 30;
            let e = (2 * a + 4 * b + 34 - d) % 7;
            let month = (d + e + 114) / 31;
            let day = (d + e + 114) % 31 + 1;
            let lag: u32 = if y >= 2100 {
                14
            } else {
                13
            };
            let start: u32 = if month == 3 {
                59
            } else {
                90
            };
            let start = if leap {
                start + 1
            } else {
                start
            };
            proof {
                assert(month == 3 || month == 4);
            }
            (start + day + lag + 1) as u16
        },
    }
}

/// Day of the year (1-based) of Easter Sunday in `year`.
pub fn easter_sunday(year: Year, method: EasterMethod) -> (r: u16)
    ensures
        r == easter_monday_doy(year@, method) - 1,
{
    easter_monday(year, method) - 1
}

/// The serial of March 22 of year `y`, written through the leap days up
/// to and including `y`.
proof fn lemma_march_22(y: int)
    requires
        1901 <= y <= 2199,
    ensures
        year_start(y) + month_start(y, 3) + 21 == 365 * (y - 1901) + y / 4 - y / 100 + y / 400 - 380,
{
    assert(y / 4 == (y - 1) / 4 + (if y % 4 == 0 { 1int } else { 0 }));
    assert(y / 100 == (y - 1) / 100 + (if y % 100 == 0 { 1int } else { 0 }));
    assert(y / 400 == (y - 1) / 400 + (if y % 400 == 0 { 1int } else { 0 }));
    assert(y % 400 == 0 ==> y % 100 == 0 && y % 4 == 0);
    assert(y % 100 == 0 ==> y % 4 == 0);
    assert(leap_years_before(1901) == 460);
}

/// Easter Sunday's (month, day) lies `x` days after March 22, for the `x`
/// that the computus produces.
proof fn lemma_after_march_22(y: int, month: int, day: int, x: int)
    requires
        1901 <= y <= 2199,
        -7 <= x <= 35,
        month == (x + 114) / 31,
        day == (x + 114) % 31 + 1,
    ensures
        month == 3 || month == 4,
        1 <= day <= days_in_month(y, month),
        year_start(y) + month_start(y, month) + day - 1 == year_start(y) + month_start(y, 3) + 21
            + x,
{
}

/// The weekday arithmetic behind the Gregorian computus: the day it
/// names, `x` days after March 22, is always a Sunday.
proof fn lemma_gregorian_sunday(
    y: int,
    b: int,
    c: int,
    d: int,
    e: int,
    i: int,
    k: int,
    h: int,
    l: int,
    t: int,
    m: int,
    x: int,
    s: int,
)
    requires
        y == 100 * b + c,
        c == 4 * i + k,
        b == 4 * d + e,
        32 + 2 * e + 2 * i - h - k == 7 * t + l,
        x == h + l - 7 * m,
        s == 365 * (y - 1901) + (25 * b + i) - b + d - 380 + x + 1,
    ensures
        (s + 1) % 7 == 0,
{
    let q = 20871 * d + 5218 * e + 209 * i + 52 * k - t - m - 99173;
    assert(s + 1 == 7 * q);
    vstd::arithmetic::div_mod::lemma_fundamental_div_mod_converse(s + 1, 7, q, 0);
}

/// Every Western Easter Monday is a Monday in March or April.
pub proof fn lemma_western_easter_monday(y: int)
    requires
        1901 <= y <= 2199,
    ensures
        weekday_of(year_start(y) + easter_monday_doy(y, EasterMethod::Western) - 1) == 1,
        month_start(y, 3) < easter_monday_doy(y, EasterMethod::Western) <= month_start(y, 5),
{
    let a = y % 19;
    let b = y / 100;
    let c = y % 100;
    let d = b / 4;
    let e = b % 4;
    let f = (b + 8) / 25;
    let g = (b - f + 1) / 3;
    let h = (19 * a + b - d - g + 15) % 30;
    let i = c / 4;
    let k = c % 4;
    let l = (32 + 2 * e + 2 * i - h - k) % 7;
    let m = (a + 11 * h + 22 * l) / 451;
    let x = h + l - 7 * m;
    assert(0 <= m <= 1);
    let (month, day) = gregorian_easter_sunday(y);
    assert(month == (x + 114) / 31 && day == (x + 114) % 31 + 1);
    lemma_after_march_22(y, month, day, x);
    lemma_march_22(y);
    vstd::arithmetic::div_mod::lemma_fundamental_div_mod(y, 100);
    vstd::arithmetic::div_mod::lemma_fundamental_div_mod(c, 4);
    vstd::arithmetic::div_mod::lemma_fundamental_div_mod(b, 4);
    vstd::arithmetic::div_mod::lemma_fundamental_div_mod_converse(y, 4, 25 * b + i, k);
    vstd::arithmetic::div_mod::lemma_fundamental_div_mod_converse(y, 400, d, 100 * e + c);
    let t = (32 + 2 * e + 2 * i - h - k) / 7;
    vstd::arithmetic::div_mod::lemma_fundamental_div_mod(32 + 2 * e + 2 * i - h - k, 7);
    let s = year_start(y) + month_start(y, month) + day;
    lemma_gregorian_sunday(y, b, c, d, e, i, k, h, l, t, m, x, s);
}

/// The weekday arithmetic behind the Julian computus carried onto the
/// Gregorian calendar: the Monday after the day it names is a Monday.
proof fn lemma_julian_monday(
    y: int,
    q: int,
    a: int,
    p: int,
    b: int,
    d: int,
    e: int,
    t: int,
    s: int,
)
    requires
        y == 4 * q + a,
        y == 7 * p + b,
        2 * a + 4 * b - d + 34 == 7 * t + e,
        s == 365 * (y - 1901) + q - 2 - 380 + (d + e) + 2,
    ensures
        s % 7 == 0,
{
    let r = 211 * q + 53 * a - 4 * p - 99173 - t;
    assert(s == 7 * r);
    vstd::arithmetic::div_mod::lemma_fundamental_div_mod_converse(s, 7, r, 0);
}

/// Every Orthodox Easter Monday, on the Gregorian calendar, is a Monday in
/// April or May.
pub proof fn lemma_orthodox_easter_monday(y: int)
    requires
        1901 <= y <= 2199,
    ensures
        weekday_of(year_start(y) + easter_monday_doy(y, EasterMethod::Orthodox) - 1) == 1,
        month_start(y, 4) < easter_monday_doy(y, EasterMethod::Orthodox) <= month_start(y, 6),
{
    let a = y % 4;
    let b = y % 7;
    let c = y % 19;
    let d = (19 * c + 15) % 30;
    let e = (2 * a + 4 * b - d + 34) % 7;
    let x = d + e;
    let (month, day) = julian_easter_sunday(y);
    assert(month == (x + 114) / 31 && day == (x + 114) % 31 + 1);
    lemma_after_march_22(y, month, day, x);
    lemma_march_22(y);
    assert(y / 100 - y / 400 - 2 == julian_lag(y));
    vstd::arithmetic::div_mod::lemma_fundamental_div_mod(y, 4);
    vstd::arithmetic::div_mod::lemma_fundamental_div_mod(y, 7);
    vstd::arithmetic::div_mod::lemma_fundamental_div_mod(2 * a + 4 * b - d + 34, 7);
    let t = (2 * a + 4 * b - d + 34) / 7;
    let m = year_start(y) + month_start(y, month) + day + julian_lag(y);
    lemma_julian_monday(y, y / 4, a, y / 7, b, d, e, t, m + 1);
}

} // verus!
