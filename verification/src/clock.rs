//! Calendar time from a count of seconds since the start of 1970.

use crate::text::{padded, push_padded};
use vstd::prelude::*;
use vstd::string::*;

verus! {

/// The quotient of `a` by a positive `b`, rounded towards zero.
pub open spec fn quot(a: int, b: int) -> int {
    if a >= 0 {
        a / b
    } else {
        -((-a) / b)
    }
}

/// What is left of `a` after taking out `quot(a, b)` times `b`: it has the
/// sign of `a`.
pub open spec fn rem(a: int, b: int) -> int {
    a - b * quot(a, b)
}

/// Year, month and day of the month for the day `days`, counted from the
/// first of January 1970.
pub open spec fn civil_date(days: int) -> (int, int, int) {
    let x = quot(days * 4 + 102032, 146097) + 15;
    let b = days + 2442113 + x - quot(x, 4);
    let c = quot(b * 20 - 2442, 7305);
    let d = b - 365 * c - quot(c, 4);
    let e = quot(d * 1000, 30601);
    let f = d - e * 30 - quot(e * 601, 1000);
    if e < 14 {
        (c - 4716, e - 1, f)
    } else {
        (c - 4715, e - 13, f)
    }
}

/// The number of the day `d` of month `m` in year `y` of the Gregorian
/// calendar, counted from the first of January 1970, for a year from 1970
/// on: the days of the whole 400-year cycles before it, of the years since
/// the cycle began, with a leap day every fourth year but not every
/// hundredth, and of the months since the first of March.
pub open spec fn day_number(y: int, m: int, d: int) -> int {
    let year = if m <= 2 {
        y - 1
    } else {
        y
    };
    let cycle = year / 400;
    let in_cycle = year - cycle * 400;
    let month = if m > 2 {
        m - 3
    } else {
        m + 9
    };
    let in_year = (153 * month + 2) / 5 + d - 1;
    cycle * 146097 + in_cycle * 365 + in_cycle / 4 - in_cycle / 100 + in_year - 719468
}

/// Whether `y` is a leap year of the Gregorian calendar.
pub open spec fn is_leap(y: int) -> bool {
    y % 4 == 0 && (y % 100 != 0 || y % 400 == 0)
}

/// The number of days of month `m` in year `y`.
pub open spec fn month_days(y: int, m: int) -> int {
    if m == 2 {
        if is_leap(y) {
            29
        } else {
            28
        }
    } else if m == 4 || m == 6 || m == 9 || m == 11 {
        30
    } else {
        31
    }
}

/// The date of day `r` of the 400-year cycle `q`, where the cycles are
/// counted from the first of March 1900: the steps of `civil_date` with the
/// whole cycles taken out.
spec fn cycle_date(q: int, r: int) -> (int, int, int) {
    let cen = (4 * r) / 146097;
    let k = r + 2416617 + cen - (if cen >= 1 {
        1int
    } else {
        0int
    });
    let c0 = (20 * k - 2442) / 7305;
    let d = k - 365 * c0 - c0 / 4;
    let e = (d * 1000) / 30601;
    let f = d - e * 30 - (e * 601) / 1000;
    if e < 14 {
        (400 * q + c0 - 4716, e - 1, f)
    } else {
        (400 * q + c0 - 4715, e - 13, f)
    }
}

proof fn lemma_cycle_split(days: int)
    requires
        0 <= days,
    ensures
        civil_date(days) == cycle_date((days + 25508) / 146097, (days + 25508) % 146097),
{
    let n = days + 25508;
    let q = n / 146097;
    let r = n % 146097;
    let cen = (4 * r) / 146097;
    let x = quot(days * 4 + 102032, 146097) + 15;
    assert(days * 4 + 102032 == 146097 * (4 * q) + 4 * r);
    assert(x == 15 + 4 * q + cen);
    assert(0 <= cen <= 3);
    let step = if cen >= 1 {
        1int
    } else {
        0int
    };
    assert(quot(x, 4) == 3 + q + step);
    let b = days + 2442113 + x - quot(x, 4);
    let k = r + 2416617 + cen - step;
    assert(b == 146100 * q + k);
    let c = quot(b * 20 - 2442, 7305);
    let c0 = (20 * k - 2442) / 7305;
    assert(b * 20 - 2442 == 7305 * (400 * q) + (20 * k - 2442));
    assert(c == 400 * q + c0);
    assert(6616 + 100 * cen <= c0 <= 6715 + 100 * cen);
    let d = b - 365 * c - quot(c, 4);
    assert(quot(c, 4) == 100 * q + c0 / 4);
    assert(d == k - 365 * c0 - c0 / 4);
    assert(123 <= d <= 488);
}

#[verifier::rlimit(100)]
proof fn lemma_cycle_number(q: int, r: int)
    requires
        0 <= q,
        0 <= r < 146097,
        146097 * q + r >= 25508,
    ensures
        1 <= cycle_date(q, r).1 <= 12,
        1 <= cycle_date(q, r).2 <= 31,
        cycle_date(q, r).0 >= 1970,
        day_number(cycle_date(q, r).0, cycle_date(q, r).1, cycle_date(q, r).2) == 146097 * q + r
            - 25508,
{
    let cen = (4 * r) / 146097;
    let step = if cen >= 1 {
        1int
    } else {
        0int
    };
    let k = r + 2416617 + cen - step;
    let c0 = (20 * k - 2442) / 7305;
    assert(6616 + 100 * cen <= c0 <= 6715 + 100 * cen);
    let d = k - 365 * c0 - c0 / 4;
    assert(123 <= d <= 488);
    let e = (d * 1000) / 30601;
    assert(4 <= e <= 15);
    let f = d - e * 30 - (e * 601) / 1000;
    assert((153 * (e - 4) + 2) / 5 + f - 1 == d - 123);
    assert(1 <= f <= 31);
    let year = 400 * q + c0 - 4716;
    assert(year == 400 * (q + 4) + (c0 - 6316));
    assert(300 + 100 * cen <= c0 - 6316 <= 399 + 100 * cen);
}

proof fn lemma_cycle_month(q: int, r: int)
    requires
        0 <= q,
        0 <= r < 146097,
    ensures
        cycle_date(q, r).2 <= month_days(cycle_date(q, r).0, cycle_date(q, r).1),
{
    let cen = (4 * r) / 146097;
    let step = if cen >= 1 {
        1int
    } else {
        0int
    };
    let k = r + 2416617 + cen - step;
    let c0 = (20 * k - 2442) / 7305;
    assert(6616 + 100 * cen <= c0 <= 6715 + 100 * cen);
    let d = k - 365 * c0 - c0 / 4;
    assert(123 <= d <= 488);
    let e = (d * 1000) / 30601;
    assert(4 <= e <= 15);
    let f = d - e * 30 - (e * 601) / 1000;
    if e == 15 {
        let y = 400 * q + c0 - 4715;
        assert(y == 400 * (q + 4) + (c0 - 6315));
        assert(f == d - 459);
        assert(d <= 487 || c0 % 4 == 3);
        if d == 488 {
            assert(y % 4 == 0);
            assert(c0 != 6715 + 100 * cen || cen == 0);
            assert(is_leap(y));
        }
    }
}

/// From 1970 on, `civil_date` gives the date of the Gregorian calendar: a
/// month from 1 to 12 and a day of that month whose day number is the day
/// asked for.
pub proof fn lemma_civil_date(days: int)
    requires
        0 <= days,
    ensures
        1 <= civil_date(days).1 <= 12,
        1 <= civil_date(days).2 <= month_days(civil_date(days).0, civil_date(days).1),
        civil_date(days).0 >= 1970,
        day_number(civil_date(days).0, civil_date(days).1, civil_date(days).2) == days,
{
    lemma_cycle_split(days);
    lemma_cycle_number((days + 25508) / 146097, (days + 25508) % 146097);
    lemma_cycle_month((days + 25508) / 146097, (days + 25508) % 146097);
}

/// Year, month, day, hour, minute and second for the second `t`, counted
/// from the start of 1970.
pub open spec fn time_tuple(t: int) -> (int, int, int, int, int, int) {
    let s = rem(t, 86400);
    let date = civil_date(quot(t, 86400));
    (date.0, date.1, date.2, quot(s, 3600), rem(quot(s, 60), 60), rem(s, 60))
}

/// How `quot(a, b)` and `rem(a, b)` lie for a positive `b`: the quotient
/// times `b` lies between zero and `a`, and the remainder is smaller than
/// `b` in size.
pub proof fn lemma_quot_bounds(a: int, b: int)
    requires
        b > 0,
    ensures
        a >= 0 ==> 0 <= quot(a, b) * b <= a && 0 <= rem(a, b) < b,
        a < 0 ==> a <= quot(a, b) * b <= 0 && -b < rem(a, b) <= 0,
        a >= 0 ==> quot(a, b) == a / b && rem(a, b) == a % b,
        a < 0 ==> rem(a, b) == -((-a) % b),
{
    if a >= 0 {
        vstd::arithmetic::div_mod::lemma_fundamental_div_mod(a, b);
        vstd::arithmetic::div_mod::lemma_mod_bound(a, b);
        assert((a / b) * b == b * (a / b)) by (nonlinear_arith);
    } else {
        vstd::arithmetic::div_mod::lemma_fundamental_div_mod(-a, b);
        vstd::arithmetic::div_mod::lemma_mod_bound(-a, b);
        assert((-((-a) / b)) * b == -(b * ((-a) / b))) by (nonlinear_arith);
        assert(b * (-((-a) / b)) == -(b * ((-a) / b))) by (nonlinear_arith);
    }
}

/// The quotient of `a` by `b`, rounded towards zero.
fn quotient(a: i64, b: i64) -> (q: i64)
    requires
        b > 0,
    ensures
        q == quot(a as int, b as int),
        a >= 0 ==> 0 <= q * b <= a,
        a < 0 ==> a <= q * b <= 0,
{
    proof {
        lemma_quot_bounds(a as int, b as int);
    }
    a / b
}

/// What is left of `a` after taking out the quotient by `b`.
fn remainder(a: i64, b: i64) -> (r: i64)
    requires
        b > 0,
    ensures
        r == rem(a as int, b as int),
        a >= 0 ==> 0 <= r < b && r == a % b,
        a < 0 ==> -b < r <= 0,
{
    proof {
        lemma_quot_bounds(a as int, b as int);
    }
    a % b
}

/// Splits the time `ts`, in seconds since the start of 1970 and moved by
/// `tz_offset` hours, into year, month, day, hour, minute and second. The
/// moved time has to fit in an `i64`. From 1970 on, year, month and day
/// are the date of the Gregorian calendar for the day that the time falls
/// on, and the hour, minute and second are those of the clock: in range,
/// and adding up to the second of the day.
pub fn get_time_tuple(ts: i64, tz_offset: i64) -> (r: (i64, i64, i64, i64, i64, i64))
    requires
        i64::MIN <= tz_offset * 3600 <= i64::MAX,
        i64::MIN <= ts + tz_offset * 3600 <= i64::MAX,
    ensures
        (r.0 as int, r.1 as int, r.2 as int, r.3 as int, r.4 as int, r.5 as int) == time_tuple(
            ts + tz_offset * 3600,
        ),
        ts + tz_offset * 3600 >= 0 ==> {
            &&& r.0 >= 1970
            &&& 1 <= r.1 <= 12
            &&& 1 <= r.2 <= month_days(r.0 as int, r.1 as int)
            &&& day_number(r.0 as int, r.1 as int, r.2 as int) == (ts + tz_offset * 3600) / 86400
            &&& 0 <= r.3 < 24
            &&& 0 <= r.4 < 60
            &&& 0 <= r.5 < 60
            &&& r.3 * 3600 + r.4 * 60 + r.5 == (ts + tz_offset * 3600) % 86400
        },
{
    let t: i64 = ts + tz_offset * 3600;
    let clock = clock_of(t);
    let date = date_of(clock.0);
    (date.0, date.1, date.2, clock.1, clock.2, clock.3)
}

/// The whole days in `t` seconds, and the hour, minute and second that are
/// left.
fn clock_of(t: i64) -> (r: (i64, i64, i64, i64))
    ensures
        r.0 == quot(t as int, 86400),
        r.1 == quot(rem(t as int, 86400), 3600),
        r.2 == rem(quot(rem(t as int, 86400), 60), 60),
        r.3 == rem(rem(t as int, 86400), 60),
        -200000000000000 < r.0 < 200000000000000,
        t >= 0 ==> {
            &&& r.0 == t / 86400
            &&& 0 <= r.1 < 24
            &&& 0 <= r.2 < 60
            &&& 0 <= r.3 < 60
            &&& r.1 * 3600 + r.2 * 60 + r.3 == t % 86400
        },
{
    let s: i64 = remainder(t, 86400);
    let days: i64 = quotient(t, 86400);
    let h: i64 = quotient(s, 3600);
    let m: i64 = remainder(quotient(s, 60), 60);
    let sec: i64 = remainder(s, 60);
    (days, h, m, sec)
}

/// Year, month and day of the month for the day `days`, counted from the
/// first of January 1970.
fn date_of(days: i64) -> (r: (i64, i64, i64))
    requires
        -200000000000000 < days < 200000000000000,
    ensures
        (r.0 as int, r.1 as int, r.2 as int) == civil_date(days as int),
        days >= 0 ==> {
            &&& r.0 >= 1970
            &&& 1 <= r.1 <= 12
            &&& 1 <= r.2 <= month_days(r.0 as int, r.1 as int)
            &&& day_number(r.0 as int, r.1 as int, r.2 as int) == days
        },
{
    proof {
        if days >= 0 {
            lemma_civil_date(days as int);
        }
    }
    civil_from_days(days)
}

/// A point in time as text: year, month and day joined by `-`, a space,
/// then hour, minute and second joined by `:`. The year is filled with zeros
/// to four characters, each of the others to two.
pub open spec fn time_text(t: (int, int, int, int, int, int)) -> Seq<char> {
    padded(t.0, 4) + "-"@ + padded(t.1, 2) + "-"@ + padded(t.2, 2) + " "@ + padded(t.3, 2) + ":"@
        + padded(t.4, 2) + ":"@ + padded(t.5, 2)
}

/// The time `ts`, in seconds since the start of 1970 and moved by
/// `tz_offset` hours, as text, such as `2016-03-01 12:30:05`. The moved
/// time has to fit in an `i64`.
pub fn format_time(ts: i64, tz_offset: i64) -> (r: String)
    requires
        i64::MIN <= tz_offset * 3600 <= i64::MAX,
        i64::MIN <= ts + tz_offset * 3600 <= i64::MAX,
    ensures
        r@ == time_text(time_tuple(ts + tz_offset * 3600)),
{
    let t = get_time_tuple(ts, tz_offset);
    let mut out = String::new();
    push_padded(&mut out, t.0, 4);
    out.append("-");
    push_padded(&mut out, t.1, 2);
    out.append("-");
    push_padded(&mut out, t.2, 2);
    out.append(" ");
    push_padded(&mut out, t.3, 2);
    out.append(":");
    push_padded(&mut out, t.4, 2);
    out.append(":");
    push_padded(&mut out, t.5, 2);
    assert(out@ =~= time_text(time_tuple(ts + tz_offset * 3600)));
    out
}

/// The steps of `civil_date` in machine integers.
fn civil_from_days(days: i64) -> (r: (i64, i64, i64))
    requires
        -200000000000000 < days < 200000000000000,
    ensures
        (r.0 as int, r.1 as int, r.2 as int) == civil_date(days as int),
{
    let x: i64 = quotient(days * 4 + 102032, 146097) + 15;
    let b: i64 = days + 2442113 + x - quotient(x, 4);
    let c: i64 = quotient(b * 20 - 2442, 7305);
    let d: i64 = b - 365 * c - quotient(c, 4);
    let e: i64 = quotient(d * 1000, 30601);
    let f: i64 = d - e * 30 - quotient(e * 601, 1000);
    if e < 14 {
        (c - 4716, e - 1, f)
    } else {
        (c - 4715, e - 13, f)
    }
}

} // verus!
