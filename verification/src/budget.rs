//! Calendar arithmetic for the monthly budget.
use vstd::prelude::*;

use chrono::TimeZone;

verus! {

/// The first year that `chrono` represents.
pub open spec fn first_year() -> int {
    -262143
}

/// The last year that `chrono` represents.
pub open spec fn last_year() -> int {
    262142
}

/// Days from 1970-01-01 to the given date of the proleptic Gregorian calendar.
pub open spec fn days_from_civil(y: int, m: int, d: int) -> int {
    let yy = if m <= 2 {
        y - 1
    } else {
        y
    };
    let era = yy / 400;
    let yoe = yy - era * 400;
    let mp = if m > 2 {
        m - 3
    } else {
        m + 9
    };
    let doy = (153 * mp + 2) / 5 + d - 1;
    let doe = yoe * 365 + yoe / 4 - yoe / 100 + doy;
    era * 146097 + doe - 719468
}

/// Calls `Utc.with_ymd_and_hms(y, m, 1, 0, 0, 0)` and takes the `timestamp` of the single
/// result: the Unix time of the first day of the month, midnight UTC, in the proleptic
/// Gregorian calendar.
#[verifier::external_body]
fn utc_month_start(y: i32, m: u32) -> (r: Option<i64>)
    requires
        first_year() <= y <= last_year(),
        1 <= m <= 12,
    ensures
        r == Some((days_from_civil(y as int, m as int, 1) * 86400) as i64),
{
    chrono::Utc.with_ymd_and_hms(y, m, 1, 0, 0, 0).single().map(|d| d.timestamp())
}

/// The number of days in month `m` of year `y`.
pub fn days_in_month(y: i32, m: u32) -> (r: u32)
    requires
        1 <= m <= 12,
        first_year() <= y,
        (if m == 12 { y + 1 } else { y as int }) <= last_year(),
    ensures
        r == month_length(y as int, m as int),
{
    proof {
        lemma_month_start_bounds(y as int, m as int);
        if m == 12 {
            lemma_month_start_bounds(y + 1, 1);
            lemma_month_step(y as int, m as int);
        } else {
            lemma_month_start_bounds(y as int, m + 1);
            lemma_month_step(y as int, m as int);
        }
    }
    let next = if m == 12 {
        utc_month_start(y + 1, 1)
    } else {
        utc_month_start(y, m + 1)
    };
    let this = utc_month_start(y, m);
    match (next, this) {
        (Some(a), Some(b)) => ((a - b) / 86400) as u32,
        _ => 0,
    }
}

proof fn lemma_month_start_bounds(y: int, m: int)
    requires
        first_year() <= y <= last_year(),
        1 <= m <= 12,
    ensures
        -100_000_000 < days_from_civil(y, m, 1) < 100_000_000,
{
    let yy = if m <= 2 { y - 1 } else { y };
    let era = yy / 400;
    let yoe = yy - era * 400;
    assert(0 <= yoe < 400);
    assert(-700 < era < 700);
    assert(-700 * 146097 < era * 146097 < 700 * 146097) by (nonlinear_arith)
        requires -700 < era < 700;
    assert(0 <= yoe * 365 < 400 * 365) by (nonlinear_arith)
        requires 0 <= yoe < 400;
}

/// The part of `days_from_civil` that depends on the (March-based) year `yy` alone.
spec fn year_days(yy: int) -> int {
    let era = yy / 400;
    let yoe = yy - era * 400;
    era * 146097 + yoe * 365 + yoe / 4 - yoe / 100
}

proof fn lemma_leap_days_step(v: int)
    requires
        1 <= v <= 399,
    ensures
        (v / 4 - (v - 1) / 4) - (v / 100 - (v - 1) / 100) == (if v % 4 == 0 && v % 100 != 0 {
            1int
        } else {
            0int
        }),
{
}

proof fn lemma_leap_by_cycle(w: int)
    ensures
        is_leap(w) == (((w % 400) % 4 == 0 && (w % 400) % 100 != 0) || w % 400 == 0),
{
    vstd::arithmetic::div_mod::lemma_mod_mod(w, 4, 100);
    vstd::arithmetic::div_mod::lemma_mod_mod(w, 100, 4);
    assert(4 * 100 == 400 && 100 * 4 == 400);
}

proof fn lemma_year_step(z: int)
    ensures
        year_days(z + 1) - year_days(z) == (if is_leap(z + 1) { 366int } else { 365int }),
{
    let era = z / 400;
    let yoe = z - era * 400;
    assert(0 <= yoe < 400);
    lemma_leap_by_cycle(z + 1);
    if yoe < 399 {
        assert((z + 1) / 400 == era);
        assert((z + 1) % 400 == yoe + 1);
        lemma_leap_days_step(yoe + 1);
        assert(year_days(z + 1) == era * 146097 + (yoe + 1) * 365 + (yoe + 1) / 4 - (yoe + 1)
            / 100);
    } else {
        assert((z + 1) / 400 == era + 1);
        assert((z + 1) % 400 == 0);
        assert(year_days(z + 1) == (era + 1) * 146097);
    }
}

/// Whether `y` is a leap year of the Gregorian calendar.
pub open spec fn is_leap(y: int) -> bool {
    (y % 4 == 0 && y % 100 != 0) || y % 400 == 0
}

/// The number of days in month `m` of year `y`.
pub open spec fn month_length(y: int, m: int) -> int {
    if m == 2 {
        if is_leap(y) {
            29
        } else {
            28
        }
    } else if m == 4 || m == 6 || m == 9 || m == 11 {
        30
    } else {
        31
    }
}

/// Consecutive month starts are a month's length apart.
proof fn lemma_month_step(y: int, m: int)
    requires
        1 <= m <= 12,
    ensures
        (if m == 12 {
            days_from_civil(y + 1, 1, 1)
        } else {
            days_from_civil(y, m + 1, 1)
        }) - days_from_civil(y, m, 1) == month_length(y, m),
{
    if m == 2 {
        lemma_year_step(y - 1);
        assert(days_from_civil(y, 3, 1) == year_days(y) - 719468);
        assert(days_from_civil(y, 2, 1) == year_days(y - 1) + 337 - 719468);
    } else if m == 12 {
        assert(days_from_civil(y + 1, 1, 1) == year_days(y) + 306 - 719468);
        assert(days_from_civil(y, 12, 1) == year_days(y) + 275 - 719468);
    } else if m == 1 {
        assert(days_from_civil(y, 2, 1) == year_days(y - 1) + 337 - 719468);
        assert(days_from_civil(y, 1, 1) == year_days(y - 1) + 306 - 719468);
    } else {
        let mp = m - 3;
        assert(days_from_civil(y, m, 1) == year_days(y) + (153 * mp + 2) / 5 - 719468);
        assert(days_from_civil(y, m + 1, 1) == year_days(y) + (153 * (mp + 1) + 2) / 5 - 719468);
    }
}

} // verus!
