//! Dates of the proleptic Gregorian calendar counted in days since
//! 1970-01-01.
use vstd::prelude::*;

verus! {

/// Leap years of the Gregorian calendar.
pub open spec fn is_leap(y: int) -> bool {
    (y % 4 == 0 && y % 100 != 0) || y % 400 == 0
}

pub open spec fn days_in_month(y: int, m: int) -> int {
    if m == 2 {
        if is_leap(y) {
            29
        } else {
            28
        }
    } else if m == 4 || m == 6 || m == 9 || m == 11 {
        30
    } else {
        31
    }
}

/// A day that exists in the calendar.
pub open spec fn valid_date(y: int, m: int, d: int) -> bool {
    1 <= m <= 12 && 1 <= d <= days_in_month(y, m)
}

/// Days from March 1 to the first of month `i` of a year counted from
/// March (`i` = 0 is March, 11 is February).
pub open spec fn days_before_march_month(i: int) -> int {
    if i <= 0 {
        0
    } else if i == 1 {
        31
    } else if i == 2 {
        61
    } else if i == 3 {
        92
    } else if i == 4 {
        122
    } else if i == 5 {
        153
    } else if i == 6 {
        184
    } else if i == 7 {
        214
    } else if i == 8 {
        245
    } else if i == 9 {
        275
    } else if i == 10 {
        306
    } else {
        337
    }
}

/// Days from 0000-03-01 to March 1 of year `y`: 365 a year and one more
/// for each February 29 in between, that is for each leap year in
/// `1..=y`.
pub open spec fn days_before_march_year(y: int) -> int {
    365 * y + y / 4 - y / 100 + y / 400
}

/// The day number of a date: days since 1970-01-01, which is day 719468
/// counted from 0000-03-01.
pub open spec fn days_from_civil(y: int, m: int, d: int) -> int {
    let year_from_march = if m <= 2 { y - 1 } else { y };
    let month_from_march = if m >= 3 { m - 3 } else { m + 9 };
    days_before_march_year(year_from_march) + days_before_march_month(month_from_march) + d - 1
        - 719468
}

/// Within one 400-year cycle starting on March 1: the year of day `doe`,
/// found by the day-count formula, starts at or before `doe` and ends
/// after it.
proof fn lemma_year_of_cycle_day(doe: int)
    requires
        0 <= doe < 146097,
    ensures
        ({
            let yoe = (doe - doe / 1460 + doe / 36524 - doe / 146096) / 365;
            let start = 365 * yoe + yoe / 4 - yoe / 100;
            &&& 0 <= yoe <= 399
            &&& start <= doe
            &&& doe - start < 365 + (if is_leap(yoe + 1) { 1int } else { 0int })
        }),
{
}

/// Within a year counted from March 1: the month of day `doy`, found as
/// the day-count formula computes it, and where that month starts.
proof fn lemma_month_of_year_day(doy: int)
    requires
        0 <= doy < 366,
    ensures
        ({
            let mp = (5 * doy + 2) / 153;
            &&& 0 <= mp <= 11
            &&& (153 * mp + 2) / 5 == days_before_march_month(mp)
            &&& days_before_march_month(mp) <= doy
            &&& mp < 11 ==> doy < days_before_march_month(mp + 1)
        }),
{
}

proof fn lemma_cycle_leap(era: int, k: int)
    ensures
        is_leap(era * 400 + k) == is_leap(k),
{
    assert((era * 400 + k) % 4 == k % 4) by (nonlinear_arith);
    assert((era * 400 + k) % 100 == k % 100) by (nonlinear_arith);
    assert((era * 400 + k) % 400 == k % 400) by (nonlinear_arith);
}

proof fn lemma_cycle_days(era: int, yoe: int)
    requires
        0 <= yoe < 400,
    ensures
        days_before_march_year(era * 400 + yoe) == era * 146097 + 365 * yoe + yoe / 4 - yoe / 100,
{
    let y = era * 400 + yoe;
    assert(y / 4 == era * 100 + yoe / 4) by (nonlinear_arith)
        requires
            y == era * 400 + yoe,
            0 <= yoe < 400,
    ;
    assert(y / 100 == era * 4 + yoe / 100) by (nonlinear_arith)
        requires
            y == era * 400 + yoe,
            0 <= yoe < 400,
    ;
    assert(y / 400 == era) by (nonlinear_arith)
        requires
            y == era * 400 + yoe,
            0 <= yoe < 400,
    ;
}

proof fn lemma_civil_date(
    days: int,
    era: int,
    doe: int,
    yoe: int,
    doy: int,
    mp: int,
    day: int,
    month: int,
    year: int,
)
    requires
        0 <= doe < 146097,
        days + 719468 == era * 146097 + doe,
        yoe == (doe - doe / 1460 + doe / 36524 - doe / 146096) / 365,
        doy == doe - (365 * yoe + yoe / 4 - yoe / 100),
        mp == (5 * doy + 2) / 153,
        day == doy - (153 * mp + 2) / 5 + 1,
        month == (if mp < 10 { mp + 3 } else { mp - 9 }),
        year == era * 400 + yoe + (if month <= 2 { 1int } else { 0int }),
    ensures
        valid_date(year, month, day),
        days_from_civil(year, month, day) == days,
{
    lemma_year_of_cycle_day(doe);
    lemma_month_of_year_day(doy);
    lemma_cycle_days(era, yoe);
    lemma_cycle_leap(era, yoe + 1);
    assert(0 <= yoe <= 399);
    if mp == 11 {
        assert(year == era * 400 + yoe + 1);
        assert(is_leap(year) == is_leap(yoe + 1));
    }
}

proof fn lemma_march_year_length(y: int)
    ensures
        days_before_march_year(y + 1) - days_before_march_year(y) == 365 + (if is_leap(y + 1) {
            1int
        } else {
            0int
        }),
{
}

proof fn lemma_march_years_increase(a: int, b: int)
    requires
        a <= b,
    ensures
        days_before_march_year(a) <= days_before_march_year(b),
    decreases b - a,
{
    if a < b {
        lemma_march_year_length(b - 1);
        lemma_march_years_increase(a, b - 1);
    }
}

/// Where a valid date falls in its year counted from March.
proof fn lemma_day_in_march_year(y: int, m: int, d: int)
    requires
        valid_date(y, m, d),
    ensures
        ({
            let year_from_march = if m <= 2 { y - 1 } else { y };
            let month_from_march = if m >= 3 { m - 3 } else { m + 9 };
            let offset = days_before_march_month(month_from_march) + d - 1;
            &&& 0 <= offset < 365 + (if is_leap(year_from_march + 1) { 1int } else { 0int })
            &&& month_from_march < 11 ==> offset < days_before_march_month(month_from_march + 1)
            &&& days_before_march_month(month_from_march) <= offset
        }),
{
}

/// A day number names one date only.
pub proof fn lemma_days_from_civil_unique(y1: int, m1: int, d1: int, y2: int, m2: int, d2: int)
    requires
        valid_date(y1, m1, d1),
        valid_date(y2, m2, d2),
        days_from_civil(y1, m1, d1) == days_from_civil(y2, m2, d2),
    ensures
        y1 == y2 && m1 == m2 && d1 == d2,
{
    let a = if m1 <= 2 { y1 - 1 } else { y1 };
    let b = if m2 <= 2 { y2 - 1 } else { y2 };
    lemma_day_in_march_year(y1, m1, d1);
    lemma_day_in_march_year(y2, m2, d2);
    lemma_march_year_length(a);
    lemma_march_year_length(b);
    if a < b {
        lemma_march_years_increase(a + 1, b);
    } else if b < a {
        lemma_march_years_increase(b + 1, a);
    }
    assert(a == b);
}

/// The date whose day number is `days`.
pub open spec fn civil_date(days: int) -> (int, int, int) {
    choose|t: (int, int, int)| valid_date(t.0, t.1, t.2) && days_from_civil(t.0, t.1, t.2) == days
}

/// The date of a day number: the year, month (1 to 12) and day of the
/// month of the day that lies `days_since_epoch` days after 1970-01-01.
/// The year is the date's year cut to 32 bits, as a cast does.
pub fn civil_from_days(days_since_epoch: i64) -> (r: (i32, u32, u32))
    requires
        i64::MIN + 146096 - 719468 <= days_since_epoch <= i64::MAX - 719468,
    ensures
        r.0 == civil_date(days_since_epoch as int).0 as i32,
        r.1 == civil_date(days_since_epoch as int).1,
        r.2 == civil_date(days_since_epoch as int).2,
        valid_date(civil_date(days_since_epoch as int).0, r.1 as int, r.2 as int),
{
    let z: i64 = days_since_epoch + 719468;
    let era: i64 = if z >= 0 {
        z / 146097
    } else {
        -((146096 - z) / 146097)
    };
    assert(era == z / 146097) by (nonlinear_arith)
        requires
            z >= 0 ==> era == z / 146097,
            z < 0 ==> era == -((146096 - z) / 146097),
    ;
    let doe: i64 = z - era * 146097;
    assert(0 <= doe < 146097) by (nonlinear_arith)
        requires
            era == z / 146097,
            doe == z - era * 146097,
    ;
    proof {
        lemma_year_of_cycle_day(doe as int);
    }
    let yoe: i64 = (doe - doe / 1460 + doe / 36524 - doe / 146096) / 365;
    let y: i64 = yoe + era * 400;
    let doy: i64 = doe - (365 * yoe + yoe / 4 - yoe / 100);
    proof {
        lemma_month_of_year_day(doy as int);
    }
    let mp: i64 = (5 * doy + 2) / 153;
    let day: i64 = doy - (153 * mp + 2) / 5 + 1;
    let month: i64 = if mp < 10 {
        mp + 3
    } else {
        mp - 9
    };
    let year: i64 = y + if month <= 2 {
        1
    } else {
        0
    };
    proof {
        lemma_civil_date(
            days_since_epoch as int,
            era as int,
            doe as int,
            yoe as int,
            doy as int,
            mp as int,
            day as int,
            month as int,
            year as int,
        );
    }
    proof {
        let t = (year as int, month as int, day as int);
        assert(valid_date(t.0, t.1, t.2) && days_from_civil(t.0, t.1, t.2) == days_since_epoch);
        let c = civil_date(days_since_epoch as int);
        lemma_days_from_civil_unique(c.0, c.1, c.2, t.0, t.1, t.2);
    }
    (year as i32, month as u32, day as u32)
}

/// The date of a date's day number is that date.
pub proof fn lemma_civil_date_of_day_number(y: int, m: int, d: int)
    requires
        valid_date(y, m, d),
    ensures
        civil_date(days_from_civil(y, m, d)) == (y, m, d),
{
    let days = days_from_civil(y, m, d);
    assert(valid_date((y, m, d).0, (y, m, d).1, (y, m, d).2) && days_from_civil(
        (y, m, d).0,
        (y, m, d).1,
        (y, m, d).2,
    ) == days);
    let c = civil_date(days);
    lemma_days_from_civil_unique(c.0, c.1, c.2, y, m, d);
}

} // verus!
