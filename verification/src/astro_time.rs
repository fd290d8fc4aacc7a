//! Time for astronomical calculations: calendar rules and Julian Day
//! arithmetic.
//!
//! A point in time is measured as a Julian Day.  This module carries that
//! quantity as a whole number of seconds since the Julian Day epoch
//! (`-4712-01-01 12:00` in the Julian calendar): the day number times 86 400
//! plus the seconds of the day.  Every calendar date with an integer
//! hour/minute/second maps to exactly one such count, so the conversions in
//! this module are exact in both directions.

use vstd::arithmetic::div_mod::{
    lemma_fundamental_div_mod, lemma_fundamental_div_mod_converse,
    lemma_mod_division_less_than_divisor, lemma_mod_multiples_vanish, lemma_mod_pos_bound,
};
use vstd::prelude::*;

use crate::error::{AstroAlgorithmsError, AstroResult};

verus! {

/// Represent different types of time.
///
/// Dynamical Time is measured by atomic clocks and is the kind of time
/// physical calculations use.  Universal Time is determined by the position
/// of Earth with respect to the Sun.  The tag does not change any numeric
/// value; the delta-T conversion between the two scales is a floating-point
/// correction that lives outside this crate.
#[derive(Debug, PartialEq, Eq, Structural, Clone, Copy)]
pub enum TimeType {
    /// Universal Time, also known as UTC, Zulu, or GMT.
    UT,
    /// Dynamical Time.
    DT,
}

/// Seconds in one day.
pub const SECONDS_PER_DAY: i64 = 86_400;

/// A year is a leap year in the Gregorian calendar when it is divisible by
/// four, except century years, which must be divisible by four hundred.
pub open spec fn gregorian_leap_spec(year: int) -> bool {
    year % 4 == 0 && (year % 100 != 0 || year % 400 == 0)
}

/// A year is a leap year in the Julian calendar when it is divisible by four.
pub open spec fn julian_leap_spec(year: int) -> bool {
    year % 4 == 0
}

/// Length of a month of the Gregorian calendar, meaningful for months 1-12.
pub open spec fn days_per_month_gregorian_spec(month: int, year: int) -> int {
    if month == 2 {
        if gregorian_leap_spec(year) {
            29
        } else {
            28
        }
    } else if month == 4 || month == 6 || month == 9 || month == 11 {
        30
    } else {
        31
    }
}

/// Length of a month of the Julian calendar, meaningful for months 1-12.
pub open spec fn days_per_month_julian_spec(month: int, year: int) -> int {
    if month == 2 {
        if julian_leap_spec(year) {
            29
        } else {
            28
        }
    } else if month == 4 || month == 6 || month == 9 || month == 11 {
        30
    } else {
        31
    }
}

/// A Gregorian calendar date is valid when the month is 1-12 and the day
/// fits the month, honouring the Gregorian leap-year rule.
pub open spec fn gregorian_date_valid(year: int, month: int, day: int) -> bool {
    1 <= month <= 12 && 1 <= day <= days_per_month_gregorian_spec(month, year)
}

/// A Julian calendar date is valid when the month is 1-12 and the day fits
/// the month, honouring the Julian leap-year rule.
pub open spec fn julian_date_valid(year: int, month: int, day: int) -> bool {
    1 <= month <= 12 && 1 <= day <= days_per_month_julian_spec(month, year)
}

/// A time of day is valid when the hour is 0-23 and the minute and second
/// are 0-59.
pub open spec fn time_of_day_valid(hour: int, minute: int, second: int) -> bool {
    0 <= hour < 24 && 0 <= minute < 60 && 0 <= second < 60
}

/// The seconds elapsed since midnight for a given time of day.
pub open spec fn seconds_of_day_spec(hour: int, minute: int, second: int) -> int {
    3600 * hour + 60 * minute + second
}

/// Days of the Gregorian year `year` that precede the first day of `month`.
pub open spec fn days_before_month_gregorian(month: int, year: int) -> int
    decreases month,
{
    if month <= 1 {
        0
    } else {
        days_before_month_gregorian(month - 1, year) + days_per_month_gregorian_spec(
            month - 1,
            year,
        )
    }
}

/// Number of days in a Gregorian year.
pub open spec fn gregorian_year_length(year: int) -> int {
    if gregorian_leap_spec(year) {
        366
    } else {
        365
    }
}

/// Is this a leap year in the Gregorian calendar?
pub fn is_gregorian_leap_year(year: i32) -> (r: bool)
    ensures
        r == gregorian_leap_spec(year as int),
{
    if year % 4 != 0 {
        false
    } else if year % 100 != 0 {
        true
    } else if year % 400 == 0 {
        true
    } else {
        false
    }
}

/// Is this a leap year in the Julian calendar?
pub fn is_julian_leap_year(year: i32) -> (r: bool)
    ensures
        r == julian_leap_spec(year as int),
{
    year % 4 == 0
}

/// The days per month in the Gregorian calendar.
pub fn days_per_month_gregorian(month: i32, year: i32) -> (r: i32)
    requires
        1 <= month <= 12,
    ensures
        r == days_per_month_gregorian_spec(month as int, year as int),
        28 <= r <= 31,
{
    match month {
        1 | 3 | 5 | 7 | 8 | 10 | 12 => 31,
        4 | 6 | 9 | 11 => 30,
        _ => {
            if is_gregorian_leap_year(year) {
                29
            } else {
                28
            }
        },
    }
}

/// The days per month in the Julian calendar.
pub fn days_per_month_julian(month: i32, year: i32) -> (r: i32)
    requires
        1 <= month <= 12,
    ensures
        r == days_per_month_julian_spec(month as int, year as int),
        28 <= r <= 31,
{
    match month {
        1 | 3 | 5 | 7 | 8 | 10 | 12 => 31,
        4 | 6 | 9 | 11 => 30,
        _ => {
            if is_julian_leap_year(year) {
                29
            } else {
                28
            }
        },
    }
}

/// Validate a date given in the Gregorian calendar.
pub fn is_valid_gregorian(year: i32, month: i32, day: i32) -> (r: bool)
    ensures
        r == gregorian_date_valid(year as int, month as int, day as int),
{
    if month < 1 || month > 12 || day < 1 || day > days_per_month_gregorian(month, year) {
        false
    } else {
        true
    }
}

/// Validate a date given in the Julian calendar.
pub fn is_valid_julian(year: i32, month: i32, day: i32) -> (r: bool)
    ensures
        r == julian_date_valid(year as int, month as int, day as int),
{
    if month < 1 || month > 12 || day < 1 || day > days_per_month_julian(month, year) {
        false
    } else {
        true
    }
}

/// Validate a time of day.
pub fn is_valid_time(hour: i32, minute: i32, second: i32) -> (r: bool)
    ensures
        r == time_of_day_valid(hour as int, minute as int, second as int),
{
    0 <= hour && hour <= 23 && 0 <= minute && minute <= 59 && 0 <= second && second <= 59
}

/// The closed-form day-of-year term for a month equals the sum of the
/// lengths of the preceding months.
proof fn lemma_day_of_year_formula(month: int, year: int)
    requires
        1 <= month <= 12,
    ensures
        (275 * month) / 9 - (if gregorian_leap_spec(year) {
            1int
        } else {
            2int
        }) * ((month + 9) / 12) - 30 == days_before_month_gregorian(month, year),
{
    assert(days_before_month_gregorian(1, year) == 0);
    assert(days_before_month_gregorian(2, year) == 31);
    assert(days_before_month_gregorian(3, year) == 59 + (if gregorian_leap_spec(year) {
        1int
    } else {
        0int
    }));
    assert(days_before_month_gregorian(4, year) == days_before_month_gregorian(3, year) + 31);
    assert(days_before_month_gregorian(5, year) == days_before_month_gregorian(4, year) + 30);
    assert(days_before_month_gregorian(6, year) == days_before_month_gregorian(5, year) + 31);
    assert(days_before_month_gregorian(7, year) == days_before_month_gregorian(6, year) + 30);
    assert(days_before_month_gregorian(8, year) == days_before_month_gregorian(7, year) + 31);
    assert(days_before_month_gregorian(9, year) == days_before_month_gregorian(8, year) + 31);
    assert(days_before_month_gregorian(10, year) == days_before_month_gregorian(9, year) + 30);
    assert(days_before_month_gregorian(11, year) == days_before_month_gregorian(10, year) + 31);
    assert(days_before_month_gregorian(12, year) == days_before_month_gregorian(11, year) + 30);
}

/// The months of a Gregorian year sum to its length.
proof fn lemma_year_length(year: int)
    ensures
        days_before_month_gregorian(13, year) == gregorian_year_length(year),
{
    lemma_day_of_year_formula(12, year);
}

/// A valid day of a valid month lies within the year.
proof fn lemma_days_before_month_bounds(month: int, year: int)
    requires
        1 <= month <= 12,
    ensures
        0 <= days_before_month_gregorian(month, year),
        days_before_month_gregorian(month, year) + days_per_month_gregorian_spec(month, year)
            <= gregorian_year_length(year),
{
    lemma_day_of_year_formula(month, year);
    lemma_year_length(year);
    if month < 12 {
        lemma_day_of_year_formula(month + 1, year);
    }
}

/// Calculate the day of the year in the Gregorian calendar.
///
/// Succeeds exactly on valid Gregorian dates; the result counts 1 for
/// January 1st.
pub fn day_of_year_gregorian(year: i32, month: i32, day: i32) -> (r: AstroResult<i32>)
    ensures
        match r {
            Ok(doy) => gregorian_date_valid(year as int, month as int, day as int) && doy
                == days_before_month_gregorian(month as int, year as int) + day && 1 <= doy
                <= gregorian_year_length(year as int),
            Err(e) => !gregorian_date_valid(year as int, month as int, day as int) && e
                == AstroAlgorithmsError::InvalidGregorianDate,
        },
{
    if is_valid_gregorian(year, month, day) {
        let k: i64 = if is_gregorian_leap_year(year) {
            1
        } else {
            2
        };
        let m: i64 = month as i64;
        let t1: i64 = (275 * m) / 9;
        let t2: i64 = (m + 9) / 12;
        let doy: i64 = t1 - k * t2 + day as i64 - 30;
        proof {
            lemma_day_of_year_formula(month as int, year as int);
            lemma_year_length(year as int);
            lemma_days_before_month_bounds(month as int, year as int);
        }
        Ok(doy as i32)
    } else {
        Err(AstroAlgorithmsError::InvalidGregorianDate)
    }
}

/// Meeus's leap-year adjustment term for day-of-year arithmetic: 1 in a
/// Gregorian leap year, 2 otherwise.
pub open spec fn leap_adjustment(year: int) -> int {
    if gregorian_leap_spec(year) {
        1
    } else {
        2
    }
}

/// The month that a day of the Gregorian year `year` falls in, by the
/// closed-form selector; meaningful answers need `doy` within the year.
pub open spec fn month_from_day_of_year_spec(year: int, doy: int) -> int {
    if doy < 32 {
        1
    } else {
        (18 * (leap_adjustment(year) + doy) + 539) / 550
    }
}

/// The day of the month that a day of the Gregorian year `year` falls on,
/// paired with `month_from_day_of_year_spec`.
pub open spec fn day_from_day_of_year_spec(year: int, doy: int) -> int {
    let m: int = month_from_day_of_year_spec(year, doy);
    doy - (275 * m) / 9 + leap_adjustment(year) * ((m + 9) / 12) + 30
}

/// Calculate the month and day in the Gregorian calendar from the year and
/// the day of the year.
///
/// Succeeds exactly when `day_of_year` counts a day of that year, returning
/// the valid date that lies that many days into the year.
pub fn month_and_day_gregorian(year: i32, day_of_year: i32) -> (r: AstroResult<(i32, i32)>)
    ensures
        match r {
            Ok(md) => 1 <= day_of_year <= gregorian_year_length(year as int) && md.0
                == month_from_day_of_year_spec(year as int, day_of_year as int) && md.1
                == day_from_day_of_year_spec(year as int, day_of_year as int)
                && gregorian_date_valid(year as int, md.0 as int, md.1 as int)
                && days_before_month_gregorian(md.0 as int, year as int) + md.1 == day_of_year,
            Err(e) => e == AstroAlgorithmsError::InvalidGregorianDate && !(1 <= day_of_year
                <= gregorian_year_length(year as int)),
        },
{
    let k: i64 = if is_gregorian_leap_year(year) {
        1
    } else {
        2
    };
    let doy: i64 = day_of_year as i64;
    let m: i64 = if doy < 32 {
        1
    } else {
        (18 * (k + doy) + 539) / 550
    };
    proof {
        lemma_fundamental_div_mod(275 * m as int, 9);
        lemma_mod_pos_bound(275 * m as int, 9);
        lemma_fundamental_div_mod(m as int + 9, 12);
        lemma_mod_pos_bound(m as int + 9, 12);
        if 1 <= day_of_year as int <= gregorian_year_length(year as int) {
            lemma_month_and_day_covers_year(year as int, day_of_year as int);
        }
    }
    let t1: i64 = (275 * m) / 9;
    let t2: i64 = (m + 9) / 12;
    let d: i64 = doy - t1 + k * t2 + 30;
    if m >= 1 && m <= 12 && d >= 1 && d <= 31 {
        if is_valid_gregorian(year, m as i32, d as i32) {
            proof {
                lemma_day_of_year_formula(m as int, year as int);
                lemma_days_before_month_bounds(m as int, year as int);
            }
            Ok((m as i32, d as i32))
        } else {
            Err(AstroAlgorithmsError::InvalidGregorianDate)
        }
    } else {
        Err(AstroAlgorithmsError::InvalidGregorianDate)
    }
}

/// Every day of the year is reached: for a count within the year, the
/// month/day selectors produce a valid date that lies that many days into
/// the year.
pub proof fn lemma_month_and_day_covers_year(year: int, doy: int)
    requires
        1 <= doy <= gregorian_year_length(year),
    ensures
        ({
            let m: int = month_from_day_of_year_spec(year, doy);
            let d: int = day_from_day_of_year_spec(year, doy);
            gregorian_date_valid(year, m, d) && days_before_month_gregorian(m, year) + d == doy
        }),
{
    let kk: int = leap_adjustment(year);
    let m: int = month_from_day_of_year_spec(year, doy);
    if doy < 32 {
        lemma_day_of_year_formula(1, year);
    } else {
        lemma_fundamental_div_mod(18 * (kk + doy) + 539, 550);
        lemma_mod_division_less_than_divisor(18 * (kk + doy) + 539, 550);
        assert(2 <= m <= 12);
        lemma_day_of_year_formula(m, year);
        lemma_days_before_month_bounds(m, year);
    }
}

/// The day-of-year conversions invert one another: for a valid Gregorian
/// date, the day of the year it maps to maps back to the same month and day.
pub proof fn lemma_month_and_day_inverts_day_of_year(year: int, month: int, day: int)
    requires
        gregorian_date_valid(year, month, day),
    ensures
        month_from_day_of_year_spec(year, days_before_month_gregorian(month, year) + day) == month,
        day_from_day_of_year_spec(year, days_before_month_gregorian(month, year) + day) == day,
{
    lemma_day_of_year_formula(month, year);
    let kk: int = leap_adjustment(year);
    let doy: int = days_before_month_gregorian(month, year) + day;
    lemma_fundamental_div_mod(275 * month, 9);
    lemma_mod_pos_bound(275 * month, 9);
    lemma_fundamental_div_mod(month + 9, 12);
    lemma_mod_pos_bound(month + 9, 12);
    if month == 1 {
        assert(doy < 32);
    } else {
        assert(doy >= 32);
        lemma_fundamental_div_mod_converse(
            18 * (kk + doy) + 539,
            550,
            month,
            18 * (kk + doy) + 539 - 550 * month,
        );
    }
}

// Flooring division of a possibly negative count by a positive one; machine
// division truncates toward zero, while the calendar formulas round down.
fn floor_div(a: i64, b: i64) -> (q: i64)
    requires
        i64::MIN < a,
        0 < b,
    ensures
        q == a as int / b as int,
{
    if a >= 0 {
        a / b
    } else {
        let n: i64 = -(a + 1);
        let q0: i64 = n / b;
        proof {
            let aa: int = a as int;
            let bb: int = b as int;
            let nn: int = n as int;
            lemma_fundamental_div_mod(nn, bb);
            lemma_mod_pos_bound(nn, bb);
            let qq: int = nn / bb;
            let rr: int = nn % bb;
            assert((-qq - 1) * bb == -(bb * qq) - bb) by (nonlinear_arith);
            lemma_fundamental_div_mod_converse(aa, bb, -qq - 1, bb - 1 - rr);
        }
        -(q0 + 1)
    }
}

/// The Julian Day, in seconds, of a Gregorian calendar date and time of day.
///
/// This is the standard calendar-to-Julian-Day formula with the Gregorian
/// leap correction term, scaled by 86 400 so that it is exact.
pub open spec fn gregorian_jd_seconds_spec(year: int, month: int, day: int, sod: int) -> int {
    let y: int = if month < 3 {
        year - 1
    } else {
        year
    };
    let m: int = if month < 3 {
        month + 12
    } else {
        month
    };
    let a: int = y / 100;
    let b: int = 2 - a + a / 4;
    86400 * ((36525 * (y + 4716)) / 100 + (306001 * (m + 1)) / 10000 + day + b) + sod - 131716800
}

/// The Julian Day, in seconds, of a Julian calendar date and time of day.
///
/// Same shape as the Gregorian formula but without the leap correction term.
pub open spec fn julian_jd_seconds_spec(year: int, month: int, day: int, sod: int) -> int {
    let y: int = if month < 3 {
        year - 1
    } else {
        year
    };
    let m: int = if month < 3 {
        month + 12
    } else {
        month
    };
    86400 * ((36525 * (y + 4716)) / 100 + (306001 * (m + 1)) / 10000 + day) + sod - 131716800
}

/// Create a Julian Day, counted in seconds, from a date and time in the
/// Gregorian calendar assuming it is in the UTC time zone.
///
/// The result divided by 86 400 is the conventional fractional Julian Day.
/// Fails with `InvalidGregorianDate` or `InvalidTime` when a component is
/// out of range, and with `DateRange` when the date precedes Julian Day 0.
pub fn jd_seconds_from_gregorian(
    year: i32,
    month: i32,
    day: i32,
    hour: i32,
    minute: i32,
    second: i32,
) -> (r: AstroResult<i64>)
    ensures
        match r {
            Ok(js) => gregorian_date_valid(year as int, month as int, day as int)
                && time_of_day_valid(hour as int, minute as int, second as int) && js
                == gregorian_jd_seconds_spec(
                year as int,
                month as int,
                day as int,
                seconds_of_day_spec(hour as int, minute as int, second as int),
            ) && js >= 0,
            Err(e) => if !gregorian_date_valid(year as int, month as int, day as int) {
                e == AstroAlgorithmsError::InvalidGregorianDate
            } else if !time_of_day_valid(hour as int, minute as int, second as int) {
                e == AstroAlgorithmsError::InvalidTime
            } else {
                e == AstroAlgorithmsError::DateRange && gregorian_jd_seconds_spec(
                    year as int,
                    month as int,
                    day as int,
                    seconds_of_day_spec(hour as int, minute as int, second as int),
                ) < 0
            },
        },
{
    if is_valid_gregorian(year, month, day) && is_valid_time(hour, minute, second) {
        let sod: i64 = 3600 * (hour as i64) + 60 * (minute as i64) + (second as i64);
        let mut y: i64 = year as i64;
        let mut m: i64 = month as i64;
        if m < 3 {
            y = y - 1;
            m = m + 12;
        }
        let a: i64 = floor_div(y, 100);
        let b: i64 = 2 - a + floor_div(a, 4);
        let days: i64 = floor_div(36525 * (y + 4716), 100) + floor_div(306001 * (m + 1), 10000)
            + (day as i64) + b;
        let js: i64 = 86400 * days + sod - 131716800;
        if js >= 0 {
            Ok(js)
        } else {
            Err(AstroAlgorithmsError::DateRange)
        }
    } else if !is_valid_gregorian(year, month, day) {
        Err(AstroAlgorithmsError::InvalidGregorianDate)
    } else {
        Err(AstroAlgorithmsError::InvalidTime)
    }
}

/// Create a Julian Day, counted in seconds, from a date and time in the
/// Julian calendar assuming it is in the UTC time zone.
///
/// Fails with `InvalidJulianDate` or `InvalidTime` when a component is out
/// of range, and with `DateRange` when the date precedes Julian Day 0.
pub fn jd_seconds_from_julian(
    year: i32,
    month: i32,
    day: i32,
    hour: i32,
    minute: i32,
    second: i32,
) -> (r: AstroResult<i64>)
    ensures
        match r {
            Ok(js) => julian_date_valid(year as int, month as int, day as int)
                && time_of_day_valid(hour as int, minute as int, second as int) && js
                == julian_jd_seconds_spec(
                year as int,
                month as int,
                day as int,
                seconds_of_day_spec(hour as int, minute as int, second as int),
            ) && js >= 0,
            Err(e) => if !julian_date_valid(year as int, month as int, day as int) {
                e == AstroAlgorithmsError::InvalidJulianDate
            } else if !time_of_day_valid(hour as int, minute as int, second as int) {
                e == AstroAlgorithmsError::InvalidTime
            } else {
                e == AstroAlgorithmsError::DateRange && julian_jd_seconds_spec(
                    year as int,
                    month as int,
                    day as int,
                    seconds_of_day_spec(hour as int, minute as int, second as int),
                ) < 0
            },
        },
{
    if is_valid_julian(year, month, day) && is_valid_time(hour, minute, second) {
        let sod: i64 = 3600 * (hour as i64) + 60 * (minute as i64) + (second as i64);
        let mut y: i64 = year as i64;
        let mut m: i64 = month as i64;
        if m < 3 {
            y = y - 1;
            m = m + 12;
        }
        let days: i64 = floor_div(36525 * (y + 4716), 100) + floor_div(306001 * (m + 1), 10000)
            + (day as i64);
        let js: i64 = 86400 * days + sod - 131716800;
        if js >= 0 {
            Ok(js)
        } else {
            Err(AstroAlgorithmsError::DateRange)
        }
    } else if !is_valid_julian(year, month, day) {
        Err(AstroAlgorithmsError::InvalidJulianDate)
    } else {
        Err(AstroAlgorithmsError::InvalidTime)
    }
}

/// The Julian Day, in seconds, of January 0.0 of a Gregorian year: noon of
/// the day before January 1st of that year.
pub open spec fn julian_day_zero_seconds_spec(year: int) -> int {
    let y: int = year - 1;
    let a: int = y / 100;
    86400 * ((1461 * y) / 4 - a + a / 4 + 1721424) + 43200
}

/// Calculate JD0, the Julian Day (in seconds) of January 0.0 for a given
/// year of the Gregorian calendar: the same instant as December 31.0 of the
/// previous year.
///
/// Fails with `DateRange` for years so early that the result would precede
/// Julian Day 0.
pub fn julian_day_zero_seconds(year: i32) -> (r: AstroResult<i64>)
    ensures
        match r {
            Ok(js) => js == julian_day_zero_seconds_spec(year as int) && js >= 0,
            Err(e) => e == AstroAlgorithmsError::DateRange && julian_day_zero_seconds_spec(
                year as int,
            ) < 0,
        },
{
    let y: i64 = year as i64 - 1;
    let a: i64 = floor_div(y, 100);
    let js: i64 = 86400 * (floor_div(1461 * y, 4) - a + floor_div(a, 4) + 1721424) + 43200;
    if js >= 0 {
        Ok(js)
    } else {
        Err(AstroAlgorithmsError::DateRange)
    }
}

/// The Modified Julian Day epoch (midnight 17 November 1858), in seconds:
/// Julian Day 2 400 000.5 times 86 400.
pub const MJD_EPOCH_SECONDS: i64 = 207_360_043_200;

/// The Modified Julian Day, in seconds: the time elapsed since midnight
/// 17 November 1858.  Negative for earlier instants.
pub fn modified_jd_seconds(js: i64) -> (r: i64)
    requires
        js >= 0,
    ensures
        r == js - MJD_EPOCH_SECONDS,
{
    js - MJD_EPOCH_SECONDS
}

/// Largest Julian Day (in seconds) the calendar conversion accepts; about
/// 580 billion days, far beyond any astronomical use, chosen so that every
/// intermediate count and the resulting year fit the machine integers.
pub const MAX_JD_SECONDS: i64 = 50_000_000_000_000_000;

/// The Gregorian calendar fields (year, month, day, hour, minute, second)
/// of a Julian Day counted in seconds.
///
/// This is the standard Julian-Day-to-calendar algorithm, with every
/// quantity scaled to stay an exact integer.
pub open spec fn gregorian_fields_spec(js: int) -> (int, int, int, int, int, int) {
    let z: int = (js + 43200) / 86400;
    let sod: int = (js + 43200) % 86400;
    let alpha: int = (100 * z - 186721625) / 3652425;
    let a: int = z + 1 + alpha - alpha / 4;
    let b: int = a + 1524;
    let c: int = (20 * b - 2442) / 7305;
    let d: int = (1461 * c) / 4;
    let e: int = (10000 * (b - d)) / 306001;
    let day: int = b - d - (306001 * e) / 10000;
    let month: int = if e > 13 {
        e - 13
    } else {
        e - 1
    };
    let year: int = if month > 2 {
        c - 4716
    } else {
        c - 4715
    };
    (year, month, day, sod / 3600, (sod % 3600) / 60, sod % 60)
}

/// Get the year, month, day, hour, minute, and second of a Julian Day
/// counted in seconds, in the UTC time zone and the Gregorian calendar.
///
/// This inverts the construction: a count built by
/// `jd_seconds_from_gregorian` converts back to the original fields.
pub fn gregorian_from_jd_seconds(js: i64) -> (r: (i32, i32, i32, i32, i32, i32))
    requires
        0 <= js <= MAX_JD_SECONDS,
    ensures
        ({
            let t = gregorian_fields_spec(js as int);
            r.0 == t.0 && r.1 == t.1 && r.2 == t.2 && r.3 == t.3 && r.4 == t.4 && r.5 == t.5
        }),
        1 <= r.1 <= 12,
        1 <= r.2 <= 31,
        time_of_day_valid(r.3 as int, r.4 as int, r.5 as int),
        seconds_of_day_spec(r.3 as int, r.4 as int, r.5 as int) == (js + 43200) % 86400,
{
    let z: i64 = (js + 43200) / 86400;
    let sod: i64 = (js + 43200) % 86400;
    let alpha: i64 = floor_div(100 * z - 186721625, 3652425);
    let a: i64 = z + 1 + alpha - floor_div(alpha, 4);
    let b: i64 = a + 1524;
    proof {
        lemma_fundamental_div_mod(20 * b as int - 2442, 7305);
        lemma_mod_pos_bound(20 * b as int - 2442, 7305);
    }
    let c: i64 = (20 * b - 2442) / 7305;
    proof {
        lemma_fundamental_div_mod(1461 * c as int, 4);
        lemma_mod_pos_bound(1461 * c as int, 4);
    }
    let d: i64 = (1461 * c) / 4;
    proof {
        lemma_fundamental_div_mod(10000 * (b as int - d as int), 306001);
        lemma_mod_pos_bound(10000 * (b as int - d as int), 306001);
    }
    let e: i64 = (10000 * (b - d)) / 306001;
    proof {
        lemma_fundamental_div_mod(306001 * e as int, 10000);
        lemma_mod_pos_bound(306001 * e as int, 10000);
        assert((306001 * e as int) % 10000 != 0);
    }
    let day: i64 = b - d - (306001 * e) / 10000;
    let month: i64 = if e > 13 {
        e - 13
    } else {
        e - 1
    };
    let year: i64 = if month > 2 {
        c - 4716
    } else {
        c - 4715
    };
    let hour: i64 = sod / 3600;
    let minute: i64 = (sod % 3600) / 60;
    let second: i64 = sod % 60;
    proof {
        lemma_time_decomposition((js as int + 43200) % 86400);
    }
    (year as i32, month as i32, day as i32, hour as i32, minute as i32, second as i32)
}

/// Splitting a count of seconds of the day into hours, minutes, and seconds
/// yields valid fields that recompose to the original count.
pub proof fn lemma_time_decomposition(sod: int)
    requires
        0 <= sod < 86400,
    ensures
        time_of_day_valid(sod / 3600, (sod % 3600) / 60, sod % 60),
        seconds_of_day_spec(sod / 3600, (sod % 3600) / 60, sod % 60) == sod,
{
    lemma_fundamental_div_mod(sod, 3600);
    lemma_mod_pos_bound(sod, 3600);
    lemma_fundamental_div_mod(sod % 3600, 60);
    lemma_mod_pos_bound(sod % 3600, 60);
    lemma_fundamental_div_mod(sod, 60);
    lemma_mod_pos_bound(sod, 60);
    vstd::arithmetic::div_mod::lemma_mod_mod(sod, 60, 60);
}

// A year of 365.25 days can be counted in hundredths or in quarters.
proof fn lemma_year_quarters(x: int)
    ensures
        (36525 * x) / 100 == (1461 * x) / 4,
{
    let g: int = (1461 * x) / 4;
    lemma_fundamental_div_mod(1461 * x, 4);
    lemma_mod_division_less_than_divisor(1461 * x, 4);
    lemma_fundamental_div_mod_converse(36525 * x, 100, g, 36525 * x - 100 * g);
}

// Inverting the Julian-calendar day count: the year, month, and day fall out
// of the count again.  The months here are shifted as in the construction,
// so that 3 is March and 14 is February of the following count-year `yp`.
proof fn lemma_julian_day_inverse(yp: int, mp: int, day: int)
    requires
        3 <= mp <= 14,
        1 <= day <= 31,
        mp == 4 || mp == 6 || mp == 9 || mp == 11 ==> day <= 30,
        mp == 14 ==> day <= 29,
        mp == 14 && day == 29 ==> (yp + 4716) % 4 == 3,
    ensures
        ({
            let b: int = (1461 * (yp + 4716)) / 4 + (306001 * (mp + 1)) / 10000 + day;
            let c: int = (20 * b - 2442) / 7305;
            let d: int = (1461 * c) / 4;
            let e: int = (10000 * (b - d)) / 306001;
            c == yp + 4716 && d == (1461 * (yp + 4716)) / 4 && e == mp + 1 && b - d - (306001 * e)
                / 10000 == day
        }),
{
    let x: int = yp + 4716;
    let g: int = (1461 * x) / 4;
    lemma_fundamental_div_mod(1461 * x, 4);
    lemma_mod_division_less_than_divisor(1461 * x, 4);
    assert(1461 * x == 4 * (365 * x) + x) by (nonlinear_arith);
    lemma_mod_multiples_vanish(365 * x, x, 4);
    let jj: int = (306001 * (mp + 1)) / 10000;
    lemma_fundamental_div_mod(306001 * (mp + 1), 10000);
    lemma_mod_division_less_than_divisor(306001 * (mp + 1), 10000);
    let b: int = g + jj + day;
    lemma_fundamental_div_mod_converse(20 * b - 2442, 7305, x, 20 * b - 2442 - 7305 * x);
    lemma_fundamental_div_mod_converse(
        10000 * (b - g),
        306001,
        mp + 1,
        10000 * (b - g) - 306001 * (mp + 1),
    );
}

// Inverting the Gregorian century correction: read back from the day count,
// the correction term is the century of the count-year less four.  The one
// tight case is 29 February of a century year, where the Gregorian rule
// itself (the requirement on `yp / 100`) makes the count land inside the
// right century.
proof fn lemma_century_term(yp: int, mp: int, day: int)
    requires
        3 <= mp <= 14,
        1 <= day <= 31,
        mp == 4 || mp == 6 || mp == 9 || mp == 11 ==> day <= 30,
        mp == 14 ==> day <= 29,
        yp % 100 == 99 && mp == 14 && day == 29 ==> (yp / 100) % 4 == 3,
    ensures
        ({
            let a: int = yp / 100;
            let z: int = (36525 * (yp + 4716)) / 100 + (306001 * (mp + 1)) / 10000 + day + (2 - a
                + a / 4) - 1524;
            (100 * z - 186721625) / 3652425 == a - 4
        }),
{
    let a: int = yp / 100;
    lemma_fundamental_div_mod(yp, 100);
    lemma_mod_division_less_than_divisor(yp, 100);
    let r: int = yp % 100;
    let gr: int = (36525 * (r + 4716)) / 100;
    lemma_fundamental_div_mod(36525 * (r + 4716), 100);
    lemma_mod_division_less_than_divisor(36525 * (r + 4716), 100);
    lemma_fundamental_div_mod_converse(
        36525 * (yp + 4716),
        100,
        36525 * a + gr,
        (36525 * (r + 4716)) % 100,
    );
    let jj: int = (306001 * (mp + 1)) / 10000;
    lemma_fundamental_div_mod(306001 * (mp + 1), 10000);
    lemma_mod_division_less_than_divisor(306001 * (mp + 1), 10000);
    lemma_fundamental_div_mod(a, 4);
    lemma_mod_division_less_than_divisor(a, 4);
    let z: int = (36525 * (yp + 4716)) / 100 + jj + day + (2 - a + a / 4) - 1524;
    lemma_fundamental_div_mod_converse(
        100 * z - 186721625,
        3652425,
        a - 4,
        100 * z - 186721625 - 3652425 * (a - 4),
    );
}

/// Round trip of the time engine: a Julian Day built from any valid
/// Gregorian date and any time of day converts back to exactly that date
/// and that time, however far from the present and on either side of the
/// calendar's leap exceptions.
#[verifier::rlimit(60)]
pub proof fn lemma_gregorian_round_trip(year: int, month: int, day: int, sod: int)
    requires
        gregorian_date_valid(year, month, day),
        0 <= sod < 86400,
    ensures
        gregorian_fields_spec(gregorian_jd_seconds_spec(year, month, day, sod)) == (
            year,
            month,
            day,
            sod / 3600,
            (sod % 3600) / 60,
            sod % 60,
        ),
{
    let yp: int = if month < 3 {
        year - 1
    } else {
        year
    };
    let mp: int = if month < 3 {
        month + 12
    } else {
        month
    };
    let a: int = yp / 100;
    let gg: int = (36525 * (yp + 4716)) / 100;
    let jj: int = (306001 * (mp + 1)) / 10000;
    let js: int = gregorian_jd_seconds_spec(year, month, day, sod);
    let zz: int = gg + jj + day + (2 - a + a / 4) - 1524;
    assert(js + 43200 == 86400 * zz + sod);
    lemma_fundamental_div_mod_converse(js + 43200, 86400, zz, sod);
    assert((js + 43200) / 86400 == zz);
    assert((js + 43200) % 86400 == sod);
    // The leap-year connections the inverse needs at February 29th.
    lemma_mod_multiples_vanish(1179, yp, 4);
    if month == 2 && day == 29 {
        // The date is valid, so the year is a Gregorian leap year.
        assert(yp % 4 == 3);
        if yp % 100 == 99 {
            // A century year: the Gregorian rule demands a fourth century.
            lemma_fundamental_div_mod(yp, 100);
            lemma_mod_division_less_than_divisor(yp, 100);
            lemma_fundamental_div_mod(a + 1, 4);
            lemma_mod_division_less_than_divisor(a + 1, 4);
            lemma_fundamental_div_mod_converse(
                100 * (a + 1),
                400,
                (a + 1) / 4,
                100 * ((a + 1) % 4),
            );
            assert((a + 1) % 4 == 0);
        }
    }
    lemma_century_term(yp, mp, day);
    let alpha: int = (100 * zz - 186721625) / 3652425;
    assert(alpha == a - 4);
    // The century term recombines with its own quarter correction.
    lemma_fundamental_div_mod(a, 4);
    lemma_mod_division_less_than_divisor(a, 4);
    lemma_fundamental_div_mod_converse(a - 4, 4, a / 4 - 1, a % 4);
    assert(alpha / 4 == a / 4 - 1);
    lemma_year_quarters(yp + 4716);
    let bb: int = zz + 1 + alpha - alpha / 4 + 1524;
    assert(bb == (1461 * (yp + 4716)) / 4 + jj + day);
    lemma_julian_day_inverse(yp, mp, day);
    let cc: int = (20 * bb - 2442) / 7305;
    let dd: int = (1461 * cc) / 4;
    let ee: int = (10000 * (bb - dd)) / 306001;
    assert(cc == yp + 4716);
    assert(ee == mp + 1);
    assert(bb - dd - (306001 * ee) / 10000 == day);
}

/// The Gregorian date that follows a given one: the next day of the month,
/// or the first day of the next month, or New Year.
pub open spec fn next_gregorian_date(year: int, month: int, day: int) -> (int, int, int) {
    if day < days_per_month_gregorian_spec(month, year) {
        (year, month, day + 1)
    } else if month < 12 {
        (year, month + 1, 1)
    } else {
        (year + 1, 1, 1)
    }
}

/// The calendar is a day count: the date that follows a valid date lies
/// exactly one day later on the Julian Day line, across month ends, year
/// ends, leap days, and the century exceptions.
#[verifier::rlimit(60)]
pub proof fn lemma_jd_seconds_counts_days(year: int, month: int, day: int, sod: int)
    requires
        gregorian_date_valid(year, month, day),
    ensures
        ({
            let (y2, m2, d2) = next_gregorian_date(year, month, day);
            gregorian_jd_seconds_spec(y2, m2, d2, sod) == gregorian_jd_seconds_spec(
                year,
                month,
                day,
                sod,
            ) + 86400
        }),
{
    let (y2, m2, d2) = next_gregorian_date(year, month, day);
    let yp: int = if month < 3 {
        year - 1
    } else {
        year
    };
    let yp2: int = if m2 < 3 {
        y2 - 1
    } else {
        y2
    };
    lemma_fundamental_div_mod(yp, 100);
    lemma_mod_division_less_than_divisor(yp, 100);
    lemma_fundamental_div_mod(yp / 100, 4);
    lemma_mod_division_less_than_divisor(yp / 100, 4);
    lemma_fundamental_div_mod(1461 * (yp + 4716), 4);
    lemma_mod_division_less_than_divisor(1461 * (yp + 4716), 4);
    lemma_year_quarters(yp + 4716);
    lemma_mod_multiples_vanish(365 * (yp + 4716), yp + 4716, 4);
    assert(1461 * (yp + 4716) == 4 * (365 * (yp + 4716)) + (yp + 4716)) by (nonlinear_arith);
    lemma_mod_multiples_vanish(1179, yp, 4);
    if yp2 == yp + 1 {
        // Only the leap day ends a count-year: relate the two year terms.
        lemma_fundamental_div_mod(yp2, 100);
        lemma_mod_division_less_than_divisor(yp2, 100);
        lemma_fundamental_div_mod(yp2 / 100, 4);
        lemma_mod_division_less_than_divisor(yp2 / 100, 4);
        lemma_fundamental_div_mod(1461 * (yp2 + 4716), 4);
        lemma_mod_division_less_than_divisor(1461 * (yp2 + 4716), 4);
        lemma_year_quarters(yp2 + 4716);
        lemma_mod_multiples_vanish(365 * (yp2 + 4716), yp2 + 4716, 4);
        assert(1461 * (yp2 + 4716) == 4 * (365 * (yp2 + 4716)) + (yp2 + 4716))
            by (nonlinear_arith);
        lemma_mod_multiples_vanish(1179, yp2, 4);
        if yp % 100 == 99 {
            // Century boundary: the count-year's century steps by one.
            lemma_fundamental_div_mod_converse(yp2, 100, yp / 100 + 1, 0);
            lemma_fundamental_div_mod_converse(
                100 * (yp / 100 + 1),
                400,
                (yp / 100 + 1) / 4,
                100 * ((yp / 100 + 1) % 4),
            );
            lemma_fundamental_div_mod(yp / 100 + 1, 4);
            lemma_mod_division_less_than_divisor(yp / 100 + 1, 4);
            lemma_fundamental_div_mod_converse(yp + 1, 400, (yp + 1) / 400, (yp + 1) % 400);
            lemma_fundamental_div_mod(yp + 1, 400);
            lemma_mod_division_less_than_divisor(yp + 1, 400);
        } else {
            lemma_fundamental_div_mod_converse(yp2, 100, yp / 100, yp % 100 + 1);
        }
    }
}

/// The Julian-calendar date that follows a given one.
pub open spec fn next_julian_date(year: int, month: int, day: int) -> (int, int, int) {
    if day < days_per_month_julian_spec(month, year) {
        (year, month, day + 1)
    } else if month < 12 {
        (year, month + 1, 1)
    } else {
        (year + 1, 1, 1)
    }
}

/// The Julian calendar is a day count as well: the date that follows a
/// valid date lies exactly one day later on the Julian Day line.
pub proof fn lemma_julian_jd_seconds_counts_days(year: int, month: int, day: int, sod: int)
    requires
        julian_date_valid(year, month, day),
    ensures
        ({
            let (y2, m2, d2) = next_julian_date(year, month, day);
            julian_jd_seconds_spec(y2, m2, d2, sod) == julian_jd_seconds_spec(
                year,
                month,
                day,
                sod,
            ) + 86400
        }),
{
    let (y2, m2, d2) = next_julian_date(year, month, day);
    let yp: int = if month < 3 {
        year - 1
    } else {
        year
    };
    let yp2: int = if m2 < 3 {
        y2 - 1
    } else {
        y2
    };
    lemma_fundamental_div_mod(1461 * (yp + 4716), 4);
    lemma_mod_division_less_than_divisor(1461 * (yp + 4716), 4);
    lemma_year_quarters(yp + 4716);
    lemma_mod_multiples_vanish(365 * (yp + 4716), yp + 4716, 4);
    assert(1461 * (yp + 4716) == 4 * (365 * (yp + 4716)) + (yp + 4716)) by (nonlinear_arith);
    lemma_mod_multiples_vanish(1179, yp, 4);
    if yp2 == yp + 1 {
        lemma_fundamental_div_mod(1461 * (yp2 + 4716), 4);
        lemma_mod_division_less_than_divisor(1461 * (yp2 + 4716), 4);
        lemma_year_quarters(yp2 + 4716);
        lemma_mod_multiples_vanish(365 * (yp2 + 4716), yp2 + 4716, 4);
        assert(1461 * (yp2 + 4716) == 4 * (365 * (yp2 + 4716)) + (yp2 + 4716))
            by (nonlinear_arith);
        lemma_mod_multiples_vanish(1179, yp2, 4);
    }
}

/// Composing a time of day into its count of seconds and splitting that
/// count again reproduces the hour, minute, and second.
pub proof fn lemma_seconds_of_day_round_trip(hour: int, minute: int, second: int)
    requires
        time_of_day_valid(hour, minute, second),
    ensures
        ({
            let sod: int = seconds_of_day_spec(hour, minute, second);
            0 <= sod < 86400 && sod / 3600 == hour && (sod % 3600) / 60 == minute && sod % 60
                == second
        }),
{
    let sod: int = seconds_of_day_spec(hour, minute, second);
    lemma_fundamental_div_mod_converse(sod, 3600, hour, 60 * minute + second);
    lemma_fundamental_div_mod_converse(60 * minute + second, 60, minute, second);
    lemma_fundamental_div_mod_converse(sod, 60, 60 * hour + minute, second);
}

} // verus!
