use astro_calc::astro_time::{
    gregorian_from_jd_seconds, jd_seconds_from_gregorian, jd_seconds_from_julian,
    julian_day_zero_seconds, modified_jd_seconds,
};
use astro_calc::error::AstroAlgorithmsError;

const DAY: i64 = 86_400;

#[test]
fn astro_time_test_from_gregorian_utc() {
    assert_eq!(
        jd_seconds_from_gregorian(-99, 3, 1, 0, 0, 0).unwrap(),
        1_684_959 * DAY + 43_200
    );
    // 2 436 116.31 days: 19:26:24 is 0.31 of a day past the preceding noon.
    assert_eq!(
        jd_seconds_from_gregorian(1957, 10, 4, 19, 26, 24).unwrap(),
        2_436_116 * DAY + 26_784
    );
    assert_eq!(
        jd_seconds_from_gregorian(2000, 1, 1, 12, 0, 0).unwrap(),
        2_451_545 * DAY
    );
    assert_eq!(
        jd_seconds_from_gregorian(1999, 1, 1, 0, 0, 0).unwrap(),
        2_451_179 * DAY + 43_200
    );
    assert_eq!(
        jd_seconds_from_gregorian(1987, 1, 27, 0, 0, 0).unwrap(),
        2_446_822 * DAY + 43_200
    );
    assert_eq!(
        jd_seconds_from_gregorian(1987, 6, 19, 12, 0, 0).unwrap(),
        2_446_966 * DAY
    );
    assert_eq!(
        jd_seconds_from_gregorian(1988, 1, 27, 0, 0, 0).unwrap(),
        2_447_187 * DAY + 43_200
    );
    assert_eq!(
        jd_seconds_from_gregorian(1988, 6, 19, 12, 0, 0).unwrap(),
        2_447_332 * DAY
    );
    assert_eq!(
        jd_seconds_from_gregorian(1900, 1, 1, 0, 0, 0).unwrap(),
        2_415_020 * DAY + 43_200
    );
    assert_eq!(
        jd_seconds_from_gregorian(1600, 1, 1, 0, 0, 0).unwrap(),
        2_305_447 * DAY + 43_200
    );
    assert_eq!(
        jd_seconds_from_gregorian(1600, 12, 31, 0, 0, 0).unwrap(),
        2_305_812 * DAY + 43_200
    );
    // 2 026 871.8 days: 07:12:00 is 0.3 of a day past the preceding noon.
    assert_eq!(
        jd_seconds_from_gregorian(837, 4, 14, 7, 12, 0).unwrap(),
        2_026_871 * DAY + 69_120
    );
    assert_eq!(
        jd_seconds_from_gregorian(-123, 12, 28, 0, 0, 0).unwrap(),
        1_676_496 * DAY + 43_200
    );
    assert_eq!(
        jd_seconds_from_gregorian(-123, 12, 29, 0, 0, 0).unwrap(),
        1_676_497 * DAY + 43_200
    );
    assert_eq!(
        jd_seconds_from_gregorian(-200, 7, 2, 12, 0, 0).unwrap(),
        1_648_194 * DAY
    );
    assert_eq!(
        jd_seconds_from_gregorian(-1000, 7, 3, 12, 0, 0).unwrap(),
        1_356_001 * DAY
    );
    assert_eq!(jd_seconds_from_gregorian(-4713, 11, 24, 12, 0, 0).unwrap(), 0);

    assert_eq!(
        jd_seconds_from_gregorian(-4713, 11, 24, 11, 59, 59).unwrap_err(),
        AstroAlgorithmsError::DateRange
    );
    assert_eq!(
        jd_seconds_from_gregorian(1999, 2, 29, 11, 59, 59).unwrap_err(),
        AstroAlgorithmsError::InvalidGregorianDate
    );
    assert_eq!(
        jd_seconds_from_gregorian(1999, 2, 28, 24, 59, 59).unwrap_err(),
        AstroAlgorithmsError::InvalidTime
    );
}

#[test]
fn astro_time_test_from_julian_utc() {
    assert_eq!(
        jd_seconds_from_julian(1957, 9, 21, 19, 26, 24).unwrap(),
        2_436_116 * DAY + 26_784
    );
    assert_eq!(
        jd_seconds_from_julian(1999, 12, 19, 12, 0, 0).unwrap(),
        2_451_545 * DAY
    );
    assert_eq!(
        jd_seconds_from_julian(1998, 12, 19, 0, 0, 0).unwrap(),
        2_451_179 * DAY + 43_200
    );
    assert_eq!(
        jd_seconds_from_julian(837, 4, 10, 7, 12, 0).unwrap(),
        2_026_871 * DAY + 69_120
    );
    assert_eq!(
        jd_seconds_from_julian(-123, 12, 31, 0, 0, 0).unwrap(),
        1_676_496 * DAY + 43_200
    );
    assert_eq!(
        jd_seconds_from_julian(-122, 1, 1, 0, 0, 0).unwrap(),
        1_676_497 * DAY + 43_200
    );
    assert_eq!(
        jd_seconds_from_julian(-1000, 7, 12, 12, 0, 0).unwrap(),
        1_356_001 * DAY
    );
    assert_eq!(
        jd_seconds_from_julian(-1000, 2, 29, 0, 0, 0).unwrap(),
        1_355_866 * DAY + 43_200
    );
    // 1 355 671.4 days: 21:36:00 is 0.4 of a day past the preceding noon.
    assert_eq!(
        jd_seconds_from_julian(-1001, 8, 17, 21, 36, 0).unwrap(),
        1_355_671 * DAY + 34_560
    );
    assert_eq!(jd_seconds_from_julian(-4712, 1, 1, 12, 0, 0).unwrap(), 0);

    assert_eq!(
        jd_seconds_from_julian(-4712, 1, 1, 11, 59, 59).unwrap_err(),
        AstroAlgorithmsError::DateRange
    );
    assert_eq!(
        jd_seconds_from_julian(1999, 2, 29, 11, 59, 59).unwrap_err(),
        AstroAlgorithmsError::InvalidJulianDate
    );
    assert_eq!(
        jd_seconds_from_julian(1999, 2, 28, 24, 59, 59).unwrap_err(),
        AstroAlgorithmsError::InvalidTime
    );
}

#[test]
fn astro_time_test_to_gregorian_utc() {
    assert_eq!(
        gregorian_from_jd_seconds(2_436_116 * DAY + 26_784),
        (1957, 10, 4, 19, 26, 24)
    );
    assert_eq!(
        gregorian_from_jd_seconds(2_451_545 * DAY),
        (2000, 1, 1, 12, 0, 0)
    );
    assert_eq!(
        gregorian_from_jd_seconds(1_676_497 * DAY + 43_200),
        (-123, 12, 29, 0, 0, 0)
    );
    assert_eq!(
        gregorian_from_jd_seconds(1_356_001 * DAY + 21_600),
        (-1000, 7, 3, 18, 0, 0)
    );
    assert_eq!(
        gregorian_from_jd_seconds(1_356_001 * DAY),
        (-1000, 7, 3, 12, 0, 0)
    );
}

#[test]
fn astro_time_test_modified_julian_day_number() {
    let js = jd_seconds_from_gregorian(1858, 11, 17, 0, 0, 0).unwrap();
    assert_eq!(modified_jd_seconds(js), 0);
}

#[test]
fn astro_time_test_julian_day_zero() {
    assert_eq!(
        julian_day_zero_seconds(2017).unwrap(),
        jd_seconds_from_gregorian(2016, 12, 31, 0, 0, 0).unwrap()
    );
}

#[test]
fn test_julian_day_zero_underflow() {
    assert_eq!(
        julian_day_zero_seconds(-4800).unwrap_err(),
        AstroAlgorithmsError::DateRange
    );
}

#[test]
fn test_gregorian_round_trip() {
    // Representative dates: negative years, leap days, century boundaries.
    let cases: Vec<(i32, i32, i32, i32, i32, i32)> = vec![
        (2000, 1, 1, 12, 0, 0),
        (2000, 2, 29, 23, 59, 59),
        (1600, 2, 29, 0, 0, 0),
        (1900, 2, 28, 6, 30, 15),
        (1900, 3, 1, 0, 0, 1),
        (1999, 12, 31, 23, 59, 59),
        (1987, 4, 10, 19, 21, 0),
        (-123, 12, 29, 0, 0, 0),
        (-2300, 6, 12, 19, 23, 14),
        (-4713, 11, 24, 12, 0, 0),
        (837, 4, 14, 7, 12, 0),
        (1, 1, 1, 0, 0, 0),
        (-1, 12, 31, 18, 0, 0),
    ];
    for &(y, m, d, h, mi, s) in cases.iter() {
        let js = jd_seconds_from_gregorian(y, m, d, h, mi, s).unwrap();
        assert_eq!(gregorian_from_jd_seconds(js), (y, m, d, h, mi, s));
    }
}

#[test]
fn test_julian_day_epoch_fields() {
    // Julian Day 0 is noon of 24 November -4713 in the proleptic Gregorian
    // calendar.
    assert_eq!(gregorian_from_jd_seconds(0), (-4713, 11, 24, 12, 0, 0));
}

#[test]
fn test_round_trip_every_day_of_a_year() {
    // A leap year and a common year, day by day.
    for &year in [2000, 1999].iter() {
        let length = if year == 2000 { 366 } else { 365 };
        for doy in 1..=length {
            let (m, d) = astro_calc::astro_time::month_and_day_gregorian(year, doy).unwrap();
            let js = jd_seconds_from_gregorian(year, m, d, 6, 30, 15).unwrap();
            assert_eq!(gregorian_from_jd_seconds(js), (year, m, d, 6, 30, 15));
        }
    }
}

#[test]
fn test_consecutive_days_differ_by_one_day() {
    let a = jd_seconds_from_gregorian(2000, 2, 28, 0, 0, 0).unwrap();
    let b = jd_seconds_from_gregorian(2000, 2, 29, 0, 0, 0).unwrap();
    let c = jd_seconds_from_gregorian(2000, 3, 1, 0, 0, 0).unwrap();
    assert_eq!(b - a, DAY);
    assert_eq!(c - b, DAY);

    let d = jd_seconds_from_gregorian(1900, 2, 28, 0, 0, 0).unwrap();
    let e = jd_seconds_from_gregorian(1900, 3, 1, 0, 0, 0).unwrap();
    assert_eq!(e - d, DAY);
}
