use cytt::date::{
    add_days, days_later_in_range, days_per_month, week_in_range, dt_from_rfc3339, dt_to_ics, dt_to_ics_day, format_date_time, get_end_of_day,
    get_start_of_day, get_utc, get_week_bounds, is_leap_year, last_sunday_of_month, minutes_between,
    weekday_from_monday, Date, DateError, DateTime,
};

fn at(year: i32, month: u32, day: u32, hour: u32, minute: u32, second: u32) -> DateTime {
    DateTime { date: Date { year, month, day }, hour, minute, second, nano: 0 }
}

#[test]
fn leap_years() {
    assert!(is_leap_year(2024));
    assert!(!is_leap_year(2023));
    assert!(!is_leap_year(1900));
    assert!(is_leap_year(2000));
    assert!(is_leap_year(-4));
}

#[test]
fn month_lengths() {
    assert_eq!(days_per_month(2023, 2), 28);
    assert_eq!(days_per_month(2024, 2), 29);
    let expected = [31, 28, 31, 30, 31, 30, 31, 31, 30, 31, 30, 31];
    for (i, days) in expected.iter().enumerate() {
        assert_eq!(days_per_month(2023, i as u32 + 1), *days);
    }
}

#[test]
fn last_sundays() {
    assert_eq!(last_sunday_of_month(2024, 3), Date { year: 2024, month: 3, day: 31 });
    assert_eq!(last_sunday_of_month(2024, 10), Date { year: 2024, month: 10, day: 27 });
    assert_eq!(last_sunday_of_month(2023, 3), Date { year: 2023, month: 3, day: 26 });
    assert_eq!(last_sunday_of_month(2023, 10), Date { year: 2023, month: 10, day: 29 });
}

#[test]
fn weekdays() {
    assert_eq!(weekday_from_monday(&Date { year: 1970, month: 1, day: 1 }), 3);
    assert_eq!(weekday_from_monday(&Date { year: 2024, month: 5, day: 13 }), 0);
    assert_eq!(weekday_from_monday(&Date { year: 2024, month: 5, day: 19 }), 6);
}

#[test]
fn day_bounds() {
    let dt = DateTime { nano: 123, ..at(2024, 5, 15, 13, 45, 7) };
    assert_eq!(get_start_of_day(&dt), at(2024, 5, 15, 0, 0, 0));
    let end = get_end_of_day(&at(2024, 5, 15, 0, 0, 0));
    assert_eq!(end, DateTime { nano: 999_999_999, ..at(2024, 5, 15, 23, 59, 59) });
}

#[test]
fn week_bounds() {
    let (start, end) = get_week_bounds(&at(2024, 5, 15, 13, 45, 0));
    assert_eq!(start, at(2024, 5, 13, 0, 0, 0));
    assert_eq!(end, DateTime { nano: 999_999_999, ..at(2024, 5, 19, 23, 59, 59) });
    let (start, end) = get_week_bounds(&at(2024, 12, 31, 8, 0, 0));
    assert_eq!(start, at(2024, 12, 30, 0, 0, 0));
    assert_eq!(end, DateTime { nano: 999_999_999, ..at(2025, 1, 5, 23, 59, 59) });
}

#[test]
fn week_ranges() {
    assert!(week_in_range(&at(2024, 5, 15, 13, 45, 0)));
    assert!(!week_in_range(&at(2024, 2, 30, 0, 0, 0)));
    assert!(week_in_range(&at(262142, 12, 27, 0, 0, 0)));
    assert!(!week_in_range(&at(262142, 12, 31, 0, 0, 0)));
    assert!(!week_in_range(&at(-262143, 1, 1, 0, 0, 0)));
    assert!(!week_in_range(&at(-262143, 1, 4, 0, 0, 0)));
    assert!(week_in_range(&at(-262143, 1, 5, 0, 0, 0)));
    let d = Date { year: 2024, month: 5, day: 15 };
    assert!(days_later_in_range(&d, 1000));
    assert!(!days_later_in_range(&d, 200_000_000));
    assert!(!days_later_in_range(&d, -200_000_000));
}

#[test]
fn utc_offsets() {
    assert_eq!(get_utc(&at(2024, 1, 10, 10, 0, 0)), at(2024, 1, 10, 9, 0, 0));
    assert_eq!(get_utc(&at(2024, 7, 10, 10, 0, 0)), at(2024, 7, 10, 8, 0, 0));
    assert_eq!(get_utc(&at(2024, 3, 31, 1, 59, 59)), at(2024, 3, 31, 0, 59, 59));
    assert_eq!(get_utc(&at(2024, 3, 31, 2, 0, 0)), at(2024, 3, 31, 0, 0, 0));
    assert_eq!(get_utc(&at(2024, 10, 27, 1, 59, 59)), at(2024, 10, 26, 23, 59, 59));
    assert_eq!(get_utc(&at(2024, 10, 27, 2, 0, 0)), at(2024, 10, 27, 1, 0, 0));
    assert_eq!(get_utc(&at(2024, 1, 1, 0, 30, 0)), at(2023, 12, 31, 23, 30, 0));
}

#[test]
fn ics_texts() {
    assert_eq!(dt_to_ics(&at(2024, 7, 10, 10, 0, 5)), "20240710T080005Z");
    assert_eq!(dt_to_ics(&at(2024, 1, 1, 0, 30, 0)), "20231231T233000Z");
    assert_eq!(dt_to_ics_day(&at(2024, 7, 10, 10, 0, 5)), "20240710TZ");
}

#[test]
fn formats() {
    assert_eq!(format_date_time(&at(2024, 5, 3, 8, 5, 9), "%Y-%m-%dT%H:%M:%S"), "2024-05-03T08:05:09");
    assert_eq!(format_date_time(&at(-5, 1, 2, 3, 4, 5), "%Y"), "-0005");
    assert_eq!(format_date_time(&at(12345, 1, 2, 3, 4, 5), "%Y"), "+12345");
    assert_eq!(format_date_time(&at(987, 1, 2, 3, 4, 5), "%Y"), "0987");
    assert_eq!(format_date_time(&at(2024, 5, 3, 14, 30, 0), "%Hh%M"), "14h30");
}

#[test]
fn parse_dates() {
    assert_eq!(dt_from_rfc3339("2024-05-13T08:30:00"), Ok(at(2024, 5, 13, 8, 30, 0)));
    assert_eq!(dt_from_rfc3339("2024-05-13 08:30:00"), Err(DateError::Unparsable));
    assert_eq!(dt_from_rfc3339("2024-02-30T08:30:00"), Err(DateError::Unparsable));
    assert_eq!(dt_from_rfc3339("garbage"), Err(DateError::Unparsable));
}

#[test]
fn day_moves_and_minutes() {
    assert_eq!(add_days(&at(2024, 2, 28, 12, 0, 0), 2), at(2024, 3, 1, 12, 0, 0));
    assert_eq!(add_days(&at(2024, 1, 1, 12, 0, 0), -1), at(2023, 12, 31, 12, 0, 0));
    let leap = DateTime { nano: 1_500_000_000, ..at(2016, 12, 31, 23, 59, 59) };
    assert_eq!(add_days(&leap, 0), leap);
    assert_eq!(add_days(&leap, 1), DateTime { nano: 500_000_000, ..at(2017, 1, 1, 23, 59, 59) });
    assert_eq!(minutes_between(&at(2024, 5, 13, 12, 0, 0), &at(2024, 5, 13, 10, 0, 30)), 119);
    assert_eq!(minutes_between(&at(2024, 5, 13, 10, 0, 30), &at(2024, 5, 13, 12, 0, 0)), -119);
    assert_eq!(minutes_between(&at(2024, 5, 14, 0, 0, 0), &at(2024, 5, 13, 0, 0, 0)), 1440);
}
