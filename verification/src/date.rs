//! Calendar dates and naive local date-times, with the week, day and
//! daylight-saving arithmetic that the timetable relies on.
//!
//! Dates follow the proleptic Gregorian calendar. Every date is mapped to the
//! number of days since 1970-01-01 (`day_number`) and every date-time to the
//! number of nanoseconds since 1970-01-01T00:00:00 (`instant`); the contracts
//! of the arithmetic are stated over these two numbers.

use chrono::Datelike;
use chrono::Timelike;
use vstd::prelude::*;

verus! {

/// The first year that a date can hold.
pub const MIN_YEAR: i32 = -262143;

/// The last year that a date can hold.
pub const MAX_YEAR: i32 = 262142;

/// A calendar date (year, month 1..=12, day of the month 1..).
#[derive(Clone, Copy, Debug, PartialEq, Eq, Structural)]
pub struct Date {
    pub year: i32,
    pub month: u32,
    pub day: u32,
}

/// A date and a time of day without any time zone.
///
/// `nano` may reach 1_999_999_999 to represent a leap second, and then only
/// when `second` is 59.
#[derive(Clone, Copy, Debug, PartialEq, Eq, Structural)]
pub struct DateTime {
    pub date: Date,
    pub hour: u32,
    pub minute: u32,
    pub second: u32,
    pub nano: u32,
}

pub open spec fn leap_year(year: int) -> bool {
    (year % 4 == 0 && year % 100 != 0) || year % 400 == 0
}

/// Number of days of a month (1..=12) of a year.
pub open spec fn month_length(year: int, month: int) -> int {
    if month == 2 {
        if leap_year(year) { 29 } else { 28 }
    } else if month == 4 || month == 6 || month == 9 || month == 11 {
        30
    } else {
        31
    }
}

pub open spec fn nanos_per_second() -> int {
    1_000_000_000
}

pub open spec fn nanos_per_day() -> int {
    86_400_000_000_000
}

/// Number of days from 1970-01-01 to the date (negative before it).
#[verifier::opaque]
pub open spec fn day_number(d: Date) -> int {
    let y: int = if d.month <= 2 { d.year - 1 } else { d.year as int };
    let era = y / 400;
    let yoe = y - era * 400;
    let mp: int = if d.month > 2 { d.month - 3 } else { d.month + 9 };
    let doy = (153 * mp + 2) / 5 + d.day - 1;
    let doe = yoe * 365 + yoe / 4 - yoe / 100 + doy;
    era * 146097 + doe - 719468
}

/// Day of the week counted from Monday (0) to Sunday (6).
pub open spec fn weekday(d: Date) -> int {
    (day_number(d) + 3) % 7
}

pub open spec fn min_date() -> Date {
    Date { year: MIN_YEAR, month: 1, day: 1 }
}

pub open spec fn max_date() -> Date {
    Date { year: MAX_YEAR, month: 12, day: 31 }
}

/// Day number of the first date that can be held.
pub open spec fn min_day() -> int {
    day_number(min_date())
}

/// Day number of the last date that can be held.
pub open spec fn max_day() -> int {
    day_number(max_date())
}

/// The first instant that can be held (the first day, at midnight).
pub open spec fn min_instant() -> int {
    min_day() * nanos_per_day()
}

/// The last instant that can be held (the last day, one nanosecond before midnight).
pub open spec fn max_instant() -> int {
    (max_day() + 1) * nanos_per_day() - 1
}

impl Date {
    /// A date within the supported years whose month and day exist.
    pub open spec fn valid(self) -> bool {
        &&& MIN_YEAR <= self.year <= MAX_YEAR
        &&& 1 <= self.month <= 12
        &&& 1 <= self.day <= month_length(self.year as int, self.month as int)
    }
}

impl DateTime {
    pub open spec fn valid(self) -> bool {
        &&& self.date.valid()
        &&& self.hour < 24
        &&& self.minute < 60
        &&& self.second < 60
        &&& self.nano < 2 * nanos_per_second()
        &&& self.nano >= nanos_per_second() ==> self.second == 59
    }

    pub open spec fn is_leap_second(self) -> bool {
        self.nano >= nanos_per_second()
    }

    pub open spec fn seconds_of_day(self) -> int {
        self.hour * 3600 + self.minute * 60 + self.second
    }

    /// Nanoseconds since 1970-01-01T00:00:00.
    pub open spec fn instant(self) -> int {
        (day_number(self.date) * 86400 + self.seconds_of_day()) * nanos_per_second() + self.nano
    }
}

/// Whole seconds of a duration of `secs` seconds plus `nanos` nanoseconds,
/// rounded toward zero.
pub open spec fn whole_seconds(secs: int, nanos: int) -> int {
    if secs < 0 && nanos > 0 { secs + 1 } else { secs }
}

/// The instant reached by moving a date-time by `secs` seconds plus `nanos`
/// nanoseconds. A leap second counts as the start of the following second
/// when moving backwards, and as the second before it when moving forwards.
pub open spec fn moved_instant(dt: DateTime, secs: int, nanos: int) -> int {
    let delta = secs * nanos_per_second() + nanos;
    if dt.is_leap_second() && whole_seconds(secs, nanos) > 0 {
        dt.instant() - nanos_per_second() + delta
    } else {
        dt.instant() + delta
    }
}

/// Integer division rounded toward zero, for a positive divisor.
pub open spec fn div_toward_zero(a: int, b: int) -> int {
    if a >= 0 { a / b } else { -((-a) / b) }
}


/// Days from 0000-03-01 to the first of March of year `y + 1`, shifted by a
/// constant: the years are counted from March so that February comes last.
pub open spec fn march_years_days(y: int) -> int {
    365 * y + y / 4 - y / 100 + y / 400
}

/// Day number of the first of January of a year.
pub open spec fn year_start(y: int) -> int {
    march_years_days(y - 1) + 306 - 719468
}

/// Days of a year before the first day of a month.
pub open spec fn days_before_month(y: int, m: int) -> int {
    let l: int = if leap_year(y) { 1 } else { 0 };
    if m <= 1 { 0 }
    else if m == 2 { 31 }
    else if m == 3 { 59 + l }
    else if m == 4 { 90 + l }
    else if m == 5 { 120 + l }
    else if m == 6 { 151 + l }
    else if m == 7 { 181 + l }
    else if m == 8 { 212 + l }
    else if m == 9 { 243 + l }
    else if m == 10 { 273 + l }
    else if m == 11 { 304 + l }
    else { 334 + l }
}

proof fn lemma_era_form(y: int)
    ensures
        (y / 400) * 146097 + (y - (y / 400) * 400) * 365 + (y - (y / 400) * 400) / 4
            - (y - (y / 400) * 400) / 100 == march_years_days(y),
{
    let q = y / 400;
    let r = y - q * 400;
    assert(0 <= r < 400);
    assert(y / 4 == 100 * q + r / 4);
    assert(y / 100 == 4 * q + r / 100);
}

#[verifier::spinoff_prover]
proof fn lemma_march_year_step(y: int)
    ensures
        march_years_days(y + 1) - march_years_days(y) == 365 + if leap_year(y + 1) { 1int } else { 0int },
{
}

/// Day number of a date, from the first day of its year.
proof fn lemma_day_number_split(d: Date)
    requires
        1 <= d.month <= 12,
    ensures
        day_number(d) == year_start(d.year as int) + days_before_month(d.year as int, d.month as int) + d.day - 1,
{
    reveal(day_number);
    let y = d.year as int;
    lemma_era_form(y);
    lemma_era_form(y - 1);
    lemma_march_year_step(y - 1);
}

proof fn lemma_year_start_step(y: int)
    ensures
        year_start(y + 1) == year_start(y) + 365 + if leap_year(y) { 1int } else { 0int },
{
    lemma_march_year_step(y - 1);
}

proof fn lemma_year_start_grows(a: int, b: int)
    requires
        a < b,
    ensures
        year_start(b) >= year_start(a) + 365 + if leap_year(a) { 1int } else { 0int },
    decreases b - a,
{
    lemma_year_start_step(a);
    if a + 1 < b {
        lemma_year_start_grows(a + 1, b);
        lemma_year_start_step(a + 1);
    }
}

pub open spec fn date_before(a: Date, b: Date) -> bool {
    ||| a.year < b.year
    ||| a.year == b.year && a.month < b.month
    ||| a.year == b.year && a.month == b.month && a.day < b.day
}

/// Later dates have larger day numbers.
pub proof fn lemma_day_number_increasing(a: Date, b: Date)
    requires
        a.valid(),
        b.valid(),
        date_before(a, b),
    ensures
        day_number(a) < day_number(b),
{
    lemma_day_number_split(a);
    lemma_day_number_split(b);
    if a.year < b.year {
        lemma_year_start_grows(a.year as int, b.year as int);
    }
}

/// Within a month, day numbers follow the days.
pub proof fn lemma_day_number_same_month(a: Date, b: Date)
    requires
        a.year == b.year,
        a.month == b.month,
    ensures
        day_number(b) - day_number(a) == b.day - a.day,
{
    reveal(day_number);
}

/// A valid date lies between the first and the last date.
pub proof fn lemma_date_in_range(d: Date)
    requires
        d.valid(),
    ensures
        min_day() <= day_number(d) <= max_day(),
{
    if d != min_date() {
        lemma_day_number_increasing(min_date(), d);
    }
    if d != max_date() {
        lemma_day_number_increasing(d, max_date());
    }
}

/// Distinct valid dates have distinct day numbers.
pub proof fn lemma_day_number_injective(a: Date, b: Date)
    requires
        a.valid(),
        b.valid(),
        day_number(a) == day_number(b),
    ensures
        a == b,
{
    if date_before(a, b) {
        lemma_day_number_increasing(a, b);
    } else if date_before(b, a) {
        lemma_day_number_increasing(b, a);
    }
}


/// The date-time at an instant, when one exists (unique by
/// `lemma_instant_injective`).
pub open spec fn date_time_at(instant: int) -> DateTime {
    choose|x: DateTime| x.valid() && !x.is_leap_second() && x.instant() == instant
}

/// The date of a day number, when one exists (unique by
/// `lemma_day_number_injective`).
pub open spec fn date_of_day(n: int) -> Date {
    choose|d: Date| d.valid() && day_number(d) == n
}

/// The day number and the time of day of a date-time can be read back from
/// its instant.
pub proof fn lemma_instant_split(x: DateTime)
    requires
        x.valid(),
        !x.is_leap_second(),
    ensures
        x.instant() / nanos_per_day() == day_number(x.date),
        x.instant() % nanos_per_day() == x.seconds_of_day() * nanos_per_second() + x.nano,
{
    let t = x.seconds_of_day() * nanos_per_second() + x.nano;
    assert(0 <= t < nanos_per_day());
    assert(x.instant() == day_number(x.date) * nanos_per_day() + t);
}

/// Distinct valid date-times outside leap seconds have distinct instants.
pub proof fn lemma_instant_injective(a: DateTime, b: DateTime)
    requires
        a.valid(),
        !a.is_leap_second(),
        b.valid(),
        !b.is_leap_second(),
        a.instant() == b.instant(),
    ensures
        a == b,
{
    lemma_instant_split(a);
    lemma_instant_split(b);
    lemma_day_number_injective(a.date, b.date);
    assert(a.seconds_of_day() == b.seconds_of_day());
}

/// A value that lies at an instant is the date-time at that instant.
pub proof fn lemma_date_time_at(x: DateTime)
    requires
        x.valid(),
        !x.is_leap_second(),
    ensures
        date_time_at(x.instant()) == x,
{
    let y = date_time_at(x.instant());
    assert(y.valid() && !y.is_leap_second() && y.instant() == x.instant());
    lemma_instant_injective(x, y);
}

/// A value with a day number is the date of that day.
pub proof fn lemma_date_of_day(d: Date)
    requires
        d.valid(),
    ensures
        date_of_day(day_number(d)) == d,
{
    let e = date_of_day(day_number(d));
    assert(e.valid() && day_number(e) == day_number(d));
    lemma_day_number_injective(d, e);
}

/// `NaiveDate::checked_add_signed` with a whole number of days: the date
/// `days` days later, or `None` when it falls outside the supported years.
#[verifier::external_body]
fn chrono_add_days(d: Date, days: i64) -> (r: Option<Date>)
    ensures
        d.valid() ==> (r is Some <==> min_day() <= day_number(d) + days <= max_day()),
        d.valid() && r is Some ==> r->0.valid() && day_number(r->0) == day_number(d) + days,
{
    let nd = chrono::NaiveDate::from_ymd_opt(d.year, d.month, d.day)?;
    let x = nd.checked_add_signed(chrono::TimeDelta::try_days(days)?)?;
    Some(Date { year: x.year(), month: x.month(), day: x.day() })
}

/// `NaiveDateTime::checked_add_signed` with the duration
/// `TimeDelta::new(secs, nanos)`: the moved date-time, or `None` when it
/// falls outside the supported years. Nothing is stated of a leap second
/// moved by less than one whole second.
#[verifier::external_body]
fn chrono_add(dt: DateTime, secs: i64, nanos: u32) -> (r: Option<DateTime>)
    ensures
        ({
            let applies = dt.valid() && nanos < nanos_per_second()
                && -1_000_000_000_000_000 <= secs <= 1_000_000_000_000_000
                && (!dt.is_leap_second() || whole_seconds(secs as int, nanos as int) != 0);
            let target = moved_instant(dt, secs as int, nanos as int);
            applies ==> {
                &&& r is Some <==> min_instant() <= target <= max_instant()
                &&& r matches Some(x) ==> x.valid() && !x.is_leap_second() && x.instant() == target
            }
        }),
{
    let t = chrono::NaiveDate::from_ymd_opt(dt.date.year, dt.date.month, dt.date.day)?
        .and_hms_nano_opt(dt.hour, dt.minute, dt.second, dt.nano)?;
    let x = t.checked_add_signed(chrono::TimeDelta::new(secs, nanos)?)?;
    let date = Date { year: x.year(), month: x.month(), day: x.day() };
    Some(DateTime { date, hour: x.hour(), minute: x.minute(), second: x.second(), nano: x.nanosecond() })
}

/// `NaiveDate::weekday().num_days_from_monday()`.
#[verifier::external_body]
fn chrono_weekday(d: Date) -> (r: u32)
    requires
        d.valid(),
    ensures
        r == weekday(d),
{
    chrono::NaiveDate::from_ymd_opt(d.year, d.month, d.day).unwrap().weekday().num_days_from_monday()
}

/// Returns whether `year` is a leap year of the Gregorian calendar.
pub fn is_leap_year(year: i32) -> (r: bool)
    ensures
        r == leap_year(year as int),
{
    (year % 4 == 0 && year % 100 != 0) || year % 400 == 0
}

/// Number of days of a month, as the timetable computes it: February has
/// 28 or 29 days, and other months alternate between 31 and 30 days,
/// restarting with 31 in August.
pub fn days_per_month(year: i32, month: u32) -> (r: u32)
    requires
        month >= 1,
    ensures
        month == 2 ==> r == if leap_year(year as int) { 29int } else { 28int },
        month != 2 ==> r == 31 - (month - 1) % 7 % 2,
        1 <= month <= 12 ==> r == month_length(year as int, month as int),
{
    if month == 2 {
        28 + (if is_leap_year(year) { 1 } else { 0 })
    } else {
        31 - (month - 1) % 7 % 2
    }
}

/// Midnight of the day of a date-time.
pub open spec fn midnight(d: Date) -> DateTime {
    DateTime { date: d, hour: 0, minute: 0, second: 0, nano: 0 }
}

/// Day number of the Monday of the week of a date.
pub open spec fn week_monday(d: Date) -> int {
    day_number(d) - weekday(d)
}

/// Last Sunday of a month (1..=12) of a year.
pub open spec fn last_sunday_date(year: int, month: int) -> Date {
    let last = Date { year: year as i32, month: month as u32, day: month_length(year, month) as u32 };
    Date { year: year as i32, month: month as u32, day: (month_length(year, month) - (weekday(last) + 1) % 7) as u32 }
}

/// Order of date-times: by date, then by time of day.
pub open spec fn date_time_before(a: DateTime, b: DateTime) -> bool {
    ||| date_before(a.date, b.date)
    ||| a.date == b.date && a.hour < b.hour
    ||| a.date == b.date && a.hour == b.hour && a.minute < b.minute
    ||| a.date == b.date && a.hour == b.hour && a.minute == b.minute && a.second < b.second
    ||| a.date == b.date && a.hour == b.hour && a.minute == b.minute && a.second == b.second && a.nano < b.nano
}

/// Start of daylight-saving time in a year: the last Sunday of March at 02:00.
pub open spec fn summer_start(year: int) -> DateTime {
    DateTime { date: last_sunday_date(year, 3), hour: 2, minute: 0, second: 0, nano: 0 }
}

/// End of daylight-saving time in a year: the last Sunday of October at 02:00.
pub open spec fn summer_end(year: int) -> DateTime {
    DateTime { date: last_sunday_date(year, 10), hour: 2, minute: 0, second: 0, nano: 0 }
}

/// Whether a local date-time falls within daylight-saving time.
pub open spec fn in_summer_time(dt: DateTime) -> bool {
    &&& !date_time_before(dt, summer_start(dt.date.year as int))
    &&& date_time_before(dt, summer_end(dt.date.year as int))
}

/// Hours between local time and UTC: 2 in summer, 1 otherwise.
pub open spec fn utc_offset_hours(dt: DateTime) -> int {
    if in_summer_time(dt) { 2 } else { 1 }
}

/// Instant of the UTC time of a local date-time.
pub open spec fn utc_instant(dt: DateTime) -> int {
    dt.instant() - utc_offset_hours(dt) * 3600 * nanos_per_second()
}

/// From April to September a local time is summer time (two hours ahead
/// of UTC); in January, February, November and December it is winter time
/// (one hour ahead).
pub proof fn lemma_offset_by_month(dt: DateTime)
    requires
        1 <= dt.date.month <= 12,
    ensures
        4 <= dt.date.month <= 9 ==> utc_offset_hours(dt) == 2,
        (dt.date.month <= 2 || dt.date.month >= 11) ==> utc_offset_hours(dt) == 1,
{
}

/// Whether `a` comes strictly before `b`.
pub fn date_time_lt(a: &DateTime, b: &DateTime) -> (r: bool)
    ensures
        r == date_time_before(*a, *b),
{
    if a.date.year != b.date.year {
        a.date.year < b.date.year
    } else if a.date.month != b.date.month {
        a.date.month < b.date.month
    } else if a.date.day != b.date.day {
        a.date.day < b.date.day
    } else if a.hour != b.hour {
        a.hour < b.hour
    } else if a.minute != b.minute {
        a.minute < b.minute
    } else if a.second != b.second {
        a.second < b.second
    } else {
        a.nano < b.nano
    }
}

/// Midnight at the start of the day of `date`: the time of day is taken
/// off the date-time.
pub fn get_start_of_day(date: &DateTime) -> (r: DateTime)
    requires
        date.valid(),
    ensures
        r == midnight(date.date),
        r.instant() == day_number(date.date) * nanos_per_day(),
{
    let tod: i64 = date.hour as i64 * 3600 + date.minute as i64 * 60 + date.second as i64;
    let total: i64 = tod * 1_000_000_000 + date.nano as i64;
    let rem: i64 = total % 1_000_000_000;
    let secs: i64 = if rem == 0 { -(total / 1_000_000_000) } else { -(total / 1_000_000_000) - 1 };
    let nanos: u32 = if rem == 0 { 0 } else { (1_000_000_000 - rem) as u32 };
    assert(secs * nanos_per_second() + nanos == -total);
    let moved = chrono_add(*date, secs, nanos);
    proof {
        assert(min_day() <= day_number(date.date)) by {
            if date.date != min_date() {
                lemma_day_number_increasing(min_date(), date.date);
            }
        }
        assert(day_number(date.date) <= max_day()) by {
            if date.date != max_date() {
                lemma_day_number_increasing(date.date, max_date());
            }
        }
    }
    let r = moved.unwrap();
    proof {
        let m = midnight(date.date);
        assert(m.instant() == day_number(date.date) * nanos_per_day());
        lemma_instant_injective(r, m);
    }
    r
}

/// One nanosecond before the midnight that ends the day of `date`, computed
/// by adding 23:59:59.999999999 to it.
pub fn get_end_of_day(date: &DateTime) -> (r: DateTime)
    requires
        date.valid(),
        moved_instant(*date, 86399, 999_999_999) <= max_instant(),
    ensures
        r.valid(),
        !r.is_leap_second(),
        r.instant() == moved_instant(*date, 86399, 999_999_999),
        *date == midnight(date.date) ==> r == (DateTime { date: date.date, hour: 23, minute: 59, second: 59, nano: 999_999_999 }),
{
    proof {
        assert(min_day() <= day_number(date.date)) by {
            if date.date != min_date() {
                lemma_day_number_increasing(min_date(), date.date);
            }
        }
    }
    let r = chrono_add(*date, 86399, 999_999_999).unwrap();
    proof {
        if *date == midnight(date.date) {
            let e = DateTime { date: date.date, hour: 23, minute: 59, second: 59, nano: 999_999_999 };
            lemma_instant_injective(r, e);
        }
    }
    r
}

/// A date-time whose instant is the start of day `n` is midnight of the
/// date of that day.
#[verifier::spinoff_prover]
proof fn lemma_midnight_of_day(x: DateTime, n: int)
    requires
        x.valid(),
        !x.is_leap_second(),
        x.instant() == n * nanos_per_day(),
    ensures
        x == midnight(date_of_day(n)),
        day_number(x.date) == n,
{
    lemma_instant_split(x);
    let k = nanos_per_day();
    assert((n * k) / k == n && (n * k) % k == 0) by (nonlinear_arith)
        requires
            k == 86_400_000_000_000int,
    ;
    assert(day_number(x.date) == n);
    assert(x.seconds_of_day() == 0 && x.nano == 0);
    lemma_date_of_day(x.date);
}

/// The Monday at 00:00 and the Sunday at 23:59:59.999999999 of the week of
/// `date`.
#[verifier::rlimit(40)]
pub fn get_week_bounds(date: &DateTime) -> (r: (DateTime, DateTime))
    requires
        date.valid(),
        min_day() <= week_monday(date.date),
        week_monday(date.date) + 6 <= max_day(),
    ensures
        r.0 == midnight(date_of_day(week_monday(date.date))),
        r.1 == (DateTime { date: date_of_day(week_monday(date.date) + 6), hour: 23, minute: 59, second: 59, nano: 999_999_999 }),
        r.0.valid(),
        r.1.valid(),
        day_number(r.0.date) == week_monday(date.date),
        day_number(r.1.date) == week_monday(date.date) + 6,
        weekday(r.0.date) == 0,
        weekday(r.1.date) == 6,
        r.0.instant() <= date.instant(),
        !date.is_leap_second() ==> date.instant() <= r.1.instant(),
{
    let day_start = get_start_of_day(date);
    let wd: i64 = chrono_weekday(day_start.date) as i64;
    let start = chrono_add(day_start, -(wd * 86400), 0).unwrap();
    let later = chrono_add(day_start, (6 - wd) * 86400, 0).unwrap();
    proof {
        lemma_midnight_of_day(start, week_monday(date.date));
        lemma_midnight_of_day(later, week_monday(date.date) + 6);
    }
    let end = get_end_of_day(&later);
    proof {
        if !date.is_leap_second() {
            lemma_instant_split(*date);
        }
    }
    (start, end)
}

/// Whether the date `days` days after a valid date can be held.
pub fn days_later_in_range(d: &Date, days: i64) -> (r: bool)
    requires
        d.valid(),
    ensures
        r == (min_day() <= day_number(*d) + days <= max_day()),
{
    chrono_add_days(*d, days).is_some()
}

/// Whether `get_week_bounds` can work on `date`: the date-time is valid and
/// the Monday and the Sunday of its week are dates that can be held.
pub fn week_in_range(date: &DateTime) -> (r: bool)
    ensures
        r == (date.valid() && min_day() <= week_monday(date.date) && week_monday(date.date) + 6 <= max_day()),
{
    if !date.is_valid() {
        return false;
    }
    let wd: i64 = chrono_weekday(date.date) as i64;
    proof {
        lemma_date_in_range(date.date);
    }
    match chrono_add_days(date.date, -wd) {
        None => false,
        Some(monday) => chrono_add_days(monday, 6).is_some(),
    }
}

/// The last Sunday of a month.
pub fn last_sunday_of_month(year: i32, month: u32) -> (r: Date)
    requires
        MIN_YEAR <= year <= MAX_YEAR,
        1 <= month <= 12,
    ensures
        r == last_sunday_date(year as int, month as int),
        r.valid(),
        weekday(r) == 6,
        r.year == year && r.month == month,
        r.day + 7 > month_length(year as int, month as int),
{
    let last_day_of_month = Date { year, month, day: days_per_month(year, month) };
    let k: u32 = (chrono_weekday(last_day_of_month) + 1) % 7;
    let ghost expected = last_sunday_date(year as int, month as int);
    proof {
        assert(expected.valid());
        lemma_day_number_same_month(expected, last_day_of_month);
        lemma_date_in_range(expected);
    }
    let r = chrono_add_days(last_day_of_month, -(k as i64)).unwrap();
    proof {
        lemma_day_number_injective(r, expected);
    }
    r
}

proof fn lemma_within_range(x: DateTime)
    requires
        x.valid(),
    ensures
        min_day() <= day_number(x.date) <= max_day(),
        min_instant() <= x.instant(),
        x.instant() <= max_instant() + nanos_per_second(),
{
    if x.date != min_date() {
        lemma_day_number_increasing(min_date(), x.date);
    }
    if x.date != max_date() {
        lemma_day_number_increasing(x.date, max_date());
    }
}

/// UTC time of a French local date-time: one hour earlier in winter, two
/// hours earlier from the last Sunday of March at 02:00 until the last
/// Sunday of October at 02:00.
pub fn get_utc(date: &DateTime) -> (r: DateTime)
    requires
        date.valid(),
        min_instant() <= utc_instant(*date),
    ensures
        r.valid(),
        !r.is_leap_second(),
        r.instant() == utc_instant(*date),
        r == date_time_at(utc_instant(*date)),
{
    let year = date.date.year;
    let summer_start = DateTime { date: last_sunday_of_month(year, 3), hour: 2, minute: 0, second: 0, nano: 0 };
    let summer_end = DateTime { date: last_sunday_of_month(year, 10), hour: 2, minute: 0, second: 0, nano: 0 };
    let is_summer_time = !date_time_lt(date, &summer_start) && date_time_lt(date, &summer_end);
    let hours: i64 = if is_summer_time { 2 } else { 1 };
    proof {
        lemma_within_range(*date);
    }
    let r = chrono_add(*date, -(hours * 3600), 0).unwrap();
    proof {
        lemma_date_time_at(r);
    }
    r
}

pub open spec fn digit_char(v: int) -> char {
    (v + 48) as char
}

/// Decimal digits of a natural number, without leading zeros.
pub open spec fn decimal_text(n: nat) -> Seq<char>
    decreases n,
{
    if n < 10 {
        seq![digit_char(n as int)]
    } else {
        decimal_text(n / 10) + seq![digit_char((n % 10) as int)]
    }
}

/// `s` with zeros added in front up to `width` characters.
pub open spec fn zero_padded(s: Seq<char>, width: nat) -> Seq<char> {
    if s.len() >= width {
        s
    } else {
        Seq::new((width - s.len()) as nat, |i: int| '0') + s
    }
}

/// Two decimal digits of a number below 100.
pub open spec fn two_digit_text(v: int) -> Seq<char> {
    seq![digit_char(v / 10), digit_char(v % 10)]
}

/// A year as `%Y` writes it: four digits from 0 to 9999, otherwise a sign
/// followed by at least four digits.
pub open spec fn year_text(y: int) -> Seq<char> {
    if 0 <= y <= 9999 {
        zero_padded(decimal_text(y as nat), 4)
    } else if y < 0 {
        seq!['-'] + zero_padded(decimal_text((-y) as nat), 4)
    } else {
        seq!['+'] + zero_padded(decimal_text(y as nat), 4)
    }
}

/// What a conversion specifier (the character after `%`) writes.
pub open spec fn specifier_text(dt: DateTime, c: char) -> Seq<char> {
    if c == 'Y' {
        year_text(dt.date.year as int)
    } else if c == 'm' {
        two_digit_text(dt.date.month as int)
    } else if c == 'd' {
        two_digit_text(dt.date.day as int)
    } else if c == 'H' {
        two_digit_text(dt.hour as int)
    } else if c == 'M' {
        two_digit_text(dt.minute as int)
    } else {
        two_digit_text(dt.second + if dt.is_leap_second() { 1int } else { 0int })
    }
}

pub open spec fn is_specifier(c: char) -> bool {
    c == 'Y' || c == 'm' || c == 'd' || c == 'H' || c == 'M' || c == 'S'
}

/// A format string whose every `%` starts one of `%Y %m %d %H %M %S`.
pub open spec fn simple_format(fmt: Seq<char>) -> bool {
    forall|i: int| 0 <= i < fmt.len() && fmt[i] == '%' ==> i + 1 < fmt.len() && is_specifier(#[trigger] fmt[i + 1])
}

/// The text of a date-time written with a simple format: each specifier is
/// replaced by its field, other characters are copied.
pub open spec fn formatted(dt: DateTime, fmt: Seq<char>) -> Seq<char>
    decreases fmt.len(),
{
    if fmt.len() == 0 {
        seq![]
    } else if fmt[0] == '%' && fmt.len() >= 2 {
        specifier_text(dt, fmt[1]) + formatted(dt, fmt.skip(2))
    } else {
        seq![fmt[0]] + formatted(dt, fmt.skip(1))
    }
}

/// `NaiveDateTime::format(fmt).to_string()` for a format made of literal
/// characters and `%Y %m %d %H %M %S`, as chrono documents them: the year
/// zero-padded to four digits (with a sign outside 0..=9999), the other
/// fields zero-padded to two digits, a leap second written as second 60.
#[verifier::external_body]
fn chrono_format(dt: DateTime, fmt: &str) -> (r: String)
    requires
        dt.valid(),
        simple_format(fmt@),
    ensures
        r@ == formatted(dt, fmt@),
{
    let t = chrono::NaiveDate::from_ymd_opt(dt.date.year, dt.date.month, dt.date.day).unwrap()
        .and_hms_nano_opt(dt.hour, dt.minute, dt.second, dt.nano).unwrap();
    t.format(fmt).to_string()
}

/// What `NaiveDateTime::parse_from_str(s, fmt)` gives back, as a date-time.
pub uninterp spec fn chrono_parsed(s: Seq<char>, fmt: Seq<char>) -> Option<DateTime>;

/// A reading of the text `s` gives back every valid date-time without
/// fraction of a second that is stored as `s`.
pub open spec fn reads_back_stored(r: Result<DateTime, chrono::ParseError>, s: Seq<char>) -> bool {
    forall|dt: DateTime| dt.valid() && dt.nano == 0 && #[trigger] formatted(dt, storage_format()) == s
        ==> r == Ok::<DateTime, chrono::ParseError>(dt)
}

/// `NaiveDateTime::parse_from_str`: the date-time that `s` writes in the
/// format `fmt`, or chrono's error. Chrono's parsing rules (padding,
/// signs, ranges) are not restated; a parsed value is a valid date-time.
/// What chrono writes with `%Y-%m-%dT%H:%M:%S` it reads back (for a
/// date-time without fraction of a second): its parser takes a signed year
/// with any number of digits and an unsigned one with up to four, the
/// literal characters as written, and the other fields with up to two
/// digits, and a missing fraction is zero.
#[verifier::external_body]
fn chrono_parse(s: &str, fmt: &str) -> (r: Result<DateTime, chrono::ParseError>)
    ensures
        r is Ok <==> chrono_parsed(s@, fmt@) is Some,
        r matches Ok(x) ==> chrono_parsed(s@, fmt@) == Some(x) && x.valid(),
        fmt@ == storage_format() ==> reads_back_stored(r, s@),
{
    let x = chrono::NaiveDateTime::parse_from_str(s, fmt)?;
    let date = Date { year: x.year(), month: x.month(), day: x.day() };
    Ok(DateTime { date, hour: x.hour(), minute: x.minute(), second: x.second(), nano: x.nanosecond() })
}

#[verifier::external_type_specification]
#[verifier::external_body]
pub struct ExParseError(chrono::ParseError);

/// Why a date-time text was refused.
#[derive(Clone, Copy, Debug, PartialEq, Eq, Structural)]
pub enum DateError {
    /// The text does not follow `YYYY-MM-DDTHH:MM:SS`.
    Unparsable,
}

pub open spec fn storage_format() -> Seq<char> {
    "%Y-%m-%dT%H:%M:%S"@
}

pub open spec fn ics_format() -> Seq<char> {
    "%Y%m%dT%H%M%S"@
}

pub open spec fn ics_day_format() -> Seq<char> {
    "%Y%m%dT"@
}

/// Reads a date-time written `YYYY-MM-DDTHH:MM:SS`.
pub fn dt_from_rfc3339(date: &str) -> (r: Result<DateTime, DateError>)
    ensures
        r is Ok <==> chrono_parsed(date@, storage_format()) is Some,
        r matches Ok(x) ==> chrono_parsed(date@, storage_format()) == Some(x) && x.valid(),
        r matches Err(e) ==> e == DateError::Unparsable,
        forall|dt: DateTime| dt.valid() && dt.nano == 0 && #[trigger] formatted(dt, storage_format()) == date@
            ==> (r matches Ok(x) && x == dt),
{
    match chrono_parse(date, "%Y-%m-%dT%H:%M:%S") {
        Ok(x) => Ok(x),
        Err(_) => Err(DateError::Unparsable),
    }
}

/// Writes a date-time with a simple format (`%Y %m %d %H %M %S` and
/// literal characters).
pub fn format_date_time(dt: &DateTime, fmt: &str) -> (r: String)
    requires
        dt.valid(),
        simple_format(fmt@),
    ensures
        r@ == formatted(*dt, fmt@),
{
    chrono_format(*dt, fmt)
}

/// The UTC time of a local date-time as an iCalendar date-time:
/// `YYYYMMDDTHHMMSSZ`.
pub fn dt_to_ics(date: &DateTime) -> (r: String)
    requires
        date.valid(),
        min_instant() <= utc_instant(*date),
    ensures
        r@ == formatted(date_time_at(utc_instant(*date)), ics_format()) + seq!['Z'],
{
    let utc = get_utc(date);
    proof {
        reveal_strlit("%Y%m%dT%H%M%S");
    }
    let mut text = chrono_format(utc, "%Y%m%dT%H%M%S");
    text.append("Z");
    proof {
        reveal_strlit("Z");
    }
    text
}

/// The UTC day of a local date-time as the start of an iCalendar
/// date-time: `YYYYMMDDTZ`.
pub fn dt_to_ics_day(date: &DateTime) -> (r: String)
    requires
        date.valid(),
        min_instant() <= utc_instant(*date),
    ensures
        r@ == formatted(date_time_at(utc_instant(*date)), ics_day_format()) + seq!['Z'],
{
    let utc = get_utc(date);
    proof {
        reveal_strlit("%Y%m%dT");
    }
    let mut text = chrono_format(utc, "%Y%m%dT");
    text.append("Z");
    proof {
        reveal_strlit("Z");
    }
    text
}

/// Length of the time between two date-times in nanoseconds, as chrono
/// measures it (`NaiveDateTime::signed_duration_since`): a leap second
/// counts as one more second only when the other time is in a different
/// second of the day.
pub open spec fn duration_nanos(later: DateTime, earlier: DateTime) -> int {
    let a = later.seconds_of_day();
    let b = earlier.seconds_of_day();
    let adjust: int = if a > b && earlier.is_leap_second() {
        1
    } else if a < b && later.is_leap_second() {
        -1
    } else {
        0
    };
    (day_number(later.date) - day_number(earlier.date)) * nanos_per_day() + (a - b + adjust) * nanos_per_second()
        + later.nano - earlier.nano
}

/// `later.signed_duration_since(earlier).num_minutes()`: whole minutes,
/// rounded toward zero.
#[verifier::external_body]
fn chrono_minutes_between(later: DateTime, earlier: DateTime) -> (r: i64)
    requires
        later.valid(),
        earlier.valid(),
    ensures
        r == div_toward_zero(duration_nanos(later, earlier), 60 * nanos_per_second()),
{
    let a = chrono::NaiveDate::from_ymd_opt(later.date.year, later.date.month, later.date.day).unwrap()
        .and_hms_nano_opt(later.hour, later.minute, later.second, later.nano).unwrap();
    let b = chrono::NaiveDate::from_ymd_opt(earlier.date.year, earlier.date.month, earlier.date.day).unwrap()
        .and_hms_nano_opt(earlier.hour, earlier.minute, earlier.second, earlier.nano).unwrap();
    a.signed_duration_since(b).num_minutes()
}

/// Whole minutes from `earlier` to `later`, rounded toward zero.
pub fn minutes_between(later: &DateTime, earlier: &DateTime) -> (r: i64)
    requires
        later.valid(),
        earlier.valid(),
    ensures
        r == div_toward_zero(duration_nanos(*later, *earlier), 60 * nanos_per_second()),
{
    chrono_minutes_between(*later, *earlier)
}

/// Day of the week of a date, counted from Monday (0) to Sunday (6).
pub fn weekday_from_monday(d: &Date) -> (r: u32)
    requires
        d.valid(),
    ensures
        r == weekday(*d),
        r < 7,
{
    chrono_weekday(*d)
}

/// A date-time moved by a whole number of days (`+ TimeDelta::days(days)`);
/// moved by no day it is left as it is, a leap second included.
pub fn add_days(dt: &DateTime, days: i64) -> (r: DateTime)
    requires
        dt.valid(),
        -10_000_000_000 <= days <= 10_000_000_000,
        days != 0 ==> min_instant() <= moved_instant(*dt, days * 86400, 0) <= max_instant(),
    ensures
        r.valid(),
        r.instant() == moved_instant(*dt, days * 86400, 0),
        days == 0 ==> r == *dt,
        days != 0 ==> !r.is_leap_second(),
{
    if days == 0 {
        return *dt;
    }
    chrono_add(*dt, days * 86400, 0).unwrap()
}

impl Date {
    /// Whether the date exists and lies within the supported years.
    pub fn is_valid(&self) -> (r: bool)
        ensures
            r == self.valid(),
    {
        MIN_YEAR <= self.year && self.year <= MAX_YEAR && 1 <= self.month && self.month <= 12
            && 1 <= self.day && self.day <= days_per_month(self.year, self.month)
    }
}

impl DateTime {
    /// Whether the date-time exists (a leap second only at second 59).
    pub fn is_valid(&self) -> (r: bool)
        ensures
            r == self.valid(),
    {
        self.date.is_valid() && self.hour < 24 && self.minute < 60 && self.second < 60
            && self.nano < 2_000_000_000 && (self.nano < 1_000_000_000 || self.second == 59)
    }
}

} // verus!
