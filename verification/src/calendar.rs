//! Decisions of the calendar update: which weeks to fetch, which student id
//! to use, and how a group's events are split by category.

use crate::celcat::Event;
use crate::celcat::same_event;
use crate::text::chars_of;
use crate::text::starts_with;
use crate::text::string_option;
use crate::config::Group;
use crate::date::add_days;
use crate::date::date_of_day;
use crate::date::date_time_at;
use crate::date::day_number;
use crate::date::get_week_bounds;
use crate::date::lemma_instant_split;
use crate::date::max_day;
use crate::date::midnight;
use crate::date::min_day;
use crate::date::moved_instant;
use crate::date::nanos_per_day;
use crate::date::week_monday;
use crate::date::weekday;
use crate::date::weekday_from_monday;
use crate::date::DateTime;
use crate::date::days_later_in_range;
use vstd::prelude::*;

verus! {

/// The weeks to fetch: `reference` is the day that decides the first week,
/// `start` its Monday at 00:00, `end` the last instant of the last week.
pub struct FetchPeriod {
    pub reference: DateTime,
    pub start: DateTime,
    pub end: DateTime,
}

/// Days from now to the reference day: to next Monday on a weekend.
pub open spec fn reference_shift(now: DateTime) -> int {
    let wd = weekday(now.date);
    if wd > 4 { 7 - wd } else { 0 }
}

/// Day number of the Monday of the first week fetched: this week's, or
/// next week's on a weekend.
pub open spec fn fetch_monday(now: DateTime) -> int {
    if weekday(now.date) > 4 { week_monday(now.date) + 7 } else { week_monday(now.date) }
}

/// Whether `fetch_period` can work on `now` and `range`: the date-time is
/// valid and the first Monday and the last Sunday fetched are dates that can
/// be held.
pub fn fetch_in_range(now: &DateTime, range: u8) -> (r: bool)
    ensures
        r == (now.valid() && min_day() <= fetch_monday(*now) && fetch_monday(*now) + 7 * range + 6 <= max_day()),
{
    if !now.is_valid() {
        return false;
    }
    let wd: i64 = weekday_from_monday(&now.date) as i64;
    let offset: i64 = if wd > 4 { 7 - wd } else { -wd };
    days_later_in_range(&now.date, offset) && days_later_in_range(&now.date, offset + 7 * range as i64 + 6)
}

/// The first Monday fetched is the Monday of the current week from Monday
/// to Friday, and the next Monday on Saturday and Sunday; the reference
/// day moves to that Monday on a weekend only.
pub proof fn lemma_fetch_week(now: DateTime)
    ensures
        0 <= weekday(now.date) <= 4 ==> fetch_monday(now) == week_monday(now.date) && reference_shift(now) == 0,
        weekday(now.date) >= 5 ==> fetch_monday(now) == week_monday(now.date) + 7
            && day_number(now.date) + reference_shift(now) == fetch_monday(now)
            && 1 <= reference_shift(now) <= 2,
        week_monday(now.date) <= day_number(now.date) <= week_monday(now.date) + 6,
{
}

/// Two date-times a whole number of days apart have the same time of day.
proof fn lemma_same_time_of_day(a: DateTime, b: DateTime, k: int)
    requires
        a.valid(),
        !a.is_leap_second(),
        b.valid(),
        !b.is_leap_second(),
        b.instant() == a.instant() + k * nanos_per_day(),
    ensures
        b.hour == a.hour && b.minute == a.minute && b.second == a.second && b.nano == a.nano,
{
    lemma_instant_split(a);
    lemma_instant_split(b);
    let d = nanos_per_day();
    let t = a.instant();
    vstd::arithmetic::div_mod::lemma_mod_multiples_vanish(k, t, d);
    assert(d * k + t == t + k * d);
    let sa = a.seconds_of_day();
    let sb = b.seconds_of_day();
    assert(sa * 1_000_000_000 + a.nano == sb * 1_000_000_000 + b.nano);
    assert(sa == sb && a.nano == b.nano);
}

/// The weeks fetched: from this week (next week on a weekend) on, `range`
/// weeks more.
pub fn fetch_period(now: &DateTime, range: u8) -> (r: FetchPeriod)
    requires
        now.valid(),
        min_day() <= fetch_monday(*now),
        fetch_monday(*now) + 7 * range + 6 <= max_day(),
    ensures
        r.reference == if reference_shift(*now) > 0 {
            date_time_at(moved_instant(*now, reference_shift(*now) * 86400, 0))
        } else {
            *now
        },
        r.start == midnight(date_of_day(fetch_monday(*now))),
        r.end == (DateTime {
            date: date_of_day(fetch_monday(*now) + 7 * range + 6),
            hour: 23,
            minute: 59,
            second: 59,
            nano: 999_999_999,
        }),
        weekday(now.date) <= 4 ==> r.reference == *now,
        weekday(now.date) <= 4 ==> day_number(r.start.date) == week_monday(now.date),
        weekday(now.date) > 4 ==> day_number(r.start.date) == week_monday(now.date) + 7,
        weekday(now.date) > 4 ==> day_number(r.reference.date) == week_monday(now.date) + 7,
        weekday(now.date) > 4 && !now.is_leap_second() ==> r.reference.hour == now.hour
            && r.reference.minute == now.minute && r.reference.second == now.second && r.reference.nano == now.nano,
        weekday(r.start.date) == 0,
        r.start.hour == 0 && r.start.minute == 0 && r.start.second == 0 && r.start.nano == 0,
        day_number(r.end.date) == day_number(r.start.date) + 7 * range + 6,
{
    let weekday_now = weekday_from_monday(&now.date);
    let reference = if weekday_now > 4 {
        let shifted = add_days(now, (7 - weekday_now) as i64);
        proof {
            lemma_instant_split(shifted);
            crate::date::lemma_date_time_at(shifted);
            assert(day_number(shifted.date) == day_number(now.date) + reference_shift(*now));
            if !now.is_leap_second() {
                lemma_instant_split(*now);
                lemma_same_time_of_day(*now, shifted, reference_shift(*now));
            }
        }
        shifted
    } else {
        *now
    };
    assert(week_monday(reference.date) == fetch_monday(*now));
    let (start, _) = get_week_bounds(&reference);
    let later = add_days(&start, 7 * range as i64);
    proof {
        lemma_instant_split(later);
    }
    let (_, end) = get_week_bounds(&later);
    proof {
        lemma_fetch_week(*now);
    }
    FetchPeriod { reference, start, end }
}

/// The student id of a group: its own, or else the one found at login.
pub fn student_id_for(group: &Group, extracted: &Option<String>) -> (r: Option<String>)
    ensures
        string_option(r) == match group.student_id {
            Some(s) => Some(s@),
            None => string_option(*extracted),
        },
{
    match &group.student_id {
        Some(s) => Some(s.clone()),
        None => match extracted {
            Some(s) => Some(s.clone()),
            None => None,
        },
    }
}

/// The event's category starts with `category`.
pub open spec fn in_category(e: Event, category: Seq<char>) -> bool {
    category.is_prefix_of(e.celcat.event_category@)
}

/// The event's category starts with none of `CM`, `TD`, `Examen`.
pub open spec fn in_no_category(e: Event) -> bool {
    &&& !in_category(e, "CM"@)
    &&& !in_category(e, "TD"@)
    &&& !in_category(e, "Examen"@)
}

/// Positions, among the first `k` events, of those that satisfy `keep`.
pub open spec fn positions(events: Seq<Event>, keep: spec_fn(Event) -> bool, k: int) -> Seq<int>
    decreases k,
{
    if k <= 0 {
        seq![]
    } else if keep(events[k - 1]) {
        positions(events, keep, k - 1).push(k - 1)
    } else {
        positions(events, keep, k - 1)
    }
}

/// `r` holds copies of the events at `pos`, in order.
pub open spec fn copies_at(r: Seq<Event>, events: Seq<Event>, pos: Seq<int>) -> bool {
    &&& r.len() == pos.len()
    &&& forall|j: int| 0 <= j < pos.len() ==> same_event(#[trigger] r[j], events[pos[j]])
}

fn event_in_category(e: &Event, category: &str) -> (r: bool)
    ensures
        r == in_category(*e, category@),
{
    starts_with(&chars_of(e.celcat.event_category.as_str()), &chars_of(category))
}

/// The events whose category starts with `category`, in order.
pub fn events_in_category(calendar: &Vec<Event>, category: &str) -> (r: Vec<Event>)
    ensures
        copies_at(r@, calendar@, positions(calendar@, |e: Event| in_category(e, category@), calendar.len() as int)),
{
    let ghost keep = |e: Event| in_category(e, category@);
    let mut r: Vec<Event> = Vec::new();
    for i in 0..calendar.len()
        invariant
            keep == (|e: Event| in_category(e, category@)),
            copies_at(r@, calendar@, positions(calendar@, keep, i as int)),
    {
        if event_in_category(&calendar[i], category) {
            r.push(calendar[i].duplicate());
        }
    }
    r
}

/// The events whose category starts with none of `CM`, `TD`, `Examen`, in
/// order.
pub fn events_in_no_category(calendar: &Vec<Event>) -> (r: Vec<Event>)
    ensures
        copies_at(r@, calendar@, positions(calendar@, |e: Event| in_no_category(e), calendar.len() as int)),
{
    let ghost keep = |e: Event| in_no_category(e);
    let mut r: Vec<Event> = Vec::new();
    for i in 0..calendar.len()
        invariant
            keep == (|e: Event| in_no_category(e)),
            copies_at(r@, calendar@, positions(calendar@, keep, i as int)),
    {
        let e = &calendar[i];
        if !event_in_category(e, "CM") && !event_in_category(e, "TD") && !event_in_category(e, "Examen") {
            r.push(e.duplicate());
        }
    }
    r
}

/// Every event falls in exactly one of the lists `CM`, `TD`, `Examen` and
/// the other events: the four lists together are as long as the calendar.
pub proof fn lemma_categories_partition(events: Seq<Event>)
    ensures
        positions(events, |e: Event| in_category(e, "CM"@), events.len() as int).len()
            + positions(events, |e: Event| in_category(e, "TD"@), events.len() as int).len()
            + positions(events, |e: Event| in_category(e, "Examen"@), events.len() as int).len()
            + positions(events, |e: Event| in_no_category(e), events.len() as int).len() == events.len(),
{
    lemma_partition_prefix(events, events.len() as int);
}

proof fn lemma_partition_prefix(events: Seq<Event>, k: int)
    requires
        0 <= k <= events.len(),
    ensures
        positions(events, |e: Event| in_category(e, "CM"@), k).len()
            + positions(events, |e: Event| in_category(e, "TD"@), k).len()
            + positions(events, |e: Event| in_category(e, "Examen"@), k).len()
            + positions(events, |e: Event| in_no_category(e), k).len() == k,
    decreases k,
{
    if k > 0 {
        lemma_partition_prefix(events, k - 1);
        reveal_strlit("CM");
        reveal_strlit("TD");
        reveal_strlit("Examen");
        let c = events[k - 1].celcat.event_category@;
        if in_category(events[k - 1], "CM"@) {
            assert("CM"@[0] == 'C');
            assert(c.subrange(0, 2)[0] == c[0]);
            assert(c[0] == 'C');
        }
        if in_category(events[k - 1], "TD"@) {
            assert("TD"@[0] == 'T');
            assert(c.subrange(0, 2)[0] == c[0]);
            assert(c[0] == 'T');
        }
        if in_category(events[k - 1], "Examen"@) {
            assert("Examen"@[0] == 'E');
            assert(c.subrange(0, 6)[0] == c[0]);
            assert(c[0] == 'E');
        }
    }
}

/// A category and the stem of its files.
pub struct CategoryFiles {
    pub category: String,
    pub stem: String,
}

/// The categories that get files of their own, with their lowercase stems.
pub fn category_files() -> (r: Vec<CategoryFiles>)
    ensures
        r.len() == 3,
        r[0].category@ == "CM"@ && r[0].stem@ == "cm"@,
        r[1].category@ == "TD"@ && r[1].stem@ == "td"@,
        r[2].category@ == "Examen"@ && r[2].stem@ == "examen"@,
{
    let mut r: Vec<CategoryFiles> = Vec::new();
    r.push(CategoryFiles { category: String::from_str("CM"), stem: String::from_str("cm") });
    r.push(CategoryFiles { category: String::from_str("TD"), stem: String::from_str("td") });
    r.push(CategoryFiles { category: String::from_str("Examen"), stem: String::from_str("examen") });
    r
}

/// `stem.extension`.
pub fn file_name(stem: &str, extension: &str) -> (r: String)
    ensures
        r@ == stem@ + "."@ + extension@,
{
    String::from_str(stem).concat(".").concat(extension)
}

} // verus!
