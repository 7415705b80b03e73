//! How events are stored in the `events` table: dates as
//! `YYYY-MM-DDTHH:MM:SS` texts, missing values as `NULL`, lists joined with
//! `;`.

use crate::celcat::CelcatEvent;
use crate::celcat::Event;
use crate::text::string_option;
use crate::date::chrono_parsed;
use crate::date::dt_from_rfc3339;
use crate::date::format_date_time;
use crate::date::formatted;
use crate::date::storage_format;
use crate::date::DateError;
use crate::date::DateTime;
use crate::string::join_all;
use crate::text::chars_of;
use crate::text::joined;
use crate::text::lemma_split_joined;
use crate::celcat::same_event;
use crate::text::split;
use crate::text::split_chars;
use crate::text::string_of;
use crate::text::text_equals;
use vstd::prelude::*;

verus! {

/// Separator of the teachers and of the classrooms of a stored event.
pub const DB_SEP: &'static str = ";";

/// The columns of a stored event, in table order.
#[derive(Clone, Debug, PartialEq, Eq)]
pub struct EventRow {
    pub group_name: String,
    pub event_id: String,
    pub start_date: String,
    pub end_date: String,
    pub all_day: bool,
    pub description: String,
    pub background_color: String,
    pub text_color: String,
    pub event_category: String,
    pub teachers: String,
    pub classrooms: String,
    pub subject: String,
}

pub open spec fn separator() -> Seq<char> {
    ";"@
}

pub open spec fn null_text() -> Seq<char> {
    "NULL"@
}

/// A stored list: the items joined with `;`.
pub open spec fn stored_list(items: Seq<Seq<char>>) -> Seq<char> {
    joined(items, separator())
}

/// A list read back: the non-empty pieces between the `;`.
pub open spec fn read_list(text: Seq<char>) -> Seq<Seq<char>> {
    split(text, separator()).filter(|p: Seq<char>| p.len() > 0)
}

/// A stored optional text: the text, or `NULL`.
pub open spec fn stored_option(o: Option<Seq<char>>) -> Seq<char> {
    match o {
        Some(s) => s,
        None => null_text(),
    }
}

/// An optional text read back: `NULL` is no text.
pub open spec fn read_option(text: Seq<char>) -> Option<Seq<char>> {
    if text == null_text() { None } else { Some(text) }
}

/// A stored date-time.
pub open spec fn stored_date(dt: DateTime) -> Seq<char> {
    formatted(dt, storage_format())
}

/// The row that stores an event of a group.
pub open spec fn is_row_of(row: EventRow, e: Event, group_name: Seq<char>) -> bool {
    &&& row.group_name@ == group_name
    &&& row.event_id@ == e.celcat.id@
    &&& row.start_date@ == stored_date(e.celcat.start)
    &&& row.end_date@ == match e.celcat.end {
        Some(x) => stored_date(x),
        None => null_text(),
    }
    &&& row.all_day == e.celcat.all_day
    &&& row.description@ == e.celcat.description@
    &&& row.background_color@ == e.celcat.background_color@
    &&& row.text_color@ == e.celcat.text_color@
    &&& row.event_category@ == e.celcat.event_category@
    &&& row.teachers@ == stored_list(e.teachers.deep_view())
    &&& row.classrooms@ == stored_list(e.classrooms.deep_view())
    &&& row.subject@ == stored_option(string_option(e.subject))
}

/// What reading a row gives: `None` when a date cannot be read.
pub open spec fn row_dates(row: EventRow) -> Option<(DateTime, Option<DateTime>)> {
    match chrono_parsed(row.start_date@, storage_format()) {
        None => None,
        Some(start) => if row.end_date@ == null_text() {
            Some((start, None))
        } else {
            match chrono_parsed(row.end_date@, storage_format()) {
                None => None,
                Some(end) => Some((start, Some(end))),
            }
        },
    }
}

/// The event read from a row whose dates were read.
pub open spec fn is_event_of_row(e: Event, row: EventRow) -> bool {
    &&& row_dates(row) == Some((e.celcat.start, e.celcat.end))
    &&& e.celcat.id@ == row.event_id@
    &&& e.celcat.all_day == row.all_day
    &&& e.celcat.description@ == row.description@
    &&& e.celcat.background_color@ == row.background_color@
    &&& e.celcat.text_color@ == row.text_color@
    &&& e.celcat.event_category@ == row.event_category@
    &&& e.teachers.deep_view() == read_list(row.teachers@)
    &&& e.classrooms.deep_view() == read_list(row.classrooms@)
    &&& string_option(e.subject) == read_option(row.subject@)
}

/// An event that its row gives back as it was: dates without fraction of a
/// second, teachers and classrooms non-empty and free of `;`, and a subject
/// other than `NULL`.
pub open spec fn storable(e: Event) -> bool {
    &&& e.celcat.start.valid() && e.celcat.start.nano == 0
    &&& e.celcat.end matches Some(x) ==> x.valid() && x.nano == 0
    &&& forall|i: int| 0 <= i < e.teachers.len() ==> (#[trigger] e.teachers.deep_view()[i]).len() > 0
        && !e.teachers.deep_view()[i].contains(';')
    &&& forall|i: int| 0 <= i < e.classrooms.len() ==> (#[trigger] e.classrooms.deep_view()[i]).len() > 0
        && !e.classrooms.deep_view()[i].contains(';')
    &&& string_option(e.subject) != Some(null_text())
}

/// A formatted date-time is at least as long as its format: every
/// specifier writes two characters or more.
proof fn lemma_formatted_len(dt: DateTime, fmt: Seq<char>)
    ensures
        formatted(dt, fmt).len() >= fmt.len(),
    decreases fmt.len(),
{
    if fmt.len() > 0 {
        if fmt[0] == '%' && fmt.len() >= 2 {
            lemma_formatted_len(dt, fmt.skip(2));
        } else {
            lemma_formatted_len(dt, fmt.skip(1));
        }
    }
}

/// A stored date is never the text `NULL`.
proof fn lemma_stored_date_not_null(dt: DateTime)
    ensures
        stored_date(dt) != null_text(),
{
    reveal_strlit("%Y-%m-%dT%H:%M:%S");
    reveal_strlit("NULL");
    lemma_formatted_len(dt, storage_format());
}

/// Writes a date-time as stored.
pub fn store_date(dt: &DateTime) -> (r: String)
    requires
        dt.valid(),
    ensures
        r@ == stored_date(*dt),
{
    proof {
        reveal_strlit("%Y-%m-%dT%H:%M:%S");
    }
    format_date_time(dt, "%Y-%m-%dT%H:%M:%S")
}

/// The stored bounds of a period, for the queries on a period.
pub fn stored_period(period: &(DateTime, DateTime)) -> (r: (String, String))
    requires
        period.0.valid(),
        period.1.valid(),
    ensures
        r.0@ == stored_date(period.0),
        r.1@ == stored_date(period.1),
{
    (store_date(&period.0), store_date(&period.1))
}

fn read_list_exec(text: &str) -> (r: Vec<String>)
    ensures
        r.deep_view() == read_list(text@),
{
    proof {
        reveal_strlit(";");
    }
    let pieces = split_chars(&chars_of(text), &chars_of(";"));
    let mut r: Vec<String> = Vec::new();
    let ghost all = pieces.deep_view();
    let ghost keep = |p: Seq<char>| p.len() > 0;
    assert(all.take(0).filter(keep) =~= Seq::<Seq<char>>::empty());
    for i in 0..pieces.len()
        invariant
            all == pieces.deep_view(),
            all == split(text@, separator()),
            keep == (|p: Seq<char>| p.len() > 0),
            r.deep_view() == all.take(i as int).filter(keep),
    {
        reveal_with_fuel(Seq::<_>::filter, 1);
        assert(pieces@[i as int].deep_view() =~= pieces@[i as int]@);
        assert(all.take(i + 1).drop_last() =~= all.take(i as int));
        assert(all.take(i + 1).last() == all[i as int]);
        assert(all.take(i + 1).filter(keep) == if keep(all[i as int]) {
            all.take(i as int).filter(keep).push(all[i as int])
        } else {
            all.take(i as int).filter(keep)
        });
        if pieces[i].len() > 0 {
            let ghost before = r.deep_view();
            let s = string_of(&pieces[i]);
            r.push(s);
            assert(r.deep_view() =~= before.push(all[i as int]));
            assert(keep(all[i as int]));
            assert(r.deep_view() == all.take(i + 1).filter(keep));
        } else {
            assert(!keep(all[i as int]));
            assert(r.deep_view() == all.take(i + 1).filter(keep));
        }
    }
    assert(all.take(pieces.len() as int) =~= all);
    r
}

fn read_option_exec(text: &String) -> (r: Option<String>)
    ensures
        string_option(r) == read_option(text@),
{
    if text_equals(text.as_str(), "NULL") {
        None
    } else {
        Some(text.clone())
    }
}

impl Event {
    /// The row that stores the event for a group.
    pub fn to_row(&self, group_name: &str) -> (r: EventRow)
        requires
            self.celcat.start.valid(),
            self.celcat.end matches Some(x) ==> x.valid(),
        ensures
            is_row_of(r, *self, group_name@),
    {
        EventRow {
            group_name: group_name.to_owned(),
            event_id: self.celcat.id.clone(),
            start_date: store_date(&self.celcat.start),
            end_date: match self.celcat.end {
                Some(value) => store_date(&value),
                None => String::from_str("NULL"),
            },
            all_day: self.celcat.all_day,
            description: self.celcat.description.clone(),
            background_color: self.celcat.background_color.clone(),
            text_color: self.celcat.text_color.clone(),
            event_category: self.celcat.event_category.clone(),
            teachers: join_all(&self.teachers, DB_SEP),
            classrooms: join_all(&self.classrooms, DB_SEP),
            subject: match &self.subject {
                Some(s) => s.clone(),
                None => String::from_str("NULL"),
            },
        }
    }

    /// Reads an event back from its row; fails when a date cannot be read.
    pub fn from_sql_row(row: &EventRow) -> (r: Result<Event, DateError>)
        ensures
            r is Ok <==> row_dates(*row) is Some,
            r matches Ok(e) ==> is_event_of_row(e, *row),
            forall|e: Event, g: Seq<char>| #[trigger] is_row_of(*row, e, g) && storable(e)
                ==> (r matches Ok(back) && same_event(back, e)),
    {
        proof {
            assert forall|x: DateTime| true implies #[trigger] stored_date(x) != null_text() by {
                lemma_stored_date_not_null(x);
            }
        }
        let start = match dt_from_rfc3339(row.start_date.as_str()) {
            Ok(x) => x,
            Err(err) => return Err(err),
        };
        let end = if text_equals(row.end_date.as_str(), "NULL") {
            None
        } else {
            match dt_from_rfc3339(row.end_date.as_str()) {
                Ok(x) => Some(x),
                Err(err) => return Err(err),
            }
        };
        let back = Event {
            celcat: CelcatEvent {
                id: row.event_id.clone(),
                start,
                end,
                all_day: row.all_day,
                description: row.description.clone(),
                background_color: row.background_color.clone(),
                text_color: row.text_color.clone(),
                event_category: row.event_category.clone(),
            },
            teachers: read_list_exec(row.teachers.as_str()),
            classrooms: read_list_exec(row.classrooms.as_str()),
            subject: read_option_exec(&row.subject),
        };
        proof {
            assert forall|e: Event, g: Seq<char>| #[trigger] is_row_of(*row, e, g) && storable(e)
                implies same_event(back, e) by {
                lemma_row_round_trip(e, g, *row, back);
            }
        }
        Ok(back)
    }
}

/// What storing a fetched calendar does: the stored bounds of the period
/// whose events are replaced, and the rows that replace them.
pub struct CalendarUpdate {
    pub from: String,
    pub to: String,
    pub rows: Vec<EventRow>,
}

/// The dates of an event can be written.
pub open spec fn dates_valid(e: Event) -> bool {
    &&& e.celcat.start.valid()
    &&& e.celcat.end matches Some(x) ==> x.valid()
}

/// How a group's fetched calendar replaces its stored events of a period:
/// nothing is done for an empty calendar; otherwise the events stored
/// between the two bounds are replaced by one row per fetched event, in
/// order.
pub fn calendar_update(group_name: &str, calendar: &Vec<Event>, period: &(DateTime, DateTime)) -> (r: Option<CalendarUpdate>)
    requires
        period.0.valid(),
        period.1.valid(),
        forall|i: int| 0 <= i < calendar.len() ==> dates_valid(#[trigger] calendar[i]),
    ensures
        r is None <==> calendar.len() == 0,
        r matches Some(u) ==> {
            &&& u.from@ == stored_date(period.0)
            &&& u.to@ == stored_date(period.1)
            &&& u.rows.len() == calendar.len()
            &&& forall|i: int| 0 <= i < calendar.len() ==> is_row_of(#[trigger] u.rows[i], calendar[i], group_name@)
        },
{
    if calendar.len() == 0 {
        return None;
    }
    let (from, to) = stored_period(period);
    let mut rows: Vec<EventRow> = Vec::new();
    for i in 0..calendar.len()
        invariant
            rows.len() == i,
            forall|k: int| 0 <= k < calendar.len() ==> dates_valid(#[trigger] calendar[k]),
            forall|k: int| 0 <= k < i ==> is_row_of(#[trigger] rows[k], calendar[k], group_name@),
    {
        assert(dates_valid(calendar[i as int]));
        let row = calendar[i].to_row(group_name);
        rows.push(row);
    }
    Some(CalendarUpdate { from, to, rows })
}

proof fn lemma_filter_keeps_all(items: Seq<Seq<char>>)
    requires
        forall|i: int| 0 <= i < items.len() ==> (#[trigger] items[i]).len() > 0,
    ensures
        items.filter(|p: Seq<char>| p.len() > 0) == items,
    decreases items.len(),
{
    reveal_with_fuel(Seq::<_>::filter, 1);
    if items.len() > 0 {
        let init = items.drop_last();
        assert forall|i: int| 0 <= i < init.len() implies (#[trigger] init[i]).len() > 0 by {
            assert(init[i] == items[i]);
        }
        lemma_filter_keeps_all(init);
        assert(items.last().len() > 0);
        assert(init.push(items.last()) =~= items);
    }
}

/// A list of non-empty items free of `;` is read back as stored.
pub proof fn lemma_stored_list_round_trip(items: Seq<Seq<char>>)
    requires
        forall|i: int| 0 <= i < items.len() ==> (#[trigger] items[i]).len() > 0 && !items[i].contains(';'),
    ensures
        read_list(stored_list(items)) == items,
{
    reveal_strlit(";");
    reveal_with_fuel(Seq::<_>::filter, 2);
    if items.len() == 0 {
        let e: Seq<char> = seq![];
        assert(stored_list(items) == e);
        assert(split(e, separator()) =~= seq![e.subrange(0, 0)]);
        assert(seq![e.subrange(0, 0)].drop_last() =~= Seq::<Seq<char>>::empty());
    } else {
        assert(separator()[0] == ';');
        lemma_split_joined(items, separator());
        lemma_filter_keeps_all(items);
    }
}

/// An optional text other than `NULL` is read back as stored.
pub proof fn lemma_stored_option_round_trip(o: Option<Seq<char>>)
    requires
        o != Some(null_text()),
    ensures
        read_option(stored_option(o)) == o,
{
}

/// What `to_row` writes, `from_sql_row` reads back: the same event, when
/// its teachers and classrooms are non-empty and free of `;`, its subject is
/// not `NULL`, and its stored dates are read back as they were.
pub proof fn lemma_row_round_trip(e: Event, group_name: Seq<char>, row: EventRow, back: Event)
    requires
        is_row_of(row, e, group_name),
        is_event_of_row(back, row),
        forall|i: int| 0 <= i < e.teachers.len() ==> (#[trigger] e.teachers.deep_view()[i]).len() > 0
            && !e.teachers.deep_view()[i].contains(';'),
        forall|i: int| 0 <= i < e.classrooms.len() ==> (#[trigger] e.classrooms.deep_view()[i]).len() > 0
            && !e.classrooms.deep_view()[i].contains(';'),
        string_option(e.subject) != Some(null_text()),
        row_dates(row) == Some((e.celcat.start, e.celcat.end)),
    ensures
        same_event(back, e),
{
    lemma_stored_list_round_trip(e.teachers.deep_view());
    lemma_stored_list_round_trip(e.classrooms.deep_view());
    lemma_stored_option_round_trip(string_option(e.subject));
}

} // verus!
