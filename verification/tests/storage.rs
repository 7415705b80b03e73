use cytt::celcat::{CelcatEvent, Event};
use cytt::date::{Date, DateError, DateTime};
use cytt::db::{calendar_update, stored_period, EventRow, DB_SEP};

fn at(day: u32, hour: u32) -> DateTime {
    DateTime { date: Date { year: 2024, month: 5, day }, hour, minute: 15, second: 0, nano: 0 }
}

fn event(end: Option<DateTime>, subject: Option<&str>) -> Event {
    Event {
        celcat: CelcatEvent {
            id: "42".to_string(),
            start: at(13, 8),
            end,
            all_day: false,
            description: "desc".to_string(),
            background_color: "#111111".to_string(),
            text_color: "#222222".to_string(),
            event_category: "CM".to_string(),
        },
        teachers: vec!["A B".to_string(), "C D".to_string()],
        classrooms: vec!["E101".to_string()],
        subject: subject.map(|s| s.to_string()),
    }
}

#[test]
fn row_columns() {
    let row = event(Some(at(13, 10)), Some("Maths")).to_row("ing1");
    assert_eq!(row.group_name, "ing1");
    assert_eq!(row.start_date, "2024-05-13T08:15:00");
    assert_eq!(row.end_date, "2024-05-13T10:15:00");
    assert_eq!(row.teachers, "A B;C D");
    assert_eq!(row.classrooms, "E101");
    assert_eq!(row.subject, "Maths");
    assert_eq!(DB_SEP, ";");
    let row = event(None, None).to_row("ing1");
    assert_eq!(row.end_date, "NULL");
    assert_eq!(row.subject, "NULL");
}

#[test]
fn rows_read_back() {
    for e in [event(Some(at(13, 10)), Some("Maths")), event(None, None)] {
        let row = e.to_row("g");
        assert_eq!(Event::from_sql_row(&row), Ok(e));
    }
}

#[test]
fn lists_skip_empty_pieces() {
    let mut row = event(None, None).to_row("g");
    row.teachers = ";A;;B;".to_string();
    row.classrooms = String::new();
    let e = Event::from_sql_row(&row).unwrap();
    assert_eq!(e.teachers, vec!["A".to_string(), "B".to_string()]);
    assert!(e.classrooms.is_empty());
}

#[test]
fn bad_dates_are_refused() {
    let mut row: EventRow = event(None, None).to_row("g");
    row.start_date = "yesterday".to_string();
    assert_eq!(Event::from_sql_row(&row), Err(DateError::Unparsable));
    let mut row: EventRow = event(None, None).to_row("g");
    row.end_date = "2024-13-01T00:00:00".to_string();
    assert_eq!(Event::from_sql_row(&row), Err(DateError::Unparsable));
}

#[test]
fn period_texts() {
    let (from, to) = stored_period(&(at(13, 0), at(19, 23)));
    assert_eq!(from, "2024-05-13T00:15:00");
    assert_eq!(to, "2024-05-19T23:15:00");
}

#[test]
fn rows_read_back_in_far_years() {
    for year in [-262143, -5, 0, 9999, 10000, 262142] {
        let mut e = event(None, Some("Physique"));
        e.celcat.start = DateTime { date: Date { year, month: 12, day: 31 }, hour: 23, minute: 59, second: 59, nano: 0 };
        e.celcat.end = Some(DateTime { date: Date { year, month: 1, day: 1 }, hour: 0, minute: 0, second: 0, nano: 0 });
        let row = e.to_row("g");
        assert_eq!(Event::from_sql_row(&row), Ok(e));
    }
}

#[test]
fn calendar_updates() {
    let period = (at(13, 0), at(19, 23));
    assert!(calendar_update("g", &vec![], &period).is_none());
    let calendar = vec![event(Some(at(13, 10)), Some("Maths")), event(None, None)];
    let update = calendar_update("g", &calendar, &period).unwrap();
    assert_eq!(update.from, "2024-05-13T00:15:00");
    assert_eq!(update.to, "2024-05-19T23:15:00");
    assert_eq!(update.rows.len(), 2);
    assert_eq!(update.rows[0], calendar[0].to_row("g"));
    assert_eq!(update.rows[1].end_date, "NULL");
}
