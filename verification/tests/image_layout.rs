use cytt::celcat::{CelcatEvent, Event};
use cytt::date::{Date, DateTime};
use cytt::layout::{
    day_columns, day_title_position, event_tile, rgb_from_text, time_label_position, time_rows, title_position, Rgb,
    TileError,
};

#[test]
fn colors() {
    assert_eq!(rgb_from_text("#1a2B3c").unwrap(), Rgb { red: 26, green: 43, blue: 60 });
    assert_eq!(rgb_from_text("#ffffff").unwrap(), Rgb { red: 255, green: 255, blue: 255 });
    assert_eq!(rgb_from_text("#+f0000").unwrap(), Rgb { red: 15, green: 0, blue: 0 });
    assert!(rgb_from_text("#zz0000").is_err());
    assert!(rgb_from_text("#00-100").is_err());
    assert!(rgb_from_text("1234567g").is_err());
    assert!(rgb_from_text("zz").is_err());
}

#[test]
fn grid() {
    let columns = day_columns();
    let xs: Vec<i32> = columns.iter().map(|c| c.x).collect();
    assert_eq!(xs, vec![98, 462, 826, 1190, 1554]);
    assert_eq!(columns[2].name, "Mercredi");
    let rows = time_rows();
    assert_eq!(rows.len(), 19);
    assert_eq!(rows[0].label, "08h00");
    assert_eq!(rows[1].label, "08h30");
    assert_eq!(rows[18].label, "17h00");
    assert_eq!(rows[0].line_width, 1920);
    assert_eq!(rows[5].line_width, 98);
    assert_eq!(rows[18].y, 54 + 54 * 18);
    assert_eq!(title_position(40, 30), (29, 11));
    assert_eq!(title_position(-3, 0), (50, 26));
    assert_eq!(day_title_position(98, 60, 20), (250, 17));
    assert_eq!(time_label_position(108, 41), (29, 112));
}

fn at(hour: u32, minute: u32) -> DateTime {
    DateTime { date: Date { year: 2024, month: 5, day: 15 }, hour, minute, second: 0, nano: 0 }
}

fn event(start: DateTime, end: Option<DateTime>, text_color: &str) -> Event {
    Event {
        celcat: CelcatEvent {
            id: "1".to_string(),
            start,
            end,
            all_day: false,
            description: String::new(),
            background_color: "#00ff00".to_string(),
            text_color: text_color.to_string(),
            event_category: "TD".to_string(),
        },
        teachers: vec!["DUPONT JEAN".to_string(), "MARTIN PAUL".to_string()],
        classrooms: vec![],
        subject: Some("Analyse".to_string()),
    }
}

#[test]
fn event_tiles() {
    let tile = event_tile(&event(at(10, 0), Some(at(12, 0)), "#ff0000")).unwrap();
    assert_eq!((tile.x, tile.y, tile.width, tile.height), (830, 272, 358, 216));
    assert_eq!(tile.text_color, Rgb { red: 255, green: 0, blue: 0 });
    assert_eq!(tile.background, Rgb { red: 0, green: 255, blue: 0 });
    let lines: Vec<(usize, String, i32)> = tile.lines.into_iter().map(|l| (l.style, l.text, l.top)).collect();
    assert_eq!(
        lines,
        vec![
            (0, "10h00 - 12h00".to_string(), 276),
            (1, "TD - Analyse".to_string(), 296),
            (2, "DUPONT JEAN, MARTIN PAUL".to_string(), 322),
        ]
    );
    let short = event_tile(&event(at(8, 0), Some(at(8, 10)), "#ff0000")).unwrap();
    assert_eq!((short.y, short.height), (58, 18));
    assert!(short.lines.is_empty());
    let open = event_tile(&event(at(16, 0), None, "#ff0000")).unwrap();
    assert_eq!((open.y, open.height), (920, 156));
    assert_eq!(open.lines[0].text, "16h00 - ");
    assert!(matches!(event_tile(&event(at(10, 0), None, "#gg0000")), Err(TileError::Color(_))));
}
