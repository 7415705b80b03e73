use cytt::calendar::{category_files, fetch_in_range, events_in_category, events_in_no_category, fetch_period, file_name, student_id_for};
use cytt::celcat::{CelcatEvent, Event};
use cytt::config::{
    group_count, is_valid_group_name, parse_u64, parse_u8, version_from_changelog, Config, ConfigVars, Group, GroupError,
    GroupVars,
};
use cytt::date::{Date, DateTime};

fn vars(username: Option<&str>, password: Option<&str>, name: Option<&str>) -> GroupVars {
    let s = |v: Option<&str>| v.map(|x| x.to_string());
    GroupVars {
        username: s(username),
        password: s(password),
        name: s(name),
        display_name: None,
        student_id: Some("1234".to_string()),
        gcal_id: None,
        gcal_id_cm: None,
        gcal_id_td: None,
        gcal_id_examen: None,
        gcal_id_autre: None,
    }
}

#[test]
fn group_names() {
    assert!(is_valid_group_name("ING2-GSI_1"));
    assert!(is_valid_group_name(""));
    assert!(!is_valid_group_name("ing 2"));
    assert!(!is_valid_group_name("g\u{e9}"));
}

#[test]
fn groups_from_variables() {
    let g = Group::from_vars(&vars(Some("u"), Some("p"), Some("ing1"))).unwrap();
    assert_eq!(g.name, "ing1");
    assert_eq!(g.username, "u");
    assert_eq!(g.student_id, Some("1234".to_string()));
    assert_eq!(Group::from_vars(&vars(None, None, Some("ing1"))).unwrap_err(), GroupError::Username);
    assert_eq!(Group::from_vars(&vars(Some("u"), None, None)).unwrap_err(), GroupError::Password);
    assert_eq!(Group::from_vars(&vars(Some("u"), Some("p"), None)).unwrap_err(), GroupError::Name);
    assert_eq!(Group::from_vars(&vars(Some("u"), Some("p"), Some("a/b"))).unwrap_err(), GroupError::InvalidName);
    let mut no_id = vars(Some("u"), Some("p"), Some("ing1"));
    no_id.student_id = None;
    assert_eq!(Group::from_vars(&no_id).unwrap_err(), GroupError::StudentId);
    no_id.name = Some("a b".to_string());
    assert_eq!(Group::from_vars(&no_id).unwrap_err(), GroupError::InvalidName);
}

#[test]
fn group_without_student_id_is_skipped() {
    let mut g = vars(Some("u"), Some("p"), Some("g"));
    g.student_id = None;
    let loaded = Config::from_vars(&ConfigVars {
        groups: vec![g],
        host: None,
        port: None,
        data_path: None,
        public_path: None,
        calendar_fetch_interval: None,
        calendar_fetch_range: None,
    });
    assert!(loaded.config.groups.is_empty());
    assert_eq!(loaded.skipped, vec![(0, GroupError::StudentId)]);
}

#[test]
fn groups_counted_up_to_first_missing_name() {
    let mut set = vec![false; 256];
    assert_eq!(group_count(&set), 0);
    set[0] = true;
    set[1] = true;
    set[3] = true;
    assert_eq!(group_count(&set), 2);
    let mut all = vec![true; 256];
    assert_eq!(group_count(&all), 256);
    all[255] = false;
    assert_eq!(group_count(&all), 255);
}

#[test]
fn versions() {
    let changelog = "\n# 2.0.1\n\n### Fixed\n- something\n\n# 2.0.0\n";
    assert_eq!(version_from_changelog(changelog), "2.0.1");
    assert_eq!(version_from_changelog("#1.2.3"), "1.2.3");
    assert_eq!(version_from_changelog("## notes\n#  10.0.7 beta"), "10.0.7");
    assert_eq!(version_from_changelog("no heading 1.2.3"), "0.0.0");
    assert_eq!(version_from_changelog(""), "0.0.0");
}

#[test]
fn numbers() {
    assert_eq!(parse_u64("1800"), Some(1800));
    assert_eq!(parse_u64("+7"), Some(7));
    assert_eq!(parse_u64("18446744073709551615"), Some(u64::MAX));
    assert_eq!(parse_u64("18446744073709551616"), None);
    assert_eq!(parse_u64(""), None);
    assert_eq!(parse_u64("+"), None);
    assert_eq!(parse_u64("-1"), None);
    assert_eq!(parse_u64(" 1"), None);
    assert_eq!(parse_u8("255"), Some(255));
    assert_eq!(parse_u8("256"), None);
    assert_eq!(parse_u8("007"), Some(7));
}

#[test]
fn configuration_defaults_and_skips() {
    let loaded = Config::from_vars(&ConfigVars {
        groups: vec![
            vars(Some("u"), Some("p"), Some("ing1")),
            vars(Some("u"), None, Some("ing2")),
            vars(Some("u"), Some("p"), Some("bad name")),
            vars(Some("v"), Some("q"), Some("ing3")),
        ],
        host: None,
        port: Some("9000".to_string()),
        data_path: None,
        public_path: None,
        calendar_fetch_interval: Some("abc".to_string()),
        calendar_fetch_range: Some("300".to_string()),
    });
    let names: Vec<&str> = loaded.config.groups.iter().map(|g| g.name.as_str()).collect();
    assert_eq!(names, vec!["ing1", "ing3"]);
    assert_eq!(loaded.skipped, vec![(1, GroupError::Password), (2, GroupError::InvalidName)]);
    assert_eq!(loaded.config.host, "127.0.0.1");
    assert_eq!(loaded.config.port, "9000");
    assert_eq!(loaded.config.data_path, "./data");
    assert_eq!(loaded.config.public_path, "./public");
    assert_eq!(loaded.config.calendar_fetch_interval, 1800);
    assert_eq!(loaded.config.calendar_fetch_range, 10);
    let loaded = Config::from_vars(&ConfigVars {
        groups: vec![],
        host: Some("0.0.0.0".to_string()),
        port: None,
        data_path: Some("/d".to_string()),
        public_path: Some("/p".to_string()),
        calendar_fetch_interval: Some("60".to_string()),
        calendar_fetch_range: Some("2".to_string()),
    });
    assert_eq!(loaded.config.host, "0.0.0.0");
    assert_eq!(loaded.config.port, "8000");
    assert_eq!(loaded.config.calendar_fetch_interval, 60);
    assert_eq!(loaded.config.calendar_fetch_range, 2);
}

fn at(month: u32, day: u32, hour: u32) -> DateTime {
    DateTime { date: Date { year: 2024, month, day }, hour, minute: 0, second: 0, nano: 0 }
}

fn last_instant(month: u32, day: u32) -> DateTime {
    DateTime { date: Date { year: 2024, month, day }, hour: 23, minute: 59, second: 59, nano: 999_999_999 }
}

#[test]
fn fetch_ranges() {
    assert!(fetch_in_range(&at(5, 15, 10), 10));
    assert!(fetch_in_range(&at(5, 18, 10), 255));
    assert!(!fetch_in_range(&at(2, 30, 10), 1));
    let last = DateTime { date: Date { year: 262142, month: 12, day: 20 }, hour: 0, minute: 0, second: 0, nano: 0 };
    assert!(fetch_in_range(&last, 0));
    assert!(!fetch_in_range(&last, 2));
    let first = DateTime { date: Date { year: -262143, month: 1, day: 1 }, hour: 0, minute: 0, second: 0, nano: 0 };
    assert!(!fetch_in_range(&first, 0));
}

#[test]
fn fetched_weeks() {
    let p = fetch_period(&at(5, 15, 10), 0);
    assert_eq!(p.reference, at(5, 15, 10));
    assert_eq!(p.start, at(5, 13, 0));
    assert_eq!(p.end, last_instant(5, 19));
    let p = fetch_period(&at(5, 18, 10), 1);
    assert_eq!(p.reference, at(5, 20, 10));
    assert_eq!(p.start, at(5, 20, 0));
    assert_eq!(p.end, last_instant(6, 2));
    let p = fetch_period(&at(5, 19, 23), 10);
    assert_eq!(p.start, at(5, 20, 0));
    assert_eq!(p.end, last_instant(8, 4));
}

#[test]
fn student_ids() {
    let mut g = Group::from_vars(&vars(Some("u"), Some("p"), Some("ing1"))).unwrap();
    assert_eq!(student_id_for(&g, &Some("99".to_string())), Some("1234".to_string()));
    g.student_id = None;
    assert_eq!(student_id_for(&g, &Some("99".to_string())), Some("99".to_string()));
    assert_eq!(student_id_for(&g, &None), None);
}

fn event(category: &str) -> Event {
    Event {
        celcat: CelcatEvent {
            id: category.to_string(),
            start: at(5, 15, 10),
            end: None,
            all_day: false,
            description: String::new(),
            background_color: String::new(),
            text_color: String::new(),
            event_category: category.to_string(),
        },
        teachers: vec![],
        classrooms: vec![],
        subject: None,
    }
}

#[test]
fn categories() {
    let calendar: Vec<Event> = ["CM", "TD Maths", "Examen final", "Reunion", "CMX", "td"].iter().map(|c| event(c)).collect();
    let ids = |v: Vec<Event>| v.into_iter().map(|e| e.celcat.id).collect::<Vec<_>>();
    assert_eq!(ids(events_in_category(&calendar, "CM")), vec!["CM", "CMX"]);
    assert_eq!(ids(events_in_category(&calendar, "TD")), vec!["TD Maths"]);
    assert_eq!(ids(events_in_category(&calendar, "Examen")), vec!["Examen final"]);
    assert_eq!(ids(events_in_no_category(&calendar)), vec!["Reunion", "td"]);
    let files = category_files();
    let pairs: Vec<(String, String)> = files.into_iter().map(|f| (f.category, f.stem)).collect();
    assert_eq!(pairs, vec![("CM".into(), "cm".into()), ("TD".into(), "td".into()), ("Examen".into(), "examen".into())]);
    assert_eq!(file_name("ing1", "ics"), "ing1.ics");
}

#[test]
fn log_texts() {
    let mut g = Group::from_vars(&vars(Some("u"), Some("p"), Some("ing1"))).unwrap();
    g.gcal_id = Some("a\"b".to_string());
    let expected_group = "Group(\n      username: u\n      password: p\n      name: ing1\n      display_name: \"ing1\"\n      student_id: Some(\"1234\")\n      gcal_id: Some(\"a\\\"b\")\n      gcal_id_cm: None\n      gcal_id_td: None\n      gcal_id_examen: None\n      gcal_id_autre: None\n    )";
    assert_eq!(g.to_string(), expected_group);
    let loaded = Config::from_vars(&ConfigVars {
        groups: vec![vars(Some("u"), Some("p"), Some("ing1"))],
        host: None,
        port: None,
        data_path: None,
        public_path: None,
        calendar_fetch_interval: None,
        calendar_fetch_range: None,
    });
    let group_text = loaded.config.groups[0].to_string();
    let expected = format!(
        "Config(\n  groups: [\n    {group_text},\n  ],\n  host: 127.0.0.1,\n  port: 8000,\n  data_path: ./data,\n  public_path: ./public,\n  calendar_fetch_interval: 1800,\n  calendar_fetch_range: 10,\n)\n"
    );
    assert_eq!(loaded.config.to_string(), expected);
}
