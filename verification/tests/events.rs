use cytt::celcat::{CelcatEvent, Event};
use cytt::date::{Date, DateTime};

fn at(hour: u32, minute: u32) -> DateTime {
    DateTime { date: Date { year: 2024, month: 5, day: 15 }, hour, minute, second: 0, nano: 0 }
}

fn celcat(description: &str, category: &str) -> CelcatEvent {
    CelcatEvent {
        id: "-123".to_string(),
        start: at(10, 0),
        end: Some(at(12, 0)),
        all_day: false,
        description: description.to_string(),
        background_color: "#ff0000".to_string(),
        text_color: "#000000".to_string(),
        event_category: category.to_string(),
    }
}

const SEP: &str = "\r\n\r\n<br />\r\n\r\n";

fn join(parts: &[&str]) -> String {
    parts.join(SEP)
}

#[test]
fn classrooms_teachers_and_subject_after_kind() {
    let description = format!("  {}  ", join(&["TD Analyse", "PAU A101 E202", "ING2 GSI", "DUPONT JEAN<br />MARTIN PAUL"]));
    let e = Event::from_celcat_event(&celcat(&description, "TD"));
    assert_eq!(e.classrooms, vec!["A101".to_string(), "E202".to_string()]);
    assert_eq!(e.teachers, vec!["DUPONT JEAN".to_string(), "MARTIN PAUL".to_string()]);
    assert_eq!(e.subject, Some("Analyse".to_string()));
    assert_eq!(e.celcat.description, join(&["TD Analyse", "PAU A101 E202", "ING2 GSI", "DUPONT JEAN<br />MARTIN PAUL"]));
    assert_eq!(e.celcat.start, at(10, 0));
    assert_eq!(e.celcat.id, "-123");
}

#[test]
fn subject_before_kind() {
    let description = join(&["Analyse TD", "PAU E310"]);
    let e = Event::from_celcat_event(&celcat(&description, "TD"));
    assert_eq!(e.subject, Some("Analyse".to_string()));
    assert_eq!(e.classrooms, vec!["E310".to_string()]);
    assert!(e.teachers.is_empty());
}

#[test]
fn third_part_subject_with_five_parts() {
    let description = join(&["Examen", "PAU A001", "Probabilites CM2", "ING1", "DURAND ANNE"]);
    let e = Event::from_celcat_event(&celcat(&description, "Examen"));
    assert_eq!(e.subject, Some("Probabilites".to_string()));
    assert_eq!(e.teachers, vec!["DURAND ANNE".to_string()]);
}

#[test]
fn unavailability_subject() {
    let description = join(&["Indispo", "Reunion pedagogique"]);
    let e = Event::from_celcat_event(&celcat(&description, "Indisponibilit\u{e9}"));
    assert_eq!(e.subject, Some("Reunion pedagogique".to_string()));
    let other = Event::from_celcat_event(&celcat(&description, "Autre"));
    assert_eq!(other.subject, None);
}

#[test]
fn html_entities_are_decoded() {
    let description = join(&["Maths &amp; Physique TD", "Vac_tempo_CYTECH"]);
    let e = Event::from_celcat_event(&celcat(&description, "TD"));
    assert_eq!(e.subject, Some("Maths & Physique".to_string()));
    assert_eq!(e.teachers, vec!["Vac_tempo_CYTECH".to_string()]);
}

#[test]
fn cut_before_first_character_is_refused() {
    let description = join(&["TDx TD"]);
    assert!(!Event::description_is_readable(&celcat(&description, "TD")));
    assert!(Event::try_from_celcat_event(&celcat(&description, "TD")).is_none());
    let fine = join(&["Maths TD"]);
    assert_eq!(Event::try_from_celcat_event(&celcat(&fine, "TD")).unwrap().subject, Some("Maths".to_string()));
}

#[test]
fn duplicate_keeps_values() {
    let description = join(&["TD Analyse", "PAU A101"]);
    let e = Event::from_celcat_event(&celcat(&description, "TD"));
    assert_eq!(e.duplicate(), e);
}
