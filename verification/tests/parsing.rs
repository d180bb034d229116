use class_launcher::schedule::{
    default_schedule, parse_event, parse_hh_mm, parse_occurrence, parse_weekday, Class, ClassTime,
    ConfigError, EventDefinition, Occurrence, RecurrenceTable, TimeOfDay, Weekday,
};

#[test]
fn hh_mm_accepts_valid_times() {
    assert_eq!(parse_hh_mm("09:30"), Some(TimeOfDay { hour: 9, minute: 30 }));
    assert_eq!(parse_hh_mm("00:00"), Some(TimeOfDay { hour: 0, minute: 0 }));
    assert_eq!(parse_hh_mm("23:59"), Some(TimeOfDay { hour: 23, minute: 59 }));
    assert_eq!(parse_hh_mm("10:05"), Some(TimeOfDay { hour: 10, minute: 5 }));
}

#[test]
fn hh_mm_rejects_malformed_times() {
    assert_eq!(parse_hh_mm("9:30"), None);
    assert_eq!(parse_hh_mm("24:00"), None);
    assert_eq!(parse_hh_mm("00:60"), None);
    assert_eq!(parse_hh_mm("ab:cd"), None);
    assert_eq!(parse_hh_mm("0930"), None);
    assert_eq!(parse_hh_mm("09-30"), None);
    assert_eq!(parse_hh_mm(""), None);
    assert_eq!(parse_hh_mm("09:300"), None);
}

#[test]
fn weekday_codes_parse() {
    assert_eq!(parse_weekday("mon"), Some(Weekday::Mon));
    assert_eq!(parse_weekday("tue"), Some(Weekday::Tue));
    assert_eq!(parse_weekday("wed"), Some(Weekday::Wed));
    assert_eq!(parse_weekday("thu"), Some(Weekday::Thu));
    assert_eq!(parse_weekday("fri"), Some(Weekday::Fri));
    assert_eq!(parse_weekday("sat"), Some(Weekday::Sat));
    assert_eq!(parse_weekday("sun"), Some(Weekday::Sun));
}

#[test]
fn weekday_rejects_other_text() {
    assert_eq!(parse_weekday("Mon"), None);
    assert_eq!(parse_weekday("monday"), None);
    assert_eq!(parse_weekday(""), None);
    assert_eq!(parse_weekday("mo"), None);
    assert_eq!(parse_weekday("xyz"), None);
}

#[test]
fn occurrence_reports_bad_day_before_bad_time() {
    let bad_both = ClassTime { day: String::from("xxx"), time: String::from("xx") };
    assert_eq!(parse_occurrence(&bad_both), Err(ConfigError::BadDay));
    let bad_time = ClassTime { day: String::from("mon"), time: String::from("xx") };
    assert_eq!(parse_occurrence(&bad_time), Err(ConfigError::BadTime));
    let ok = ClassTime { day: String::from("mon"), time: String::from("10:00") };
    assert_eq!(
        parse_occurrence(&ok),
        Ok(Occurrence { weekday: Weekday::Mon, time: TimeOfDay { hour: 10, minute: 0 } })
    );
}

#[test]
fn event_parses_all_valid_pairs() {
    let class = Class {
        link: Some(String::from("https://example.org/a")),
        times: vec![
            ClassTime { day: String::from("mon"), time: String::from("10:00") },
            ClassTime { day: String::from("fri"), time: String::from("14:15") },
        ],
    };
    let e = parse_event(String::from("Algebra"), class).unwrap();
    assert_eq!(e.name, "Algebra");
    assert_eq!(e.link.as_deref(), Some("https://example.org/a"));
    assert_eq!(
        e.occurrences,
        vec![
            Occurrence { weekday: Weekday::Mon, time: TimeOfDay { hour: 10, minute: 0 } },
            Occurrence { weekday: Weekday::Fri, time: TimeOfDay { hour: 14, minute: 15 } },
        ]
    );
}

#[test]
fn event_reports_first_invalid_pair() {
    let class = Class {
        link: None,
        times: vec![
            ClassTime { day: String::from("mon"), time: String::from("10:00") },
            ClassTime { day: String::from("xxx"), time: String::from("10:00") },
            ClassTime { day: String::from("mon"), time: String::from("99:99") },
        ],
    };
    assert_eq!(parse_event(String::from("Algebra"), class).err(), Some(ConfigError::BadDay));
}

#[test]
fn insert_event_last_write_wins() {
    let mut table = RecurrenceTable::new();
    table.insert_event(EventDefinition {
        name: String::from("A"),
        link: None,
        occurrences: vec![Occurrence {
            weekday: Weekday::Mon,
            time: TimeOfDay { hour: 10, minute: 0 },
        }],
    });
    table.insert_event(EventDefinition {
        name: String::from("B"),
        link: None,
        occurrences: vec![],
    });
    table.insert_event(EventDefinition {
        name: String::from("A"),
        link: Some(String::from("https://example.org/a2")),
        occurrences: vec![Occurrence {
            weekday: Weekday::Tue,
            time: TimeOfDay { hour: 11, minute: 0 },
        }],
    });
    assert_eq!(table.events.len(), 2);
    assert_eq!(table.events[0].name, "B");
    assert_eq!(table.events[1].name, "A");
    assert_eq!(table.events[1].link.as_deref(), Some("https://example.org/a2"));
    assert_eq!(table.events[1].occurrences[0].weekday, Weekday::Tue);
}

#[test]
fn default_schedule_shape() {
    let table = default_schedule();
    assert_eq!(table.events.len(), 3);
    assert_eq!(table.events[0].name, "Math");
    assert_eq!(table.events[0].link, None);
    assert_eq!(table.events[0].occurrences.len(), 2);
    assert_eq!(table.events[1].name, "Physics");
    assert_eq!(table.events[1].link.as_deref(), Some("https://example.org/physics"));
    assert_eq!(table.events[2].name, "Chemistry");
    assert_eq!(
        table.events[2].occurrences,
        vec![Occurrence { weekday: Weekday::Fri, time: TimeOfDay { hour: 14, minute: 15 } }]
    );
}
