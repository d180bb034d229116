use class_launcher::launch::{build_fallback_url, clock_string};
use class_launcher::schedule::{EventDefinition, Occurrence, RecurrenceTable, TimeOfDay, Weekday};
use class_launcher::trigger::{DayStamp, SchedulerContext};

#[test]
fn clock_text_pads_minutes_not_hours() {
    assert_eq!(clock_string(10 * 60), "10:00");
    assert_eq!(clock_string(9 * 60 + 5), "9:05");
    assert_eq!(clock_string(0), "0:00");
    assert_eq!(clock_string(23 * 60 + 59), "23:59");
    assert_eq!(clock_string(60 + 5), "1:05");
}

#[test]
fn fallback_url_embeds_encoded_name_and_time() {
    assert_eq!(
        build_fallback_url("Math", 10 * 60),
        "https://auto-class-launcher-alarm.vercel.app/?className=Math&timing=10:00"
    );
    // spaces and ampersands must be percent-encoded
    assert_eq!(
        build_fallback_url("Math & Fun", 9 * 60 + 5),
        "https://auto-class-launcher-alarm.vercel.app/?className=Math%20%26%20Fun&timing=9:05"
    );
}

#[test]
fn poll_uses_event_link_when_present() {
    let table = RecurrenceTable {
        events: vec![EventDefinition {
            name: String::from("Math"),
            link: Some(String::from("https://example.org/math-room")),
            occurrences: vec![Occurrence {
                weekday: Weekday::Mon,
                time: TimeOfDay { hour: 10, minute: 0 },
            }],
        }],
    };
    let mut ctx = SchedulerContext::new();
    let req = ctx
        .poll_step(&table, DayStamp { day_number: 1, weekday: Weekday::Mon }, 9 * 60 + 56)
        .unwrap();
    assert_eq!(req.url, "https://example.org/math-room");
}

#[test]
fn poll_builds_fallback_url_without_link() {
    let table = RecurrenceTable {
        events: vec![EventDefinition {
            name: String::from("Group Work"),
            link: None,
            occurrences: vec![Occurrence {
                weekday: Weekday::Mon,
                time: TimeOfDay { hour: 10, minute: 0 },
            }],
        }],
    };
    let mut ctx = SchedulerContext::new();
    let req = ctx
        .poll_step(&table, DayStamp { day_number: 1, weekday: Weekday::Mon }, 9 * 60 + 56)
        .unwrap();
    assert_eq!(
        req.url,
        "https://auto-class-launcher-alarm.vercel.app/?className=Group%20Work&timing=10:00"
    );
}
