use class_launcher::schedule::{EventDefinition, Occurrence, RecurrenceTable, TimeOfDay, Weekday};
use class_launcher::trigger::{DayStamp, SchedulerContext, TriggerDecision};

fn event(name: &str, times: &[(Weekday, u8, u8)]) -> EventDefinition {
    EventDefinition {
        name: String::from(name),
        link: None,
        occurrences: times
            .iter()
            .map(|&(weekday, hour, minute)| Occurrence {
                weekday,
                time: TimeOfDay { hour, minute },
            })
            .collect(),
    }
}

fn monday(day_number: i64) -> DayStamp {
    DayStamp { day_number, weekday: Weekday::Mon }
}

const MIN_0954: u32 = 9 * 60 + 54;
const MIN_0950: u32 = 9 * 60 + 50;
const MIN_0956: u32 = 9 * 60 + 56;
const MIN_1001: u32 = 10 * 60 + 1;

#[test]
fn ready_within_lead_window_fires_once() {
    let table = RecurrenceTable { events: vec![event("Math", &[(Weekday::Mon, 10, 0)])] };
    let mut ctx = SchedulerContext::new();
    // 9:56 is inside the five-minute window before 10:00
    let req = ctx.poll_step(&table, monday(1), MIN_0956).unwrap();
    assert_eq!(req.name, "Math");
    assert_eq!(req.fire_at, 600);
    // the same poll a second later must not fire again
    assert!(ctx.poll_step(&table, monday(1), MIN_0956).is_none());
    assert!(ctx.poll_step(&table, monday(1), MIN_0956 + 1).is_none());
}

#[test]
fn waiting_outside_lead_window() {
    let table = RecurrenceTable { events: vec![event("Math", &[(Weekday::Mon, 10, 0)])] };
    let mut ctx = SchedulerContext::new();
    ctx.refresh_if_needed(&table, monday(1));
    // 9:50 is ten minutes ahead: still waiting
    assert_eq!(ctx.decide(MIN_0950), TriggerDecision::Waiting(0));
    // 9:54 is six minutes ahead: still more than the five-minute lead
    assert_eq!(ctx.decide(MIN_0954), TriggerDecision::Waiting(0));
    // 9:55 reaches the window
    assert_eq!(ctx.decide(9 * 60 + 55), TriggerDecision::ReadyToFire(0));
    assert!(ctx.poll_step(&table, monday(1), MIN_0950).is_none());
}

#[test]
fn all_fired_means_none_upcoming() {
    let table = RecurrenceTable { events: vec![event("Math", &[(Weekday::Mon, 10, 0)])] };
    let mut ctx = SchedulerContext::new();
    assert!(ctx.poll_step(&table, monday(1), MIN_0956).is_some());
    // 10:01: the only occurrence has started and is fired
    assert_eq!(ctx.decide(MIN_1001), TriggerDecision::NoneUpcoming);
    assert!(ctx.poll_step(&table, monday(1), MIN_1001).is_none());
}

#[test]
fn empty_agenda_means_none_upcoming() {
    // the only event is on Tuesday; today is Monday
    let table = RecurrenceTable { events: vec![event("Math", &[(Weekday::Tue, 10, 0)])] };
    let mut ctx = SchedulerContext::new();
    assert!(ctx.poll_step(&table, monday(1), MIN_0950).is_none());
    assert_eq!(ctx.agenda.len(), 0);
    assert_eq!(ctx.decide(MIN_0950), TriggerDecision::NoneUpcoming);
}

#[test]
fn tied_times_fire_in_definition_order() {
    let table = RecurrenceTable {
        events: vec![
            event("Math", &[(Weekday::Mon, 10, 0)]),
            event("Art", &[(Weekday::Mon, 10, 0)]),
        ],
    };
    let mut ctx = SchedulerContext::new();
    let first = ctx.poll_step(&table, monday(1), MIN_0956).unwrap();
    assert_eq!(first.name, "Math");
    // the second event has the same timestamp: selectable right away
    let second = ctx.poll_step(&table, monday(1), MIN_0956).unwrap();
    assert_eq!(second.name, "Art");
    assert!(ctx.poll_step(&table, monday(1), MIN_0956).is_none());
}

#[test]
fn agenda_sorted_with_stable_ties() {
    let table = RecurrenceTable {
        events: vec![
            event("Late", &[(Weekday::Mon, 14, 0)]),
            event("Tied-a", &[(Weekday::Mon, 10, 30)]),
            event("Early", &[(Weekday::Mon, 9, 0)]),
            event("Tied-b", &[(Weekday::Mon, 10, 30)]),
        ],
    };
    let mut ctx = SchedulerContext::new();
    ctx.refresh_if_needed(&table, monday(1));
    let times: Vec<u32> = ctx.agenda.iter().map(|o| o.fire_at).collect();
    assert_eq!(times, vec![540, 630, 630, 840]);
    let ids: Vec<usize> = ctx.agenda.iter().map(|o| o.event_id).collect();
    // the two 10:30 entries keep definition order: event 1 before event 3
    assert_eq!(ids, vec![2, 1, 3, 0]);
}

#[test]
fn absent_event_has_no_agenda_entry_and_no_state() {
    let table = RecurrenceTable {
        events: vec![
            event("Math", &[(Weekday::Mon, 10, 0)]),
            event("Tuesday-only", &[(Weekday::Tue, 9, 0)]),
        ],
    };
    let mut ctx = SchedulerContext::new();
    ctx.refresh_if_needed(&table, monday(1));
    assert!(ctx.agenda.iter().all(|o| o.event_id != 1));
    assert!(ctx.fired.iter().all(|e| e.event_id != 1));
    // the scheduled event does have a pending entry
    assert!(ctx.fired.iter().any(|e| e.event_id == 0 && !e.fired));
}

#[test]
fn fired_event_never_selected_again_today() {
    let table = RecurrenceTable { events: vec![event("Math", &[(Weekday::Mon, 10, 0)])] };
    let mut ctx = SchedulerContext::new();
    assert!(ctx.poll_step(&table, monday(1), MIN_0956).is_some());
    for now in [MIN_0956, 9 * 60 + 57, 599, 600, MIN_1001] {
        assert_eq!(ctx.decide(now), TriggerDecision::NoneUpcoming);
        assert!(ctx.poll_step(&table, monday(1), now).is_none());
    }
}

#[test]
fn day_rollover_resets_firing_state() {
    let table = RecurrenceTable { events: vec![event("Math", &[(Weekday::Mon, 10, 0)])] };
    let mut ctx = SchedulerContext::new();
    assert!(ctx.poll_step(&table, monday(1), MIN_0956).is_some());
    assert!(ctx.fired.iter().any(|e| e.fired));
    // a week later, same weekday: a new calendar day
    let reset = ctx.refresh_if_needed(&table, monday(8));
    assert!(reset);
    assert!(ctx.fired.iter().all(|e| !e.fired));
    assert_eq!(ctx.agenda.len(), 1);
    assert!(ctx.poll_step(&table, monday(8), MIN_0956).is_some());
}

#[test]
fn no_refresh_within_the_same_day() {
    let table = RecurrenceTable { events: vec![event("Math", &[(Weekday::Mon, 10, 0)])] };
    let mut ctx = SchedulerContext::new();
    assert!(ctx.refresh_if_needed(&table, monday(1)));
    assert!(!ctx.refresh_if_needed(&table, monday(1)));
}

#[test]
fn mark_fired_is_idempotent() {
    let table = RecurrenceTable { events: vec![event("Math", &[(Weekday::Mon, 10, 0)])] };
    let mut ctx = SchedulerContext::new();
    ctx.refresh_if_needed(&table, monday(1));
    ctx.mark_fired(0);
    let once = ctx.fired.clone();
    ctx.mark_fired(0);
    assert_eq!(ctx.fired, once);
    assert!(ctx.fired.iter().any(|e| e.event_id == 0 && e.fired));
}

#[test]
fn later_occurrence_selected_after_earlier_fires() {
    // one event at 10:00 and another at 10:20
    let table = RecurrenceTable {
        events: vec![
            event("Math", &[(Weekday::Mon, 10, 0)]),
            event("Art", &[(Weekday::Mon, 10, 20)]),
        ],
    };
    let mut ctx = SchedulerContext::new();
    let first = ctx.poll_step(&table, monday(1), MIN_0956).unwrap();
    assert_eq!(first.name, "Math");
    // at 9:56 the 10:20 event is outside its window
    assert_eq!(ctx.decide(MIN_0956), TriggerDecision::Waiting(1));
    // at 10:16 it becomes due
    let second = ctx.poll_step(&table, monday(1), 10 * 60 + 16).unwrap();
    assert_eq!(second.name, "Art");
    assert_eq!(second.fire_at, 620);
}
