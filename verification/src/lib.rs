//! A schedule-driven launcher core: a weekly recurrence table of named
//! events is projected onto the current day, and a trigger policy decides,
//! at each poll, whether the next upcoming event's one-shot action is due.
pub mod schedule;
pub mod agenda;
pub mod launch;
pub mod trigger;
