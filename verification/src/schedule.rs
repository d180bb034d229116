//! The weekly recurrence table: named events, each with a list of
//! (weekday, time-of-day) occurrences and an optional resource link.
use vstd::prelude::*;

verus! {

/// A day of the week.
#[derive(Clone, Copy, PartialEq, Eq, Structural, Debug)]
pub enum Weekday {
    Mon,
    Tue,
    Wed,
    Thu,
    Fri,
    Sat,
    Sun,
}

/// A time of day with minute precision (seconds are always zero).
#[derive(Clone, Copy, PartialEq, Eq, Structural, Debug)]
pub struct TimeOfDay {
    pub hour: u8,
    pub minute: u8,
}

impl TimeOfDay {
    /// A valid wall-clock time: hour below 24, minute below 60.
    pub open spec fn wf(self) -> bool {
        self.hour < 24 && self.minute < 60
    }

    /// The time as minutes since midnight.
    pub open spec fn spec_minutes(self) -> int {
        self.hour * 60 + self.minute
    }

    /// Minutes since midnight, as a machine integer.
    pub fn minutes_of_day(self) -> (r: u32)
        ensures
            r == self.spec_minutes(),
    {
        (self.hour as u32) * 60 + (self.minute as u32)
    }
}

/// One weekly recurrence instant of an event.
#[derive(Clone, Copy, PartialEq, Eq, Structural, Debug)]
pub struct Occurrence {
    pub weekday: Weekday,
    pub time: TimeOfDay,
}

/// A raw (day, time) pair as it appears in a loaded timetable,
/// before validation.
pub struct ClassTime {
    pub day: String,
    pub time: String,
}

/// A raw event value as it appears in a loaded timetable: an optional
/// resource link and the list of raw (day, time) pairs.
pub struct Class {
    pub link: Option<String>,
    pub times: Vec<ClassTime>,
}

/// A validated event of the recurrence table.
pub struct EventDefinition {
    pub name: String,
    pub link: Option<String>,
    pub occurrences: Vec<Occurrence>,
}

impl EventDefinition {
    /// Every occurrence carries a valid wall-clock time.
    pub open spec fn wf(self) -> bool {
        forall|j: int|
            0 <= j < self.occurrences@.len() ==> (#[trigger] self.occurrences@[j]).time.wf()
    }
}

/// Why a raw timetable entry was rejected.
#[derive(Clone, Copy, PartialEq, Eq, Structural, Debug)]
pub enum ConfigError {
    /// The day field is not one of "mon".."sun".
    BadDay,
    /// The time field is not a valid "HH:MM" 24-hour time.
    BadTime,
}

/// The three-letter lower-case code that names a weekday in a timetable.
pub open spec fn day_code(w: Weekday) -> Seq<char> {
    match w {
        Weekday::Mon => seq!['m', 'o', 'n'],
        Weekday::Tue => seq!['t', 'u', 'e'],
        Weekday::Wed => seq!['w', 'e', 'd'],
        Weekday::Thu => seq!['t', 'h', 'u'],
        Weekday::Fri => seq!['f', 'r', 'i'],
        Weekday::Sat => seq!['s', 'a', 't'],
        Weekday::Sun => seq!['s', 'u', 'n'],
    }
}

/// Whether `s` is one of the seven weekday codes.
pub open spec fn is_day_code(s: Seq<char>) -> bool {
    exists|w: Weekday| s == day_code(w)
}

/// Parses a three-letter weekday code; returns the weekday exactly when
/// `s` is one of "mon", "tue", "wed", "thu", "fri", "sat", "sun".
pub fn parse_weekday(s: &str) -> (r: Option<Weekday>)
    ensures
        r matches Some(w) ==> s@ == day_code(w),
        r is None ==> forall|w: Weekday| s@ != day_code(w),
        r is Some <==> is_day_code(s@),
{
    if s.unicode_len() != 3 {
        proof {
            assert forall|w: Weekday| s@ != day_code(w) by {
                match w {
                    Weekday::Mon => assert(day_code(w) =~= seq!['m', 'o', 'n']),
                    Weekday::Tue => assert(day_code(w) =~= seq!['t', 'u', 'e']),
                    Weekday::Wed => assert(day_code(w) =~= seq!['w', 'e', 'd']),
                    Weekday::Thu => assert(day_code(w) =~= seq!['t', 'h', 'u']),
                    Weekday::Fri => assert(day_code(w) =~= seq!['f', 'r', 'i']),
                    Weekday::Sat => assert(day_code(w) =~= seq!['s', 'a', 't']),
                    Weekday::Sun => assert(day_code(w) =~= seq!['s', 'u', 'n']),
                }
            }
        }
        return None;
    }
    let c0 = s.get_char(0);
    let c1 = s.get_char(1);
    let c2 = s.get_char(2);
    if c0 == 'm' && c1 == 'o' && c2 == 'n' {
        proof {
            assert(s@ =~= day_code(Weekday::Mon));
        }
        return Some(Weekday::Mon);
    }
    if c0 == 't' && c1 == 'u' && c2 == 'e' {
        proof {
            assert(s@ =~= day_code(Weekday::Tue));
        }
        return Some(Weekday::Tue);
    }
    if c0 == 'w' && c1 == 'e' && c2 == 'd' {
        proof {
            assert(s@ =~= day_code(Weekday::Wed));
        }
        return Some(Weekday::Wed);
    }
    if c0 == 't' && c1 == 'h' && c2 == 'u' {
        proof {
            assert(s@ =~= day_code(Weekday::Thu));
        }
        return Some(Weekday::Thu);
    }
    if c0 == 'f' && c1 == 'r' && c2 == 'i' {
        proof {
            assert(s@ =~= day_code(Weekday::Fri));
        }
        return Some(Weekday::Fri);
    }
    if c0 == 's' && c1 == 'a' && c2 == 't' {
        proof {
            assert(s@ =~= day_code(Weekday::Sat));
        }
        return Some(Weekday::Sat);
    }
    if c0 == 's' && c1 == 'u' && c2 == 'n' {
        proof {
            assert(s@ =~= day_code(Weekday::Sun));
        }
        return Some(Weekday::Sun);
    }
    proof {
        assert forall|w: Weekday| s@ != day_code(w) by {
            match w {
                Weekday::Mon => assert(day_code(w) =~= seq!['m', 'o', 'n']),
                Weekday::Tue => assert(day_code(w) =~= seq!['t', 'u', 'e']),
                Weekday::Wed => assert(day_code(w) =~= seq!['w', 'e', 'd']),
                Weekday::Thu => assert(day_code(w) =~= seq!['t', 'h', 'u']),
                Weekday::Fri => assert(day_code(w) =~= seq!['f', 'r', 'i']),
                Weekday::Sat => assert(day_code(w) =~= seq!['s', 'a', 't']),
                Weekday::Sun => assert(day_code(w) =~= seq!['s', 'u', 'n']),
            }
        }
    }
    None
}

/// Whether `c` is an ASCII decimal digit.
pub open spec fn is_digit(c: char) -> bool {
    '0' <= c && c <= '9'
}

/// The numeric value of an ASCII decimal digit.
pub open spec fn digit_val(c: char) -> int {
    c as int - '0' as int
}

/// Whether `s` is a well-formed "HH:MM" 24-hour time: exactly five
/// characters, two digit pairs around a colon, hour below 24, minute
/// below 60.
pub open spec fn is_hh_mm(s: Seq<char>) -> bool {
    &&& s.len() == 5
    &&& is_digit(s[0])
    &&& is_digit(s[1])
    &&& s[2] == ':'
    &&& is_digit(s[3])
    &&& is_digit(s[4])
    &&& 10 * digit_val(s[0]) + digit_val(s[1]) < 24
    &&& 10 * digit_val(s[3]) + digit_val(s[4]) < 60
}

/// The time denoted by a well-formed "HH:MM" string.
pub open spec fn hh_mm_time(s: Seq<char>) -> TimeOfDay {
    TimeOfDay {
        hour: (10 * digit_val(s[0]) + digit_val(s[1])) as u8,
        minute: (10 * digit_val(s[3]) + digit_val(s[4])) as u8,
    }
}

/// Parses an "HH:MM" 24-hour time; returns the time exactly when the
/// string is well-formed.
pub fn parse_hh_mm(s: &str) -> (r: Option<TimeOfDay>)
    ensures
        r is Some <==> is_hh_mm(s@),
        r matches Some(t) ==> t == hh_mm_time(s@) && t.wf(),
{
    if s.unicode_len() != 5 {
        return None;
    }
    let c0 = s.get_char(0);
    let c1 = s.get_char(1);
    let c2 = s.get_char(2);
    let c3 = s.get_char(3);
    let c4 = s.get_char(4);
    if c2 != ':' {
        return None;
    }
    if !(c0 >= '0' && c0 <= '9' && c1 >= '0' && c1 <= '9' && c3 >= '0' && c3 <= '9' && c4 >= '0'
        && c4 <= '9') {
        return None;
    }
    let hour: u32 = 10 * (c0 as u32 - '0' as u32) + (c1 as u32 - '0' as u32);
    let minute: u32 = 10 * (c3 as u32 - '0' as u32) + (c4 as u32 - '0' as u32);
    if hour >= 24 || minute >= 60 {
        return None;
    }
    Some(TimeOfDay { hour: hour as u8, minute: minute as u8 })
}

/// Whether occurrence `o` is exactly what the raw pair `t` denotes.
pub open spec fn occ_matches_class_time(o: Occurrence, t: ClassTime) -> bool {
    t.day@ == day_code(o.weekday) && is_hh_mm(t.time@) && o.time == hh_mm_time(t.time@)
}

/// Whether a raw (day, time) pair is valid.
pub open spec fn class_time_ok(t: ClassTime) -> bool {
    is_day_code(t.day@) && is_hh_mm(t.time@)
}

/// The error a raw pair draws: a bad day is reported before a bad time.
pub open spec fn class_time_error(t: ClassTime) -> ConfigError {
    if !is_day_code(t.day@) {
        ConfigError::BadDay
    } else {
        ConfigError::BadTime
    }
}

/// Validates one raw (day, time) pair. Returns an occurrence exactly
/// when the day is a weekday code and the time a well-formed "HH:MM";
/// a bad day is reported before a bad time.
pub fn parse_occurrence(t: &ClassTime) -> (r: Result<Occurrence, ConfigError>)
    ensures
        r is Ok <==> class_time_ok(*t),
        r matches Ok(o) ==> occ_matches_class_time(o, *t) && o.time.wf(),
        r == Err::<Occurrence, ConfigError>(ConfigError::BadDay) <==> !is_day_code(t.day@),
        r == Err::<Occurrence, ConfigError>(ConfigError::BadTime) <==> is_day_code(t.day@)
            && !is_hh_mm(t.time@),
{
    let w = match parse_weekday(t.day.as_str()) {
        Some(w) => w,
        None => {
            return Err(ConfigError::BadDay);
        },
    };
    let tod = match parse_hh_mm(t.time.as_str()) {
        Some(tod) => tod,
        None => {
            return Err(ConfigError::BadTime);
        },
    };
    Ok(Occurrence { weekday: w, time: tod })
}

/// Validates a whole raw event. Succeeds exactly when every (day, time)
/// pair is valid; on failure reports the error of the first invalid pair.
pub fn parse_event(name: String, class: Class) -> (r: Result<EventDefinition, ConfigError>)
    ensures
        r is Ok <==> (forall|k: int|
            0 <= k < class.times@.len() ==> class_time_ok(#[trigger] class.times@[k])),
        r matches Ok(e) ==> {
            &&& e.name == name
            &&& e.link == class.link
            &&& e.occurrences@.len() == class.times@.len()
            &&& forall|k: int|
                0 <= k < class.times@.len() ==> occ_matches_class_time(
                    #[trigger] e.occurrences@[k],
                    class.times@[k],
                )
            &&& e.wf()
        },
        r matches Err(err) ==> exists|k: int|
            {
                &&& 0 <= k < class.times@.len()
                &&& !class_time_ok(#[trigger] class.times@[k])
                &&& err == class_time_error(class.times@[k])
                &&& forall|j: int| 0 <= j < k ==> class_time_ok(#[trigger] class.times@[j])
            },
{
    let mut occurrences: Vec<Occurrence> = Vec::new();
    let n = class.times.len();
    for i in 0..n
        invariant
            n == class.times@.len(),
            occurrences@.len() == i,
            forall|k: int| 0 <= k < i ==> class_time_ok(#[trigger] class.times@[k]),
            forall|k: int|
                0 <= k < i ==> occ_matches_class_time(
                    #[trigger] occurrences@[k],
                    class.times@[k],
                ),
            forall|k: int| 0 <= k < i ==> (#[trigger] occurrences@[k]).time.wf(),
    {
        match parse_occurrence(&class.times[i]) {
            Ok(o) => {
                occurrences.push(o);
            },
            Err(err) => {
                return Err(err);
            },
        }
    }
    Ok(EventDefinition { name, link: class.link, occurrences })
}

/// The occurrences of the built-in default timetable's first event:
/// mornings twice a week.
pub open spec fn default_math_occurrences() -> Seq<Occurrence> {
    seq![
        Occurrence { weekday: Weekday::Mon, time: TimeOfDay { hour: 10, minute: 0 } },
        Occurrence { weekday: Weekday::Wed, time: TimeOfDay { hour: 10, minute: 0 } },
    ]
}

/// The occurrences of the built-in default timetable's second event.
pub open spec fn default_physics_occurrences() -> Seq<Occurrence> {
    seq![Occurrence { weekday: Weekday::Tue, time: TimeOfDay { hour: 11, minute: 30 } }]
}

/// The occurrences of the built-in default timetable's third event.
pub open spec fn default_chemistry_occurrences() -> Seq<Occurrence> {
    seq![Occurrence { weekday: Weekday::Fri, time: TimeOfDay { hour: 14, minute: 15 } }]
}

/// The built-in default timetable, used when no timetable has been
/// saved yet: three classes, one with a link of its own.
pub fn default_schedule() -> (r: RecurrenceTable)
    ensures
        r.wf(),
        r.events@.len() == 3,
        r.events@[0].name@ == "Math"@,
        r.events@[0].link is None,
        r.events@[0].occurrences@ == default_math_occurrences(),
        r.events@[1].name@ == "Physics"@,
        r.events@[1].link matches Some(link) && link@ == "https://example.org/physics"@,
        r.events@[1].occurrences@ == default_physics_occurrences(),
        r.events@[2].name@ == "Chemistry"@,
        r.events@[2].link is None,
        r.events@[2].occurrences@ == default_chemistry_occurrences(),
{
    proof {
        reveal_strlit("Math");
        reveal_strlit("Physics");
        reveal_strlit("Chemistry");
    }
    let mut math_times: Vec<Occurrence> = Vec::new();
    math_times.push(Occurrence { weekday: Weekday::Mon, time: TimeOfDay { hour: 10, minute: 0 } });
    math_times.push(Occurrence { weekday: Weekday::Wed, time: TimeOfDay { hour: 10, minute: 0 } });
    let mut physics_times: Vec<Occurrence> = Vec::new();
    physics_times.push(
        Occurrence { weekday: Weekday::Tue, time: TimeOfDay { hour: 11, minute: 30 } },
    );
    let mut chemistry_times: Vec<Occurrence> = Vec::new();
    chemistry_times.push(
        Occurrence { weekday: Weekday::Fri, time: TimeOfDay { hour: 14, minute: 15 } },
    );
    let mut events: Vec<EventDefinition> = Vec::new();
    events.push(
        EventDefinition {
            name: String::from_str("Math"),
            link: None,
            occurrences: math_times,
        },
    );
    events.push(
        EventDefinition {
            name: String::from_str("Physics"),
            link: Some(String::from_str("https://example.org/physics")),
            occurrences: physics_times,
        },
    );
    events.push(
        EventDefinition {
            name: String::from_str("Chemistry"),
            link: None,
            occurrences: chemistry_times,
        },
    );
    let r = RecurrenceTable { events };
    proof {
        assert(r.events@[0].occurrences@ =~= default_math_occurrences());
        assert(r.events@[1].occurrences@ =~= default_physics_occurrences());
        assert(r.events@[2].occurrences@ =~= default_chemistry_occurrences());
        assert(r.names_unique()) by {
            assert(r.events@[0].name@.len() == 4);
            assert(r.events@[1].name@.len() == 7);
            assert(r.events@[2].name@.len() == 9);
        }
        assert forall|i: int| 0 <= i < r.events@.len() implies (#[trigger] r.events@[i]).wf() by {
            if i == 0 {
                assert(r.events@[0].occurrences@[0].time.wf());
                assert(r.events@[0].occurrences@[1].time.wf());
            } else if i == 1 {
                assert(r.events@[1].occurrences@[0].time.wf());
            } else {
                assert(r.events@[2].occurrences@[0].time.wf());
            }
        }
    }
    r
}

/// The recurrence table: the events in definition order.
pub struct RecurrenceTable {
    pub events: Vec<EventDefinition>,
}

impl RecurrenceTable {
    /// Event names are pairwise distinct.
    pub open spec fn names_unique(self) -> bool {
        forall|i: int, j: int|
            0 <= i < j < self.events@.len() ==> (#[trigger] self.events@[i]).name@
                != (#[trigger] self.events@[j]).name@
    }

    /// Every event is well-formed and names are unique.
    pub open spec fn wf(self) -> bool {
        &&& self.names_unique()
        &&& forall|i: int| 0 <= i < self.events@.len() ==> (#[trigger] self.events@[i]).wf()
    }

    /// An empty table.
    pub fn new() -> (r: RecurrenceTable)
        ensures
            r.events@.len() == 0,
            r.wf(),
    {
        RecurrenceTable { events: Vec::new() }
    }

    /// Adds an event; if one of the same name is already present, the new
    /// definition replaces it (last write wins) and moves to the end of
    /// the definition order.
    pub fn insert_event(&mut self, e: EventDefinition)
        requires
            old(self).wf(),
            e.wf(),
        ensures
            final(self).wf(),
            ({
                let olds = old(self).events@;
                if exists|i: int| 0 <= i < olds.len() && (#[trigger] olds[i]).name@ == e.name@ {
                    let i = choose|i: int|
                        0 <= i < olds.len() && (#[trigger] olds[i]).name@ == e.name@;
                    final(self).events@ =~= olds.remove(i).push(e)
                } else {
                    final(self).events@ =~= olds.push(e)
                }
            }),
    {
        let ghost olds = self.events@;
        let n = self.events.len();
        let mut found: Option<usize> = None;
        for i in 0..n
            invariant
                n == self.events@.len(),
                self.events@ == olds,
                match found {
                    Some(fi) => fi < i && olds[fi as int].name@ == e.name@,
                    None => forall|k: int| 0 <= k < i ==> (#[trigger] olds[k]).name@ != e.name@,
                },
        {
            if found.is_none() && self.events[i].name == e.name {
                found = Some(i);
            }
        }
        match found {
            Some(i) => {
                proof {
                    let wi = choose|k: int|
                        0 <= k < olds.len() && (#[trigger] olds[k]).name@ == e.name@;
                    assert(wi == i) by {
                        if wi < i {
                            assert(olds[wi].name@ == olds[i as int].name@);
                        } else if wi > i {
                            assert(olds[i as int].name@ == olds[wi].name@);
                        }
                    }
                }
                self.events.remove(i);
                self.events.push(e);
                proof {
                    assert forall|a: int, b: int|
                        0 <= a < b < self.events@.len() implies (#[trigger] self.events@[a]).name@
                        != (#[trigger] self.events@[b]).name@ by {
                        if b < self.events@.len() - 1 {
                            let oa = if a < i { a } else { a + 1 };
                            let ob = if b < i { b } else { b + 1 };
                            assert(olds[oa].name@ != olds[ob].name@);
                        } else {
                            let oa = if a < i { a } else { a + 1 };
                            assert(olds[oa].name@ != olds[i as int].name@ || oa == i);
                        }
                    }
                }
            },
            None => {
                self.events.push(e);
                proof {
                    assert forall|a: int, b: int|
                        0 <= a < b < self.events@.len() implies (#[trigger] self.events@[a]).name@
                        != (#[trigger] self.events@[b]).name@ by {
                        if b == self.events@.len() - 1 {
                            assert(olds[a].name@ != e.name@);
                        }
                    }
                }
            },
        }
    }
}

} // verus!
