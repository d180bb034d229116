//! The trigger selector and the per-day firing state machine: at each
//! poll, pick the earliest unfired upcoming occurrence and decide
//! whether its one-shot action is due.
use vstd::prelude::*;
use crate::agenda::{
    agenda_has, agenda_sorted, build_agenda, build_firing_state, fresh_state, has_entry,
    stable_sort, todays_pairs, FiringEntry, TodayOccurrence,
};
use crate::launch::{build_fallback_url, fallback_url_chars};
use crate::schedule::{RecurrenceTable, Weekday};

verus! {

/// Minutes before an occurrence's start at which its action becomes due.
pub const LEAD_TIME_MINUTES: u32 = 5;

/// What a poll decides: either nothing is left today, or the next
/// occurrence (an index into the agenda) is still outside its lead-time
/// window, or it is due now.
#[derive(Clone, Copy, PartialEq, Eq, Structural, Debug)]
pub enum TriggerDecision {
    /// No unfired occurrence lies ahead of the current time: done for
    /// the day.
    NoneUpcoming,
    /// The agenda entry at this index is next, but its window has not
    /// opened yet.
    Waiting(usize),
    /// The agenda entry at this index is next and its action is due.
    ReadyToFire(usize),
}

/// Whether the firing state records event `id` as already fired today.
pub open spec fn spec_fired(state: Seq<FiringEntry>, id: usize) -> bool {
    exists|k: int| 0 <= k < state.len() && (#[trigger] state[k]).event_id == id && state[k].fired
}

/// Whether the agenda entry at `i` is a candidate at time `now`: still
/// ahead of `now` and not yet fired.
pub open spec fn is_candidate(
    agenda: Seq<TodayOccurrence>,
    state: Seq<FiringEntry>,
    now: u32,
    i: int,
) -> bool {
    agenda[i].fire_at > now && !spec_fired(state, agenda[i].event_id)
}

/// The least candidate index at or after `i`, if any.
pub open spec fn first_candidate(
    agenda: Seq<TodayOccurrence>,
    state: Seq<FiringEntry>,
    now: u32,
    i: int,
) -> Option<int>
    decreases agenda.len() - i,
{
    if i < 0 || i >= agenda.len() {
        None
    } else if is_candidate(agenda, state, now, i) {
        Some(i)
    } else {
        first_candidate(agenda, state, now, i + 1)
    }
}

/// Whether the occurrence firing at `fire_at` is inside its lead-time
/// window at `now`.
pub open spec fn in_window(now: u32, fire_at: u32) -> bool {
    now + LEAD_TIME_MINUTES >= fire_at
}

/// The decision at time `now`: the earliest unfired upcoming entry if
/// any, due exactly when `now` has reached its lead-time window.
pub open spec fn spec_decide(
    agenda: Seq<TodayOccurrence>,
    state: Seq<FiringEntry>,
    now: u32,
) -> TriggerDecision {
    match first_candidate(agenda, state, now, 0) {
        None => TriggerDecision::NoneUpcoming,
        Some(i) => if in_window(now, agenda[i].fire_at) {
            TriggerDecision::ReadyToFire(i as usize)
        } else {
            TriggerDecision::Waiting(i as usize)
        },
    }
}

/// The first candidate is a candidate, is the least one, and when there
/// is none, nothing at or after `i` is a candidate.
pub proof fn lemma_first_candidate_props(
    agenda: Seq<TodayOccurrence>,
    state: Seq<FiringEntry>,
    now: u32,
    i: int,
)
    requires
        0 <= i,
    ensures
        first_candidate(agenda, state, now, i) matches Some(c) ==> i <= c < agenda.len()
            && is_candidate(agenda, state, now, c) && (forall|j: int|
            i <= j < c ==> !is_candidate(agenda, state, now, j)),
        first_candidate(agenda, state, now, i) is None ==> forall|j: int|
            i <= j < agenda.len() ==> !is_candidate(agenda, state, now, j),
    decreases agenda.len() - i,
{
    if i < agenda.len() && !is_candidate(agenda, state, now, i) {
        lemma_first_candidate_props(agenda, state, now, i + 1);
    }
}

/// The scheduler's whole mutable state: the day the agenda was built
/// for, today's agenda, and the per-day firing state.
pub struct SchedulerContext {
    /// The day the current agenda belongs to, if one was built: an
    /// opaque calendar-day number (for rollover detection) and its
    /// weekday.
    pub last_day: Option<DayStamp>,
    /// Today's agenda, sorted ascending by fire time.
    pub agenda: Vec<TodayOccurrence>,
    /// One entry per event appearing in the agenda.
    pub fired: Vec<FiringEntry>,
}

/// A calendar day as the clock reports it: a day number that changes
/// exactly when the calendar date does, and that day's weekday.
#[derive(Clone, Copy, PartialEq, Eq, Structural, Debug)]
pub struct DayStamp {
    pub day_number: i64,
    pub weekday: Weekday,
}

/// A one-shot action the caller must perform: open `url` for the event
/// `name` firing at `fire_at` minutes since midnight.
pub struct LaunchRequest {
    pub name: String,
    pub url: String,
    pub fire_at: u32,
}

impl SchedulerContext {
    /// The context is consistent with `table`: every agenda entry
    /// refers to a table event and fires inside the day, the agenda is
    /// sorted, and the firing state has one entry exactly per event in
    /// the agenda.
    pub open spec fn wf_for(self, table: RecurrenceTable) -> bool {
        &&& forall|k: int|
            0 <= k < self.agenda@.len() ==> (#[trigger] self.agenda@[k]).event_id
                < table.events@.len()
        &&& forall|k: int| 0 <= k < self.agenda@.len() ==> (#[trigger] self.agenda@[k]).fire_at < 1440
        &&& agenda_sorted(self.agenda@)
        &&& forall|a: int, b: int|
            0 <= a < b < self.fired@.len() ==> (#[trigger] self.fired@[a]).event_id
                != (#[trigger] self.fired@[b]).event_id
        &&& forall|id: usize| has_entry(self.fired@, id) <==> agenda_has(self.agenda@, id)
    }

    /// A context before the first poll: no day seen, empty agenda,
    /// empty firing state.
    pub fn new() -> (r: SchedulerContext)
        ensures
            r.last_day is None,
            r.agenda@.len() == 0,
            r.fired@.len() == 0,
            forall|table: RecurrenceTable| r.wf_for(table),
    {
        let r = SchedulerContext { last_day: None, agenda: Vec::new(), fired: Vec::new() };
        proof {
            assert forall|table: RecurrenceTable| r.wf_for(table) by {
                assert forall|id: usize| has_entry(r.fired@, id) <==> agenda_has(
                    r.agenda@,
                    id,
                ) by {}
            }
        }
        r
    }

    /// Whether a poll at day `today` must rebuild the agenda: the first
    /// poll, or a calendar-day change.
    pub open spec fn needs_refresh(self, today: DayStamp) -> bool {
        self.last_day != Some(today)
    }

    /// Rebuilds the agenda and resets every firing entry on the first
    /// call and whenever the calendar day changes; otherwise leaves the
    /// context untouched. Returns whether it rebuilt.
    pub fn refresh_if_needed(&mut self, table: &RecurrenceTable, today: DayStamp) -> (reset: bool)
        requires
            table.wf(),
            old(self).wf_for(*table),
        ensures
            reset == old(self).needs_refresh(today),
            final(self).last_day == Some(today),
            reset ==> final(self).agenda@ == stable_sort(
                todays_pairs(table.events@, today.weekday),
            ),
            reset ==> final(self).fired@ == fresh_state(
                final(self).agenda@,
                final(self).agenda@.len() as int,
            ),
            !reset ==> final(self).agenda@ == old(self).agenda@ && final(self).fired@ == old(
                self,
            ).fired@,
            final(self).wf_for(*table),
    {
        let needs = match self.last_day {
            None => true,
            Some(d) => !(d.day_number == today.day_number && d.weekday == today.weekday),
        };
        if needs {
            let n_events = table.events.len();
            proof {
                assert(table.events@.len() == n_events);
            }
            let agenda = build_agenda(table, today.weekday);
            let fired = build_firing_state(&agenda);
            self.agenda = agenda;
            self.fired = fired;
            self.last_day = Some(today);
            proof {
                crate::agenda::lemma_table_pairs_range(
                    table.events@,
                    today.weekday,
                    table.events@.len() as int,
                );
                crate::agenda::lemma_stable_sort_multiset(
                    todays_pairs(table.events@, today.weekday),
                );
                broadcast use vstd::seq_lib::group_to_multiset_ensures;

                let pairs = todays_pairs(table.events@, today.weekday);
                assert forall|k: int| 0 <= k < self.agenda@.len() implies (
                #[trigger] self.agenda@[k]).event_id < table.events@.len() && self.agenda@[k].fire_at
                    < 1440 by {
                    assert(self.agenda@.to_multiset().contains(self.agenda@[k]));
                    assert(pairs.to_multiset().contains(self.agenda@[k]));
                    assert(pairs.contains(self.agenda@[k]));
                    let q = choose|q: int| 0 <= q < pairs.len() && pairs[q] == self.agenda@[k];
                }
                crate::agenda::lemma_fresh_state_props(
                    self.agenda@,
                    self.agenda@.len() as int,
                );
                assert(self.agenda@.take(self.agenda@.len() as int) =~= self.agenda@);
            }
            true
        } else {
            proof {
                assert(self.last_day == Some(today));
            }
            false
        }
    }

    /// The decision at time `now` against the current agenda and firing
    /// state.
    pub fn decide(&self, now: u32) -> (r: TriggerDecision)
        requires
            now < 1440,
        ensures
            r == spec_decide(self.agenda@, self.fired@, now),
    {
        let n = self.agenda.len();
        for i in 0..n
            invariant
                now < 1440,
                n == self.agenda@.len(),
                first_candidate(self.agenda@, self.fired@, now, 0) == first_candidate(
                    self.agenda@,
                    self.fired@,
                    now,
                    i as int,
                ),
        {
            let entry = self.agenda[i];
            if entry.fire_at > now && !self.is_fired(entry.event_id) {
                if now + LEAD_TIME_MINUTES >= entry.fire_at {
                    return TriggerDecision::ReadyToFire(i);
                } else {
                    return TriggerDecision::Waiting(i);
                }
            }
        }
        TriggerDecision::NoneUpcoming
    }

    /// Whether event `id` is recorded as fired today.
    pub fn is_fired(&self, id: usize) -> (r: bool)
        ensures
            r == spec_fired(self.fired@, id),
    {
        let n = self.fired.len();
        for k in 0..n
            invariant
                n == self.fired@.len(),
                forall|q: int|
                    0 <= q < k ==> !((#[trigger] self.fired@[q]).event_id == id
                        && self.fired@[q].fired),
        {
            if self.fired[k].event_id == id && self.fired[k].fired {
                return true;
            }
        }
        false
    }

    /// The firing state after event `id` is marked fired: the same
    /// entries, with `id`'s entry (if any) flipped to fired.
    pub open spec fn mark_spec(state: Seq<FiringEntry>, id: usize) -> Seq<FiringEntry> {
        state.map_values(
            |e: FiringEntry| FiringEntry {
                event_id: e.event_id,
                fired: e.fired || e.event_id == id,
            },
        )
    }

    /// Records that event `id` fired today. Marking an already-fired
    /// event again changes nothing.
    pub fn mark_fired(&mut self, id: usize)
        ensures
            final(self).fired@ == Self::mark_spec(old(self).fired@, id),
            final(self).agenda == old(self).agenda,
            final(self).last_day == old(self).last_day,
    {
        let n = self.fired.len();
        let ghost olds = self.fired@;
        for k in 0..n
            invariant
                n == self.fired@.len(),
                self.fired@.len() == olds.len(),
                self.agenda == old(self).agenda,
                self.last_day == old(self).last_day,
                forall|q: int|
                    k <= q < olds.len() ==> #[trigger] self.fired@[q] == olds[q],
                forall|q: int|
                    0 <= q < k ==> #[trigger] self.fired@[q] == (FiringEntry {
                        event_id: olds[q].event_id,
                        fired: olds[q].fired || olds[q].event_id == id,
                    }),
        {
            if self.fired[k].event_id == id {
                let was = self.fired[k].fired;
                self.fired.set(k, FiringEntry { event_id: id, fired: true });
                assert(self.fired@[k as int] == (FiringEntry {
                    event_id: olds[k as int].event_id,
                    fired: olds[k as int].fired || olds[k as int].event_id == id,
                }));
            }
        }
        proof {
            assert(self.fired@ =~= Self::mark_spec(olds, id));
        }
    }

    /// One poll: refresh the agenda for `today` if the day changed,
    /// decide at `now`, and on a due occurrence mark its event fired
    /// and hand back the action to perform — the event's own link if it
    /// has one, the fallback locator otherwise. At most one action per
    /// event per day can ever come back.
    pub fn poll_step(&mut self, table: &RecurrenceTable, today: DayStamp, now: u32) -> (r: Option<
        LaunchRequest,
    >)
        requires
            table.wf(),
            old(self).wf_for(*table),
            now < 1440,
        ensures
            final(self).wf_for(*table),
            final(self).last_day == Some(today),
            final(self).agenda@ == (if old(self).needs_refresh(today) {
                stable_sort(todays_pairs(table.events@, today.weekday))
            } else {
                old(self).agenda@
            }),
            ({
                let a = final(self).agenda@;
                let s0 = if old(self).needs_refresh(today) {
                    fresh_state(a, a.len() as int)
                } else {
                    old(self).fired@
                };
                let d = spec_decide(a, s0, now);
                match d {
                    TriggerDecision::ReadyToFire(i) => {
                        &&& r is Some
                        &&& final(self).fired@ == Self::mark_spec(s0, a[i as int].event_id)
                        &&& !spec_fired(s0, a[i as int].event_id)
                        &&& spec_fired(final(self).fired@, a[i as int].event_id)
                        &&& (r matches Some(req) ==> {
                            let e = table.events@[a[i as int].event_id as int];
                            &&& req.name@ == e.name@
                            &&& req.fire_at == a[i as int].fire_at
                            &&& (match e.link {
                                Some(link) => req.url@ == link@,
                                None => req.url@ == fallback_url_chars(
                                    e.name@,
                                    a[i as int].fire_at as int,
                                ),
                            })
                        })
                    },
                    _ => r is None && final(self).fired@ == s0,
                }
            }),
    {
        self.refresh_if_needed(table, today);
        let ghost s0 = self.fired@;
        let decision = self.decide(now);
        match decision {
            TriggerDecision::ReadyToFire(i) => {
                let n = self.agenda.len();
                proof {
                    lemma_first_candidate_props(self.agenda@, self.fired@, now, 0);
                    let c = first_candidate(self.agenda@, self.fired@, now, 0)->Some_0;
                    assert(0 <= c < n);
                    assert(i == c as usize);
                    assert(i as int == c);
                }
                let entry = self.agenda[i];
                let event = &table.events[entry.event_id];
                let name = event.name.clone();
                let url = match &event.link {
                    Some(link) => link.clone(),
                    None => build_fallback_url(event.name.as_str(), entry.fire_at),
                };
                self.mark_fired(entry.event_id);
                proof {
                    assert(agenda_has(self.agenda@, entry.event_id)) by {
                        assert(self.agenda@[i as int].event_id == entry.event_id);
                    }
                    assert(has_entry(s0, entry.event_id));
                    lemma_mark_fired_monotone(s0, entry.event_id, entry.event_id);
                    assert forall|id: usize| has_entry(self.fired@, id) <==> has_entry(
                        s0,
                        id,
                    ) by {
                        assert(self.fired@.len() == s0.len());
                        if has_entry(s0, id) {
                            let k = choose|k: int|
                                0 <= k < s0.len() && (#[trigger] s0[k]).event_id == id;
                            assert(self.fired@[k].event_id == id);
                        }
                        if has_entry(self.fired@, id) {
                            let k = choose|k: int|
                                0 <= k < self.fired@.len() && (#[trigger] self.fired@[k]).event_id
                                    == id;
                            assert(s0[k].event_id == id);
                        }
                    }
                }
                Some(LaunchRequest { name, url, fire_at: entry.fire_at })
            },
            _ => {
                None
            },
        }
    }
}

/// Once an event has fired, no later poll of the same day selects it
/// again: whatever the current time, the decision is never `Waiting`
/// nor `ReadyToFire` for an agenda entry of that event.
pub proof fn lemma_fired_never_selected(
    agenda: Seq<TodayOccurrence>,
    state: Seq<FiringEntry>,
    now: u32,
    id: usize,
)
    requires
        agenda.len() <= usize::MAX,
        spec_fired(state, id),
    ensures
        spec_decide(agenda, state, now) matches TriggerDecision::ReadyToFire(i)
            ==> agenda[i as int].event_id != id,
        spec_decide(agenda, state, now) matches TriggerDecision::Waiting(i) ==> agenda[i as int].event_id
            != id,
{
    lemma_first_candidate_props(agenda, state, now, 0);
}

/// Marking one event fired never clears another: every event fired
/// before is still fired after, and the marked event is fired if it has
/// an entry at all.
pub proof fn lemma_mark_fired_monotone(state: Seq<FiringEntry>, id: usize, other: usize)
    ensures
        spec_fired(state, other) ==> spec_fired(SchedulerContext::mark_spec(state, id), other),
        has_entry(state, id) ==> spec_fired(SchedulerContext::mark_spec(state, id), id),
{
    let marked = SchedulerContext::mark_spec(state, id);
    if spec_fired(state, other) {
        let k = choose|k: int|
            0 <= k < state.len() && (#[trigger] state[k]).event_id == other && state[k].fired;
        assert(marked[k].event_id == other && marked[k].fired);
    }
    if has_entry(state, id) {
        let k = choose|k: int| 0 <= k < state.len() && (#[trigger] state[k]).event_id == id;
        assert(marked[k].event_id == id && marked[k].fired);
    }
}

} // verus!

