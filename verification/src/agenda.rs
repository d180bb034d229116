//! The agenda: the recurrence table projected onto one day, as a list of
//! occurrences sorted ascending by fire time, ties in definition order,
//! together with the per-day firing state.
use vstd::prelude::*;
use crate::schedule::{EventDefinition, RecurrenceTable, Weekday};

verus! {

/// One of today's occurrences: the index of its event in the table's
/// definition order, and its fire time in minutes since midnight.
#[derive(Clone, Copy, PartialEq, Eq, Structural, Debug)]
pub struct TodayOccurrence {
    pub event_id: usize,
    pub fire_at: u32,
}

/// The per-day firing state of one event: whether its one-shot action
/// has already run today.
#[derive(Clone, Copy, PartialEq, Eq, Structural, Debug)]
pub struct FiringEntry {
    pub event_id: usize,
    pub fired: bool,
}

/// The agenda entry that occurrence `o` of the event at table index `i`
/// denotes.
pub open spec fn occ_entry(i: int, o: crate::schedule::Occurrence) -> TodayOccurrence {
    TodayOccurrence { event_id: i as usize, fire_at: o.time.spec_minutes() as u32 }
}

/// The entries that the first `j` occurrences of event `e` (at table
/// index `i`) contribute on weekday `w`, in definition order.
pub open spec fn event_pairs(e: EventDefinition, i: int, w: Weekday, j: int) -> Seq<
    TodayOccurrence,
>
    decreases j,
{
    if j <= 0 {
        Seq::empty()
    } else {
        event_pairs(e, i, w, j - 1) + if e.occurrences@[j - 1].weekday == w {
            seq![occ_entry(i, e.occurrences@[j - 1])]
        } else {
            Seq::empty()
        }
    }
}

/// The entries that the first `i` events contribute on weekday `w`,
/// in definition order.
pub open spec fn table_pairs(events: Seq<EventDefinition>, w: Weekday, i: int) -> Seq<
    TodayOccurrence,
>
    decreases i,
{
    if i <= 0 {
        Seq::empty()
    } else {
        table_pairs(events, w, i - 1) + event_pairs(
            events[i - 1],
            i - 1,
            w,
            events[i - 1].occurrences@.len() as int,
        )
    }
}

/// All of today's entries in definition order (not yet sorted by time).
pub open spec fn todays_pairs(events: Seq<EventDefinition>, w: Weekday) -> Seq<TodayOccurrence> {
    table_pairs(events, w, events.len() as int)
}

/// Ascending by fire time.
pub open spec fn agenda_sorted(s: Seq<TodayOccurrence>) -> bool {
    forall|i: int, j: int|
        0 <= i < j < s.len() ==> (#[trigger] s[i]).fire_at <= (#[trigger] s[j]).fire_at
}

/// Where `x` goes in `s` when inserted after every entry that fires no
/// later than `x`: the greatest index such that everything at or after
/// it fires strictly later than `x`.
pub open spec fn insert_pos(s: Seq<TodayOccurrence>, x: TodayOccurrence) -> int
    decreases s.len(),
{
    if s.len() == 0 {
        0
    } else if s.last().fire_at <= x.fire_at {
        s.len() as int
    } else {
        insert_pos(s.drop_last(), x)
    }
}

/// `s` with `x` inserted at its insertion position.
pub open spec fn sorted_insert(s: Seq<TodayOccurrence>, x: TodayOccurrence) -> Seq<
    TodayOccurrence,
> {
    let p = insert_pos(s, x);
    s.take(p) + seq![x] + s.skip(p)
}

/// `s` sorted ascending by fire time, entries with equal fire times kept
/// in their original order: each entry in turn is inserted after every
/// entry that fires no later.
pub open spec fn stable_sort(s: Seq<TodayOccurrence>) -> Seq<TodayOccurrence>
    decreases s.len(),
{
    if s.len() == 0 {
        Seq::empty()
    } else {
        sorted_insert(stable_sort(s.drop_last()), s.last())
    }
}

/// The subsequence of `s` at fire time `t`.
pub open spec fn at_time(s: Seq<TodayOccurrence>, t: u32) -> Seq<TodayOccurrence> {
    s.filter(|o: TodayOccurrence| o.fire_at == t)
}

/// The insertion position lies in `s`, everything at or after it fires
/// strictly later than `x`, and the entry just before it (if any) fires
/// no later than `x`.
pub proof fn lemma_insert_pos_bounds(s: Seq<TodayOccurrence>, x: TodayOccurrence)
    ensures
        0 <= insert_pos(s, x) <= s.len(),
        forall|k: int| insert_pos(s, x) <= k < s.len() ==> (#[trigger] s[k]).fire_at > x.fire_at,
        insert_pos(s, x) > 0 ==> s[insert_pos(s, x) - 1].fire_at <= x.fire_at,
    decreases s.len(),
{
    if s.len() > 0 && s.last().fire_at > x.fire_at {
        lemma_insert_pos_bounds(s.drop_last(), x);
        assert forall|k: int| insert_pos(s, x) <= k < s.len() implies (#[trigger] s[k]).fire_at
            > x.fire_at by {
            if k < s.len() - 1 {
                assert(s.drop_last()[k] == s[k]);
            }
        }
    }
}

/// Inserting into a sorted sequence keeps it sorted.
pub proof fn lemma_sorted_insert_sorted(s: Seq<TodayOccurrence>, x: TodayOccurrence)
    requires
        agenda_sorted(s),
    ensures
        agenda_sorted(sorted_insert(s, x)),
{
    lemma_insert_pos_bounds(s, x);
    let p = insert_pos(s, x);
    let r = sorted_insert(s, x);
    assert forall|i: int, j: int| 0 <= i < j < r.len() implies (#[trigger] r[i]).fire_at
        <= (#[trigger] r[j]).fire_at by {
        if i < p && j < p {
            assert(r[i] == s[i] && r[j] == s[j]);
        } else if i < p && j == p {
            assert(r[i] == s[i] && r[j] == x);
            assert(s[i].fire_at <= s[p - 1].fire_at);
        } else if i < p && j > p {
            assert(r[i] == s[i] && r[j] == s[j - 1]);
        } else if i == p {
            assert(r[i] == x && r[j] == s[j - 1]);
        } else {
            assert(r[i] == s[i - 1] && r[j] == s[j - 1]);
        }
    }
}

/// If no entry of `s` satisfies the time `t`, the filter of `s` at `t`
/// is empty.
proof fn lemma_at_time_empty(s: Seq<TodayOccurrence>, t: u32)
    requires
        forall|k: int| 0 <= k < s.len() ==> (#[trigger] s[k]).fire_at != t,
    ensures
        at_time(s, t).len() == 0,
    decreases s.len(),
{
    reveal(Seq::filter);
    if s.len() > 0 {
        assert forall|k: int| 0 <= k < s.drop_last().len() implies (#[trigger] s.drop_last()[k]).fire_at
            != t by {
            assert(s.drop_last()[k] == s[k]);
        }
        lemma_at_time_empty(s.drop_last(), t);
    }
}

/// Inserting into a sorted sequence moves no entry past another with the
/// same fire time: at every time `t`, the filtered subsequence is that
/// of simply appending `x`.
pub proof fn lemma_sorted_insert_stable(s: Seq<TodayOccurrence>, x: TodayOccurrence, t: u32)
    requires
        agenda_sorted(s),
    ensures
        at_time(sorted_insert(s, x), t) == at_time(s.push(x), t),
{
    broadcast use vstd::seq_lib::group_seq_properties;

    lemma_insert_pos_bounds(s, x);
    let p = insert_pos(s, x);
    let pred = |o: TodayOccurrence| o.fire_at == t;
    Seq::filter_distributes_over_add(s.take(p) + seq![x], s.skip(p), pred);
    Seq::filter_distributes_over_add(s.take(p), seq![x], pred);
    Seq::filter_distributes_over_add(s.take(p), s.skip(p), pred);
    Seq::filter_distributes_over_add(s, seq![x], pred);
    assert(s.take(p) + s.skip(p) =~= s);
    assert(s.push(x) =~= s + seq![x]);
    assert(sorted_insert(s, x) =~= (s.take(p) + seq![x]) + s.skip(p));
    if x.fire_at == t {
        // everything after the insertion position fires strictly later
        // than x, so nothing there is at time t
        assert forall|k: int| 0 <= k < s.skip(p).len() implies (#[trigger] s.skip(p)[k]).fire_at
            != t by {
            assert(s.skip(p)[k] == s[k + p]);
        }
        lemma_at_time_empty(s.skip(p), t);
        assert(at_time(sorted_insert(s, x), t) =~= at_time(s.push(x), t));
    } else {
        reveal(Seq::filter);
        assert(seq![x].drop_last() =~= Seq::<TodayOccurrence>::empty());
        assert(seq![x].filter(pred) =~= Seq::<TodayOccurrence>::empty());
        assert(at_time(sorted_insert(s, x), t) =~= at_time(s.push(x), t));
    }
}

/// The stable sort of any sequence is sorted ascending by fire time, and
/// at every fire time the entries keep their original relative order.
pub proof fn lemma_stable_sort_props(s: Seq<TodayOccurrence>, t: u32)
    ensures
        agenda_sorted(stable_sort(s)),
        at_time(stable_sort(s), t) == at_time(s, t),
    decreases s.len(),
{
    if s.len() == 0 {
        reveal(Seq::filter);
        assert(at_time(stable_sort(s), t) =~= at_time(s, t));
    } else {
        lemma_stable_sort_props(s.drop_last(), t);
        lemma_sorted_insert_sorted(stable_sort(s.drop_last()), s.last());
        lemma_sorted_insert_stable(stable_sort(s.drop_last()), s.last(), t);
        let pred = |o: TodayOccurrence| o.fire_at == t;
        Seq::filter_distributes_over_add(s.drop_last(), seq![s.last()], pred);
        Seq::filter_distributes_over_add(stable_sort(s.drop_last()), seq![s.last()], pred);
        assert(stable_sort(s.drop_last()).push(s.last()) =~= stable_sort(s.drop_last()) + seq![
            s.last(),
        ]);
        assert(s.drop_last() + seq![s.last()] =~= s);
    }
}

/// Membership is preserved by the stable sort: the two sequences hold
/// the same entries with the same multiplicities.
pub proof fn lemma_stable_sort_multiset(s: Seq<TodayOccurrence>)
    ensures
        stable_sort(s).to_multiset() == s.to_multiset(),
    decreases s.len(),
{
    broadcast use vstd::seq_lib::group_to_multiset_ensures;

    if s.len() > 0 {
        lemma_stable_sort_multiset(s.drop_last());
        let s0 = stable_sort(s.drop_last());
        let x = s.last();
        let p = insert_pos(s0, x);
        lemma_insert_pos_bounds(s0, x);
        assert(sorted_insert(s0, x) =~= (s0.take(p) + seq![x]) + s0.skip(p));
        vstd::seq_lib::lemma_multiset_commutative(s0.take(p) + seq![x], s0.skip(p));
        vstd::seq_lib::lemma_multiset_commutative(s0.take(p), seq![x]);
        vstd::seq_lib::lemma_multiset_commutative(s0.take(p), s0.skip(p));
        assert(s0.take(p) + s0.skip(p) =~= s0);
        assert(s.drop_last().push(x) =~= s);
        vstd::seq_lib::lemma_multiset_commutative(s.drop_last(), seq![x]);
        assert(s.drop_last() + seq![x] =~= s);
    }
}

/// Every entry that the first `i` events contribute refers to one of
/// those events, and carries a fire time below 24 * 60 when the table is
/// well-formed.
pub proof fn lemma_table_pairs_range(events: Seq<EventDefinition>, w: Weekday, i: int)
    requires
        0 <= i <= events.len(),
        events.len() <= usize::MAX,
        forall|k: int| 0 <= k < events.len() ==> (#[trigger] events[k]).wf(),
    ensures
        forall|k: int|
            0 <= k < table_pairs(events, w, i).len() ==> (#[trigger] table_pairs(events, w, i)[k]).event_id
                < i,
        forall|k: int|
            0 <= k < table_pairs(events, w, i).len() ==> (#[trigger] table_pairs(events, w, i)[k]).fire_at
                < 1440,
    decreases i,
{
    if i > 0 {
        lemma_table_pairs_range(events, w, i - 1);
        lemma_event_pairs_range(events[i - 1], i - 1, w, events[i - 1].occurrences@.len() as int);
        let pre = table_pairs(events, w, i - 1);
        let tail = event_pairs(events[i - 1], i - 1, w, events[i - 1].occurrences@.len() as int);
        let cur = table_pairs(events, w, i);
        assert forall|k: int| 0 <= k < cur.len() implies (#[trigger] cur[k]).event_id < i
            && cur[k].fire_at < 1440 by {
            if k < pre.len() {
                assert(cur[k] == pre[k]);
            } else {
                assert(cur[k] == tail[k - pre.len()]);
            }
        }
    }
}

/// Every entry that the first `j` occurrences of event `e` contribute
/// carries the event's index and a fire time below 24 * 60.
pub proof fn lemma_event_pairs_range(e: EventDefinition, i: int, w: Weekday, j: int)
    requires
        0 <= i <= usize::MAX,
        0 <= j <= e.occurrences@.len(),
        e.wf(),
    ensures
        forall|k: int|
            0 <= k < event_pairs(e, i, w, j).len() ==> (#[trigger] event_pairs(e, i, w, j)[k]).event_id
                == i,
        forall|k: int|
            0 <= k < event_pairs(e, i, w, j).len() ==> (#[trigger] event_pairs(e, i, w, j)[k]).fire_at
                < 1440,
    decreases j,
{
    if j > 0 {
        lemma_event_pairs_range(e, i, w, j - 1);
        let pre = event_pairs(e, i, w, j - 1);
        let cur = event_pairs(e, i, w, j);
        assert(e.occurrences@[j - 1].time.wf());
        assert forall|k: int| 0 <= k < cur.len() implies (#[trigger] cur[k]).event_id == i && cur[k].fire_at
            < 1440 by {
            if k < pre.len() {
                assert(cur[k] == pre[k]);
            } else {
                assert(cur[k] == occ_entry(i, e.occurrences@[j - 1]));
            }
        }
    }
}

/// An event none of whose occurrences falls on `w` contributes no
/// entries at all.
proof fn lemma_event_pairs_absent(e: EventDefinition, i: int, w: Weekday, j: int)
    requires
        0 <= j <= e.occurrences@.len(),
        forall|q: int|
            0 <= q < e.occurrences@.len() ==> (#[trigger] e.occurrences@[q]).weekday != w,
    ensures
        event_pairs(e, i, w, j).len() == 0,
    decreases j,
{
    if j > 0 {
        lemma_event_pairs_absent(e, i, w, j - 1);
    }
}

/// No entry among the first `i` events' contributions refers to the
/// event at index `id` when none of its occurrences falls on `w`.
proof fn lemma_table_pairs_absent(events: Seq<EventDefinition>, w: Weekday, id: int, i: int)
    requires
        0 <= id < events.len(),
        events.len() <= usize::MAX,
        forall|k: int| 0 <= k < events.len() ==> (#[trigger] events[k]).wf(),
        0 <= i <= events.len(),
        forall|q: int|
            0 <= q < events[id].occurrences@.len() ==> (#[trigger] events[id].occurrences@[q]).weekday
                != w,
    ensures
        forall|k: int|
            0 <= k < table_pairs(events, w, i).len() ==> (#[trigger] table_pairs(events, w, i)[k]).event_id
                != id as usize,
    decreases i,
{
    if i > 0 {
        lemma_table_pairs_absent(events, w, id, i - 1);
        let pre = table_pairs(events, w, i - 1);
        let tail = event_pairs(events[i - 1], i - 1, w, events[i - 1].occurrences@.len() as int);
        let cur = table_pairs(events, w, i);
        if i - 1 == id {
            lemma_event_pairs_absent(events[id], id, w, events[id].occurrences@.len() as int);
        }
        assert forall|k: int| 0 <= k < cur.len() implies (#[trigger] cur[k]).event_id != id
            as usize by {
            if k < pre.len() {
                assert(cur[k] == pre[k]);
            } else {
                assert(cur[k] == tail[k - pre.len()]);
                assert(forall|q: int|
                    0 <= q < tail.len() ==> (#[trigger] tail[q]).event_id == i - 1) by {
                    lemma_event_pairs_range(
                        events[i - 1],
                        i - 1,
                        w,
                        events[i - 1].occurrences@.len() as int,
                    );
                }
            }
        }
    }
}

/// An event with no occurrence on weekday `w` never appears in that
/// day's agenda, and the fresh firing state for that agenda has no
/// entry for it.
pub proof fn lemma_absent_event_not_scheduled(events: Seq<EventDefinition>, w: Weekday, id: int)
    requires
        0 <= id < events.len(),
        events.len() <= usize::MAX,
        forall|k: int| 0 <= k < events.len() ==> (#[trigger] events[k]).wf(),
        forall|q: int|
            0 <= q < events[id].occurrences@.len() ==> (#[trigger] events[id].occurrences@[q]).weekday
                != w,
    ensures
        !agenda_has(stable_sort(todays_pairs(events, w)), id as usize),
        !has_entry(
            fresh_state(
                stable_sort(todays_pairs(events, w)),
                stable_sort(todays_pairs(events, w)).len() as int,
            ),
            id as usize,
        ),
{
    broadcast use vstd::seq_lib::group_to_multiset_ensures;

    let pairs = todays_pairs(events, w);
    let agenda = stable_sort(pairs);
    lemma_table_pairs_absent(events, w, id, events.len() as int);
    lemma_stable_sort_multiset(pairs);
    assert forall|k: int| 0 <= k < agenda.len() implies (#[trigger] agenda[k]).event_id != id
        as usize by {
        assert(agenda.to_multiset().contains(agenda[k]));
        assert(pairs.to_multiset().contains(agenda[k]));
        assert(pairs.contains(agenda[k]));
        let q = choose|q: int| 0 <= q < pairs.len() && pairs[q] == agenda[k];
    }
    lemma_fresh_state_props(agenda, agenda.len() as int);
    assert(agenda.take(agenda.len() as int) =~= agenda);
}

/// Inserts `x` into a sorted agenda after every entry that fires no
/// later than `x`.
pub fn insert_sorted(agenda: &mut Vec<TodayOccurrence>, x: TodayOccurrence)
    requires
        agenda_sorted(old(agenda)@),
    ensures
        final(agenda)@ == sorted_insert(old(agenda)@, x),
{
    proof {
        lemma_insert_pos_bounds(agenda@, x);
    }
    let ghost s = agenda@;
    let mut idx = agenda.len();
    while idx > 0 && agenda[idx - 1].fire_at > x.fire_at
        invariant
            agenda@ == s,
            0 <= idx <= s.len(),
            forall|k: int| idx <= k < s.len() ==> (#[trigger] s[k]).fire_at > x.fire_at,
            insert_pos(s, x) <= idx,
        decreases idx,
    {
        proof {
            lemma_insert_pos_take(s, x, idx - 1);
            lemma_insert_pos_bounds(s.take(idx - 1), x);
        }
        idx = idx - 1;
    }
    proof {
        // at the loop's end, idx is exactly the insertion position
        if idx > 0 {
            assert(s[idx - 1].fire_at <= x.fire_at);
            assert(insert_pos(s, x) >= idx) by {
                if insert_pos(s, x) < idx {
                    assert(s[idx - 1].fire_at > x.fire_at);
                }
            }
        }
        assert(insert_pos(s, x) == idx as int);
    }
    agenda.insert(idx, x);
    proof {
        assert(agenda@ =~= sorted_insert(s, x));
    }
}

/// The insertion position into a prefix that already covers it is the
/// same as into the whole sequence, as long as everything past the
/// prefix fires strictly later than `x`.
proof fn lemma_insert_pos_take(s: Seq<TodayOccurrence>, x: TodayOccurrence, n: int)
    requires
        0 <= n <= s.len(),
        forall|k: int| n <= k < s.len() ==> (#[trigger] s[k]).fire_at > x.fire_at,
    ensures
        insert_pos(s, x) == insert_pos(s.take(n), x),
    decreases s.len() - n,
{
    if n == s.len() {
        assert(s.take(n) =~= s);
    } else {
        lemma_insert_pos_take(s, x, n + 1);
        assert(s.take(n + 1).drop_last() =~= s.take(n));
        assert(s.take(n + 1).last() == s[n]);
    }
}

/// Builds today's agenda: the occurrences of every event whose weekday
/// is `w`, one entry per (event, occurrence) pair, sorted ascending by
/// fire time with ties kept in definition order.
pub fn build_agenda(table: &RecurrenceTable, w: Weekday) -> (agenda: Vec<TodayOccurrence>)
    requires
        table.wf(),
    ensures
        agenda@ == stable_sort(todays_pairs(table.events@, w)),
        agenda_sorted(agenda@),
{
    let ghost events = table.events@;
    let mut agenda: Vec<TodayOccurrence> = Vec::new();
    let n = table.events.len();
    assert(agenda@ =~= stable_sort(table_pairs(events, w, 0)));
    for i in 0..n
        invariant
            n == events.len(),
            table.events@ == events,
            table.wf(),
            agenda@ == stable_sort(table_pairs(events, w, i as int)),
            agenda_sorted(agenda@),
    {
        let e = &table.events[i];
        let m = e.occurrences.len();
        proof {
            assert(event_pairs(events[i as int], i as int, w, 0) =~= Seq::<
                TodayOccurrence,
            >::empty());
            assert(table_pairs(events, w, i as int) + event_pairs(events[i as int], i as int, w, 0)
                =~= table_pairs(events, w, i as int));
        }
        for j in 0..m
            invariant
                n == events.len(),
                i < n,
                table.events@ == events,
                table.wf(),
                m == events[i as int].occurrences@.len(),
                agenda@ == stable_sort(
                    table_pairs(events, w, i as int) + event_pairs(
                        events[i as int],
                        i as int,
                        w,
                        j as int,
                    ),
                ),
                agenda_sorted(agenda@),
        {
            let ghost pre = table_pairs(events, w, i as int) + event_pairs(
                events[i as int],
                i as int,
                w,
                j as int,
            );
            let occ = table.events[i].occurrences[j];
            if occ.weekday == w {
                let fire_at = occ.time.minutes_of_day();
                let entry = TodayOccurrence { event_id: i, fire_at };
                proof {
                    assert(entry == occ_entry(i as int, events[i as int].occurrences@[j as int]));
                    assert(pre.push(entry).drop_last() =~= pre);
                    assert(table_pairs(events, w, i as int) + event_pairs(
                        events[i as int],
                        i as int,
                        w,
                        j + 1,
                    ) =~= pre.push(entry));
                }
                insert_sorted(&mut agenda, entry);
                proof {
                    lemma_sorted_insert_sorted(stable_sort(pre), entry);
                }
            } else {
                proof {
                    assert(table_pairs(events, w, i as int) + event_pairs(
                        events[i as int],
                        i as int,
                        w,
                        j + 1,
                    ) =~= pre);
                }
            }
        }
        proof {
            assert(table_pairs(events, w, i + 1) =~= table_pairs(events, w, i as int)
                + event_pairs(
                events[i as int],
                i as int,
                w,
                events[i as int].occurrences@.len() as int,
            ));
        }
    }
    proof {
        assert(table_pairs(events, w, n as int) =~= todays_pairs(events, w));
    }
    agenda
}

/// Whether the firing state holds an entry for event `id`.
pub open spec fn has_entry(state: Seq<FiringEntry>, id: usize) -> bool {
    exists|k: int| 0 <= k < state.len() && (#[trigger] state[k]).event_id == id
}

/// Whether the agenda holds an entry of event `id`.
pub open spec fn agenda_has(agenda: Seq<TodayOccurrence>, id: usize) -> bool {
    exists|k: int| 0 <= k < agenda.len() && (#[trigger] agenda[k]).event_id == id
}

/// The fresh firing state for an agenda: one entry per event appearing
/// among the agenda's first `j` entries, in order of first appearance,
/// every entry pending.
pub open spec fn fresh_state(agenda: Seq<TodayOccurrence>, j: int) -> Seq<FiringEntry>
    decreases j,
{
    if j <= 0 {
        Seq::empty()
    } else {
        let pre = fresh_state(agenda, j - 1);
        if has_entry(pre, agenda[j - 1].event_id) {
            pre
        } else {
            pre.push(FiringEntry { event_id: agenda[j - 1].event_id, fired: false })
        }
    }
}

/// In a fresh firing state every entry is pending, entries are one per
/// event, and an event has an entry exactly when it appears among the
/// agenda's first `j` entries.
pub proof fn lemma_fresh_state_props(agenda: Seq<TodayOccurrence>, j: int)
    requires
        0 <= j <= agenda.len(),
    ensures
        forall|k: int|
            0 <= k < fresh_state(agenda, j).len() ==> !(#[trigger] fresh_state(agenda, j)[k]).fired,
        forall|a: int, b: int|
            0 <= a < b < fresh_state(agenda, j).len() ==> (#[trigger] fresh_state(agenda, j)[a]).event_id
                != (#[trigger] fresh_state(agenda, j)[b]).event_id,
        forall|id: usize|
            has_entry(fresh_state(agenda, j), id) <==> agenda_has(agenda.take(j), id),
    decreases j,
{
    if j > 0 {
        lemma_fresh_state_props(agenda, j - 1);
        let pre = fresh_state(agenda, j - 1);
        let cur = fresh_state(agenda, j);
        assert forall|id: usize| has_entry(cur, id) <==> agenda_has(agenda.take(j), id) by {
            assert(agenda.take(j).drop_last() =~= agenda.take(j - 1));
            assert(agenda.take(j).last() == agenda[j - 1]);
            if has_entry(cur, id) {
                let k = choose|k: int| 0 <= k < cur.len() && (#[trigger] cur[k]).event_id == id;
                if k < pre.len() {
                    assert(pre[k].event_id == id);
                    assert(has_entry(pre, id));
                    assert(agenda_has(agenda.take(j - 1), id));
                    let a = choose|a: int|
                        0 <= a < agenda.take(j - 1).len() && (#[trigger] agenda.take(j - 1)[a]).event_id
                            == id;
                    assert(agenda.take(j)[a].event_id == id);
                } else {
                    assert(agenda.take(j)[j - 1].event_id == id);
                }
            }
            if agenda_has(agenda.take(j), id) {
                let a = choose|a: int|
                    0 <= a < agenda.take(j).len() && (#[trigger] agenda.take(j)[a]).event_id == id;
                if a < j - 1 {
                    assert(agenda.take(j - 1)[a].event_id == id);
                    assert(has_entry(pre, id));
                    let k = choose|k: int|
                        0 <= k < pre.len() && (#[trigger] pre[k]).event_id == id;
                    assert(cur[k].event_id == id);
                } else {
                    if has_entry(pre, agenda[j - 1].event_id) {
                        let k = choose|k: int|
                            0 <= k < pre.len() && (#[trigger] pre[k]).event_id == agenda[j
                                - 1].event_id;
                        assert(cur[k].event_id == id);
                    } else {
                        assert(cur[cur.len() - 1].event_id == id);
                    }
                }
            }
        }
        if !has_entry(pre, agenda[j - 1].event_id) {
            assert forall|a: int, b: int| 0 <= a < b < cur.len() implies (#[trigger] cur[a]).event_id
                != (#[trigger] cur[b]).event_id by {
                if b == cur.len() - 1 {
                    assert(cur[a] == pre[a]);
                    if cur[a].event_id == agenda[j - 1].event_id {
                        assert(has_entry(pre, agenda[j - 1].event_id));
                    }
                }
            }
        }
    }
}

/// Builds the fresh firing state for an agenda: one pending entry per
/// event that appears in it.
pub fn build_firing_state(agenda: &Vec<TodayOccurrence>) -> (state: Vec<FiringEntry>)
    ensures
        state@ == fresh_state(agenda@, agenda@.len() as int),
{
    let mut state: Vec<FiringEntry> = Vec::new();
    let n = agenda.len();
    assert(state@ =~= fresh_state(agenda@, 0));
    for j in 0..n
        invariant
            n == agenda@.len(),
            state@ == fresh_state(agenda@, j as int),
    {
        let id = agenda[j].event_id;
        let mut present = false;
        let m = state.len();
        for k in 0..m
            invariant
                m == state@.len(),
                present <==> exists|q: int| 0 <= q < k && (#[trigger] state@[q]).event_id == id,
        {
            if state[k].event_id == id {
                present = true;
            }
        }
        proof {
            if present {
                assert(has_entry(state@, id));
            } else {
                assert(!has_entry(state@, id)) by {
                    if has_entry(state@, id) {
                        let q = choose|q: int|
                            0 <= q < state@.len() && (#[trigger] state@[q]).event_id == id;
                        assert(exists|q: int|
                            0 <= q < m && (#[trigger] state@[q]).event_id == id);
                    }
                }
            }
        }
        if !present {
            state.push(FiringEntry { event_id: id, fired: false });
        }
    }
    state
}

} // verus!
