//! The replay scheduler: translate each stored record to an emission-ready
//! event (dropping unrecognized classifications silently), order the entries
//! by elapsed time with a stable sort so that simultaneous events keep their
//! recorded order, and compute the wall-clock wait before each emission from
//! the entry's own original target, never re-based on a late emission.

use vstd::prelude::*;

use crate::event::EventClass;
use crate::event::EventRecord;

verus! {

/// The channel of an emission-ready event. Unlike [`EventClass`] there is no
/// catch-all: records that map to no known channel are never scheduled.
#[derive(Clone, Copy, Debug, PartialEq, Eq, Structural)]
pub enum EmitKind {
    Synchronization,
    RelativeAxis,
    AbsoluteAxis,
}

/// One event ready to hand to the virtual emitter.
#[derive(Clone, Copy, Debug, PartialEq, Eq, Structural)]
pub struct EmitEvent {
    pub kind: EmitKind,
    pub code: u16,
    pub value: i32,
}

/// A translated event paired with its target elapsed time: what drives one
/// timed emission during replay.
#[derive(Clone, Copy, Debug, PartialEq, Eq, Structural)]
pub struct ScheduleEntry {
    pub elapsed_nanos: u64,
    pub event: EmitEvent,
}

// --- Translation -----------------------------------------------------------

/// The emission-ready form of one record, or `None` for a record whose
/// classification maps to no known emittable channel.
pub open spec fn spec_translate(r: EventRecord) -> Option<ScheduleEntry> {
    match r.classification {
        EventClass::Synchronization(code) => Some(
            ScheduleEntry {
                elapsed_nanos: r.elapsed_nanos,
                event: EmitEvent { kind: EmitKind::Synchronization, code, value: r.value },
            },
        ),
        EventClass::RelativeAxis(code) => Some(
            ScheduleEntry {
                elapsed_nanos: r.elapsed_nanos,
                event: EmitEvent { kind: EmitKind::RelativeAxis, code, value: r.value },
            },
        ),
        EventClass::AbsoluteAxis(code) => Some(
            ScheduleEntry {
                elapsed_nanos: r.elapsed_nanos,
                event: EmitEvent { kind: EmitKind::AbsoluteAxis, code, value: r.value },
            },
        ),
        EventClass::Other => None,
    }
}

/// The translated entries of a log, in log order, unrecognized records
/// contributing nothing.
pub open spec fn spec_translate_log(log: Seq<EventRecord>) -> Seq<ScheduleEntry>
    decreases log.len(),
{
    if log.len() == 0 {
        Seq::empty()
    } else {
        let rest = spec_translate_log(log.drop_last());
        match spec_translate(log.last()) {
            Some(e) => rest.push(e),
            None => rest,
        }
    }
}

/// Map one record to its emission-ready form.
pub fn translate(r: &EventRecord) -> (o: Option<ScheduleEntry>)
    ensures
        o == spec_translate(*r),
{
    match r.classification {
        EventClass::Synchronization(code) => Some(
            ScheduleEntry {
                elapsed_nanos: r.elapsed_nanos,
                event: EmitEvent { kind: EmitKind::Synchronization, code, value: r.value },
            },
        ),
        EventClass::RelativeAxis(code) => Some(
            ScheduleEntry {
                elapsed_nanos: r.elapsed_nanos,
                event: EmitEvent { kind: EmitKind::RelativeAxis, code, value: r.value },
            },
        ),
        EventClass::AbsoluteAxis(code) => Some(
            ScheduleEntry {
                elapsed_nanos: r.elapsed_nanos,
                event: EmitEvent { kind: EmitKind::AbsoluteAxis, code, value: r.value },
            },
        ),
        EventClass::Other => None,
    }
}

/// A record with the catch-all classification contributes no emission and no
/// error, wherever in the log it stands: the translated schedule of a log
/// with the record is the translated schedule of the log without it.
pub proof fn lemma_other_record_dropped(a: Seq<EventRecord>, r: EventRecord, b: Seq<EventRecord>)
    requires
        r.classification is Other,
    ensures
        spec_translate_log(a + seq![r] + b) == spec_translate_log(a + b),
    decreases b.len(),
{
    if b.len() == 0 {
        assert(a + seq![r] + b =~= a.push(r));
        assert(a + b =~= a);
        assert(a.push(r).drop_last() =~= a);
        assert(a.push(r).last() == r);
    } else {
        let b2 = b.drop_last();
        lemma_other_record_dropped(a, r, b2);
        assert((a + seq![r] + b).drop_last() =~= a + seq![r] + b2);
        assert((a + seq![r] + b).last() == b.last());
        assert((a + b).drop_last() =~= a + b2);
        assert((a + b).last() == b.last());
    }
}

// --- Stable ordering by elapsed time ---------------------------------------

pub open spec fn spec_sorted(s: Seq<ScheduleEntry>) -> bool {
    forall|i: int, j: int|
        0 <= i < j < s.len() ==> s[i].elapsed_nanos <= s[j].elapsed_nanos
}

/// Insertion of `x` into `s` after every entry whose elapsed time is at most
/// `x`'s: on a sorted `s` this is the stable insertion point.
pub open spec fn spec_insert_entry(s: Seq<ScheduleEntry>, x: ScheduleEntry) -> Seq<ScheduleEntry>
    decreases s.len(),
{
    if s.len() == 0 {
        seq![x]
    } else if s.last().elapsed_nanos <= x.elapsed_nanos {
        s.push(x)
    } else {
        spec_insert_entry(s.drop_last(), x).push(s.last())
    }
}

/// The stable sort of `s` by elapsed time: each entry in turn inserted after
/// every earlier entry with an elapsed time at most its own.
pub open spec fn spec_stable_sort(s: Seq<ScheduleEntry>) -> Seq<ScheduleEntry>
    decreases s.len(),
{
    if s.len() == 0 {
        Seq::empty()
    } else {
        spec_insert_entry(spec_stable_sort(s.drop_last()), s.last())
    }
}

proof fn lemma_insert_entry_elems(s: Seq<ScheduleEntry>, x: ScheduleEntry)
    ensures
        spec_insert_entry(s, x).len() == s.len() + 1,
        forall|i: int|
            0 <= i < spec_insert_entry(s, x).len() ==> (spec_insert_entry(s, x)[i] == x
                || s.contains(#[trigger] spec_insert_entry(s, x)[i])),
    decreases s.len(),
{
    if s.len() == 0 {
    } else if s.last().elapsed_nanos <= x.elapsed_nanos {
    } else {
        lemma_insert_entry_elems(s.drop_last(), x);
        assert forall|i: int|
            0 <= i < spec_insert_entry(s, x).len() implies (spec_insert_entry(s, x)[i] == x
            || s.contains(#[trigger] spec_insert_entry(s, x)[i])) by {
            let out = spec_insert_entry(s, x);
            if i < out.len() - 1 {
                let inner = spec_insert_entry(s.drop_last(), x);
                assert(out[i] == inner[i]);
                if inner[i] != x {
                    let j = choose|j: int| 0 <= j < s.drop_last().len() && s.drop_last()[j]
                        == inner[i];
                    assert(s[j] == inner[i]);
                }
            } else {
                assert(out[i] == s.last());
                assert(s[s.len() - 1] == s.last());
            }
        }
    }
}

proof fn lemma_insert_entry_sorted(s: Seq<ScheduleEntry>, x: ScheduleEntry)
    requires
        spec_sorted(s),
    ensures
        spec_sorted(spec_insert_entry(s, x)),
    decreases s.len(),
{
    if s.len() == 0 {
    } else if s.last().elapsed_nanos <= x.elapsed_nanos {
        assert(forall|i: int|
            0 <= i < s.len() ==> (#[trigger] s[i]).elapsed_nanos <= s[s.len() - 1].elapsed_nanos);
    } else {
        assert(spec_sorted(s.drop_last()));
        lemma_insert_entry_sorted(s.drop_last(), x);
        lemma_insert_entry_elems(s.drop_last(), x);
        let inner = spec_insert_entry(s.drop_last(), x);
        assert forall|i: int| 0 <= i < inner.len() implies inner[i].elapsed_nanos
            <= s.last().elapsed_nanos by {
            if inner[i] != x {
                let j = choose|j: int| 0 <= j < s.drop_last().len() && s.drop_last()[j] == inner[i];
                assert(s[j] == inner[i]);
                assert(s[j].elapsed_nanos <= s[s.len() - 1].elapsed_nanos);
            }
        }
    }
}

/// The sorted schedule is monotonically non-decreasing in elapsed time.
pub proof fn lemma_stable_sort_sorted(s: Seq<ScheduleEntry>)
    ensures
        spec_sorted(spec_stable_sort(s)),
    decreases s.len(),
{
    if s.len() == 0 {
    } else {
        lemma_stable_sort_sorted(s.drop_last());
        lemma_insert_entry_sorted(spec_stable_sort(s.drop_last()), s.last());
    }
}

/// The entries of `s` whose elapsed time is exactly `t`, in the order `s`
/// holds them.
pub open spec fn entries_at(s: Seq<ScheduleEntry>, t: u64) -> Seq<ScheduleEntry> {
    s.filter(|e: ScheduleEntry| e.elapsed_nanos == t)
}

proof fn lemma_insert_entry_filter(s: Seq<ScheduleEntry>, x: ScheduleEntry, t: u64)
    ensures
        entries_at(spec_insert_entry(s, x), t) == if x.elapsed_nanos == t {
            entries_at(s, t).push(x)
        } else {
            entries_at(s, t)
        },
    decreases s.len(),
{
    reveal(Seq::filter);
    let pred = |e: ScheduleEntry| e.elapsed_nanos == t;
    if s.len() == 0 {
        assert(seq![x].drop_last() =~= Seq::<ScheduleEntry>::empty());
        assert(seq![x].last() == x);
        assert(Seq::<ScheduleEntry>::empty().filter(pred) =~= Seq::<ScheduleEntry>::empty());
    } else if s.last().elapsed_nanos <= x.elapsed_nanos {
        assert(s.push(x).drop_last() =~= s);
        assert(s.push(x).last() == x);
    } else {
        lemma_insert_entry_filter(s.drop_last(), x, t);
        let inner = spec_insert_entry(s.drop_last(), x);
        assert(inner.push(s.last()).drop_last() =~= inner);
        assert(inner.push(s.last()).last() == s.last());
        assert(s.drop_last().push(s.last()) =~= s);
        assert(entries_at(s, t) == if pred(s.last()) {
            entries_at(s.drop_last(), t).push(s.last())
        } else {
            entries_at(s.drop_last(), t)
        });
    }
}

/// Stable ordering under ties: for every elapsed value, the sorted schedule
/// holds the entries carrying that value in exactly the order the original
/// log held them.
pub proof fn lemma_stable_sort_stable(s: Seq<ScheduleEntry>, t: u64)
    ensures
        entries_at(spec_stable_sort(s), t) == entries_at(s, t),
    decreases s.len(),
{
    reveal(Seq::filter);
    let pred = |e: ScheduleEntry| e.elapsed_nanos == t;
    if s.len() == 0 {
    } else {
        lemma_stable_sort_stable(s.drop_last(), t);
        lemma_insert_entry_filter(spec_stable_sort(s.drop_last()), s.last(), t);
        assert(entries_at(s, t) == if pred(s.last()) {
            entries_at(s.drop_last(), t).push(s.last())
        } else {
            entries_at(s.drop_last(), t)
        });
    }
}

/// The sorted schedule is a permutation of the translated entries: nothing
/// is duplicated, dropped or invented by the ordering step.
pub proof fn lemma_stable_sort_permutes(s: Seq<ScheduleEntry>)
    ensures
        spec_stable_sort(s).to_multiset() == s.to_multiset(),
    decreases s.len(),
{
    broadcast use vstd::seq_lib::group_to_multiset_ensures;

    if s.len() == 0 {
    } else {
        lemma_stable_sort_permutes(s.drop_last());
        lemma_insert_entry_multiset(spec_stable_sort(s.drop_last()), s.last());
        assert(s.drop_last().push(s.last()) =~= s);
    }
}

proof fn lemma_insert_entry_multiset(s: Seq<ScheduleEntry>, x: ScheduleEntry)
    ensures
        spec_insert_entry(s, x).to_multiset() == s.to_multiset().insert(x),
    decreases s.len(),
{
    broadcast use vstd::seq_lib::group_to_multiset_ensures;

    if s.len() == 0 {
        assert(seq![x] =~= Seq::<ScheduleEntry>::empty().push(x));
    } else if s.last().elapsed_nanos <= x.elapsed_nanos {
    } else {
        lemma_insert_entry_multiset(s.drop_last(), x);
        assert(s.drop_last().push(s.last()) =~= s);
        assert(s.drop_last().to_multiset().insert(x).insert(s.last())
            =~= s.drop_last().to_multiset().insert(s.last()).insert(x));
    }
}

fn insert_entry(out: &mut Vec<ScheduleEntry>, x: ScheduleEntry)
    requires
        spec_sorted(old(out)@),
    ensures
        final(out)@ == spec_insert_entry(old(out)@, x),
{
    let mut j: usize = out.len();
    proof {
        assert(out@.take(j as int) =~= out@);
        assert(out@.skip(j as int) =~= Seq::<ScheduleEntry>::empty());
        assert(spec_insert_entry(out@, x) + Seq::<ScheduleEntry>::empty() =~= spec_insert_entry(
            out@,
            x,
        ));
    }
    while j > 0 && out[j - 1].elapsed_nanos > x.elapsed_nanos
        invariant
            j <= out@.len(),
            spec_insert_entry(out@, x) == spec_insert_entry(out@.take(j as int), x) + out@.skip(
                j as int,
            ),
        decreases j,
    {
        j = j - 1;
        proof {
            assert(out@.take(j as int + 1).drop_last() =~= out@.take(j as int));
            assert(out@.take(j as int + 1).last() == out@[j as int]);
            assert(spec_insert_entry(out@.take(j as int), x).push(out@[j as int]) + out@.skip(
                j as int + 1,
            ) =~= spec_insert_entry(out@.take(j as int), x) + out@.skip(j as int));
        }
    }
    proof {
        if j == 0 {
            assert(out@.take(0) =~= Seq::<ScheduleEntry>::empty());
        } else {
            assert(out@.take(j as int).last() == out@[j as int - 1]);
        }
        assert(out@.insert(j as int, x) =~= spec_insert_entry(out@.take(j as int), x) + out@.skip(
            j as int,
        ));
    }
    out.insert(j, x);
}

/// Build the replay schedule of a log: translate each record, dropping the
/// unrecognized ones, then stable-sort by elapsed time, so that entries with
/// equal stamps keep their recorded order and the schedule is monotonically
/// non-decreasing.
pub fn build_schedule(log: &Vec<EventRecord>) -> (s: Vec<ScheduleEntry>)
    ensures
        s@ == spec_stable_sort(spec_translate_log(log@)),
        spec_sorted(s@),
{
    let mut translated: Vec<ScheduleEntry> = Vec::new();
    let mut i: usize = 0;
    while i < log.len()
        invariant
            i <= log@.len(),
            translated@ == spec_translate_log(log@.take(i as int)),
        decreases log@.len() - i,
    {
        proof {
            assert(log@.take(i as int + 1).drop_last() =~= log@.take(i as int));
            assert(log@.take(i as int + 1).last() == log@[i as int]);
        }
        match translate(&log[i]) {
            Some(e) => translated.push(e),
            None => (),
        }
        i = i + 1;
    }
    proof {
        assert(log@.take(log@.len() as int) =~= log@);
    }
    let mut out: Vec<ScheduleEntry> = Vec::new();
    let mut k: usize = 0;
    while k < translated.len()
        invariant
            k <= translated@.len(),
            out@ == spec_stable_sort(translated@.take(k as int)),
            spec_sorted(out@),
        decreases translated@.len() - k,
    {
        proof {
            assert(translated@.take(k as int + 1).drop_last() =~= translated@.take(k as int));
            assert(translated@.take(k as int + 1).last() == translated@[k as int]);
            lemma_insert_entry_sorted(spec_stable_sort(translated@.take(k as int)), translated@[
                k as int]);
        }
        insert_entry(&mut out, translated[k]);
        k = k + 1;
    }
    proof {
        assert(translated@.take(translated@.len() as int) =~= translated@);
        lemma_stable_sort_sorted(translated@);
    }
    out
}

// --- Wall-clock pacing ------------------------------------------------------

/// The wait before emitting an entry whose target lies `target_nanos` after
/// replay start, when `now_nanos` have already passed: the remaining time to
/// the original target, and zero once the target has passed.
pub open spec fn spec_emission_delay(now_nanos: u64, target_nanos: u64) -> u64 {
    if target_nanos <= now_nanos {
        0
    } else {
        (target_nanos - now_nanos) as u64
    }
}

/// How long replay must block before emitting `entry`, given the time already
/// elapsed since replay start. A late entry (target at or before now) gets no
/// wait at all; an early one waits exactly up to its original target.
pub fn emission_delay(now_nanos: u64, entry: &ScheduleEntry) -> (d: u64)
    ensures
        d == spec_emission_delay(now_nanos, entry.elapsed_nanos),
        entry.elapsed_nanos <= now_nanos ==> d == 0,
        now_nanos < entry.elapsed_nanos ==> d == entry.elapsed_nanos - now_nanos,
{
    if entry.elapsed_nanos <= now_nanos {
        0
    } else {
        entry.elapsed_nanos - now_nanos
    }
}

/// No catch-up overshoot: when replay has fallen behind a late entry's
/// target, that entry is emitted with zero wait, and every entry is emitted
/// at the later of the current instant and its own original target — the
/// wait is never re-based on a late emission, and never shortened below the
/// original timing.
pub proof fn lemma_no_catch_up(now_nanos: u64, late: ScheduleEntry, next: ScheduleEntry)
    requires
        late.elapsed_nanos <= now_nanos,
    ensures
        spec_emission_delay(now_nanos, late.elapsed_nanos) == 0,
        now_nanos + spec_emission_delay(now_nanos, next.elapsed_nanos) == if next.elapsed_nanos
            <= now_nanos {
            now_nanos as int
        } else {
            next.elapsed_nanos as int
        },
{
}

// --- Cursor positioning -----------------------------------------------------

pub const ABS_X_CODE: u16 = 0;

pub const ABS_Y_CODE: u16 = 1;

pub const SYN_REPORT_CODE: u16 = 0;

/// The three-event burst that places the cursor at an absolute position:
/// the X coordinate, the Y coordinate, then a synchronization report.
pub fn center_cursor_events(x: i32, y: i32) -> (events: Vec<EmitEvent>)
    ensures
        events@ == seq![
            EmitEvent { kind: EmitKind::AbsoluteAxis, code: ABS_X_CODE, value: x },
            EmitEvent { kind: EmitKind::AbsoluteAxis, code: ABS_Y_CODE, value: y },
            EmitEvent { kind: EmitKind::Synchronization, code: SYN_REPORT_CODE, value: 0 },
        ],
{
    let mut events: Vec<EmitEvent> = Vec::new();
    events.push(EmitEvent { kind: EmitKind::AbsoluteAxis, code: ABS_X_CODE, value: x });
    events.push(EmitEvent { kind: EmitKind::AbsoluteAxis, code: ABS_Y_CODE, value: y });
    events.push(EmitEvent { kind: EmitKind::Synchronization, code: SYN_REPORT_CODE, value: 0 });
    proof {
        assert(events@ =~= seq![
            EmitEvent { kind: EmitKind::AbsoluteAxis, code: ABS_X_CODE, value: x },
            EmitEvent { kind: EmitKind::AbsoluteAxis, code: ABS_Y_CODE, value: y },
            EmitEvent { kind: EmitKind::Synchronization, code: SYN_REPORT_CODE, value: 0 },
        ]);
    }
    events
}

} // verus!
