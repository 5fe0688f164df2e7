//! The scheduled-Push state machine: which occurrences are due, which
//! projects wait for their turn, and what the device-local history records.
//!
//! History is the at-most-once boundary for destructive automatic Pushes: a
//! due ticket is released only once the occurrence it represents is durable.
use crate::idmap::{keys_of, map_of, IdMap};
use crate::model::texts;
use crate::order::{key_lt, key_view, lemma_key_lt_facts, key_views, second_of, sort_keys, sorted_ids, sorted_keys, text_lt};
use crate::schedule::{
    in_range, in_range_opt, interval_latest, interval_next, opt_int, unit_ms, valid, IntervalUnit,
    Schedule, ScheduleView,
};
use crate::text::{char_vec, concat, decimal, decimal_chars, same_text, string_from_chars};
use chrono::TimeZone;
use vstd::prelude::*;

verus! {

broadcast use vstd::seq_lib::group_to_multiset_ensures;

// ---------------------------------------------------------------------------
// Schedule signatures: the compact JSON form of a schedule, which is how the
// history file recognizes that a schedule is unchanged.
pub open spec fn weekday_list(ws: Seq<u8>) -> Seq<char>
    decreases ws.len(),
{
    if ws.len() == 0 {
        Seq::empty()
    } else if ws.len() == 1 {
        decimal(ws[0] as int)
    } else {
        weekday_list(ws.drop_last()) + seq![','] + decimal(ws.last() as int)
    }
}

pub open spec fn unit_name(u: IntervalUnit) -> Seq<char> {
    match u {
        IntervalUnit::Hours => "hours"@,
        IntervalUnit::Days => "days"@,
    }
}

pub open spec fn signature_of(s: ScheduleView) -> Seq<char> {
    match s {
        ScheduleView::Interval { every, unit, origin_ms } => "{\"kind\":\"interval\",\"every\":"@
            + decimal(every as int) + ",\"unit\":\""@ + unit_name(unit) + "\",\"origin_ms\":"@
            + decimal(origin_ms as int) + "}"@,
        ScheduleView::Weekly { weekdays, minute } => "{\"kind\":\"weekly\",\"weekdays\":["@
            + weekday_list(weekdays) + "],\"minute\":"@ + decimal(minute as int) + "}"@,
    }
}

fn append_str(v: &mut Vec<char>, s: &str)
    ensures
        final(v)@ == old(v)@ + s@,
{
    let w = char_vec(s);
    append_chars(v, &w);
}

fn append_chars(v: &mut Vec<char>, w: &Vec<char>)
    ensures
        final(v)@ == old(v)@ + w@,
{
    let mut i: usize = 0;
    while i < w.len()
        invariant
            i <= w.len(),
            v@ == old(v)@ + w@.take(i as int),
        decreases w.len() - i,
    {
        v.push(w[i]);
        i = i + 1;
        assert(v@ =~= old(v)@ + w@.take(i as int));
    }
    assert(w@.take(w.len() as int) =~= w@);
}

/// The signature of a schedule: the text `serde_json` writes for it.
pub fn schedule_signature(schedule: &Schedule) -> (r: String)
    ensures
        r@ == signature_of(schedule@),
{
    let mut v: Vec<char> = Vec::new();
    match schedule {
        Schedule::Interval { every, unit, origin_ms } => {
            append_str(&mut v, "{\"kind\":\"interval\",\"every\":");
            let e = decimal_chars(*every as i64);
            append_chars(&mut v, &e);
            append_str(&mut v, ",\"unit\":\"");
            match unit {
                IntervalUnit::Hours => append_str(&mut v, "hours"),
                IntervalUnit::Days => append_str(&mut v, "days"),
            }
            append_str(&mut v, "\",\"origin_ms\":");
            let o = decimal_chars(*origin_ms);
            append_chars(&mut v, &o);
            append_str(&mut v, "}");
        },
        Schedule::Weekly { weekdays, minute } => {
            append_str(&mut v, "{\"kind\":\"weekly\",\"weekdays\":[");
            let mut i: usize = 0;
            let ghost start = v@;
            while i < weekdays.len()
                invariant
                    i <= weekdays.len(),
                    v@ == start + weekday_list(weekdays@.take(i as int)),
                decreases weekdays.len() - i,
            {
                assert(weekdays@.take(i + 1).drop_last() =~= weekdays@.take(i as int));
                if i > 0 {
                    v.push(',');
                }
                let d = decimal_chars(weekdays[i] as i64);
                append_chars(&mut v, &d);
                i = i + 1;
                assert(v@ =~= start + weekday_list(weekdays@.take(i as int)));
            }
            assert(weekdays@.take(weekdays.len() as int) =~= weekdays@);
            append_str(&mut v, "],\"minute\":");
            let m = decimal_chars(*minute as i64);
            append_chars(&mut v, &m);
            append_str(&mut v, "}");
        },
    }
    string_from_chars(&v)
}

/// Whether two schedules are the same.
pub fn same_schedule(a: &Schedule, b: &Schedule) -> (r: bool)
    ensures
        r == (a@ == b@),
{
    match (a, b) {
        (
            Schedule::Interval { every: e1, unit: u1, origin_ms: o1 },
            Schedule::Interval { every: e2, unit: u2, origin_ms: o2 },
        ) => {
            let same_unit = match (u1, u2) {
                (IntervalUnit::Hours, IntervalUnit::Hours) => true,
                (IntervalUnit::Days, IntervalUnit::Days) => true,
                _ => false,
            };
            *e1 == *e2 && same_unit && *o1 == *o2
        },
        (
            Schedule::Weekly { weekdays: w1, minute: m1 },
            Schedule::Weekly { weekdays: w2, minute: m2 },
        ) => {
            if *m1 != *m2 || w1.len() != w2.len() {
                assert(w1.len() != w2.len() ==> w1@.len() != w2@.len());
                return false;
            }
            let mut i: usize = 0;
            while i < w1.len()
                invariant
                    i <= w1.len(),
                    w1.len() == w2.len(),
                    a@ == (ScheduleView::Weekly { weekdays: w1@, minute: *m1 }),
                    b@ == (ScheduleView::Weekly { weekdays: w2@, minute: *m2 }),
                    forall|j: int| 0 <= j < i ==> w1@[j] == w2@[j],
                decreases w1.len() - i,
            {
                if w1[i] != w2[i] {
                    assert(w1@[i as int] != w2@[i as int]);
                    return false;
                }
                i = i + 1;
            }
            assert(w1@ =~= w2@);
            true
        },
        _ => false,
    }
}

// ---------------------------------------------------------------------------
// State.
pub struct NextRun {
    pub schedule: Schedule,
    pub due: i64,
}

pub struct NextRunView {
    pub schedule: ScheduleView,
    pub due: i64,
}

impl View for NextRun {
    type V = NextRunView;

    open spec fn view(&self) -> NextRunView {
        NextRunView { schedule: self.schedule@, due: self.due }
    }
}

impl Clone for NextRun {
    fn clone(&self) -> (r: Self)
        ensures
            r@ == self@,
    {
        NextRun { schedule: self.schedule.clone(), due: self.due }
    }
}

/// What the history file records for one project.
#[derive(Debug, PartialEq, Eq)]
pub struct PersistedSchedule {
    pub signature: String,
    pub last_completed_ms: Option<i64>,
}

pub struct PersistedView {
    pub signature: Seq<char>,
    pub last_completed_ms: Option<i64>,
}

impl View for PersistedSchedule {
    type V = PersistedView;

    open spec fn view(&self) -> PersistedView {
        PersistedView { signature: self.signature@, last_completed_ms: self.last_completed_ms }
    }
}

impl Clone for PersistedSchedule {
    fn clone(&self) -> (r: Self)
        ensures
            r@ == self@,
    {
        PersistedSchedule {
            signature: self.signature.clone(),
            last_completed_ms: self.last_completed_ms,
        }
    }
}

/// One project that has an effective schedule, with the schedule's
/// occurrences around `now` worked out by the caller.
pub struct ScheduledProject {
    pub id: String,
    pub name: String,
    pub schedule: Schedule,
    /// `schedule.next_after(now)`.
    pub next: Option<i64>,
    /// `schedule.latest_at_or_before(now)`.
    pub latest: Option<i64>,
}

pub struct EntryView {
    pub id: Seq<char>,
    pub name: Seq<char>,
    pub schedule: ScheduleView,
    pub next: Option<i64>,
    pub latest: Option<i64>,
}

impl View for ScheduledProject {
    type V = EntryView;

    open spec fn view(&self) -> EntryView {
        EntryView {
            id: self.id@,
            name: self.name@,
            schedule: self.schedule@,
            next: self.next,
            latest: self.latest,
        }
    }
}

pub open spec fn entry_views(v: Seq<ScheduledProject>) -> Seq<EntryView> {
    v.map_values(|e: ScheduledProject| e@)
}

pub open spec fn entry_ids(v: Seq<EntryView>) -> Seq<Seq<char>> {
    v.map_values(|e: EntryView| e.id)
}

pub struct SchedulerState {
    pub next_runs: IdMap<NextRun>,
    pub pending: IdMap<()>,
    pub pending_due: IdMap<i64>,
    pub scheduled_running: IdMap<()>,
    pub running_due: IdMap<i64>,
    pub persisted: IdMap<PersistedSchedule>,
    /// The first pass after the process starts may replay one stale occurrence.
    pub startup: bool,
    pub history_valid: bool,
    pub history_warning: Option<String>,
}

pub struct StateView {
    pub next_runs: Map<Seq<char>, NextRunView>,
    pub pending: Set<Seq<char>>,
    pub pending_due: Map<Seq<char>, i64>,
    pub scheduled_running: Set<Seq<char>>,
    pub running_due: Map<Seq<char>, i64>,
    pub persisted: Map<Seq<char>, PersistedView>,
    pub startup: bool,
    pub history_valid: bool,
    pub history_warning: Option<Seq<char>>,
}

pub open spec fn opt_text(o: Option<String>) -> Option<Seq<char>> {
    match o {
        Some(s) => Some(s@),
        None => None,
    }
}

impl View for SchedulerState {
    type V = StateView;

    open spec fn view(&self) -> StateView {
        StateView {
            next_runs: self.next_runs@.map_values(|n: NextRun| n@),
            pending: self.pending@.dom(),
            pending_due: self.pending_due@,
            scheduled_running: self.scheduled_running@.dom(),
            running_due: self.running_due@,
            persisted: self.persisted@.map_values(|p: PersistedSchedule| p@),
            startup: self.startup,
            history_valid: self.history_valid,
            history_warning: opt_text(self.history_warning),
        }
    }
}

impl Default for SchedulerState {
    /// An idle state with a trusted, empty history, past its first pass.
    fn default() -> (r: Self)
        ensures
            r.wf(),
            r@.next_runs == Map::<Seq<char>, NextRunView>::empty(),
            r@.pending == Set::<Seq<char>>::empty(),
            r@.pending_due == Map::<Seq<char>, i64>::empty(),
            r@.scheduled_running == Set::<Seq<char>>::empty(),
            r@.running_due == Map::<Seq<char>, i64>::empty(),
            r@.persisted == Map::<Seq<char>, PersistedView>::empty(),
            !r@.startup,
            r@.history_valid,
            r@.history_warning is None,
    {
        let r = SchedulerState {
            next_runs: IdMap::new(),
            pending: IdMap::new(),
            pending_due: IdMap::new(),
            scheduled_running: IdMap::new(),
            running_due: IdMap::new(),
            persisted: IdMap::new(),
            startup: false,
            history_valid: true,
            history_warning: None,
        };
        assert(r@.next_runs =~= Map::<Seq<char>, NextRunView>::empty());
        assert(r@.pending =~= Set::<Seq<char>>::empty());
        assert(r@.scheduled_running =~= Set::<Seq<char>>::empty());
        assert(r@.persisted =~= Map::<Seq<char>, PersistedView>::empty());
        r
    }
}

impl SchedulerState {
    pub open spec fn wf(&self) -> bool {
        &&& self.next_runs.wf()
        &&& self.pending.wf()
        &&& self.pending_due.wf()
        &&& self.scheduled_running.wf()
        &&& self.running_due.wf()
        &&& self.persisted.wf()
    }

    /// The state of a process that has just started, with the history read
    /// from disk (`history_valid` false when it could not be read).
    pub fn new(
        persisted: IdMap<PersistedSchedule>,
        history_valid: bool,
        history_warning: Option<String>,
    ) -> (r: Self)
        requires
            persisted.wf(),
        ensures
            r.wf(),
            r@.next_runs == Map::<Seq<char>, NextRunView>::empty(),
            r@.pending == Set::<Seq<char>>::empty(),
            r@.pending_due == Map::<Seq<char>, i64>::empty(),
            r@.scheduled_running == Set::<Seq<char>>::empty(),
            r@.running_due == Map::<Seq<char>, i64>::empty(),
            r@.persisted == persisted@.map_values(|p: PersistedSchedule| p@),
            r@.startup,
            r@.history_valid == history_valid,
            r@.history_warning == opt_text(history_warning),
    {
        let r = SchedulerState {
            next_runs: IdMap::new(),
            pending: IdMap::new(),
            pending_due: IdMap::new(),
            scheduled_running: IdMap::new(),
            running_due: IdMap::new(),
            persisted,
            startup: true,
            history_valid,
            history_warning,
        };
        assert(r@.next_runs =~= Map::<Seq<char>, NextRunView>::empty());
        assert(r@.pending =~= Set::<Seq<char>>::empty());
        assert(r@.scheduled_running =~= Set::<Seq<char>>::empty());
        r
    }
}

// ---------------------------------------------------------------------------
// One project's part of the state, and how one pass changes it.
pub struct Slot {
    pub next: Option<NextRunView>,
    pub pending: bool,
    pub due: Option<i64>,
    pub persisted: Option<PersistedView>,
}

/// A project's slot, after the state has been narrowed to the projects that
/// still have schedules (a due time survives only with its pending ticket).
pub open spec fn slot_of(st: StateView, k: Seq<char>) -> Slot {
    Slot {
        next: if st.next_runs.contains_key(k) {
            Some(st.next_runs[k])
        } else {
            None
        },
        pending: st.pending.contains(k),
        due: if st.pending.contains(k) && st.pending_due.contains_key(k) {
            Some(st.pending_due[k])
        } else {
            None
        },
        persisted: if st.persisted.contains_key(k) {
            Some(st.persisted[k])
        } else {
            None
        },
    }
}

pub open spec fn rebased_next(e: EntryView, old: Option<NextRunView>) -> Option<NextRunView> {
    match e.next {
        Some(n) => Some(NextRunView { schedule: e.schedule, due: n }),
        None => old,
    }
}

/// One pass over one scheduled project while the history is trusted:
/// the new slot, whether the project is released as work, and whether the
/// history record changed.
pub open spec fn slot_step(e: EntryView, startup: bool, now: i64, s: Slot) -> (Slot, bool, bool) {
    let sig = signature_of(e.schedule);
    let needs_rebase = match s.next {
        None => true,
        Some(n) => n.schedule != e.schedule,
    };
    if needs_rebase {
        // A changed schedule invalidates an occurrence collected under the
        // old cadence.
        let same = match s.persisted {
            Some(p) => p.signature == sig,
            None => false,
        };
        let last = match s.persisted {
            Some(p) => p.last_completed_ms,
            None => None,
        };
        let next = rebased_next(e, s.next);
        if startup && (same || s.persisted is None) {
            // Occurrences crossed while the app was closed coalesce into one.
            let fire = match e.latest {
                Some(l) => match last {
                    Some(c) => l > c,
                    None => true,
                },
                None => false,
            };
            let completed = if fire {
                e.latest
            } else {
                last
            };
            let rec = PersistedView { signature: sig, last_completed_ms: completed };
            (
                Slot {
                    next,
                    pending: fire,
                    due: if fire {
                        e.latest
                    } else {
                        None
                    },
                    persisted: Some(rec),
                },
                fire,
                s.persisted != Some(rec),
            )
        } else {
            // A schedule created or changed while running starts at its next
            // future occurrence.
            let rec = PersistedView { signature: sig, last_completed_ms: e.latest };
            (
                Slot { next, pending: false, due: None, persisted: Some(rec) },
                false,
                s.persisted != Some(rec),
            )
        }
    } else if s.next->0.due <= now {
        let due = match e.latest {
            Some(l) => l,
            None => s.next->0.due,
        };
        // A busy project may cross several slots before its one queued Push
        // starts; the ticket carries the latest coalesced occurrence.
        let update = match s.due {
            Some(p) => due > p,
            None => true,
        };
        let rec = PersistedView { signature: sig, last_completed_ms: Some(due) };
        (
            Slot {
                next: rebased_next(e, s.next),
                pending: true,
                due: if update {
                    Some(due)
                } else {
                    s.due
                },
                persisted: if update {
                    Some(rec)
                } else {
                    s.persisted
                },
            },
            !s.pending,
            update && s.persisted != Some(rec),
        )
    } else {
        (s, false, false)
    }
}

/// With unreadable or unwritable history, schedules stay visible but no work
/// is manufactured.
pub open spec fn slot_frozen(e: EntryView, s: Slot) -> Slot {
    Slot { next: rebased_next(e, s.next), pending: false, due: None, persisted: s.persisted }
}

pub open spec fn new_slot(st: StateView, e: EntryView, now: i64) -> (Slot, bool, bool) {
    if st.history_valid {
        slot_step(e, st.startup, now, slot_of(st, e.id))
    } else {
        (slot_frozen(e, slot_of(st, e.id)), false, false)
    }
}

/// The state after a pass, for the scheduled projects `es` (projects without
/// a schedule drop out of every part of it).
pub struct Outcome {
    pub next_runs: Map<Seq<char>, NextRunView>,
    pub pending: Set<Seq<char>>,
    pub pending_due: Map<Seq<char>, i64>,
    pub persisted: Map<Seq<char>, PersistedView>,
    pub worked: Set<Seq<char>>,
    pub changed: bool,
}

pub open spec fn outcome(st: StateView, es: Seq<EntryView>, now: i64) -> Outcome
    decreases es.len(),
{
    if es.len() == 0 {
        Outcome {
            next_runs: Map::empty(),
            pending: Set::empty(),
            pending_due: Map::empty(),
            persisted: Map::empty(),
            worked: Set::empty(),
            changed: false,
        }
    } else {
        let o = outcome(st, es.drop_last(), now);
        let e = es.last();
        let (s, w, c) = new_slot(st, e, now);
        Outcome {
            next_runs: match s.next {
                Some(n) => o.next_runs.insert(e.id, n),
                None => o.next_runs,
            },
            pending: if s.pending {
                o.pending.insert(e.id)
            } else {
                o.pending
            },
            pending_due: match s.due {
                Some(d) => o.pending_due.insert(e.id, d),
                None => o.pending_due,
            },
            persisted: match s.persisted {
                Some(p) => o.persisted.insert(e.id, p),
                None => o.persisted,
            },
            worked: if w {
                o.worked.insert(e.id)
            } else {
                o.worked
            },
            changed: o.changed || c,
        }
    }
}

/// The projects released as work by a pass: those that became due, and every
/// pending project that is not busy. Nothing is released from untrusted
/// history.
pub open spec fn work_set(st: StateView, es: Seq<EntryView>, now: i64, active: Set<Seq<char>>) -> Set<
    Seq<char>,
> {
    let o = outcome(st, es, now);
    if st.history_valid {
        o.worked.union(o.pending.filter(|k: Seq<char>| !active.contains(k)))
    } else {
        Set::empty()
    }
}

/// The state after a pass.
pub open spec fn reconciled(st: StateView, es: Seq<EntryView>, now: i64) -> StateView {
    let o = outcome(st, es, now);
    StateView {
        next_runs: o.next_runs,
        pending: o.pending,
        pending_due: o.pending_due,
        persisted: o.persisted,
        startup: false,
        ..st
    }
}

/// The result of a pass: the work to claim, in order, once the history is
/// written (if `persist`).
pub struct ReconcileStep {
    pub work: Vec<String>,
    pub persist: bool,
}

struct SlotExec {
    next: Option<NextRun>,
    pending: bool,
    due: Option<i64>,
    persisted: Option<PersistedSchedule>,
}

pub open spec fn opt_next_view(o: Option<NextRun>) -> Option<NextRunView> {
    match o {
        Some(n) => Some(n@),
        None => None,
    }
}

pub open spec fn opt_persisted_view(o: Option<PersistedSchedule>) -> Option<PersistedView> {
    match o {
        Some(p) => Some(p@),
        None => None,
    }
}

impl View for SlotExec {
    type V = Slot;

    closed spec fn view(&self) -> Slot {
        Slot {
            next: opt_next_view(self.next),
            pending: self.pending,
            due: self.due,
            persisted: opt_persisted_view(self.persisted),
        }
    }
}

fn same_persisted(a: &Option<PersistedSchedule>, b: &PersistedSchedule) -> (r: bool)
    ensures
        r == (opt_persisted_view(*a) == Some(b@)),
{
    match a {
        Some(p) => same_text(p.signature.as_str(), b.signature.as_str()) && p.last_completed_ms
            == b.last_completed_ms,
        None => false,
    }
}

fn read_slot(st: &SchedulerState, id: &str) -> (r: SlotExec)
    requires
        st.wf(),
    ensures
        r@ == slot_of(st@, id@),
{
    let next = match st.next_runs.get(id) {
        Some(n) => Some(n.clone()),
        None => None,
    };
    let pending = st.pending.contains_key(id);
    let due = if pending {
        match st.pending_due.get(id) {
            Some(d) => Some(*d),
            None => None,
        }
    } else {
        None
    };
    let persisted = match st.persisted.get(id) {
        Some(p) => Some(p.clone()),
        None => None,
    };
    SlotExec { next, pending, due, persisted }
}

fn rebase_next(e: &ScheduledProject, old: Option<NextRun>) -> (r: Option<NextRun>)
    ensures
        opt_next_view(r) == rebased_next(e@, opt_next_view(old)),
{
    match e.next {
        Some(n) => Some(NextRun { schedule: e.schedule.clone(), due: n }),
        None => old,
    }
}

fn step_slot(e: &ScheduledProject, startup: bool, now: i64, s: SlotExec) -> (r: (SlotExec, bool, bool))
    ensures
        (r.0@, r.1, r.2) == slot_step(e@, startup, now, s@),
{
    let sig = schedule_signature(&e.schedule);
    let needs_rebase = match &s.next {
        None => true,
        Some(n) => !same_schedule(&n.schedule, &e.schedule),
    };
    if needs_rebase {
        let same = match &s.persisted {
            Some(p) => same_text(p.signature.as_str(), sig.as_str()),
            None => false,
        };
        let last = match &s.persisted {
            Some(p) => p.last_completed_ms,
            None => None,
        };
        let none_persisted = s.persisted.is_none();
        if startup && (same || none_persisted) {
            let fire = match e.latest {
                Some(l) => match last {
                    Some(c) => l > c,
                    None => true,
                },
                None => false,
            };
            let completed = if fire {
                e.latest
            } else {
                last
            };
            let rec = PersistedSchedule { signature: sig, last_completed_ms: completed };
            let changed = !same_persisted(&s.persisted, &rec);
            let next = rebase_next(e, s.next);
            (
                SlotExec {
                    next,
                    pending: fire,
                    due: if fire {
                        e.latest
                    } else {
                        None
                    },
                    persisted: Some(rec),
                },
                fire,
                changed,
            )
        } else {
            let rec = PersistedSchedule { signature: sig, last_completed_ms: e.latest };
            let changed = !same_persisted(&s.persisted, &rec);
            let next = rebase_next(e, s.next);
            (SlotExec { next, pending: false, due: None, persisted: Some(rec) }, false, changed)
        }
    } else {
        let current_due = match &s.next {
            Some(n) => n.due,
            None => 0,
        };
        if current_due <= now {
            let due = match e.latest {
                Some(l) => l,
                None => current_due,
            };
            let update = match s.due {
                Some(p) => due > p,
                None => true,
            };
            let rec = PersistedSchedule { signature: sig, last_completed_ms: Some(due) };
            let rec_changed = !same_persisted(&s.persisted, &rec);
            let was_pending = s.pending;
            let next = rebase_next(e, s.next);
            let persisted = if update {
                Some(rec)
            } else {
                s.persisted
            };
            (
                SlotExec {
                    next,
                    pending: true,
                    due: if update {
                        Some(due)
                    } else {
                        s.due
                    },
                    persisted,
                },
                !was_pending,
                update && rec_changed,
            )
        } else {
            (s, false, false)
        }
    }
}

pub open spec fn unique_ids(es: Seq<EntryView>) -> bool {
    entry_ids(es).no_duplicates()
}

proof fn lemma_outcome_keys(st: StateView, es: Seq<EntryView>, now: i64, k: Seq<char>)
    requires
        !entry_ids(es).contains(k),
    ensures
        !outcome(st, es, now).next_runs.contains_key(k),
        !outcome(st, es, now).pending.contains(k),
        !outcome(st, es, now).pending_due.contains_key(k),
        !outcome(st, es, now).persisted.contains_key(k),
        !outcome(st, es, now).worked.contains(k),
    decreases es.len(),
{
    if es.len() > 0 {
        assert(!entry_ids(es.drop_last()).contains(k)) by {
            if entry_ids(es.drop_last()).contains(k) {
                let j = choose|j: int| 0 <= j < entry_ids(es.drop_last()).len() && entry_ids(es.drop_last())[j] == k;
                assert(entry_ids(es)[j] == k);
            }
        }
        assert(entry_ids(es)[es.len() - 1] == es.last().id);
        lemma_outcome_keys(st, es.drop_last(), now, k);
    }
}

impl SchedulerState {
    /// One scheduler pass at `now`: narrow the state to the projects that
    /// still have schedules, rebase changed schedules, collect due and
    /// pending work, and say whether the history must be written.
    ///
    /// `active` holds the projects that have an operation in flight.
    pub fn reconcile_state(
        &mut self,
        now: i64,
        schedules: &Vec<ScheduledProject>,
        active: &IdMap<()>,
    ) -> (r: ReconcileStep)
        requires
            old(self).wf(),
            active.wf(),
            unique_ids(entry_views(schedules@)),
        ensures
            final(self).wf(),
            final(self)@ == reconciled(old(self)@, entry_views(schedules@), now),
            r.persist == (old(self)@.history_valid && outcome(
                old(self)@,
                entry_views(schedules@),
                now,
            ).changed),
            texts(r.work@).to_set() == work_set(
                old(self)@,
                entry_views(schedules@),
                now,
                active@.dom(),
            ),
            texts(r.work@).no_duplicates(),
            forall|i: int, j: int|
                0 <= i < j < r.work@.len() ==> text_lt(r.work@[i]@, r.work@[j]@),
    {
        let ghost st = self@;
        let ghost es = entry_views(schedules@);
        let startup = self.startup;
        let valid = self.history_valid;
        let mut next_runs: IdMap<NextRun> = IdMap::new();
        let mut pending: IdMap<()> = IdMap::new();
        let mut pending_due: IdMap<i64> = IdMap::new();
        let mut persisted: IdMap<PersistedSchedule> = IdMap::new();
        let mut worked: Vec<bool> = Vec::new();
        let mut changed = false;
        let mut i: usize = 0;
        assert(next_runs@.map_values(|n: NextRun| n@) =~= Map::<Seq<char>, NextRunView>::empty());
        assert(pending@.dom() =~= Set::<Seq<char>>::empty());
        assert(persisted@.map_values(|p: PersistedSchedule| p@) =~= Map::<Seq<char>, PersistedView>::empty());
        while i < schedules.len()
            invariant
                i <= schedules.len(),
                self.wf(),
                self@ == st,
                es == entry_views(schedules@),
                unique_ids(es),
                startup == st.startup,
                valid == st.history_valid,
                next_runs.wf(),
                pending.wf(),
                pending_due.wf(),
                persisted.wf(),
                next_runs@.map_values(|n: NextRun| n@) == outcome(st, es.take(i as int), now).next_runs,
                pending@.dom() == outcome(st, es.take(i as int), now).pending,
                pending_due@ == outcome(st, es.take(i as int), now).pending_due,
                persisted@.map_values(|p: PersistedSchedule| p@) == outcome(
                    st,
                    es.take(i as int),
                    now,
                ).persisted,
                changed == outcome(st, es.take(i as int), now).changed,
                worked@.len() == i,
                forall|j: int| 0 <= j < i ==> worked@[j] == new_slot(st, es[j], now).1,
            decreases schedules.len() - i,
        {
            let e = &schedules[i];
            assert(es.take(i + 1).drop_last() =~= es.take(i as int));
            assert(es.take(i + 1).last() == es[i as int]);
            let s = read_slot(self, e.id.as_str());
            let (ns, w, c) = if valid {
                step_slot(e, startup, now, s)
            } else {
                let next = rebase_next(e, s.next);
                (SlotExec { next, pending: false, due: None, persisted: s.persisted }, false, false)
            };
            match ns.next {
                Some(n) => {
                    next_runs.insert(e.id.clone(), n);
                },
                None => {},
            }
            if ns.pending {
                pending.insert(e.id.clone(), ());
            }
            match ns.due {
                Some(d) => {
                    pending_due.insert(e.id.clone(), d);
                },
                None => {},
            }
            match ns.persisted {
                Some(p) => {
                    persisted.insert(e.id.clone(), p);
                },
                None => {},
            }
            worked.push(w);
            changed = changed || c;
            i = i + 1;
            proof {
                assert(next_runs@.map_values(|n: NextRun| n@) =~= outcome(st, es.take(i as int), now).next_runs);
                assert(pending@.dom() =~= outcome(st, es.take(i as int), now).pending);
                assert(persisted@.map_values(|p: PersistedSchedule| p@) =~= outcome(
                    st,
                    es.take(i as int),
                    now,
                ).persisted);
            }
        }
        assert(es.take(schedules.len() as int) =~= es);
        // The work: every due project, and every pending one that is not busy.
        let mut candidates: Vec<(i64, String)> = Vec::new();
        let ghost mut idx: Seq<int> = Seq::empty();
        if valid {
            let mut k: usize = 0;
            while k < schedules.len()
                invariant
                    k <= schedules.len(),
                    es == entry_views(schedules@),
                    unique_ids(es),
                    valid == st.history_valid,
                    valid,
                    worked@.len() == schedules.len(),
                    forall|j: int| 0 <= j < schedules.len() ==> worked@[j] == new_slot(st, es[j], now).1,
                    pending.wf(),
                    active.wf(),
                    pending@.dom() == outcome(st, es, now).pending,
                    idx.len() == candidates@.len(),
                    forall|j: int| 0 <= j < candidates@.len() ==> (#[trigger] candidates@[j]).0 == 0,
                    forall|j: int| 0 <= j < candidates@.len() ==> 0 <= #[trigger] idx[j] < k && es[idx[j]].id == candidates@[j].1@ && released(st, es, now, active@.dom(), es[idx[j]].id),
                    forall|a: int, b: int| 0 <= a < b < idx.len() ==> #[trigger] idx[a] < #[trigger] idx[b],
                    forall|a: int| 0 <= a < k && released(st, es, now, active@.dom(), #[trigger] es[a].id) ==> idx.contains(a),
                decreases schedules.len() - k,
            {
                let id = &schedules[k].id;
                proof {
                    lemma_outcome_at(st, es, now, k as int);
                }
                let ready = pending.contains_key(id.as_str()) && !active.contains_key(id.as_str());
                let ghost old_idx = idx;
                if worked[k] || ready {
                    candidates.push((0, id.clone()));
                    proof {
                        idx = idx.push(k as int);
                        assert(idx[idx.len() - 1] == k);
                    }
                }
                proof {
                    assert forall|a: int| 0 <= a < k + 1 && released(st, es, now, active@.dom(), #[trigger] es[a].id) implies idx.contains(a) by {
                        if a < k {
                            assert(old_idx.contains(a));
                            let j = choose|j: int| 0 <= j < old_idx.len() && old_idx[j] == a;
                            assert(idx[j] == a);
                        } else {
                            assert(idx[idx.len() - 1] == a);
                        }
                    }
                }
                k = k + 1;
            }
        }
        proof {
            let c = second_of(key_views(candidates@));
            let kk = if valid { es.len() as int } else { 0 };
            assert forall|a: int, b: int| 0 <= a < c.len() && 0 <= b < c.len() && a != b implies c[a] != c[b] by {
                assert(c[a] == es[idx[a]].id);
                assert(c[b] == es[idx[b]].id);
                if a < b {
                    assert(idx[a] < idx[b]);
                } else {
                    assert(idx[b] < idx[a]);
                }
                assert(entry_ids(es)[idx[a]] != entry_ids(es)[idx[b]]);
            }
            assert forall|j: int| 0 <= j < c.len() implies 0 <= #[trigger] idx[j] < kk && es[idx[j]].id == c[j] && released(st, es, now, active@.dom(), es[idx[j]].id) by {
                assert(c[j] == candidates@[j].1@);
            }
            assert forall|a: int| 0 <= a < kk && released(st, es, now, active@.dom(), #[trigger] es[a].id) implies c.contains(es[a].id) by {
                assert(idx.contains(a));
                let j = choose|j: int| 0 <= j < idx.len() && idx[j] == a;
                assert(c[j] == es[a].id);
            }
            lemma_work_set(st, es, now, active@.dom(), c, idx, kk);
        }
        let work = sorted_ids(candidates);
        self.next_runs = next_runs;
        self.pending = pending;
        self.pending_due = pending_due;
        self.persisted = persisted;
        self.startup = false;
        ReconcileStep { work, persist: valid && changed }
    }
}

/// A project released as work by a pass.
pub open spec fn released(
    st: StateView,
    es: Seq<EntryView>,
    now: i64,
    active: Set<Seq<char>>,
    id: Seq<char>,
) -> bool {
    let o = outcome(st, es, now);
    o.worked.contains(id) || (o.pending.contains(id) && !active.contains(id))
}

/// With distinct IDs, the outcome for each scheduled project is that
/// project's own step.
pub proof fn lemma_outcome_at(st: StateView, es: Seq<EntryView>, now: i64, j: int)
    requires
        unique_ids(es),
        0 <= j < es.len(),
    ensures
        outcome(st, es, now).worked.contains(es[j].id) == new_slot(st, es[j], now).1,
        outcome(st, es, now).pending.contains(es[j].id) == new_slot(st, es[j], now).0.pending,
        outcome(st, es, now).pending_due.contains_key(es[j].id) == new_slot(st, es[j], now).0.due is Some,
        new_slot(st, es[j], now).0.due is Some ==> outcome(st, es, now).pending_due[es[j].id]
            == new_slot(st, es[j], now).0.due->0,
        new_slot(st, es[j], now).0.persisted is Some ==> outcome(st, es, now).persisted.contains_key(es[j].id)
            && outcome(st, es, now).persisted[es[j].id] == new_slot(st, es[j], now).0.persisted->0,
        new_slot(st, es[j], now).2 ==> outcome(st, es, now).changed,
    decreases es.len(),
{
    let d = es.drop_last();
    assert(unique_ids(d)) by {
        assert forall|a: int, b: int| 0 <= a < entry_ids(d).len() && 0 <= b < entry_ids(d).len() && a != b implies entry_ids(d)[a] != entry_ids(d)[b] by {
            assert(entry_ids(es)[a] != entry_ids(es)[b]);
        }
    }
    if j == es.len() - 1 {
        assert(!entry_ids(d).contains(es[j].id)) by {
            if entry_ids(d).contains(es[j].id) {
                let a = choose|a: int| 0 <= a < entry_ids(d).len() && entry_ids(d)[a] == es[j].id;
                assert(entry_ids(es)[a] == entry_ids(es)[j]);
            }
        }
        lemma_outcome_keys(st, d, now, es[j].id);
    } else {
        lemma_outcome_at(st, d, now, j);
        assert(entry_ids(es)[j] != entry_ids(es)[es.len() - 1]);
        assert(d[j] == es[j]);
    }
}

proof fn lemma_work_set(
    st: StateView,
    es: Seq<EntryView>,
    now: i64,
    active: Set<Seq<char>>,
    c: Seq<Seq<char>>,
    idx: Seq<int>,
    k: int,
)
    requires
        unique_ids(es),
        st.history_valid ==> k == es.len(),
        !st.history_valid ==> c.len() == 0,
        idx.len() == c.len(),
        forall|j: int| 0 <= j < c.len() ==> 0 <= #[trigger] idx[j] < k && es[idx[j]].id == c[j] && released(st, es, now, active, es[idx[j]].id),
        forall|a: int| 0 <= a < k && released(st, es, now, active, #[trigger] es[a].id) ==> c.contains(es[a].id),
    ensures
        c.to_set() == work_set(st, es, now, active),
{
    if st.history_valid {
        let o = outcome(st, es, now);
        assert forall|x: Seq<char>| c.to_set().contains(x) <==> work_set(st, es, now, active).contains(x) by {
            if c.contains(x) {
                let j = choose|j: int| 0 <= j < c.len() && c[j] == x;
                assert(0 <= idx[j] < k);
            }
            if work_set(st, es, now, active).contains(x) {
                assert(released(st, es, now, active, x));
                if !entry_ids(es).contains(x) {
                    lemma_outcome_keys(st, es, now, x);
                }
                let a = choose|a: int| 0 <= a < entry_ids(es).len() && entry_ids(es)[a] == x;
                assert(es[a].id == x);
            }
        }
        assert(c.to_set() =~= work_set(st, es, now, active));
    } else {
        assert(c.to_set() =~= Set::<Seq<char>>::empty());
    }
}

// ---------------------------------------------------------------------------
// After the history write, claims, completions, queue policy.
pub open spec fn history_write_warning(e: Seq<char>) -> Seq<char> {
    "Could not save schedule history; automatic Pushes are disabled: "@ + e
}

/// The state after the ticket of `k` is claimed for a scheduled Push that
/// carries the occurrence `due`.
pub open spec fn claimed(st: StateView, k: Seq<char>, due: i64) -> StateView {
    StateView {
        pending: st.pending.remove(k),
        pending_due: st.pending_due.remove(k),
        scheduled_running: st.scheduled_running.insert(k),
        running_due: st.running_due.insert(k, due),
        ..st
    }
}

/// The history record of `k` once its scheduled Push of the occurrence
/// `due` finished under the schedule `s`: the later of that occurrence and
/// the last completion recorded for the same schedule.
pub open spec fn finished_record(st: StateView, k: Seq<char>, due: i64, s: ScheduleView) -> PersistedView {
    let sig = signature_of(s);
    let prior = if st.persisted.contains_key(k) && st.persisted[k].signature == sig {
        st.persisted[k].last_completed_ms
    } else {
        None
    };
    let last = match prior {
        Some(l) => if l > due {
            l
        } else {
            due
        },
        None => due,
    };
    PersistedView { signature: sig, last_completed_ms: Some(last) }
}

/// Results the UI shows for one schedule.
#[derive(Debug, PartialEq, Eq)]
pub struct ScheduleStatus {
    pub project_id: String,
    pub project: String,
    pub schedule: Option<Schedule>,
    pub next_run_ms: Option<i64>,
    pub next_run: Option<String>,
    pub pending: bool,
    pub running: bool,
    pub scheduled_running: bool,
    pub warning: Option<String>,
}

/// Progress of a scheduled Push, as sent to the frontend.
#[derive(Debug, PartialEq, Eq)]
pub struct ScheduledPushEvent {
    pub project_id: String,
    pub project: String,
    pub phase: String,
    pub error: Option<String>,
}

/// How a claim on a due ticket ended.
pub enum ClaimResult {
    /// The schedule was disabled or changed: the ticket is dropped.
    Stale,
    /// The project is busy; the ticket stays pending.
    Deferred,
    /// The Push may run; `due_ms` is the occurrence it carries.
    Started { operation: crate::operations::OpGuard, due_ms: i64 },
}

impl SchedulerState {
    /// Record the outcome of a history write: success makes the history
    /// trusted again, failure disables automatic Pushes for this process.
    pub fn record_history_write(&mut self, result: &Result<(), String>) -> (r: bool)
        ensures
            r == result is Ok,
            final(self)@.history_valid == result is Ok,
            result is Ok ==> final(self)@.history_warning == old(self)@.history_warning,
            result matches Err(e) ==> final(self)@.history_warning == Some(
                history_write_warning(e@),
            ),
            final(self)@.next_runs == old(self)@.next_runs,
            final(self)@.pending == old(self)@.pending,
            final(self)@.pending_due == old(self)@.pending_due,
            final(self)@.scheduled_running == old(self)@.scheduled_running,
            final(self)@.running_due == old(self)@.running_due,
            final(self)@.persisted == old(self)@.persisted,
            final(self)@.startup == old(self)@.startup,
            final(self).wf() == old(self).wf(),
    {
        match result {
            Ok(()) => {
                self.history_valid = true;
                true
            },
            Err(e) => {
                self.history_valid = false;
                self.history_warning = Some(
                    concat("Could not save schedule history; automatic Pushes are disabled: ", e.as_str()),
                );
                false
            },
        }
    }

    /// Release the work of a pass. A due ticket is never released unless the
    /// occurrence it represents is durable: when the history had to be
    /// written (`write` is its result) and the write failed, nothing is
    /// released.
    pub fn release_work(&mut self, step: ReconcileStep, write: Option<Result<(), String>>) -> (r: Vec<String>)
        ensures
            match write {
                Some(Err(_)) => r@.len() == 0 && !final(self)@.history_valid,
                Some(Ok(_)) => r@ == step.work@ && final(self)@.history_valid,
                None => if old(self)@.history_valid { r@ == step.work@ } else { r@.len() == 0 },
            },
            write matches Some(Err(e)) ==> final(self)@.history_warning == Some(history_write_warning(e@)),
            write is None ==> final(self)@ == old(self)@,
            write matches Some(Ok(_)) ==> final(self)@.history_warning == old(self)@.history_warning,
            final(self)@.next_runs == old(self)@.next_runs,
            final(self)@.pending == old(self)@.pending,
            final(self)@.pending_due == old(self)@.pending_due,
            final(self)@.scheduled_running == old(self)@.scheduled_running,
            final(self)@.running_due == old(self)@.running_due,
            final(self)@.persisted == old(self)@.persisted,
            final(self)@.startup == old(self)@.startup,
            final(self).wf() == old(self).wf(),
    {
        match write {
            Some(result) => {
                if self.record_history_write(&result) {
                    step.work
                } else {
                    Vec::new()
                }
            },
            None => {
                if self.history_valid {
                    step.work
                } else {
                    Vec::new()
                }
            },
        }
    }

    /// Drop one project's pending ticket; returns whether there was one.
    pub fn clear_pending(&mut self, project: &str) -> (r: bool)
        requires
            old(self).wf(),
        ensures
            final(self).wf(),
            r == old(self)@.pending.contains(project@),
            final(self)@ == (StateView {
                pending: old(self)@.pending.remove(project@),
                pending_due: old(self)@.pending_due.remove(project@),
                ..old(self)@
            }),
    {
        let removed = self.pending.remove(project).is_some();
        self.pending_due.remove(project);
        assert(self@.pending =~= old(self)@.pending.remove(project@));
        removed
    }

    /// Discard every in-memory pending ticket (Cancel All). The occurrences
    /// were made durable before the tickets were released, so no history
    /// write is needed; returns how many tickets were dropped.
    pub fn clear_all_pending(&mut self) -> (r: usize)
        requires
            old(self).wf(),
        ensures
            final(self).wf(),
            r == old(self)@.pending.len(),
            final(self)@ == (StateView {
                pending: Set::empty(),
                pending_due: Map::empty(),
                ..old(self)@
            }),
    {
        let count = self.pending.len();
        proof {
            assert(old(self)@.pending.len() == old(self).pending@.dom().len());
        }
        self.pending = IdMap::new();
        self.pending_due = IdMap::new();
        assert(self@.pending =~= Set::<Seq<char>>::empty());
        count
    }

    /// Record the history of one project; returns whether it changed.
    pub fn set_persisted(&mut self, project_id: &str, schedule: &Schedule, last_completed_ms: Option<i64>) -> (r: bool)
        requires
            old(self).wf(),
        ensures
            final(self).wf(),
            ({
                let rec = PersistedView { signature: signature_of(schedule@), last_completed_ms };
                &&& r == !(old(self)@.persisted.contains_key(project_id@) && old(self)@.persisted[project_id@] == rec)
                &&& final(self)@ == (StateView {
                    persisted: old(self)@.persisted.insert(project_id@, rec),
                    ..old(self)@
                })
            }),
    {
        let record = PersistedSchedule { signature: schedule_signature(schedule), last_completed_ms };
        let same = match self.persisted.get(project_id) {
            Some(p) => same_text(p.signature.as_str(), record.signature.as_str())
                && p.last_completed_ms == record.last_completed_ms,
            None => false,
        };
        if same {
            proof {
                assert(self@.persisted =~= old(self)@.persisted.insert(project_id@, record@));
            }
            return false;
        }
        self.persisted.insert(crate::text::copy_text(project_id), record);
        assert(self@.persisted =~= old(self)@.persisted.insert(project_id@, record@));
        true
    }

    /// Claim a due ticket for a scheduled Push. The ticket is stale unless
    /// the project's current schedule (`current`, read from the config under
    /// the config lock) is the one the ticket was collected under; a busy
    /// project keeps its ticket.
    pub fn claim_due(
        &mut self,
        ops: &mut crate::operations::OpRegistry,
        project_id: &str,
        current: Option<&Schedule>,
        now_ms: i64,
    ) -> (r: ClaimResult)
        requires
            old(self).wf(),
        ensures
            final(self).wf(),
            ({
                let st = old(self)@;
                let k = project_id@;
                let still_current = current is Some && st.pending.contains(k)
                    && st.next_runs.contains_key(k) && st.next_runs[k].schedule == current->0@;
                &&& !still_current ==> r is Stale && final(self)@ == (StateView {
                    pending: st.pending.remove(k),
                    pending_due: st.pending_due.remove(k),
                    ..st
                }) && final(ops)@ == old(ops)@
                &&& still_current && old(ops)@.active.contains(k) ==> r is Deferred
                    && final(self)@ == st && final(ops)@ == old(ops)@
                &&& still_current && !old(ops)@.active.contains(k) ==> r is Started
                    && final(ops)@ == crate::operations::started(old(ops)@, k)
                    && r->Started_operation@ == k
                    && r->Started_due_ms == (if st.pending_due.contains_key(k) { st.pending_due[k] } else { now_ms })
                    && final(self)@ == claimed(st, k, r->Started_due_ms)
            }),
    {
        let still_current = match current {
            Some(schedule) => self.pending.contains_key(project_id) && match self.next_runs.get(project_id) {
                Some(next) => same_schedule(&next.schedule, schedule),
                None => false,
            },
            None => false,
        };
        if !still_current {
            self.pending.remove(project_id);
            self.pending_due.remove(project_id);
            assert(self@.pending =~= old(self)@.pending.remove(project_id@));
            return ClaimResult::Stale;
        }
        match ops.start_op(project_id) {
            Ok(operation) => {
                let due_ms = match self.pending_due.remove(project_id) {
                    Some(d) => d,
                    None => now_ms,
                };
                self.pending.remove(project_id);
                self.scheduled_running.insert(crate::text::copy_text(project_id), ());
                self.running_due.insert(crate::text::copy_text(project_id), due_ms);
                assert(self@.pending =~= old(self)@.pending.remove(project_id@));
                assert(self@.scheduled_running =~= old(self)@.scheduled_running.insert(project_id@));
                ClaimResult::Started { operation, due_ms }
            },
            Err(_) => ClaimResult::Deferred,
        }
    }

    /// A scheduled Push reached a terminal state. The occurrence it carried
    /// counts as completed for the project's current schedule (`current`,
    /// read from the config); returns whether the history must be written.
    pub fn finish_scheduled(&mut self, project_id: &str, due_ms: i64, current: Option<&Schedule>) -> (r: bool)
        requires
            old(self).wf(),
        ensures
            final(self).wf(),
            final(self)@.scheduled_running == old(self)@.scheduled_running.remove(project_id@),
            final(self)@.running_due == old(self)@.running_due.remove(project_id@),
            final(self)@.next_runs == old(self)@.next_runs,
            final(self)@.pending == old(self)@.pending,
            final(self)@.pending_due == old(self)@.pending_due,
            final(self)@.history_valid == old(self)@.history_valid,
            current is None ==> !r && final(self)@.persisted == old(self)@.persisted,
            current matches Some(s) ==> ({
                let st = old(self)@;
                let k = project_id@;
                let rec = finished_record(st, k, due_ms, s@);
                &&& final(self)@.persisted == st.persisted.insert(k, rec)
                &&& r == !(st.persisted.contains_key(k) && st.persisted[k] == rec)
            }),
    {
        self.scheduled_running.remove(project_id);
        self.running_due.remove(project_id);
        assert(self@.scheduled_running =~= old(self)@.scheduled_running.remove(project_id@));
        match current {
            Some(schedule) => {
                let sig = schedule_signature(schedule);
                let prior = match self.persisted.get(project_id) {
                    Some(p) => if same_text(p.signature.as_str(), sig.as_str()) {
                        p.last_completed_ms
                    } else {
                        None
                    },
                    None => None,
                };
                let last = match prior {
                    Some(l) => if l > due_ms { l } else { due_ms },
                    None => due_ms,
                };
                self.set_persisted(project_id, schedule, Some(last))
            },
            None => false,
        }
    }

    /// How long the scheduler may sleep: until the earliest next run among the
    /// scheduled projects, at least 100 ms and at most 30 s.
    pub fn next_wait_ms(&self, schedules: &Vec<ScheduledProject>, now: i64) -> (r: u64)
        requires
            self.wf(),
        ensures
            100 <= r <= 30_000,
            forall|j: int| 0 <= j < schedules@.len() && self@.next_runs.contains_key(#[trigger] schedules@[j].id@)
                ==> r <= (if self@.next_runs[schedules@[j].id@].due - now < 100 { 100 } else { self@.next_runs[schedules@[j].id@].due - now }),
            (exists|j: int| 0 <= j < schedules@.len() && self@.next_runs.contains_key(#[trigger] schedules@[j].id@)
                && r == (if self@.next_runs[schedules@[j].id@].due - now < 100 { 100 } else { self@.next_runs[schedules@[j].id@].due - now }))
                || r == 30_000,
    {
        let mut best: i128 = 30_000;
        let mut i: usize = 0;
        while i < schedules.len()
            invariant
                i <= schedules.len(),
                self.wf(),
                100 <= best <= 30_000,
                forall|j: int| 0 <= j < i && self@.next_runs.contains_key(#[trigger] schedules@[j].id@)
                    ==> best <= (if self@.next_runs[schedules@[j].id@].due - now < 100 { 100 } else { self@.next_runs[schedules@[j].id@].due - now }),
                (exists|j: int| 0 <= j < i && self@.next_runs.contains_key(#[trigger] schedules@[j].id@)
                    && best == (if self@.next_runs[schedules@[j].id@].due - now < 100 { 100 } else { self@.next_runs[schedules@[j].id@].due - now }))
                    || best == 30_000,
            decreases schedules.len() - i,
        {
            match self.next_runs.get(schedules[i].id.as_str()) {
                Some(next) => {
                    let until: i128 = next.due as i128 - now as i128;
                    let wait: i128 = if until < 100 { 100 } else { until };
                    if wait < best {
                        best = wait;
                    }
                },
                None => {},
            }
            i = i + 1;
        }
        best as u64
    }
}

/// Order due work oldest occurrence first (unknown occurrences last), then by
/// ID. With queueing on, at most one scheduled Push runs at a time: none
/// while one is running, else only the first.
pub open spec fn due_key(pending_due: Map<Seq<char>, i64>, id: Seq<char>) -> (i64, Seq<char>) {
    (if pending_due.contains_key(id) { pending_due[id] } else { i64::MAX }, id)
}

pub fn select_scheduled_work(
    due: Vec<String>,
    queue_enabled: bool,
    scheduled_running: bool,
    pending_due: &IdMap<i64>,
) -> (r: Vec<String>)
    requires
        pending_due.wf(),
    ensures
        ({
            let keyed = due@.map_values(|s: String| due_key(pending_due@, s@));
            let out = r@.map_values(|s: String| due_key(pending_due@, s@));
            if queue_enabled && scheduled_running {
                r@.len() == 0
            } else if queue_enabled {
                r@.len() == (if due@.len() == 0 { 0int } else { 1 })
                    && (r@.len() == 1 ==> keyed.contains(out[0]) && forall|j: int| 0 <= j < keyed.len() ==> !key_lt(#[trigger] keyed[j], out[0]))
            } else {
                sorted_keys(out) && out.to_multiset() == keyed.to_multiset()
            }
        }),
{
    let mut keyed: Vec<(i64, String)> = Vec::new();
    let mut i: usize = 0;
    while i < due.len()
        invariant
            i <= due.len(),
            pending_due.wf(),
            keyed@.len() == i,
            forall|j: int| 0 <= j < i ==> key_view(#[trigger] keyed@[j]) == due_key(pending_due@, due@[j]@),
        decreases due.len() - i,
    {
        let k = match pending_due.get(due[i].as_str()) {
            Some(d) => *d,
            None => i64::MAX,
        };
        keyed.push((k, due[i].clone()));
        i = i + 1;
    }
    let ghost kv = due@.map_values(|s: String| due_key(pending_due@, s@));
    assert(key_views(keyed@) =~= kv);
    let sorted = sort_keys(keyed);
    let mut out: Vec<String> = Vec::new();
    if queue_enabled && scheduled_running {
        return out;
    }
    let limit: usize = if queue_enabled && sorted.len() > 0 { 1 } else { sorted.len() };
    let mut m: usize = 0;
    while m < limit
        invariant
            m <= limit <= sorted.len(),
            out@.len() == m,
            forall|j: int| 0 <= j < m ==> (#[trigger] out@[j])@ == sorted@[j].1@,
        decreases limit - m,
    {
        out.push(sorted[m].1.clone());
        m = m + 1;
    }
    proof {
        let s = key_views(sorted@);
        assert forall|j: int| 0 <= j < out@.len() implies due_key(pending_due@, (#[trigger] out@[j])@) == s[j] by {
            assert(s.to_multiset().count(s[j]) > 0);
            assert(kv.contains(s[j]));
            let a = choose|a: int| 0 <= a < kv.len() && kv[a] == s[j];
            assert(kv[a] == due_key(pending_due@, due@[a]@));
        }
        let o = out@.map_values(|x: String| due_key(pending_due@, x@));
        if queue_enabled && sorted@.len() > 0 {
            assert(o[0] == s[0]);
            assert(s.to_multiset().count(s[0]) > 0);
            assert forall|j: int| 0 <= j < kv.len() implies !key_lt(#[trigger] kv[j], o[0]) by {
                assert(kv.to_multiset().count(kv[j]) > 0);
                assert(s.contains(kv[j]));
                let a = choose|a: int| 0 <= a < s.len() && s[a] == kv[j];
                lemma_key_lt_facts(s[0], s[0], s[0]);
                if a > 0 {
                    assert(!key_lt(s[a], s[0]));
                }
                assert(kv[j] == s[a]);
            }
        } else if !queue_enabled {
            assert(o =~= s);
        }
    }
    out
}

// ---------------------------------------------------------------------------
// What a pass works on, and what the UI shows.
/// The effective schedules of the config by project ID, as a map that a
/// later record with the same ID overwrites.
pub open spec fn schedules_of(ps: Seq<crate::model::ProjectView>) -> Map<Seq<char>, (Seq<char>, ScheduleView)>
    decreases ps.len(),
{
    if ps.len() == 0 {
        Map::empty()
    } else {
        let m = schedules_of(ps.drop_last());
        match ps.last().schedule {
            Some(s) => m.insert(ps.last().id, (ps.last().name, s)),
            None => m,
        }
    }
}

/// The (name, schedule) of each entry, by ID.
pub open spec fn entries_info(es: Seq<ScheduledProject>) -> Map<Seq<char>, (Seq<char>, ScheduleView)>
    decreases es.len(),
{
    if es.len() == 0 {
        Map::empty()
    } else {
        entries_info(es.drop_last()).insert(es.last().id@, (es.last().name@, es.last().schedule@))
    }
}

proof fn lemma_entries_info_update(es: Seq<ScheduledProject>, k: int, e: ScheduledProject)
    requires
        0 <= k < es.len(),
        unique_ids(entry_views(es)),
        e.id@ == es[k].id@,
    ensures
        entries_info(es.update(k, e)) == entries_info(es).insert(e.id@, (e.name@, e.schedule@)),
        unique_ids(entry_views(es.update(k, e))),
    decreases es.len(),
{
    let u = es.update(k, e);
    assert(entry_ids(entry_views(u)) =~= entry_ids(entry_views(es)));
    if k == es.len() - 1 {
        assert(u.drop_last() =~= es.drop_last());
        assert(entries_info(u) =~= entries_info(es).insert(e.id@, (e.name@, e.schedule@)));
    } else {
        let d = es.drop_last();
        assert(entry_ids(entry_views(d)) =~= entry_ids(entry_views(es)).drop_last());
        lemma_entries_info_update(d, k, e);
        assert(u.drop_last() =~= d.update(k, e));
        assert(u.last() == es.last());
        assert(entry_ids(entry_views(es))[k] != entry_ids(entry_views(es))[es.len() - 1]);
        assert(entries_info(u) =~= entries_info(es).insert(e.id@, (e.name@, e.schedule@)));
    }
}

fn find_entry(es: &Vec<ScheduledProject>, id: &str) -> (r: Option<usize>)
    ensures
        match r {
            Some(k) => k < es@.len() && es@[k as int].id@ == id@,
            None => !entry_ids(entry_views(es@)).contains(id@),
        },
{
    let mut k: usize = 0;
    while k < es.len()
        invariant
            k <= es.len(),
            forall|j: int| 0 <= j < k ==> es@[j].id@ != id@,
        decreases es.len() - k,
    {
        if same_text(es[k].id.as_str(), id) {
            return Some(k);
        }
        k = k + 1;
    }
    proof {
        if entry_ids(entry_views(es@)).contains(id@) {
            let j = choose|j: int| 0 <= j < entry_ids(entry_views(es@)).len() && entry_ids(entry_views(es@))[j] == id@;
            assert(es@[j].id@ == id@);
        }
    }
    None
}

/// An entry's occurrences at `now`: those `Schedule::next_after` and
/// `Schedule::latest_at_or_before` give.
pub open spec fn occurrences_at(e: EntryView, now: i64) -> bool {
    &&& crate::schedule::next_occurrence(e.schedule, now as int, e.next)
    &&& crate::schedule::latest_occurrence(e.schedule, now as int, e.latest)
}

/// The projects a scheduler pass at `now` works on: every project with an
/// effective schedule (a later record with the same ID wins), with its next
/// occurrence after `now` and its latest at or before `now`.
pub fn scheduled_projects(cfg: &crate::model::AppConfig, now: i64) -> (r: Vec<ScheduledProject>)
    requires
        crate::schedule::in_range(now as int),
    ensures
        unique_ids(entry_views(r@)),
        entries_info(r@) == schedules_of(cfg@.projects),
        forall|k: int| 0 <= k < r@.len() ==> occurrences_at((#[trigger] r@[k])@, now),
{
    let ghost ps = cfg@.projects;
    let mut out: Vec<ScheduledProject> = Vec::new();
    let mut i: usize = 0;
    while i < cfg.projects.len()
        invariant
            i <= cfg.projects.len(),
            ps == cfg@.projects,
            crate::schedule::in_range(now as int),
            unique_ids(entry_views(out@)),
            entries_info(out@) == schedules_of(ps.take(i as int)),
            forall|k: int| 0 <= k < out@.len() ==> occurrences_at((#[trigger] out@[k])@, now),
        decreases cfg.projects.len() - i,
    {
        assert(ps.take(i + 1).drop_last() =~= ps.take(i as int));
        assert(ps.take(i + 1).last() == ps[i as int]);
        let p = &cfg.projects[i];
        match &p.schedule {
            Some(s) => {
                let entry = ScheduledProject {
                    id: p.id.clone(),
                    name: p.name.clone(),
                    schedule: s.clone(),
                    next: s.next_after(now),
                    latest: s.latest_at_or_before(now),
                };
                let ghost before = out@;
                match find_entry(&out, p.id.as_str()) {
                    Some(k) => {
                        proof {
                            lemma_entries_info_update(before, k as int, entry);
                        }
                        out.set(k, entry);
                    },
                    None => {
                        out.push(entry);
                        proof {
                            assert(out@.drop_last() =~= before);
                            assert(entry_ids(entry_views(out@)) =~= entry_ids(entry_views(before)).push(p@.id));
                        }
                    },
                }
            },
            None => {},
        }
        i = i + 1;
    }
    assert(ps.take(cfg.projects.len() as int) =~= ps);
    out
}

/// The local wall-clock rendering of an instant, `%a %I:%M %p` (for example
/// "Sat 01:00 PM"), through `chrono`. It depends on the machine's time zone,
/// so nothing is claimed of it.
#[verifier::external_body]
fn local_time_label(ms: i64) -> (r: String) {
    match chrono::Local.timestamp_millis_opt(ms).single() {
        Some(t) => t.format("%a %I:%M %p").to_string(),
        None => String::new(),
    }
}

/// Whether the UI lists a project's schedule status: it has a schedule, a
/// pending ticket or an operation in flight.
pub open spec fn shows(st: Option<StateView>, active: Set<Seq<char>>) -> spec_fn(crate::model::ProjectView) -> bool {
    |p: crate::model::ProjectView| p.schedule is Some || active.contains(p.id) || (match st {
        Some(s) => s.pending.contains(p.id),
        None => false,
    })
}

/// What a status row says of a project. The next run is the one the
/// scheduler computed, else the schedule's next occurrence after `now`.
pub open spec fn row_matches(st: Option<StateView>, active: Set<Seq<char>>, now: i64, row: ScheduleStatus, p: crate::model::ProjectView) -> bool {
    &&& row.project_id@ == p.id
    &&& row.project@ == p.name
    &&& crate::model::sched_view(row.schedule) == p.schedule
    &&& row.running == active.contains(p.id)
    &&& match st {
        Some(s) => {
            &&& row.pending == s.pending.contains(p.id)
            &&& row.scheduled_running == s.scheduled_running.contains(p.id)
            &&& crate::model::text_view(row.warning) == s.history_warning
            &&& s.next_runs.contains_key(p.id) ==> row.next_run_ms == Some(s.next_runs[p.id].due)
        },
        None => !row.pending && !row.scheduled_running && row.warning is None,
    }
    &&& (st is None || !st->0.next_runs.contains_key(p.id)) ==> match p.schedule {
        None => row.next_run_ms is None,
        Some(sv) => crate::schedule::next_occurrence(sv, now as int, row.next_run_ms),
    }
    &&& row.next_run is Some <==> row.next_run_ms is Some
}

/// The schedule status the UI shows, in project order, for every project
/// that has a schedule, a pending ticket or an operation in flight. `state`
/// is the scheduler's state (None before it started), `active` the projects
/// with an operation in flight.
pub fn schedule_statuses(
    state: Option<&SchedulerState>,
    projects: &Vec<crate::model::Project>,
    active: &IdMap<()>,
    now: i64,
) -> (r: Vec<ScheduleStatus>)
    requires
        crate::schedule::in_range(now as int),
        active.wf(),
        state matches Some(s) ==> s.wf(),
    ensures
        ({
            let st = match state { Some(s) => Some(s@), None => None::<StateView> };
            let shown = crate::model::project_views(projects@).filter(shows(st, active@.dom()));
            &&& r@.len() == shown.len()
            &&& forall|k: int| 0 <= k < r@.len() ==> row_matches(st, active@.dom(), now, #[trigger] r@[k], shown[k])
        }),
{
    let ghost st = match state { Some(s) => Some(s@), None => None::<StateView> };
    let ghost ps = crate::model::project_views(projects@);
    let ghost pred = shows(st, active@.dom());
    let mut out: Vec<ScheduleStatus> = Vec::new();
    let mut i: usize = 0;
    while i < projects.len()
        invariant
            i <= projects.len(),
            crate::schedule::in_range(now as int),
            active.wf(),
            state matches Some(s) ==> s.wf(),
            st == match state { Some(s) => Some(s@), None => None::<StateView> },
            ps == crate::model::project_views(projects@),
            pred == shows(st, active@.dom()),
            out@.len() == ps.take(i as int).filter(pred).len(),
            forall|k: int| 0 <= k < out@.len() ==> row_matches(st, active@.dom(), now, #[trigger] out@[k], ps.take(i as int).filter(pred)[k]),
        decreases projects.len() - i,
    {
        proof {
            assert(ps.take(i + 1) =~= ps.take(i as int).push(ps[i as int]));
            ps.take(i as int).lemma_filter_push(ps[i as int], pred);
        }
        let p = &projects[i];
        let running = active.contains_key(p.id.as_str());
        let (next, pending, scheduled_running, warning) = match state {
            Some(s) => {
                let next = match s.next_runs.get(p.id.as_str()) {
                    Some(n) => Some(n.due),
                    None => None,
                };
                (
                    next,
                    s.pending.contains_key(p.id.as_str()),
                    s.scheduled_running.contains_key(p.id.as_str()),
                    crate::model::clone_opt_string(&s.history_warning),
                )
            },
            None => (None, false, false, None),
        };
        if p.schedule.is_some() || pending || running {
            let next_ms = match next {
                Some(t) => Some(t),
                None => match &p.schedule {
                    Some(s) => s.next_after(now),
                    None => None,
                },
            };
            let label = match next_ms {
                Some(t) => Some(local_time_label(t)),
                None => None,
            };
            let row = ScheduleStatus {
                project_id: p.id.clone(),
                project: p.name.clone(),
                schedule: crate::model::clone_opt_schedule(&p.schedule),
                next_run_ms: next_ms,
                next_run: label,
                pending,
                running,
                scheduled_running,
                warning,
            };
            assert(row_matches(st, active@.dom(), now, row, ps[i as int]));
            let ghost prev = out@;
            out.push(row);
            proof {
                assert forall|k: int| 0 <= k < out@.len() implies row_matches(st, active@.dom(), now, #[trigger] out@[k], ps.take(i + 1).filter(pred)[k]) by {
                    if k < prev.len() {
                        assert(out@[k] == prev[k]);
                    }
                }
            }
        }
        i = i + 1;
    }
    assert(ps.take(projects.len() as int) =~= ps);
    out
}

// ---------------------------------------------------------------------------
// The history file.
/// What reading the history file gave.
pub enum HistoryRead {
    /// There is no file. `initialized` tells whether the marker of a
    /// previously written history exists; `interrupted` whether a temporary
    /// file of an interrupted replacement is left (or why the directory
    /// could not be inspected).
    Missing { initialized: bool, interrupted: Result<bool, String> },
    /// The file exists but could not be read.
    Unreadable(String),
    /// The file's records, or why they do not parse.
    Parsed(Result<Vec<(String, PersistedSchedule)>, String>),
}

/// The history a process starts from: its records, whether they can be
/// trusted, and the warning to show. A history that existed once and is gone
/// now (or whose replacement was interrupted) fails closed.
pub fn history_from_read(read: HistoryRead) -> (r: (IdMap<PersistedSchedule>, bool, Option<String>))
    ensures
        r.0.wf(),
        match read {
            HistoryRead::Missing { initialized, interrupted } => match interrupted {
                Err(e) => r.0@.len() == 0 && !r.1 && crate::model::text_view(r.2) == Some(
                    "Could not inspect schedule history recovery files; automatic Pushes are disabled: "@ + e@,
                ),
                Ok(left) => if initialized || left {
                    r.0@.len() == 0 && !r.1 && crate::model::text_view(r.2) == Some(
                        "Schedule history is missing after an interrupted replacement; automatic Pushes are disabled"@,
                    )
                } else {
                    r.0@.len() == 0 && r.1 && r.2 is None
                },
            },
            HistoryRead::Unreadable(e) => r.0@.len() == 0 && !r.1 && crate::model::text_view(r.2) == Some(
                "Could not read schedule history; automatic Pushes are disabled: "@ + e@,
            ),
            HistoryRead::Parsed(Ok(v)) => r.0@ == map_of(v@) && r.1 && r.2 is None,
            HistoryRead::Parsed(Err(e)) => r.0@.len() == 0 && !r.1 && crate::model::text_view(r.2) == Some(
                "Could not parse schedule history; stale scheduled Pushes are disabled: "@ + e@,
            ),
        },
{
    let empty: IdMap<PersistedSchedule> = IdMap::new();
    match read {
        HistoryRead::Missing { initialized, interrupted } => match interrupted {
            Err(e) => {
                proof {
                    reveal_strlit("Could not inspect schedule history recovery files; automatic Pushes are disabled: ");
                }
                (
                    empty,
                    false,
                    Some(concat("Could not inspect schedule history recovery files; automatic Pushes are disabled: ", e.as_str())),
                )
            },
            Ok(left) => if initialized || left {
                proof {
                    reveal_strlit("Schedule history is missing after an interrupted replacement; automatic Pushes are disabled");
                }
                (
                    empty,
                    false,
                    Some(String::from_str("Schedule history is missing after an interrupted replacement; automatic Pushes are disabled")),
                )
            } else {
                (empty, true, None)
            },
        },
        HistoryRead::Unreadable(e) => {
            proof {
                reveal_strlit("Could not read schedule history; automatic Pushes are disabled: ");
            }
            (empty, false, Some(concat("Could not read schedule history; automatic Pushes are disabled: ", e.as_str())))
        },
        HistoryRead::Parsed(Ok(v)) => (IdMap::from_entries(v), true, None),
        HistoryRead::Parsed(Err(e)) => {
            proof {
                reveal_strlit("Could not parse schedule history; stale scheduled Pushes are disabled: ");
            }
            (empty, false, Some(concat("Could not parse schedule history; stale scheduled Pushes are disabled: ", e.as_str())))
        },
    }
}

/// Whether a directory listing holds a temporary file of an interrupted
/// history replacement (`<stem>.tmp-…`).
pub fn has_orphan_history_temp(names: &Vec<String>, stem: &str) -> (r: bool)
    ensures
        r == exists|i: int| 0 <= i < names@.len() && crate::text::has_prefix(#[trigger] names@[i]@, stem@ + ".tmp-"@),
{
    let prefix = concat(stem, ".tmp-");
    proof {
        reveal_strlit(".tmp-");
    }
    let mut i: usize = 0;
    while i < names.len()
        invariant
            i <= names.len(),
            prefix@ == stem@ + ".tmp-"@,
            forall|j: int| 0 <= j < i ==> !crate::text::has_prefix(#[trigger] names@[j]@, prefix@),
        decreases names.len() - i,
    {
        if crate::text::starts_with(names[i].as_str(), prefix.as_str()) {
            return true;
        }
        i = i + 1;
    }
    false
}

/// The device-local history file of device `device_id` in `data_dir`.
pub fn persisted_path(data_dir: &str, device_id: &str) -> (r: String)
    ensures
        r@ == crate::selection::path_join(data_dir@, "schedule-state-"@ + device_id@ + ".json"@),
{
    proof {
        reveal_strlit("schedule-state-");
        reveal_strlit(".json");
    }
    let name = crate::text::concat3("schedule-state-", device_id, ".json");
    crate::selection::join_path(data_dir, name.as_str())
}

/// The marker written beside the history the first time it is saved, so
/// that a history missing later is known to have been lost.
pub fn history_marker_path(data_dir: &str, device_id: &str) -> (r: String)
    ensures
        r@ == crate::selection::path_join(data_dir@, "schedule-state-"@ + device_id@ + ".initialized"@),
{
    proof {
        reveal_strlit("schedule-state-");
        reveal_strlit(".initialized");
    }
    let name = crate::text::concat3("schedule-state-", device_id, ".initialized");
    crate::selection::join_path(data_dir, name.as_str())
}

// ---------------------------------------------------------------------------
// Laws of a scheduler pass.
/// A pass keeps no ticket for a project that no longer has a schedule, and
/// never releases it as work: disabling or deleting a schedule drops its
/// pending Push.
pub proof fn law_unscheduled_projects_have_no_work(
    st: StateView,
    es: Seq<EntryView>,
    now: i64,
    active: Set<Seq<char>>,
    k: Seq<char>,
)
    requires
        !entry_ids(es).contains(k),
    ensures
        !reconciled(st, es, now).pending.contains(k),
        !reconciled(st, es, now).next_runs.contains_key(k),
        !work_set(st, es, now, active).contains(k),
{
    lemma_outcome_keys(st, es, now, k);
}

proof fn lemma_frozen_outcome(st: StateView, es: Seq<EntryView>, now: i64)
    requires
        !st.history_valid,
    ensures
        outcome(st, es, now).pending == Set::<Seq<char>>::empty(),
        outcome(st, es, now).pending_due == Map::<Seq<char>, i64>::empty(),
        !outcome(st, es, now).changed,
    decreases es.len(),
{
    if es.len() > 0 {
        lemma_frozen_outcome(st, es.drop_last(), now);
    }
}

/// While the history cannot be trusted (unreadable, or a write failed),
/// schedules stay visible but nothing is queued, released or recorded.
pub proof fn law_untrusted_history_queues_nothing(st: StateView, es: Seq<EntryView>, now: i64, active: Set<Seq<char>>)
    requires
        !st.history_valid,
    ensures
        reconciled(st, es, now).pending == Set::<Seq<char>>::empty(),
        reconciled(st, es, now).pending_due == Map::<Seq<char>, i64>::empty(),
        work_set(st, es, now, active) == Set::<Seq<char>>::empty(),
        !outcome(st, es, now).changed,
{
    lemma_frozen_outcome(st, es, now);
}

/// A schedule created or changed while the app runs starts at its next
/// future occurrence: an occurrence collected under the old cadence is
/// dropped, never pushed.
pub proof fn law_changed_schedule_drops_pending(st: StateView, es: Seq<EntryView>, now: i64, j: int)
    requires
        unique_ids(es),
        0 <= j < es.len(),
        !st.startup,
        st.next_runs.contains_key(es[j].id) ==> st.next_runs[es[j].id].schedule != es[j].schedule,
    ensures
        !reconciled(st, es, now).pending.contains(es[j].id),
        !outcome(st, es, now).worked.contains(es[j].id),
{
    lemma_outcome_at(st, es, now, j);
}

/// A pending ticket waits for its project: while the history is trusted and
/// the schedule unchanged, a pass keeps the one pending Push of the project,
/// releases it when no operation holds the project, and never while one
/// does.
pub proof fn law_pending_ticket_waits_for_a_busy_project(
    st: StateView,
    es: Seq<EntryView>,
    now: i64,
    active: Set<Seq<char>>,
    j: int,
)
    requires
        unique_ids(es),
        0 <= j < es.len(),
        st.history_valid,
        st.pending.contains(es[j].id),
        st.next_runs.contains_key(es[j].id),
        st.next_runs[es[j].id].schedule == es[j].schedule,
    ensures
        reconciled(st, es, now).pending.contains(es[j].id),
        !active.contains(es[j].id) ==> work_set(st, es, now, active).contains(es[j].id),
        active.contains(es[j].id) ==> !work_set(st, es, now, active).contains(es[j].id),
{
    lemma_outcome_at(st, es, now, j);
    let o = outcome(st, es, now);
    let k = es[j].id;
    if !active.contains(k) {
        assert(o.pending.filter(|x: Seq<char>| !active.contains(x)).contains(k));
    } else {
        assert(!o.pending.filter(|x: Seq<char>| !active.contains(x)).contains(k));
    }
}

/// A claimed occurrence is consumed once and, when its Push finishes under
/// the same schedule, recorded: the claim takes the pending ticket, and the
/// finish leaves the project not running, with a history record for that
/// schedule whose completion is at or after the occurrence.
pub proof fn law_finished_claim_is_recorded(st: StateView, k: Seq<char>, due: i64, s: ScheduleView)
    ensures
        ({
            let c = claimed(st, k, due);
            let rec = finished_record(c, k, due, s);
            &&& !c.pending.contains(k)
            &&& !c.pending_due.contains_key(k)
            &&& c.scheduled_running.contains(k)
            &&& !c.scheduled_running.remove(k).contains(k)
            &&& rec.signature == signature_of(s)
            &&& rec.last_completed_ms matches Some(l) && l >= due
        }),
{
}

/// A completed occurrence is not replayed: when a new process starts with a
/// history that records the project's schedule as completed at or after its
/// latest occurrence, the first pass queues nothing for it.
pub proof fn law_completed_occurrence_is_not_replayed(st: StateView, es: Seq<EntryView>, now: i64, j: int, completed: i64)
    requires
        unique_ids(es),
        0 <= j < es.len(),
        st.startup,
        st.history_valid,
        !st.next_runs.contains_key(es[j].id),
        st.persisted.contains_key(es[j].id),
        st.persisted[es[j].id] == (PersistedView {
            signature: signature_of(es[j].schedule),
            last_completed_ms: Some(completed),
        }),
        es[j].latest matches Some(l) ==> l <= completed,
    ensures
        !reconciled(st, es, now).pending.contains(es[j].id),
        !outcome(st, es, now).worked.contains(es[j].id),
{
    lemma_outcome_at(st, es, now, j);
}

/// Occurrences missed while the app was closed coalesce into one: on the
/// first pass, a project whose schedule is the one its history recorded, and
/// whose latest occurrence is after the last completed one, gets exactly one
/// pending Push, carrying that latest occurrence.
pub proof fn law_startup_replays_one_coalesced_occurrence(st: StateView, es: Seq<EntryView>, now: i64, j: int, latest: i64)
    requires
        unique_ids(es),
        0 <= j < es.len(),
        st.history_valid,
        st.startup,
        !st.next_runs.contains_key(es[j].id),
        st.persisted.contains_key(es[j].id),
        st.persisted[es[j].id].signature == signature_of(es[j].schedule),
        es[j].latest == Some(latest),
        st.persisted[es[j].id].last_completed_ms matches Some(c) ==> latest > c,
    ensures
        reconciled(st, es, now).pending.contains(es[j].id),
        reconciled(st, es, now).pending_due[es[j].id] == latest,
        outcome(st, es, now).worked.contains(es[j].id),
{
    lemma_outcome_at(st, es, now, j);
}

/// A schedule with no history yet is replayed on the first pass like one
/// whose history matches: with trusted history, a project that has no
/// history record and whose schedule has a latest occurrence gets exactly one
/// pending Push carrying that occurrence, is released as work whatever else
/// is running, and its history records the occurrence as completed.
pub proof fn law_startup_replays_a_schedule_without_history(
    st: StateView,
    es: Seq<EntryView>,
    now: i64,
    active: Set<Seq<char>>,
    j: int,
    latest: i64,
)
    requires
        unique_ids(es),
        0 <= j < es.len(),
        st.history_valid,
        st.startup,
        !st.next_runs.contains_key(es[j].id),
        !st.persisted.contains_key(es[j].id),
        es[j].latest == Some(latest),
    ensures
        reconciled(st, es, now).pending.contains(es[j].id),
        reconciled(st, es, now).pending_due[es[j].id] == latest,
        reconciled(st, es, now).persisted[es[j].id].last_completed_ms == Some(latest),
        reconciled(st, es, now).persisted[es[j].id].signature == signature_of(es[j].schedule),
        work_set(st, es, now, active).contains(es[j].id),
        outcome(st, es, now).changed,
{
    lemma_outcome_at(st, es, now, j);
}

} // verus!
