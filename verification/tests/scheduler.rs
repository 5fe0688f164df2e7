use chrono::{Local, TimeZone};
use rcsync::idmap::IdMap;
use rcsync::operations::OpRegistry;
use rcsync::schedule::{IntervalUnit, Schedule};
use rcsync::scheduler::{
    has_orphan_history_temp, history_from_read, history_marker_path, persisted_path,
    schedule_signature, select_scheduled_work, ClaimResult, HistoryRead, NextRun,
    PersistedSchedule, ScheduledProject, SchedulerState,
};

const HOUR: i64 = 60 * 60 * 1000;

fn noon() -> i64 {
    Local
        .with_ymd_and_hms(2026, 8, 29, 12, 0, 0)
        .single()
        .unwrap()
        .timestamp_millis()
}

fn hours(every: u32, origin_ms: i64) -> Schedule {
    Schedule::Interval {
        every,
        unit: IntervalUnit::Hours,
        origin_ms,
    }
}

fn idle_state() -> SchedulerState {
    SchedulerState::default()
}

fn entry(id: &str, name: &str, schedule: Schedule, now: i64) -> ScheduledProject {
    let next = schedule.next_after(now);
    let latest = schedule.latest_at_or_before(now);
    ScheduledProject {
        id: id.into(),
        name: name.into(),
        schedule,
        next,
        latest,
    }
}

fn set_of(ids: &[&str]) -> IdMap<()> {
    let mut m = IdMap::new();
    for id in ids {
        m.insert(id.to_string(), ());
    }
    m
}

/// One scheduler pass whose history writes (when needed) succeed.
fn pass(
    state: &mut SchedulerState,
    now: i64,
    schedules: &Vec<ScheduledProject>,
    active: &IdMap<()>,
) -> Vec<String> {
    let step = state.reconcile_state(now, schedules, active);
    let write = if step.persist { Some(Ok(())) } else { None };
    state.release_work(step, write)
}

#[test]
fn busy_project_keeps_one_pending_occurrence_until_free() {
    let now = noon();
    let schedules = vec![entry("p", "p", hours(1, now - HOUR), now)];
    let mut state = idle_state();
    state.next_runs.insert(
        "p".into(),
        NextRun {
            schedule: hours(1, now - HOUR),
            due: now,
        },
    );
    assert_eq!(pass(&mut state, now, &schedules, &set_of(&["p"])), vec!["p"]);
    assert!(state.pending.contains_key("p"));
    assert_eq!(state.pending.len(), 1);
    assert_eq!(pass(&mut state, now, &schedules, &IdMap::new()), vec!["p"]);
}

#[test]
fn disabling_or_changing_a_schedule_drops_old_pending_work() {
    let now = noon();
    let mut state = idle_state();
    state.next_runs.insert(
        "p".into(),
        NextRun {
            schedule: hours(1, now - HOUR),
            due: now,
        },
    );
    state.pending.insert("p".into(), ());
    assert!(pass(&mut state, now, &Vec::new(), &IdMap::new()).is_empty());
    assert!(!state.pending.contains_key("p"));
    assert!(!state.next_runs.contains_key("p"));

    state.next_runs.insert(
        "p".into(),
        NextRun {
            schedule: hours(1, now - HOUR),
            due: now,
        },
    );
    state.pending.insert("p".into(), ());
    let schedules = vec![entry("p", "p", hours(2, now), now)];
    assert!(pass(&mut state, now, &schedules, &IdMap::new()).is_empty());
    assert!(!state.pending.contains_key("p"));
    assert_eq!(state.next_runs.get("p").unwrap().schedule, hours(2, now));
}

#[test]
fn queueing_allows_one_scheduled_push_and_leaves_the_rest_pending() {
    let due = vec![String::from("a"), String::from("b")];
    let pending_due: IdMap<i64> = IdMap::new();
    assert_eq!(
        select_scheduled_work(due.clone(), true, false, &pending_due),
        vec!["a"]
    );
    assert!(select_scheduled_work(due.clone(), true, true, &pending_due).is_empty());
    assert_eq!(
        select_scheduled_work(due, false, true, &pending_due),
        vec!["a", "b"]
    );
}

#[test]
fn oldest_pending_project_is_selected_before_lexicographically_earlier_work() {
    let due = vec![String::from("newer"), String::from("older")];
    let pending_due = IdMap::from_entries(vec![
        (String::from("newer"), 200_i64),
        (String::from("older"), 100_i64),
    ]);
    assert_eq!(
        select_scheduled_work(due, true, false, &pending_due),
        vec!["older"]
    );
}

#[test]
fn unknown_occurrences_run_after_known_ones_and_ties_go_by_id() {
    let due = vec![String::from("c"), String::from("b"), String::from("a")];
    let pending_due = IdMap::from_entries(vec![
        (String::from("c"), 50_i64),
        (String::from("b"), 50_i64),
    ]);
    assert_eq!(
        select_scheduled_work(due, false, false, &pending_due),
        vec!["b", "c", "a"]
    );
}

#[test]
fn a_busy_multi_occurrence_ticket_records_the_latest_due() {
    let now = noon();
    let mut state = idle_state();
    state.next_runs.insert(
        "p".into(),
        NextRun {
            schedule: hours(1, now - 3 * HOUR),
            due: now,
        },
    );
    state.pending.insert("p".into(), ());
    state.pending_due.insert("p".into(), now - HOUR);
    let schedules = vec![entry("p", "project", hours(1, now - 3 * HOUR), now)];

    pass(&mut state, now, &schedules, &set_of(&["project"]));

    assert_eq!(state.pending_due.get("p"), Some(&now));
}

#[test]
fn cancel_all_discards_only_in_memory_pending_tickets() {
    let now = noon();
    let schedule = Schedule::Interval {
        every: 24,
        unit: IntervalUnit::Hours,
        origin_ms: now,
    };
    let due_ms = now - 1;
    let mut state = idle_state();
    state.pending.insert("p".into(), ());
    state.pending_due.insert("p".into(), due_ms);
    state.persisted.insert(
        "p".into(),
        PersistedSchedule {
            signature: schedule_signature(&schedule),
            last_completed_ms: Some(due_ms),
        },
    );

    assert_eq!(state.clear_all_pending(), 1);
    assert_eq!(state.pending.len(), 0);
    assert_eq!(state.pending_due.len(), 0);
    assert_eq!(
        state.persisted.get("p").unwrap().last_completed_ms,
        Some(due_ms)
    );
}

#[test]
fn malformed_history_disables_startup_stale_replay() {
    let (records, valid, warning) =
        history_from_read(HistoryRead::Parsed(Err(String::from("expected value"))));
    assert!(!valid);
    assert!(warning.is_some());

    let now = noon();
    let schedules = vec![entry("p", "project", hours(24, now - 72 * HOUR), now)];
    let mut state = SchedulerState::new(records, valid, warning);
    assert!(state.startup);
    assert!(pass(&mut state, now, &schedules, &IdMap::new()).is_empty());
    assert_eq!(state.pending.len(), 0);
    assert!(state.next_runs.get("p").unwrap().due > now);
}

#[test]
fn history_write_failure_prevents_start_and_stale_replay() {
    let now = noon();
    let schedules = vec![entry("p", "project", hours(24, now - 24 * HOUR), now)];
    let mut state = idle_state();
    state.next_runs.insert(
        "p".into(),
        NextRun {
            schedule: hours(24, now - 24 * HOUR),
            due: now,
        },
    );

    let step = state.reconcile_state(now, &schedules, &IdMap::new());
    assert!(step.persist, "the consumed occurrence must be written first");
    let work = state.release_work(step, Some(Err(String::from("Not a directory"))));
    assert!(work.is_empty(), "unwritten occurrence must not be released");
    assert!(!state.history_valid);
    assert!(state
        .history_warning
        .as_deref()
        .is_some_and(|warning| warning.contains("automatic Pushes are disabled")));

    // A new process that cannot read the same history fails closed as well.
    let (_, valid_after_restart, warning_after_restart) =
        history_from_read(HistoryRead::Unreadable(String::from("Not a directory")));
    assert!(!valid_after_restart);
    assert!(warning_after_restart.is_some());
}

#[test]
fn interrupted_history_replacement_fails_closed() {
    let now = noon();
    let stem = "schedule-state-dev";
    let listing = vec![
        String::from("schedule-state-dev.initialized"),
        String::from("schedule-state-dev.tmp-orphan"),
    ];
    assert!(has_orphan_history_temp(&listing, stem));

    let (records, history_valid, warning) = history_from_read(HistoryRead::Missing {
        initialized: true,
        interrupted: Ok(true),
    });
    assert!(!history_valid);
    assert!(warning
        .as_deref()
        .is_some_and(|warning| warning.contains("interrupted replacement")));

    let schedules = vec![entry("p", "project", hours(24, now - 24 * HOUR), now)];
    let mut state = SchedulerState::new(records, history_valid, warning);
    assert!(pass(&mut state, now, &schedules, &IdMap::new()).is_empty());
    assert_eq!(state.pending.len(), 0);
    assert!(state.next_runs.get("p").unwrap().due > now);
}

#[test]
fn a_missing_history_that_was_never_written_is_a_fresh_start() {
    let (records, valid, warning) = history_from_read(HistoryRead::Missing {
        initialized: false,
        interrupted: Ok(false),
    });
    assert!(valid);
    assert!(warning.is_none());
    assert_eq!(records.len(), 0);
    assert!(!has_orphan_history_temp(
        &vec![String::from("schedule-state-dev.json")],
        "schedule-state-dev"
    ));
}

#[test]
fn history_files_are_named_per_device() {
    let state = persisted_path("/data", "dev-1");
    let marker = history_marker_path("/data", "dev-1");
    assert_eq!(state, "/data/schedule-state-dev-1.json");
    assert_eq!(marker, "/data/schedule-state-dev-1.initialized");
}

#[test]
fn scheduled_push_keeps_claim_and_cancellation_by_id_across_rename() {
    let id = "p_rename";
    let schedule = hours(24, 1);
    let now = noon();
    let mut ops = OpRegistry::new();
    let mut state = idle_state();
    state.next_runs.insert(
        id.into(),
        NextRun {
            schedule: hours(24, 1),
            due: now,
        },
    );
    state.pending.insert(id.into(), ());
    state.pending_due.insert(id.into(), now);

    let operation = match state.claim_due(&mut ops, id, Some(&schedule), now) {
        ClaimResult::Started { operation, due_ms } => {
            assert_eq!(due_ms, now);
            operation
        }
        ClaimResult::Stale => panic!("the current schedule must remain claimable"),
        ClaimResult::Deferred => panic!("the ID must not be busy"),
    };
    assert_eq!(operation.name(), id);

    // The project is renamed: the claim and the cancel still go by its ID.
    assert!(ops.request_cancel(id));
    assert!(ops.check_cancelled(id).is_err());
    assert!(ops.is_active(id));
    assert!(state.scheduled_running.contains_key(id));

    // A second claim while the first runs is deferred, not doubled.
    state.pending.insert(id.into(), ());
    assert!(matches!(
        state.claim_due(&mut ops, id, Some(&schedule), now),
        ClaimResult::Deferred
    ));
    assert!(state.pending.contains_key(id));
    ops.finish_op(operation);
}

#[test]
fn startup_replays_one_coalesced_stale_occurrence() {
    let now = noon();
    let schedule = hours(24, now - 72 * HOUR);
    let latest = schedule.latest_at_or_before(now).unwrap();
    let mut state = idle_state();
    state.startup = true;
    state.persisted.insert(
        String::from("p"),
        PersistedSchedule {
            signature: schedule_signature(&schedule),
            last_completed_ms: Some(latest - 24 * HOUR),
        },
    );
    let schedules = vec![entry("p", "p", schedule, now)];
    assert_eq!(pass(&mut state, now, &schedules, &IdMap::new()), vec!["p"]);
    assert_eq!(state.pending.len(), 1);
    assert_eq!(state.pending_due.get("p"), Some(&latest));
    assert_eq!(
        state.persisted.get("p").unwrap().last_completed_ms,
        Some(latest)
    );
    assert!(state.next_runs.get("p").unwrap().due > now);
    assert!(!state.startup);
}

#[test]
fn a_disabled_schedule_cannot_claim_a_stale_due_ticket() {
    let now = noon();
    let mut ops = OpRegistry::new();
    let mut state = idle_state();
    state.next_runs.insert(
        "p_stale".into(),
        NextRun {
            schedule: hours(1, now),
            due: now,
        },
    );
    state.pending.insert("p_stale".into(), ());

    // The project's current record has no schedule any more.
    assert!(matches!(
        state.claim_due(&mut ops, "p_stale", None, now),
        ClaimResult::Stale
    ));
    assert!(!ops.is_active("p_stale"));
    assert!(!state.pending.contains_key("p_stale"));
}

#[test]
fn a_changed_schedule_cannot_claim_a_ticket_of_the_old_cadence() {
    let now = noon();
    let mut ops = OpRegistry::new();
    let mut state = idle_state();
    state.next_runs.insert(
        "p".into(),
        NextRun {
            schedule: hours(1, now),
            due: now,
        },
    );
    state.pending.insert("p".into(), ());
    assert!(matches!(
        state.claim_due(&mut ops, "p", Some(&hours(2, now)), now),
        ClaimResult::Stale
    ));
    assert!(!ops.is_active("p"));
}

#[test]
fn a_finished_scheduled_push_records_its_occurrence() {
    let now = noon();
    let schedule = hours(1, now);
    let mut state = idle_state();
    state.scheduled_running.insert("p".into(), ());
    state.running_due.insert("p".into(), now - HOUR);
    state.persisted.insert(
        "p".into(),
        PersistedSchedule {
            signature: schedule_signature(&schedule),
            last_completed_ms: Some(now - 2 * HOUR),
        },
    );
    assert!(state.finish_scheduled("p", now - HOUR, Some(&schedule)));
    assert!(!state.scheduled_running.contains_key("p"));
    assert_eq!(
        state.persisted.get("p").unwrap().last_completed_ms,
        Some(now - HOUR)
    );
    // The same completion again changes nothing and needs no write.
    state.scheduled_running.insert("p".into(), ());
    assert!(!state.finish_scheduled("p", now - HOUR, Some(&schedule)));
}

#[test]
fn the_scheduler_sleeps_until_the_earliest_next_run_within_bounds() {
    let now = noon();
    let mut state = idle_state();
    let schedules = vec![
        entry("a", "a", hours(1, now), now),
        entry("b", "b", hours(1, now), now),
    ];
    assert_eq!(state.next_wait_ms(&schedules, now), 30_000);
    state.next_runs.insert(
        "a".into(),
        NextRun {
            schedule: hours(1, now),
            due: now + 5_000,
        },
    );
    state.next_runs.insert(
        "b".into(),
        NextRun {
            schedule: hours(1, now),
            due: now + 2_000,
        },
    );
    assert_eq!(state.next_wait_ms(&schedules, now), 2_000);
    state.next_runs.insert(
        "b".into(),
        NextRun {
            schedule: hours(1, now),
            due: now - 10,
        },
    );
    assert_eq!(state.next_wait_ms(&schedules, now), 100);
}

#[test]
fn a_completed_occurrence_is_not_replayed_after_a_restart() {
    let now = noon();
    let schedule = hours(24, now - 72 * HOUR);
    let latest = schedule.latest_at_or_before(now).unwrap();
    let mut running = idle_state();
    running.scheduled_running.insert("p".into(), ());
    running.running_due.insert("p".into(), latest);
    assert!(running.finish_scheduled("p", latest, Some(&schedule)));

    // A new process starts from the history that was written.
    let history = IdMap::from_entries(
        running
            .persisted
            .entries()
            .iter()
            .map(|(k, v)| (k.clone(), v.clone()))
            .collect(),
    );
    let mut restarted = SchedulerState::new(history, true, None);
    let schedules = vec![entry("p", "p", schedule, now)];
    assert!(pass(&mut restarted, now, &schedules, &IdMap::new()).is_empty());
    assert_eq!(restarted.pending.len(), 0);
}

#[test]
fn a_schedule_signature_is_its_compact_json_form() {
    assert_eq!(
        schedule_signature(&hours(1, 5)),
        "{\"kind\":\"interval\",\"every\":1,\"unit\":\"hours\",\"origin_ms\":5}"
    );
    assert_eq!(
        schedule_signature(&Schedule::Interval {
            every: 2,
            unit: IntervalUnit::Days,
            origin_ms: -3,
        }),
        "{\"kind\":\"interval\",\"every\":2,\"unit\":\"days\",\"origin_ms\":-3}"
    );
    assert_eq!(
        schedule_signature(&Schedule::Weekly {
            weekdays: vec![1, 3, 5],
            minute: 540,
        }),
        "{\"kind\":\"weekly\",\"weekdays\":[1,3,5],\"minute\":540}"
    );
    assert_eq!(
        schedule_signature(&Schedule::Weekly {
            weekdays: vec![],
            minute: 0,
        }),
        "{\"kind\":\"weekly\",\"weekdays\":[],\"minute\":0}"
    );
}

#[test]
fn the_default_state_is_idle_with_a_trusted_history() {
    let s = SchedulerState::default();
    assert!(!s.startup);
    assert!(s.history_valid);
    assert!(s.history_warning.is_none());
    assert_eq!(s.pending.len(), 0);
    assert_eq!(s.next_runs.len(), 0);
    let fresh = SchedulerState::new(IdMap::new(), true, None);
    assert!(fresh.startup);
}
