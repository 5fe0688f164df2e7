use chrono::{Local, TimeZone, Timelike};
use rcsync::schedule::{first_valid_with, weekly_occurrence_from, IntervalUnit, LocalTime, Schedule, LAST_DAY};
use std::cell::Cell;

const HOUR: i64 = 60 * 60 * 1000;

#[test]
fn weekly_schedule_returns_the_next_local_occurrence() {
    let now = Local
        .with_ymd_and_hms(2026, 8, 29, 12, 0, 0)
        .single()
        .unwrap();
    let schedule = Schedule::Weekly {
        weekdays: vec![6],
        minute: 13 * 60,
    };
    let next_ms = schedule.next_after(now.timestamp_millis()).unwrap();
    let next = Local.timestamp_millis_opt(next_ms).single().unwrap();
    assert_eq!(next.date_naive(), now.date_naive());
    assert_eq!(next.hour(), 13);
    assert_eq!(next.minute(), 0);
}

#[test]
fn weekly_latest_is_the_most_recent_local_occurrence() {
    let now = Local
        .with_ymd_and_hms(2026, 8, 29, 12, 0, 0)
        .single()
        .unwrap();
    let schedule = Schedule::Weekly {
        weekdays: vec![6],
        minute: 13 * 60,
    };
    let latest_ms = schedule.latest_at_or_before(now.timestamp_millis()).unwrap();
    let latest = Local.timestamp_millis_opt(latest_ms).single().unwrap();
    assert_eq!(
        latest.date_naive(),
        now.date_naive() - chrono::Duration::days(7)
    );
    assert_eq!(latest.hour(), 13);
}

#[test]
fn interval_days_are_exactly_24_elapsed_hours_and_skip_past_slots() {
    let now = Local
        .with_ymd_and_hms(2026, 8, 29, 12, 0, 0)
        .single()
        .unwrap()
        .timestamp_millis();
    let schedule = Schedule::Interval {
        every: 1,
        unit: IntervalUnit::Days,
        origin_ms: now - 49 * HOUR,
    };
    let next = schedule.next_after(now).unwrap();
    assert_eq!(next - now, 23 * 60 * 60 * 1000);
}

#[test]
fn interval_rebase_is_strictly_after_now() {
    let now = Local
        .with_ymd_and_hms(2026, 8, 29, 12, 0, 0)
        .single()
        .unwrap()
        .timestamp_millis();
    let schedule = Schedule::Interval {
        every: 1,
        unit: IntervalUnit::Hours,
        origin_ms: now,
    };
    assert!(schedule.next_after(now).unwrap() > now);
    assert_eq!(schedule.next_after(now), Some(now + HOUR));
}

#[test]
fn interval_latest_and_next_are_consecutive_slots() {
    let origin = 1_700_000_000_000i64;
    let schedule = Schedule::Interval {
        every: 24,
        unit: IntervalUnit::Hours,
        origin_ms: origin,
    };
    let now = origin + 72 * HOUR + 5;
    assert_eq!(schedule.latest_at_or_before(now), Some(origin + 72 * HOUR));
    assert_eq!(schedule.next_after(now), Some(origin + 96 * HOUR));
    // Before the first full period there is no past occurrence.
    assert_eq!(schedule.latest_at_or_before(origin + HOUR), None);
    assert_eq!(schedule.next_after(origin - 1), Some(origin));
}

#[test]
fn invalid_schedules_are_refused_and_have_no_occurrences() {
    let cases = [
        (
            Schedule::Interval {
                every: 0,
                unit: IntervalUnit::Hours,
                origin_ms: 1,
            },
            "Schedule interval must be at least 1",
        ),
        (
            Schedule::Interval {
                every: 1,
                unit: IntervalUnit::Hours,
                origin_ms: 0,
            },
            "Schedule interval origin must be a positive epoch timestamp",
        ),
        (
            Schedule::Weekly {
                weekdays: vec![],
                minute: 0,
            },
            "Weekly schedule needs at least one day",
        ),
        (
            Schedule::Weekly {
                weekdays: vec![1, 7],
                minute: 0,
            },
            "Weekly schedule days must be Sunday through Saturday",
        ),
        (
            Schedule::Weekly {
                weekdays: vec![1],
                minute: 1440,
            },
            "Weekly schedule time must be within a day",
        ),
    ];
    for (schedule, message) in cases {
        assert_eq!(schedule.validate().unwrap_err(), message);
        assert_eq!(schedule.next_after(1_700_000_000_000), None);
        assert_eq!(schedule.latest_at_or_before(1_700_000_000_000), None);
    }
    assert!(Schedule::Weekly {
        weekdays: vec![0, 6],
        minute: 1439
    }
    .validate()
    .is_ok());
}

#[test]
fn ambiguous_weekly_time_uses_the_first_local_occurrence() {
    let naive = 1_788_000_000_000i64;
    let result = first_valid_with(naive, |_| LocalTime::Ambiguous(1_000, 2_000)).unwrap();
    assert_eq!(result, 1_000);
}

#[test]
fn nonexistent_weekly_time_advances_to_the_first_valid_minute() {
    let naive = 1_788_000_000_000i64;
    let attempts = Cell::new(0);
    let result = first_valid_with(naive, |_| {
        attempts.set(attempts.get() + 1);
        if attempts.get() < 3 {
            LocalTime::Gap
        } else {
            LocalTime::Single(3_000)
        }
    })
    .unwrap();
    assert_eq!(attempts.get(), 3);
    assert_eq!(result, 3_000);
}

#[test]
fn a_gap_longer_than_the_search_window_has_no_valid_time() {
    assert_eq!(first_valid_with(0, |_| LocalTime::Gap), None);
}

#[test]
fn the_next_interval_occurrence_is_one_period_after_the_latest() {
    let now = Local
        .with_ymd_and_hms(2026, 8, 29, 12, 0, 0)
        .single()
        .unwrap()
        .timestamp_millis();
    let schedule = Schedule::Interval {
        every: 5,
        unit: IntervalUnit::Hours,
        origin_ms: now - 12 * HOUR - 17,
    };
    let next = schedule.next_after(now).unwrap();
    let latest = schedule.latest_at_or_before(now).unwrap();
    assert_eq!(next - latest, 5 * HOUR);
    assert!(latest <= now && now < next);
    assert_eq!(latest, now - 2 * HOUR - 17);
}

#[test]
fn weekly_pick_takes_the_first_selected_day_after_now() {
    // Day 20000 after the epoch is a Friday.
    let mut candidates = vec![None; 8];
    candidates[0] = Some(500);
    candidates[1] = Some(2_000);
    candidates[2] = Some(3_000);
    assert_eq!(weekly_occurrence_from(true, 20_000, &vec![5, 6], 1_000, &candidates), Some(2_000));
    // Days that are not selected are skipped whatever they resolved to:
    // Sunday is day 20002.
    assert_eq!(weekly_occurrence_from(true, 20_000, &vec![0], 100, &candidates), Some(3_000));
    assert_eq!(weekly_occurrence_from(true, 20_000, &vec![1], 100, &candidates), None);
    assert_eq!(weekly_occurrence_from(true, 20_000, &vec![0, 5], 100, &candidates), Some(500));
}

#[test]
fn weekly_pick_backward_takes_the_latest_at_or_before_now() {
    let mut candidates = vec![None; 8];
    candidates[0] = Some(5_000);
    candidates[7] = Some(700);
    // Day 19993, seven days before Friday 20000, is a Friday too.
    assert_eq!(weekly_occurrence_from(false, 20_000, &vec![5], 1_000, &candidates), Some(700));
    assert_eq!(weekly_occurrence_from(false, 20_000, &vec![5], 5_000, &candidates), Some(5_000));
}

#[test]
fn weekly_pick_stops_at_the_end_of_the_calendar() {
    let candidates = vec![Some(10), Some(20), Some(30), None, None, None, None, None];
    assert_eq!(
        weekly_occurrence_from(true, LAST_DAY, &vec![0, 1, 2, 3, 4, 5, 6], 15, &candidates),
        None
    );
    assert_eq!(
        weekly_occurrence_from(true, LAST_DAY, &vec![0, 1, 2, 3, 4, 5, 6], 5, &candidates),
        Some(10)
    );
}

#[test]
fn weekly_next_after_a_passed_slot_is_a_week_later_on_the_same_weekday() {
    let now = Local
        .with_ymd_and_hms(2026, 8, 29, 14, 0, 0)
        .single()
        .unwrap();
    let schedule = Schedule::Weekly {
        weekdays: vec![6],
        minute: 13 * 60,
    };
    let next_ms = schedule.next_after(now.timestamp_millis()).unwrap();
    let next = Local.timestamp_millis_opt(next_ms).single().unwrap();
    assert_eq!(next.date_naive(), now.date_naive() + chrono::Duration::days(7));
    assert_eq!(next.hour(), 13);
    let wednesday = Schedule::Weekly {
        weekdays: vec![3],
        minute: 9 * 60 + 30,
    };
    let next_ms = wednesday.next_after(now.timestamp_millis()).unwrap();
    let next = Local.timestamp_millis_opt(next_ms).single().unwrap();
    assert_eq!(next.date_naive(), now.date_naive() + chrono::Duration::days(4));
    assert_eq!((next.hour(), next.minute()), (9, 30));
}
