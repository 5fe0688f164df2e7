//! Push schedules: validation, the anchored interval cadence, and weekly
//! occurrences that follow local wall-clock rules.
//!
//! Instants are Unix epoch milliseconds. A "wall-clock millisecond" is the
//! local date and time written as if it were UTC, which is how a naive local
//! date-time is counted here.
use chrono::Datelike;
use chrono::TimeZone;
use vstd::prelude::*;

verus! {

pub const HOUR_MS: i64 = 3_600_000;

pub const DAY_MS: i64 = 86_400_000;

pub const MINUTE_MS: i64 = 60_000;

/// Day number (days after 1970-01-01) of the last date the calendar library
/// represents, +262142-12-31.
pub const LAST_DAY: i64 = 95_026_236;

/// Day number of the first representable date, -262143-01-01.
pub const FIRST_DAY: i64 = -96_465_293;

/// Days from 0001-01-01 (day 1 of the common era) to 1970-01-01.
pub const EPOCH_DAYS_FROM_CE: i64 = 719_163;

/// The earliest and latest representable instants (and wall-clock values).
pub open spec fn first_ms() -> int {
    FIRST_DAY * DAY_MS
}

pub open spec fn last_ms() -> int {
    LAST_DAY * DAY_MS + DAY_MS - 1
}

pub open spec fn in_range(ms: int) -> bool {
    first_ms() <= ms <= last_ms()
}

/// The two interval units mean elapsed time, not local clock time: a day is
/// exactly 24 hours.
#[derive(Debug, Clone, Copy, PartialEq, Eq)]
pub enum IntervalUnit {
    Hours,
    Days,
}

#[derive(Debug, PartialEq, Eq)]
pub enum Schedule {
    /// `origin_ms` anchors the cadence and is never moved by a manual Push.
    Interval { every: u32, unit: IntervalUnit, origin_ms: i64 },
    /// `weekdays` run Sunday = 0 through Saturday = 6; `minute` counts minutes
    /// after local midnight.
    Weekly { weekdays: Vec<u8>, minute: u16 },
}

/// A plain-value picture of a schedule.
pub enum ScheduleView {
    Interval { every: u32, unit: IntervalUnit, origin_ms: i64 },
    Weekly { weekdays: Seq<u8>, minute: u16 },
}

impl View for Schedule {
    type V = ScheduleView;

    open spec fn view(&self) -> ScheduleView {
        match self {
            Schedule::Interval { every, unit, origin_ms } => ScheduleView::Interval {
                every: *every,
                unit: *unit,
                origin_ms: *origin_ms,
            },
            Schedule::Weekly { weekdays, minute } => ScheduleView::Weekly {
                weekdays: weekdays@,
                minute: *minute,
            },
        }
    }
}

impl Clone for Schedule {
    fn clone(&self) -> (r: Self)
        ensures
            r@ == self@,
    {
        match self {
            Schedule::Interval { every, unit, origin_ms } => Schedule::Interval {
                every: *every,
                unit: *unit,
                origin_ms: *origin_ms,
            },
            Schedule::Weekly { weekdays, minute } => {
                let w = weekdays.clone();
                assert(w@ =~= weekdays@);
                Schedule::Weekly { weekdays: w, minute: *minute }
            },
        }
    }
}

pub open spec fn unit_ms(unit: IntervalUnit) -> int {
    match unit {
        IntervalUnit::Hours => HOUR_MS as int,
        IntervalUnit::Days => DAY_MS as int,
    }
}

/// The first rule a schedule breaks, as the message that reports it.
pub open spec fn validation_error(s: ScheduleView) -> Option<Seq<char>> {
    match s {
        ScheduleView::Interval { every, origin_ms, .. } => if every == 0 {
            Some("Schedule interval must be at least 1"@)
        } else if origin_ms <= 0 {
            Some("Schedule interval origin must be a positive epoch timestamp"@)
        } else {
            None
        },
        ScheduleView::Weekly { weekdays, minute } => if weekdays.len() == 0 {
            Some("Weekly schedule needs at least one day"@)
        } else if exists|i: int| 0 <= i < weekdays.len() && #[trigger] weekdays[i] > 6 {
            Some("Weekly schedule days must be Sunday through Saturday"@)
        } else if minute >= 24 * 60 {
            Some("Weekly schedule time must be within a day"@)
        } else {
            None
        },
    }
}

pub open spec fn valid(s: ScheduleView) -> bool {
    validation_error(s) is None
}

impl Schedule {
    pub fn validate(&self) -> (r: Result<(), String>)
        ensures
            r is Ok <==> valid(self@),
            r matches Err(e) ==> Some(e@) == validation_error(self@),
    {
        match self {
            Schedule::Interval { every, origin_ms, .. } => {
                if *every == 0 {
                    return Err(String::from_str("Schedule interval must be at least 1"));
                }
                if *origin_ms <= 0 {
                    return Err(
                        String::from_str(
                            "Schedule interval origin must be a positive epoch timestamp",
                        ),
                    );
                }
            },
            Schedule::Weekly { weekdays, minute } => {
                if weekdays.len() == 0 {
                    return Err(String::from_str("Weekly schedule needs at least one day"));
                }
                let mut i: usize = 0;
                while i < weekdays.len()
                    invariant
                        i <= weekdays.len(),
                        weekdays.len() > 0,
                        self@ == (ScheduleView::Weekly { weekdays: weekdays@, minute: *minute }),
                        forall|j: int| 0 <= j < i ==> weekdays@[j] <= 6,
                    decreases weekdays.len() - i,
                {
                    if weekdays[i] > 6 {
                        assert(weekdays@[i as int] > 6);
                        return Err(
                            String::from_str("Weekly schedule days must be Sunday through Saturday"),
                        );
                    }
                    i = i + 1;
                }
                if *minute >= 24 * 60 {
                    return Err(String::from_str("Weekly schedule time must be within a day"));
                }
            },
        }
        Ok(())
    }
}

// ---------------------------------------------------------------------------
// The interval cadence: origin + k * period, for whole k.
/// The first occurrence strictly after `now`, before the representability
/// check; `None` where the arithmetic leaves the 64-bit range.
pub open spec fn interval_next(period: int, origin: int, now: int) -> Option<int> {
    if now < origin {
        Some(origin)
    } else {
        let k = (now - origin) / period + 1;
        if period * k <= i64::MAX && origin + period * k <= i64::MAX {
            Some(origin + period * k)
        } else {
            None
        }
    }
}

/// The latest occurrence at or before `now`; `None` when not even the first
/// full period has elapsed.
pub open spec fn interval_latest(period: int, origin: int, now: int) -> Option<int> {
    if now - origin < i64::MIN || now - origin < period {
        None
    } else {
        Some(origin + period * ((now - origin) / period))
    }
}

pub open spec fn in_range_opt(t: Option<int>) -> Option<int> {
    match t {
        Some(v) => if in_range(v) {
            Some(v)
        } else {
            None
        },
        None => None,
    }
}

pub open spec fn opt_int(t: Option<i64>) -> Option<int> {
    match t {
        Some(v) => Some(v as int),
        None => None,
    }
}

/// Whether an instant can be represented as a calendar date-time.
pub fn instant_representable(ms: i64) -> (r: bool)
    ensures
        r == in_range(ms as int),
{
    let first: i128 = (FIRST_DAY as i128) * (DAY_MS as i128);
    let last: i128 = (LAST_DAY as i128) * (DAY_MS as i128) + (DAY_MS as i128) - 1;
    first <= ms as i128 && ms as i128 <= last
}

pub fn interval_next_after(every: u32, unit: IntervalUnit, origin_ms: i64, now_ms: i64) -> (r:
    Option<i64>)
    requires
        every > 0,
        origin_ms > 0,
    ensures
        opt_int(r) == in_range_opt(interval_next(every * unit_ms(unit), origin_ms as int, now_ms as int)),
{
    let unit_len: i64 = match unit {
        IntervalUnit::Hours => HOUR_MS,
        IntervalUnit::Days => DAY_MS,
    };
    assert(every * unit_len <= 4_294_967_295 * 86_400_000) by (nonlinear_arith)
        requires
            every <= 4_294_967_295,
            0 < unit_len <= 86_400_000,
    ;
    let period: i64 = every as i64 * unit_len;
    assert(period > 0) by (nonlinear_arith)
        requires
            period == every * unit_len,
            every > 0,
            unit_len > 0,
    ;
    if now_ms < origin_ms {
        return if instant_representable(origin_ms) {
            Some(origin_ms)
        } else {
            None
        };
    }
    let elapsed: i64 = now_ms - origin_ms;
    let steps: i64 = elapsed / period + 1;
    assert(1 <= steps <= elapsed + 1) by (nonlinear_arith)
        requires
            steps == elapsed / period + 1,
            period > 0,
            elapsed >= 0,
    ;
    assert(period * steps <= (i64::MAX as int) * (i64::MAX as int)) by (nonlinear_arith)
        requires
            0 < period <= i64::MAX,
            0 < steps <= i64::MAX,
    ;
    let product: i128 = period as i128 * steps as i128;
    if product > i64::MAX as i128 || origin_ms as i128 + product > i64::MAX as i128 {
        return None;
    }
    let next: i64 = origin_ms + product as i64;
    if instant_representable(next) {
        Some(next)
    } else {
        None
    }
}

pub fn interval_latest_at_or_before(every: u32, unit: IntervalUnit, origin_ms: i64, now_ms: i64) -> (r:
    Option<i64>)
    requires
        every > 0,
        origin_ms > 0,
    ensures
        opt_int(r) == in_range_opt(interval_latest(every * unit_ms(unit), origin_ms as int, now_ms as int)),
{
    let unit_len: i64 = match unit {
        IntervalUnit::Hours => HOUR_MS,
        IntervalUnit::Days => DAY_MS,
    };
    assert(every * unit_len <= 4_294_967_295 * 86_400_000) by (nonlinear_arith)
        requires
            every <= 4_294_967_295,
            0 < unit_len <= 86_400_000,
    ;
    let period: i64 = every as i64 * unit_len;
    assert(period > 0) by (nonlinear_arith)
        requires
            period == every * unit_len,
            every > 0,
            unit_len > 0,
    ;
    let diff: i128 = now_ms as i128 - origin_ms as i128;
    if diff < i64::MIN as i128 || diff < period as i128 {
        return None;
    }
    let elapsed: i64 = diff as i64;
    let steps: i64 = elapsed / period;
    assert(0 <= period * steps <= elapsed) by (nonlinear_arith)
        requires
            steps == elapsed / period,
            period > 0,
            elapsed >= 0,
    ;
    let latest: i64 = origin_ms + period * steps;
    if instant_representable(latest) {
        Some(latest)
    } else {
        None
    }
}

// ---------------------------------------------------------------------------
// Local wall-clock resolution.
/// How the local time zone resolves one wall-clock minute.
#[derive(Debug, Clone, Copy, PartialEq, Eq)]
pub enum LocalTime {
    /// Exactly one instant has this wall-clock time.
    Single(i64),
    /// Two instants share it (a fall-back hour); earliest first.
    Ambiguous(i64, i64),
    /// No instant has it (a spring-forward gap).
    Gap,
}

pub open spec fn resolved(t: LocalTime) -> Option<i64> {
    match t {
        LocalTime::Single(v) => Some(v),
        LocalTime::Ambiguous(first, _) => Some(first),
        LocalTime::Gap => None,
    }
}

/// How many minutes after a wall-clock time are tried before giving up.
pub const SEARCH_MINUTES: i64 = 240;

/// The wall-clock value `k` minutes after `naive_ms`.
pub open spec fn minute_after(naive_ms: i64, k: int) -> i64 {
    (naive_ms + k * MINUTE_MS) as i64
}

/// `resolve` may answer a gap for the wall-clock value `m`.
pub open spec fn gap_at<F: Fn(i64) -> LocalTime>(resolve: F, m: i64) -> bool {
    exists|lt: LocalTime| #[trigger] resolve.ensures((m,), lt) && lt is Gap
}

/// `resolve` may answer `t` (the first instant) for the wall-clock value `m`.
pub open spec fn found_at<F: Fn(i64) -> LocalTime>(resolve: F, m: i64, t: i64) -> bool {
    exists|lt: LocalTime| #[trigger] resolve.ensures((m,), lt) && resolved(lt) == Some(t)
}

/// Resolve `naive_ms` to an instant, advancing one minute at a time through
/// a gap (at most `SEARCH_MINUTES`). An ambiguous time takes its first
/// occurrence. Wall-clock values past the representable range end the search.
pub fn first_valid_with<F: Fn(i64) -> LocalTime>(naive_ms: i64, resolve: F) -> (r: Option<i64>)
    requires
        in_range(naive_ms as int),
        forall|m: i64| #[trigger] resolve.requires((m,)),
    ensures
        r matches Some(t) ==> exists|k: int|
            0 <= k <= SEARCH_MINUTES && naive_ms + k * MINUTE_MS <= last_ms() && #[trigger] found_at(
                resolve,
                minute_after(naive_ms, k),
                t,
            ) && forall|j: int| 0 <= j < k ==> #[trigger] gap_at(resolve, minute_after(naive_ms, j)),
        r is None ==> forall|j: int|
            0 <= j <= SEARCH_MINUTES && naive_ms + j * MINUTE_MS <= last_ms() ==> #[trigger] gap_at(
                resolve,
                minute_after(naive_ms, j),
            ),
{
    let mut minute: i64 = 0;
    let mut result: Option<i64> = None;
    let ghost mut at: int = 0;
    while minute <= SEARCH_MINUTES
        invariant_except_break
            result is None,
        invariant
            0 <= minute <= SEARCH_MINUTES + 1,
            in_range(naive_ms as int),
            forall|m: i64| #[trigger] resolve.requires((m,)),
            forall|j: int| 0 <= j < minute ==> #[trigger] gap_at(resolve, minute_after(naive_ms, j)),
        ensures
            result matches Some(t) ==> 0 <= at <= SEARCH_MINUTES && naive_ms + at * MINUTE_MS <= last_ms()
                && found_at(resolve, minute_after(naive_ms, at), t) && at == minute,
            result is None ==> forall|j: int|
                0 <= j <= SEARCH_MINUTES && naive_ms + j * MINUTE_MS <= last_ms() ==> #[trigger] gap_at(
                    resolve,
                    minute_after(naive_ms, j),
                ),
        decreases SEARCH_MINUTES + 1 - minute,
    {
        let last: i128 = (LAST_DAY as i128) * (DAY_MS as i128) + (DAY_MS as i128) - 1;
        let candidate: i128 = naive_ms as i128 + (minute as i128) * 60_000i128;
        if candidate > last {
            break;
        }
        let c: i64 = candidate as i64;
        assert(c == minute_after(naive_ms, minute as int));
        let lt = resolve(c);
        match lt {
            LocalTime::Single(t) => {
                assert(found_at(resolve, minute_after(naive_ms, minute as int), t));
                result = Some(t);
                proof {
                    at = minute as int;
                }
                break;
            },
            LocalTime::Ambiguous(t, _) => {
                assert(found_at(resolve, minute_after(naive_ms, minute as int), t));
                result = Some(t);
                proof {
                    at = minute as int;
                }
                break;
            },
            LocalTime::Gap => {
                assert(gap_at(resolve, minute_after(naive_ms, minute as int)));
            },
        }
        minute = minute + 1;
    }
    proof {
        if let Some(t) = result {
            assert(found_at(resolve, minute_after(naive_ms, at), t));
        }
    }
    result
}

/// An instant whose local wall-clock reading is `naive_ms` in some zone: a UTC
/// offset is less than a day.
pub open spec fn within_a_day(t: i64, naive_ms: int) -> bool {
    naive_ms - DAY_MS < t < naive_ms + DAY_MS
}

/// `chrono::TimeZone::from_local_datetime` for the machine's local zone,
/// applied to the wall-clock time `naive_ms`. Which instants it returns
/// depends on the time zone of the machine; what is claimed is only what
/// chrono's source shows: each is the wall-clock time minus a `FixedOffset`,
/// whose magnitude is less than a day.
#[verifier::external_body]
fn resolve_local(naive_ms: i64) -> (r: LocalTime)
    ensures
        r matches LocalTime::Single(t) ==> within_a_day(t, naive_ms as int),
        r matches LocalTime::Ambiguous(a, b) ==> within_a_day(a, naive_ms as int) && within_a_day(
            b,
            naive_ms as int,
        ),
{
    let naive = match chrono::DateTime::from_timestamp_millis(naive_ms) {
        Some(dt) => dt.naive_utc(),
        None => return LocalTime::Gap,
    };
    match chrono::Local.from_local_datetime(&naive) {
        chrono::LocalResult::Single(dt) => LocalTime::Single(dt.timestamp_millis()),
        chrono::LocalResult::Ambiguous(a, b) => LocalTime::Ambiguous(a.timestamp_millis(), b.timestamp_millis()),
        chrono::LocalResult::None => LocalTime::Gap,
    }
}

/// Instants more than a day inside the representable range: their local
/// date is representable in every time zone (a UTC offset is less than a day).
pub open spec fn local_date_safe(ms: int) -> bool {
    first_ms() + DAY_MS <= ms <= last_ms() - DAY_MS
}

/// A day number whose midnight lies within the span a UTC offset allows
/// around the instant `now`: the local date of `now` in some zone.
pub open spec fn local_day_of(day: int, now: int) -> bool {
    now - 2 * DAY_MS < day * DAY_MS < now + DAY_MS
}

/// `chrono::Datelike::num_days_from_ce` of the local date of the instant
/// `ms` in the machine's local zone (`Local.timestamp_millis_opt`, then the
/// UTC date-time plus the zone's `FixedOffset`, as `DateTime::date_naive`
/// computes it). The date depends on the time zone of the machine; what is
/// claimed is what chrono's source shows: the offset is less than a day, and
/// only a local date-time outside the representable range gives none.
#[verifier::external_body]
fn local_days_from_ce(ms: i64) -> (r: Option<i32>)
    requires
        in_range(ms as int),
    ensures
        local_date_safe(ms as int) ==> r is Some,
        r matches Some(d) ==> FIRST_DAY + EPOCH_DAYS_FROM_CE <= d <= LAST_DAY + EPOCH_DAYS_FROM_CE
            && local_day_of(d - EPOCH_DAYS_FROM_CE, ms as int),
{
    let dt = match chrono::Local.timestamp_millis_opt(ms).single() {
        Some(dt) => dt,
        None => return None,
    };
    match dt.naive_utc().checked_add_offset(*dt.offset()) {
        Some(local) => Some(local.date().num_days_from_ce()),
        None => None,
    }
}

/// Sunday = 0 through Saturday = 6 for a day number; 1970-01-01 was a
/// Thursday.
pub open spec fn weekday_of(day: int) -> int {
    (day + 4) % 7
}

pub fn weekday_of_day(day: i64) -> (r: u8)
    requires
        FIRST_DAY <= day <= LAST_DAY,
    ensures
        r == weekday_of(day as int),
{
    // A whole number of weeks keeps the dividend non-negative.
    let shifted: i64 = day + 4 + 96_465_299;
    let w: i64 = shifted % 7;
    assert(w == (day + 4) % 7) by (nonlinear_arith)
        requires
            shifted == day + 4 + 7 * 13_780_757,
            shifted >= 0,
            w == shifted % 7,
    ;
    w as u8
}

fn contains_u8(v: &Vec<u8>, x: u8) -> (r: bool)
    ensures
        r == v@.contains(x),
{
    let mut i: usize = 0;
    while i < v.len()
        invariant
            i <= v.len(),
            forall|j: int| 0 <= j < i ==> v@[j] != x,
        decreases v.len() - i,
    {
        if v[i] == x {
            return true;
        }
        i = i + 1;
    }
    false
}

/// What resolving the wall-clock time `naive_ms` gave: `Some(t)` is the first
/// instant of the first wall-clock minute within `SEARCH_MINUTES` that the
/// zone does not skip, within a day of that minute, every earlier minute a
/// gap; `None` means every minute tried is a gap.
pub closed spec fn local_first_valid(naive_ms: i64, r: Option<i64>) -> bool {
    &&& r matches Some(t) ==> exists|k: int|
        0 <= k <= SEARCH_MINUTES && naive_ms + k * MINUTE_MS <= last_ms() && #[trigger] found_at(
            resolve_local,
            minute_after(naive_ms, k),
            t,
        ) && within_a_day(t, naive_ms + k * MINUTE_MS) && forall|j: int|
            0 <= j < k ==> #[trigger] gap_at(resolve_local, minute_after(naive_ms, j))
    &&& r is None ==> forall|j: int|
        0 <= j <= SEARCH_MINUTES && naive_ms + j * MINUTE_MS <= last_ms() ==> #[trigger] gap_at(
            resolve_local,
            minute_after(naive_ms, j),
        )
}

/// The first instant of the wall-clock time `naive_ms` in the machine's
/// local zone, advancing a minute at a time through a gap.
fn first_valid_local(naive_ms: i64) -> (r: Option<i64>)
    requires
        in_range(naive_ms as int),
    ensures
        local_first_valid(naive_ms, r),
{
    let r = first_valid_with(naive_ms, resolve_local);
    proof {
        if let Some(t) = r {
            let k = choose|k: int|
                0 <= k <= SEARCH_MINUTES && naive_ms + k * MINUTE_MS <= last_ms() && #[trigger] found_at(
                    resolve_local,
                    minute_after(naive_ms, k),
                    t,
                ) && forall|j: int| 0 <= j < k ==> #[trigger] gap_at(resolve_local, minute_after(naive_ms, j));
            let lt = choose|lt: LocalTime|
                #[trigger] resolve_local.ensures((minute_after(naive_ms, k),), lt) && resolved(lt) == Some(t);
            assert(minute_after(naive_ms, k) == naive_ms + k * MINUTE_MS);
            assert(within_a_day(t, naive_ms + k * MINUTE_MS));
        }
    }
    r
}

// ---------------------------------------------------------------------------
// Weekly occurrences: the eight days from the local date of `now`, forward
// for the next occurrence and backward for the latest.
/// The day `i` steps from `base`.
pub open spec fn day_at(base: int, forward: bool, i: int) -> int {
    if forward {
        base + i
    } else {
        base - i
    }
}

pub open spec fn in_calendar(day: int) -> bool {
    FIRST_DAY <= day <= LAST_DAY
}

/// Whether a weekly schedule runs on `day`.
pub open spec fn selected(weekdays: Seq<u8>, day: int) -> bool {
    weekdays.contains(weekday_of(day) as u8)
}

/// The wall-clock millisecond `minute` minutes after midnight of `day`.
pub open spec fn wall_clock(day: int, minute: int) -> int {
    day * DAY_MS + minute * MINUTE_MS
}

/// Whether a resolved instant is an occurrence on the searched side of `now`
/// that can be represented.
pub open spec fn accepted(forward: bool, now: int, t: i64) -> bool {
    &&& if forward {
        t > now
    } else {
        t <= now
    }
    &&& in_range(t as int)
}

/// The occurrence chosen from day `i` on: the instant resolved for the first
/// selected day whose instant is accepted; nothing once a day leaves the
/// calendar or after the eighth day. `cands[i]` is what the wall-clock time
/// of day `i` resolved to.
pub open spec fn weekly_pick(
    forward: bool,
    base: int,
    weekdays: Seq<u8>,
    now: int,
    cands: Seq<Option<i64>>,
    i: int,
) -> Option<i64>
    decreases 8 - i,
{
    if i > 7 || !in_calendar(day_at(base, forward, i)) {
        None
    } else if selected(weekdays, day_at(base, forward, i)) && (cands[i] matches Some(t) && accepted(
        forward,
        now,
        t,
    )) {
        cands[i]
    } else {
        weekly_pick(forward, base, weekdays, now, cands, i + 1)
    }
}

/// `base` is the local date of `now` and `cands` what the local zone made of
/// the schedule's wall-clock time on each of the eight days searched (only
/// the selected days inside the calendar are resolved).
pub open spec fn weekly_resolution(
    s: ScheduleView,
    now: int,
    forward: bool,
    base: int,
    cands: Seq<Option<i64>>,
) -> bool {
    &&& in_calendar(base)
    &&& local_day_of(base, now)
    &&& cands.len() == 8
    &&& forall|i: int|
        #![trigger cands[i]]
        0 <= i < 8 && in_calendar(day_at(base, forward, i)) && selected(
            s->weekdays,
            day_at(base, forward, i),
        ) ==> local_first_valid(wall_clock(day_at(base, forward, i), s->minute as int) as i64, cands[i])
}

/// The occurrence of a weekly schedule on the searched side of `now`.
pub open spec fn weekly_outcome(s: ScheduleView, now: int, forward: bool, r: Option<i64>) -> bool {
    exists|base: int, cands: Seq<Option<i64>>|
        #[trigger] weekly_resolution(s, now, forward, base, cands) && r == weekly_pick(
            forward,
            base,
            s->weekdays,
            now,
            cands,
            0,
        )
}

/// The occurrence chosen among resolved candidates: the instant of the first
/// of the eight days from `base_day` (forward, or backward) that the
/// schedule selects and whose instant lies after `now_ms` (forward) or at or
/// before it (backward) and is representable. A day outside the calendar
/// ends the search.
pub fn weekly_occurrence_from(
    forward: bool,
    base_day: i64,
    weekdays: &Vec<u8>,
    now_ms: i64,
    candidates: &Vec<Option<i64>>,
) -> (r: Option<i64>)
    requires
        in_calendar(base_day as int),
        candidates.len() == 8,
    ensures
        r == weekly_pick(forward, base_day as int, weekdays@, now_ms as int, candidates@, 0),
{
    let mut i: usize = 0;
    while i < 8
        invariant
            i <= 8,
            candidates.len() == 8,
            in_calendar(base_day as int),
            weekly_pick(forward, base_day as int, weekdays@, now_ms as int, candidates@, 0)
                == weekly_pick(forward, base_day as int, weekdays@, now_ms as int, candidates@, i as int),
        decreases 8 - i,
    {
        let day: i64 = if forward {
            base_day + i as i64
        } else {
            base_day - i as i64
        };
        if day > LAST_DAY || day < FIRST_DAY {
            return None;
        }
        let wd = weekday_of_day(day);
        if contains_u8(weekdays, wd) {
            if let Some(t) = candidates[i] {
                let side = if forward {
                    t > now_ms
                } else {
                    t <= now_ms
                };
                if side && instant_representable(t) {
                    return Some(t);
                }
            }
        }
        i = i + 1;
    }
    None
}

/// The local instants of the schedule's wall-clock time on the eight days
/// searched from `base_day`: resolved for the selected days inside the
/// calendar, `None` for the others.
fn weekly_candidates(forward: bool, base_day: i64, weekdays: &Vec<u8>, minute: u16) -> (r: Vec<
    Option<i64>,
>)
    requires
        in_calendar(base_day as int),
        minute < 24 * 60,
    ensures
        r.len() == 8,
        forall|i: int|
            #![trigger r@[i]]
            0 <= i < 8 && in_calendar(day_at(base_day as int, forward, i)) && selected(
                weekdays@,
                day_at(base_day as int, forward, i),
            ) ==> local_first_valid(
                wall_clock(day_at(base_day as int, forward, i), minute as int) as i64,
                r@[i],
            ),
{
    let mut out: Vec<Option<i64>> = Vec::new();
    let mut i: usize = 0;
    while i < 8
        invariant
            i <= 8,
            out.len() == i,
            in_calendar(base_day as int),
            minute < 24 * 60,
            forall|j: int|
                #![trigger out@[j]]
                0 <= j < i && in_calendar(day_at(base_day as int, forward, j)) && selected(
                    weekdays@,
                    day_at(base_day as int, forward, j),
                ) ==> local_first_valid(
                    wall_clock(day_at(base_day as int, forward, j), minute as int) as i64,
                    out@[j],
                ),
        decreases 8 - i,
    {
        let day: i64 = if forward {
            base_day + i as i64
        } else {
            base_day - i as i64
        };
        let mut c: Option<i64> = None;
        if FIRST_DAY <= day && day <= LAST_DAY {
            let wd = weekday_of_day(day);
            if contains_u8(weekdays, wd) {
                let naive: i64 = day * DAY_MS + (minute as i64) * MINUTE_MS;
                assert(naive == wall_clock(day as int, minute as int));
                c = first_valid_local(naive);
            }
        }
        let ghost before = out@;
        out.push(c);
        proof {
            assert forall|j: int|
                #![trigger out@[j]]
                0 <= j < i + 1 && in_calendar(day_at(base_day as int, forward, j)) && selected(
                    weekdays@,
                    day_at(base_day as int, forward, j),
                ) implies local_first_valid(
                wall_clock(day_at(base_day as int, forward, j), minute as int) as i64,
                out@[j],
            ) by {
                if j < i {
                    assert(out@[j] == before[j]);
                } else {
                    assert(day_at(base_day as int, forward, j) == day);
                }
            }
        }
        i = i + 1;
    }
    out
}

/// What `Schedule::next_after` gives at `now`.
pub open spec fn next_occurrence(s: ScheduleView, now: int, r: Option<i64>) -> bool {
    &&& !valid(s) ==> r is None
    &&& r matches Some(t) ==> t > now && in_range(t as int)
    &&& s is Interval && valid(s) ==> opt_int(r) == in_range_opt(
        interval_next(s->every * unit_ms(s->unit), s->origin_ms as int, now),
    )
    &&& s is Weekly && valid(s) ==> weekly_outcome(s, now, true, r) || (r is None && !local_date_safe(
        now,
    ))
}

/// What `Schedule::latest_at_or_before` gives at `now`.
pub open spec fn latest_occurrence(s: ScheduleView, now: int, r: Option<i64>) -> bool {
    &&& !valid(s) ==> r is None
    &&& r matches Some(t) ==> t <= now && in_range(t as int)
    &&& s is Interval && valid(s) ==> opt_int(r) == in_range_opt(
        interval_latest(s->every * unit_ms(s->unit), s->origin_ms as int, now),
    )
    &&& s is Weekly && valid(s) ==> weekly_outcome(s, now, false, r) || (r is None
        && !local_date_safe(now))
}

impl Schedule {
    /// The occurrence of a weekly schedule on the searched side of `now_ms`,
    /// from the local date of `now_ms`.
    fn weekly_occurrence(&self, now_ms: i64, forward: bool) -> (r: Option<i64>)
        requires
            in_range(now_ms as int),
            self@ is Weekly,
            valid(self@),
        ensures
            weekly_outcome(self@, now_ms as int, forward, r) || (r is None && !local_date_safe(
                now_ms as int,
            )),
    {
        match self {
            Schedule::Weekly { weekdays, minute } => {
                let base_ce = match local_days_from_ce(now_ms) {
                    Some(d) => d,
                    None => return None,
                };
                let base: i64 = base_ce as i64 - EPOCH_DAYS_FROM_CE;
                let cands = weekly_candidates(forward, base, weekdays, *minute);
                let r = weekly_occurrence_from(forward, base, weekdays, now_ms, &cands);
                assert(weekly_resolution(self@, now_ms as int, forward, base as int, cands@));
                r
            },
            Schedule::Interval { .. } => None,
        }
    }

    /// The first occurrence strictly after `now_ms`.
    ///
    /// Ambiguous fall-back times use the first occurrence. A nonexistent
    /// spring-forward minute advances one minute at a time until local time
    /// becomes valid.
    pub fn next_after(&self, now_ms: i64) -> (r: Option<i64>)
        requires
            in_range(now_ms as int),
        ensures
            next_occurrence(self@, now_ms as int, r),
    {
        if self.validate().is_err() {
            return None;
        }
        match self {
            Schedule::Interval { every, unit, origin_ms } => {
                let r = interval_next_after(*every, *unit, *origin_ms, now_ms);
                proof {
                    assert(*every * unit_ms(*unit) > 0) by (nonlinear_arith)
                        requires
                            *every > 0,
                            unit_ms(*unit) > 0,
                    ;
                    lemma_interval_next_after(
                        *every * unit_ms(*unit),
                        *origin_ms as int,
                        now_ms as int,
                    );
                }
                r
            },
            Schedule::Weekly { .. } => {
                let r = self.weekly_occurrence(now_ms, true);
                proof {
                    if weekly_outcome(self@, now_ms as int, true, r) {
                        lemma_weekly_pick_first(self@, now_ms as int, true, r);
                    }
                }
                r
            },
        }
    }

    /// The most recent occurrence at or before `now_ms`. Used only to recover
    /// one coalesced stale occurrence after the app was closed.
    pub fn latest_at_or_before(&self, now_ms: i64) -> (r: Option<i64>)
        requires
            in_range(now_ms as int),
        ensures
            latest_occurrence(self@, now_ms as int, r),
    {
        if self.validate().is_err() {
            return None;
        }
        match self {
            Schedule::Interval { every, unit, origin_ms } => {
                let r = interval_latest_at_or_before(*every, *unit, *origin_ms, now_ms);
                proof {
                    assert(*every * unit_ms(*unit) > 0) by (nonlinear_arith)
                        requires
                            *every > 0,
                            unit_ms(*unit) > 0,
                    ;
                    lemma_interval_latest(*every * unit_ms(*unit), *origin_ms as int, now_ms as int);
                }
                r
            },
            Schedule::Weekly { .. } => {
                let r = self.weekly_occurrence(now_ms, false);
                proof {
                    if weekly_outcome(self@, now_ms as int, false, r) {
                        lemma_weekly_pick_first(self@, now_ms as int, false, r);
                    }
                }
                r
            },
        }
    }
}

// ---------------------------------------------------------------------------
// Laws of weekly occurrences.
/// What `weekly_pick` chooses from day `i` on is the resolved instant of a
/// selected day `d` at or after `i`, accepted on the searched side, and no
/// selected day between `i` and `d` resolved to an accepted instant.
pub proof fn lemma_weekly_pick_from(
    forward: bool,
    base: int,
    weekdays: Seq<u8>,
    now: int,
    cands: Seq<Option<i64>>,
    i: int,
)
    requires
        0 <= i,
    ensures
        weekly_pick(forward, base, weekdays, now, cands, i) matches Some(t) ==> exists|d: int|
            i <= d <= 7 && in_calendar(day_at(base, forward, d)) && selected(
                weekdays,
                day_at(base, forward, d),
            ) && #[trigger] cands[d] == Some(t) && accepted(forward, now, t) && forall|j: int|
                i <= j < d && selected(weekdays, day_at(base, forward, j)) ==> !(#[trigger] cands[j] matches Some(
                    u,
                ) && accepted(forward, now, u)),
    decreases 8 - i,
{
    if i <= 7 && in_calendar(day_at(base, forward, i)) {
        if !(selected(weekdays, day_at(base, forward, i)) && (cands[i] matches Some(t) && accepted(
            forward,
            now,
            t,
        ))) {
            lemma_weekly_pick_from(forward, base, weekdays, now, cands, i + 1);
            if let Some(t) = weekly_pick(forward, base, weekdays, now, cands, i) {
                let d = choose|d: int|
                    i + 1 <= d <= 7 && in_calendar(day_at(base, forward, d)) && selected(
                        weekdays,
                        day_at(base, forward, d),
                    ) && #[trigger] cands[d] == Some(t) && accepted(forward, now, t) && forall|j: int|
                        i + 1 <= j < d && selected(weekdays, day_at(base, forward, j)) ==> !(
                        #[trigger] cands[j] matches Some(u) && accepted(forward, now, u));
                assert(cands[d] == Some(t));
            }
        }
    }
}

/// A weekly occurrence is the local instant of the schedule's wall-clock
/// time (within a day, after at most `SEARCH_MINUTES` of skipped minutes) on
/// a selected day among the eight searched from the local date of `now`, on
/// the searched side of `now`; and no earlier-searched selected day gave an
/// instant on that side.
pub proof fn lemma_weekly_pick_first(s: ScheduleView, now: int, forward: bool, r: Option<i64>)
    requires
        s is Weekly,
        valid(s),
        weekly_outcome(s, now, forward, r),
    ensures
        r matches Some(t) ==> exists|base: int, d: int, cands: Seq<Option<i64>>|
            #![trigger weekly_resolution(s, now, forward, base, cands), cands[d]]
            weekly_resolution(s, now, forward, base, cands) && 0 <= d <= 7 && selected(
                s->weekdays,
                day_at(base, forward, d),
            ) && cands[d] == Some(t) && accepted(forward, now, t) && t - DAY_MS - SEARCH_MINUTES
                * MINUTE_MS < wall_clock(day_at(base, forward, d), s->minute as int) < t + DAY_MS
                && forall|j: int|
                0 <= j < d && selected(s->weekdays, day_at(base, forward, j)) ==> !(
                #[trigger] cands[j] matches Some(u) && accepted(forward, now, u)),
{
    if let Some(t) = r {
        let (base, cands) = choose|base: int, cands: Seq<Option<i64>>|
            #[trigger] weekly_resolution(s, now, forward, base, cands) && r == weekly_pick(
                forward,
                base,
                s->weekdays,
                now,
                cands,
                0,
            );
        lemma_weekly_pick_from(forward, base, s->weekdays, now, cands, 0);
        let d = choose|d: int|
            0 <= d <= 7 && in_calendar(day_at(base, forward, d)) && selected(
                s->weekdays,
                day_at(base, forward, d),
            ) && #[trigger] cands[d] == Some(t) && accepted(forward, now, t) && forall|j: int|
                0 <= j < d && selected(s->weekdays, day_at(base, forward, j)) ==> !(
                #[trigger] cands[j] matches Some(u) && accepted(forward, now, u));
        let day = day_at(base, forward, d);
        let naive = wall_clock(day, s->minute as int);
        assert(local_first_valid(naive as i64, cands[d]));
        assert(naive == naive as i64);
        let k = choose|k: int|
            0 <= k <= SEARCH_MINUTES && naive + k * MINUTE_MS <= last_ms() && #[trigger] found_at(
                resolve_local,
                minute_after(naive as i64, k),
                t,
            ) && within_a_day(t, naive + k * MINUTE_MS) && forall|j: int|
                0 <= j < k ==> #[trigger] gap_at(resolve_local, minute_after(naive as i64, j));
    }
}

// ---------------------------------------------------------------------------
// Laws of the interval cadence.
pub open spec fn is_occurrence(period: int, origin: int, t: int) -> bool {
    t >= origin && (t - origin) % period == 0
}

/// The next interval occurrence is strictly after `now`, lies on the cadence,
/// and no occurrence lies strictly between `now` and it.
pub proof fn lemma_interval_next_after(period: int, origin: int, now: int)
    requires
        period > 0,
    ensures
        interval_next(period, origin, now) matches Some(n) ==> n > now && is_occurrence(
            period,
            origin,
            n,
        ) && forall|t: int| now < t < n ==> !#[trigger] is_occurrence(period, origin, t),
{
    if now >= origin {
        let q = (now - origin) / period;
        let k = q + 1;
        assert(origin + period * k > now) by (nonlinear_arith)
            requires
                q == (now - origin) / period,
                k == q + 1,
                period > 0,
        ;
        assert((period * k) % period == 0) by (nonlinear_arith)
            requires
                period > 0,
        ;
        assert(origin + period * k - origin == period * k);
        assert(is_occurrence(period, origin, origin + period * k));
        assert forall|t: int| now < t < origin + period * k implies !#[trigger] is_occurrence(
            period,
            origin,
            t,
        ) by {
            if is_occurrence(period, origin, t) {
                let j = (t - origin) / period;
                assert(t - origin == period * j) by (nonlinear_arith)
                    requires
                        (t - origin) % period == 0,
                        j == (t - origin) / period,
                        period > 0,
                ;
                assert(false) by (nonlinear_arith)
                    requires
                        t - origin == period * j,
                        now < t,
                        t < origin + period * k,
                        q == (now - origin) / period,
                        k == q + 1,
                        period > 0,
                        now >= origin,
                ;
            }
        }
    } else {
        assert(0int % period == 0);
        assert(is_occurrence(period, origin, origin));
        assert forall|t: int| now < t < origin implies !#[trigger] is_occurrence(
            period,
            origin,
            t,
        ) by {}
    }
}

/// The latest interval occurrence is at or before `now`, lies on the cadence,
/// and no occurrence lies after it up to `now`.
pub proof fn lemma_interval_latest(period: int, origin: int, now: int)
    requires
        period > 0,
    ensures
        interval_latest(period, origin, now) matches Some(l) ==> l <= now && l >= origin + period
            && is_occurrence(period, origin, l) && forall|t: int|
            l < t <= now ==> !#[trigger] is_occurrence(period, origin, t),
{
    if !(now - origin < i64::MIN || now - origin < period) {
        let q = (now - origin) / period;
        assert(origin + period * q <= now && origin + period * q >= origin + period) by (
        nonlinear_arith)
            requires
                q == (now - origin) / period,
                period > 0,
                now - origin >= period,
        ;
        assert((period * q) % period == 0) by (nonlinear_arith)
            requires
                period > 0,
        ;
        assert(origin + period * q - origin == period * q);
        assert forall|t: int| origin + period * q < t <= now implies !#[trigger] is_occurrence(
            period,
            origin,
            t,
        ) by {
            if is_occurrence(period, origin, t) {
                let j = (t - origin) / period;
                assert(t - origin == period * j) by (nonlinear_arith)
                    requires
                        (t - origin) % period == 0,
                        j == (t - origin) / period,
                        period > 0,
                ;
                assert(false) by (nonlinear_arith)
                    requires
                        t - origin == period * j,
                        t <= now,
                        origin + period * q < t,
                        q == (now - origin) / period,
                        period > 0,
                ;
            }
        }
    }
}

/// Once a first full period has passed, the next occurrence is exactly one
/// period after the latest one: nothing is skipped between them.
pub proof fn law_interval_occurrences_are_consecutive(period: int, origin: int, now: int)
    requires
        period > 0,
        interval_latest(period, origin, now) is Some,
        interval_next(period, origin, now) is Some,
    ensures
        interval_next(period, origin, now)->0 == interval_latest(period, origin, now)->0 + period,
{
    let q = (now - origin) / period;
    assert(period * (q + 1) == period * q + period) by (nonlinear_arith);
}

} // verus!
