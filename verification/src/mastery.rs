//! Spaced-repetition scheduling: review intervals, inactivity decay periods
//! and practice streaks.
use vstd::prelude::*;

verus! {

/// Seconds per day.
pub const SECS_PER_DAY: i64 = 86_400;

/// Review-interval settings: intervals are multiplied by
/// `multiplier_num / multiplier_den` after a success and kept within
/// `[base_interval_days, max_interval_days]`.
#[derive(Debug, Clone, Copy, PartialEq, Eq)]
pub struct SrsSchedule {
    /// Interval (days) after a failure, and the smallest interval.
    pub base_interval_days: i64,
    /// Largest interval (days).
    pub max_interval_days: i64,
    /// Numerator of the interval multiplier.
    pub multiplier_num: i64,
    /// Denominator of the interval multiplier.
    pub multiplier_den: i64,
}

/// A schedule whose bounds are ordered and whose multiplier is a proper fraction.
pub open spec fn schedule_ok(s: SrsSchedule) -> bool {
    s.base_interval_days <= s.max_interval_days && s.multiplier_den > 0
}

/// The default schedule: 1 day after a failure, at most 60 days, ×2.5 on success.
pub open spec fn default_schedule() -> SrsSchedule {
    SrsSchedule { base_interval_days: 1, max_interval_days: 60, multiplier_num: 5, multiplier_den: 2 }
}

impl SrsSchedule {
    /// The default schedule: 1 day after a failure, at most 60 days, ×2.5 on success.
    pub fn default_schedule() -> (s: SrsSchedule)
        ensures
            s == default_schedule(),
    {
        SrsSchedule { base_interval_days: 1, max_interval_days: 60, multiplier_num: 5, multiplier_den: 2 }
    }
}

/// `x * num / den` rounded to the nearest integer, halves away from zero.
pub open spec fn round_ratio(x: int, num: int, den: int) -> int {
    let a = x * num;
    if a >= 0 {
        (2 * a + den) / (2 * den)
    } else {
        -((-2 * a + den) / (2 * den))
    }
}

/// `v` kept within `[lo, hi]`.
pub open spec fn clamp(v: int, lo: int, hi: int) -> int {
    if v < lo {
        lo
    } else if v > hi {
        hi
    } else {
        v
    }
}

/// The interval (days) that follows `current` after a success or a failure.
pub open spec fn next_interval(s: SrsSchedule, current: int, success: bool) -> int {
    if success {
        clamp(round_ratio(current, s.multiplier_num as int, s.multiplier_den as int),
            s.base_interval_days as int, s.max_interval_days as int)
    } else {
        s.base_interval_days as int
    }
}

/// Rounding half up of `a / den` through the quotient and remainder.
pub proof fn lemma_round_half(a: int, den: int)
    requires
        a >= 0,
        den > 0,
    ensures
        (2 * a + den) / (2 * den) == a / den + if 2 * (a % den) >= den { 1int } else { 0int },
        a / den <= a,
        0 <= a % den < den,
{
    let q = a / den;
    let r = a % den;
    assert(a == q * den + r && 0 <= r < den && q >= 0) by (nonlinear_arith)
        requires q == a / den, r == a % den, a >= 0, den > 0;
    assert(q <= a) by (nonlinear_arith)
        requires a == q * den + r, 0 <= r, den > 0, q >= 0;
    let t: int = if 2 * r >= den { 1 } else { 0 };
    assert((q + t) * (2 * den) <= 2 * a + den < (q + t + 1) * (2 * den)) by (nonlinear_arith)
        requires a == q * den + r, 0 <= r < den, t == (if 2 * r >= den { 1int } else { 0int });
    assert((2 * a + den) / (2 * den) == q + t) by (nonlinear_arith)
        requires (q + t) * (2 * den) <= 2 * a + den, 2 * a + den < (q + t + 1) * (2 * den), den > 0;
}

/// Next review time and new interval: on success the interval is multiplied
/// (then kept within the bounds), on failure it falls back to the base
/// interval; the next review is `now` plus the new interval in days.
pub fn compute_next_review_with(s: SrsSchedule, current_interval_days: i64, success: bool, now: i64) -> (r: (i64, i64))
    requires
        schedule_ok(s),
        i64::MIN <= next_interval(s, current_interval_days as int, success) * SECS_PER_DAY <= i64::MAX,
        i64::MIN <= now + next_interval(s, current_interval_days as int, success) * SECS_PER_DAY <= i64::MAX,
    ensures
        r.1 == next_interval(s, current_interval_days as int, success),
        r.0 == now + r.1 * SECS_PER_DAY,
        s.base_interval_days <= r.1 <= s.max_interval_days,
{
    let new_interval: i64 = if success {
        let x: i128 = current_interval_days as i128;
        let m: i128 = s.multiplier_num as i128;
        assert(-0x4000_0000_0000_0000_0000_0000_0000_0000 <= x * m <= 0x4000_0000_0000_0000_0000_0000_0000_0000) by (nonlinear_arith)
            requires
                -0x8000_0000_0000_0000 <= x <= 0x7fff_ffff_ffff_ffff,
                -0x8000_0000_0000_0000 <= m <= 0x7fff_ffff_ffff_ffff,
        ;
        let a: i128 = x * m;
        let den: i128 = s.multiplier_den as i128;
        let rounded: i128 = if a >= 0 {
            let q = a / den;
            let r = a % den;
            proof {
                lemma_round_half(a as int, den as int);
            }
            if 2 * r >= den { q + 1 } else { q }
        } else {
            let b = -a;
            let q = b / den;
            let r = b % den;
            proof {
                lemma_round_half(b as int, den as int);
            }
            if 2 * r >= den { -(q + 1) } else { -q }
        };
        assert(rounded == round_ratio(current_interval_days as int, s.multiplier_num as int, s.multiplier_den as int));
        if rounded < s.base_interval_days as i128 {
            s.base_interval_days
        } else if rounded > s.max_interval_days as i128 {
            s.max_interval_days
        } else {
            rounded as i64
        }
    } else {
        s.base_interval_days
    };
    assert(new_interval == next_interval(s, current_interval_days as int, success));
    (now + new_interval * SECS_PER_DAY, new_interval)
}

/// Next review time and new interval under the default schedule (1 to 60
/// days, ×2.5 on success, back to 1 day on failure).
pub fn compute_next_review(current_interval_days: i64, success: bool, now: i64) -> (r: (i64, i64))
    requires
        now + 60 * SECS_PER_DAY <= i64::MAX,
    ensures
        r.1 == next_interval(default_schedule(), current_interval_days as int, success),
        r.0 == now + r.1 * SECS_PER_DAY,
        1 <= r.1 <= 60,
{
    compute_next_review_with(SrsSchedule::default_schedule(), current_interval_days, success, now)
}

/// Whole days elapsed from `last` to `now` (none when `now` is earlier).
pub open spec fn days_since(last: int, now: int) -> int {
    if now - last >= 0 {
        (now - last) / (SECS_PER_DAY as int)
    } else {
        0
    }
}

/// `a / b` rounded toward zero, as Rust's integer division computes it.
pub open spec fn trunc_div(a: int, b: int) -> int {
    if (a >= 0) == (b > 0) {
        if a >= 0 { a / b } else { (-a) / (-b) }
    } else {
        if a >= 0 { -(a / (-b)) } else { -((-a) / b) }
    }
}

/// The inactivity decay due at `now`: how many whole decay periods have
/// passed since the last practice (counted with Rust's division, so a
/// negative period length gives a count of zero or less), and the practice
/// time moved forward past them; `None` when the subject was never
/// practiced or fewer days than the period length passed.
pub open spec fn decay_due(last: Option<i64>, now: i64, decay_days: i64) -> Option<(int, int)> {
    match last {
        None => None,
        Some(l) => {
            let d = days_since(l as int, now as int);
            if d >= decay_days {
                let k = trunc_div(d, decay_days as int);
                Some((k, l + k * decay_days * SECS_PER_DAY))
            } else {
                None
            }
        },
    }
}

/// What Rust's division of a number of days by a period length gives:
/// that quotient, times the period length, is a whole number of days
/// between zero and the days themselves.
proof fn lemma_trunc_span(days: int, period: int, q: int)
    requires
        days >= 0,
        period != 0,
        q == trunc_div(days, period),
    ensures
        0 <= q * period <= days,
        period > 0 && days >= period ==> q >= 1,
        period < 0 ==> q <= 0,
{
    if period > 0 {
        assert(0 <= (days / period) * period <= days) by (nonlinear_arith)
            requires days >= 0, period > 0;
        assert(days >= period ==> days / period >= 1) by (nonlinear_arith)
            requires days >= 0, period > 0;
    } else {
        let p = -period;
        assert(0 <= (days / p) * p <= days && days / p >= 0) by (nonlinear_arith)
            requires days >= 0, p > 0;
        assert(q * period == (days / p) * p) by (nonlinear_arith)
            requires q == -(days / p), period == -p;
    }
}

/// The integer part of the inactivity decay: the number of whole decay
/// periods elapsed since `last_practiced_at`, and the practice time advanced
/// by those periods so that they are not counted again.
pub fn decay_periods(last_practiced_at: Option<i64>, now: i64, decay_days: i64) -> (r: Option<(i64, i64)>)
    requires
        decay_days != 0,
        last_practiced_at matches Some(l) ==> i64::MIN <= now - l <= i64::MAX,
    ensures
        r matches Some(p) ==> decay_due(last_practiced_at, now, decay_days) == Some((p.0 as int, p.1 as int)),
        r is None ==> decay_due(last_practiced_at, now, decay_days) is None,
        r matches Some(p) ==> last_practiced_at->0 <= p.1 && (last_practiced_at->0 <= now ==> p.1 <= now),
        r matches Some(p) ==> (decay_days > 0 ==> p.0 >= 1) && (decay_days < 0 ==> p.0 <= 0),
{
    match last_practiced_at {
        None => None,
        Some(last) => {
            let diff = now - last;
            let days: i64 = if diff >= 0 { diff / SECS_PER_DAY } else { 0 };
            assert(days * SECS_PER_DAY <= diff || diff < 0) by (nonlinear_arith)
                requires diff >= 0 ==> days == diff / SECS_PER_DAY;
            assert(days >= 0);
            if days >= decay_days {
                // the periods counted, as a whole number of days, never exceed `days`
                let intervals: i64 = if decay_days > 0 {
                    days / decay_days
                } else if decay_days == i64::MIN {
                    // no number of days reaches this period length
                    assert((days as int) / (-(decay_days as int)) == 0) by (nonlinear_arith)
                        requires 0 <= days < -(decay_days as int);
                    0
                } else {
                    -(days / (-decay_days))
                };
                proof {
                    lemma_trunc_span(days as int, decay_days as int, intervals as int);
                }
                let span: i64 = intervals * decay_days;
                assert(span * SECS_PER_DAY <= days * SECS_PER_DAY) by (nonlinear_arith)
                    requires span <= days;
                assert(span * SECS_PER_DAY >= 0) by (nonlinear_arith)
                    requires span >= 0;
                let advanced = last + span * SECS_PER_DAY;
                Some((intervals, advanced))
            } else {
                None
            }
        },
    }
}

/// Decay is applied once: after the practice time is advanced past the
/// elapsed periods, no further period is due at the same moment.
pub proof fn lemma_decay_idempotent(last: i64, now: i64, decay_days: i64)
    requires
        decay_days > 0,
        decay_due(Some(last), now, decay_days) is Some,
        i64::MIN <= (decay_due(Some(last), now, decay_days)->0).1 <= i64::MAX,
    ensures
        decay_due(Some((decay_due(Some(last), now, decay_days)->0).1 as i64), now, decay_days) is None,
{
    let d = days_since(last as int, now as int);
    let k = trunc_div(d, decay_days as int);
    assert(k == d / (decay_days as int));
    let moved = k * decay_days * SECS_PER_DAY;
    let nl = last + moved;
    assert(now - last >= 0);
    let diff: int = now - last;
    assert(d * SECS_PER_DAY <= diff < d * SECS_PER_DAY + SECS_PER_DAY) by (nonlinear_arith)
        requires d == diff / (SECS_PER_DAY as int), diff >= 0;
    assert(k * decay_days <= d < k * decay_days + decay_days) by (nonlinear_arith)
        requires k == d / (decay_days as int), d >= 0, decay_days > 0;
    let r = d - k * decay_days;
    assert(0 <= r < decay_days);
    assert(moved == (k * decay_days) * SECS_PER_DAY) by (nonlinear_arith)
        requires moved == k * decay_days * SECS_PER_DAY;
    assert(now - nl == diff - (d - r) * SECS_PER_DAY) by (nonlinear_arith)
        requires now - nl == diff - moved, moved == (k * decay_days) * SECS_PER_DAY, r == d - k * decay_days;
    assert(r * SECS_PER_DAY <= now - nl < r * SECS_PER_DAY + SECS_PER_DAY) by (nonlinear_arith)
        requires now - nl == diff - (d - r) * SECS_PER_DAY, d * SECS_PER_DAY <= diff, diff < d * SECS_PER_DAY + SECS_PER_DAY;
    assert((now - nl) / (SECS_PER_DAY as int) == r) by (nonlinear_arith)
        requires r * SECS_PER_DAY <= now - nl, now - nl < r * SECS_PER_DAY + SECS_PER_DAY, r >= 0;
}

// ── Streak ──────────────────────────────────────────────────────────────────

/// Number of consecutive one-day steps in `days` starting at position `i`.
pub open spec fn run_len(days: Seq<i64>, i: int) -> int
    decreases days.len() - i,
{
    if 0 <= i && i + 1 < days.len() && days[i] - days[i + 1] == 1 {
        1 + run_len(days, i + 1)
    } else {
        0
    }
}

/// The practice streak: consecutive days ending today or yesterday.
/// `days` holds the distinct practice days (as day numbers), latest first.
pub open spec fn streak(days: Seq<i64>, today: i64) -> int {
    if days.len() == 0 {
        0
    } else if days[0] != today && days[0] != today - 1 {
        0
    } else {
        1 + run_len(days, 0)
    }
}

/// From position `i`, a run of `r` one-day steps is exactly the steps
/// before the first gap (or the end of the days).
proof fn lemma_run_len_stops_at_gap(days: Seq<i64>, i: int)
    requires
        0 <= i < days.len(),
    ensures
        i + run_len(days, i) < days.len(),
        forall|j: int| i <= j < i + run_len(days, i) ==> #[trigger] days[j] - days[j + 1] == 1,
        i + run_len(days, i) + 1 < days.len() ==> days[i + run_len(days, i)] - days[i + run_len(days, i) + 1] != 1,
    decreases days.len() - i,
{
    if i + 1 < days.len() && days[i] - days[i + 1] == 1 {
        lemma_run_len_stops_at_gap(days, i + 1);
    }
}

/// The streak counts the latest days back from today or yesterday, one day
/// apart, and stops at the first gap: it is 0 exactly when there is no day
/// or the latest is neither today nor yesterday; otherwise it is `k` with
/// each of the first `k` days one day before the previous and, where a day
/// follows them, that day not one day before the `k`-th.
pub proof fn lemma_streak_is_latest_run(days: Seq<i64>, today: i64)
    ensures
        streak(days, today) == 0 <==> (days.len() == 0 || (days[0] != today && days[0] != today - 1)),
        streak(days, today) >= 1 ==> {
            let k = streak(days, today);
            &&& k <= days.len()
            &&& forall|j: int| 0 <= j < k - 1 ==> #[trigger] days[j] - days[j + 1] == 1
            &&& k < days.len() ==> days[k - 1] - days[k] != 1
        },
{
    if days.len() > 0 {
        lemma_run_len_stops_at_gap(days, 0);
        lemma_run_len_bounds(days, 0);
    }
}

/// The practice streak (consecutive days ending today or yesterday) from
/// the distinct practice days, latest first.
pub fn streak_from_days(days: &Vec<i64>, today: i64) -> (r: i64)
    requires
        days@.len() < i64::MAX,
    ensures
        r == streak(days@, today),
        0 <= r <= days@.len(),
        r == 0 <==> (days@.len() == 0 || (days@[0] != today && days@[0] != today - 1)),
        forall|j: int| 0 <= j < r - 1 ==> #[trigger] days@[j] - days@[j + 1] == 1,
        0 < r < days@.len() ==> days@[r - 1] - days@[r as int] != 1,
{
    proof {
        lemma_streak_is_latest_run(days@, today);
    }
    if days.len() == 0 {
        return 0;
    }
    let first = days[0] as i128;
    if first != today as i128 && first != today as i128 - 1 {
        return 0;
    }
    let mut i = days.len() - 1;
    let mut run: i64 = 0;
    // walk backwards: run == run_len(days, i)
    while i > 0
        invariant
            i < days.len(),
            days@.len() < i64::MAX,
            run == run_len(days@, i as int),
            0 <= run <= days.len() - 1 - i,
        decreases i,
    {
        i = i - 1;
        if days[i] as i128 - days[i + 1] as i128 == 1 {
            run = run + 1;
        } else {
            run = 0;
        }
    }
    run + 1
}

/// The day number (days since 1 January of year 1, that day being day 1)
/// of a `YYYY-MM-DD` date, as chrono's `NaiveDate::parse_from_str` with
/// `"%Y-%m-%d"` then `num_days_from_ce` give it; `None` when it does not read.
pub uninterp spec fn date_day_number(date: Seq<char>) -> Option<i64>;

/// chrono's `NaiveDate::parse_from_str(date, "%Y-%m-%d")` then
/// `num_days_from_ce`, widened to `i64`. Claimed: the result is the named day
/// number of the text; it depends on the text alone. The calendar itself is
/// not stated.
#[verifier::external_body]
fn day_number(date: &str) -> (r: Option<i64>)
    ensures
        r == date_day_number(date@),
{
    chrono::NaiveDate::parse_from_str(date, "%Y-%m-%d").ok().map(|d| chrono::Datelike::num_days_from_ce(&d) as i64)
}

/// The day number of 1 January 1970, where the system clock counts from.
pub const EPOCH_DAY_NUMBER: i64 = 719163;

/// Today's day number in UTC from the seconds since the Unix epoch: whole
/// days elapsed, counted on from 1 January 1970.
pub open spec fn day_number_of_secs(secs: u64) -> int {
    EPOCH_DAY_NUMBER + secs / 86400
}

fn today_from_secs(secs: u64) -> (r: i64)
    ensures
        r == day_number_of_secs(secs),
{
    let days: u64 = secs / 86400;
    assert(days <= 0xffff_ffff_ffff);
    EPOCH_DAY_NUMBER + days as i64
}

/// Every date reads as a day.
pub open spec fn all_dates_read(dates: Seq<String>) -> bool {
    forall|i: int| 0 <= i < dates.len() ==> (#[trigger] date_day_number(dates[i]@)) is Some
}

/// The day numbers of the dates, in order.
pub open spec fn day_numbers(dates: Seq<String>) -> Seq<i64> {
    Seq::new(dates.len(), |i: int| date_day_number(dates[i]@)->0)
}

/// The practice streak from the distinct practice dates (`YYYY-MM-DD`,
/// latest first) and today's day number; `None` when a date does not read.
pub fn streak_from_dates(dates: &Vec<String>, today: i64) -> (r: Option<i64>)
    requires
        dates@.len() < i64::MAX,
    ensures
        r is None <==> !all_dates_read(dates@),
        r matches Some(k) ==> k == streak(day_numbers(dates@), today),
{
    let mut days: Vec<i64> = Vec::new();
    let mut i: usize = 0;
    while i < dates.len()
        invariant
            i <= dates@.len(),
            days@.len() == i,
            forall|j: int| 0 <= j < i ==> (#[trigger] date_day_number(dates@[j]@)) is Some,
            forall|j: int| 0 <= j < i ==> days@[j] == date_day_number(dates@[j]@)->0,
        decreases dates.len() - i,
    {
        match day_number(dates[i].as_str()) {
            Some(d) => days.push(d),
            None => return None,
        }
        i = i + 1;
    }
    proof {
        assert(days@ =~= day_numbers(dates@));
    }
    Some(streak_from_days(&days, today))
}

/// The practice streak today (the system clock is read here, in UTC; a clock
/// before 1970 reads as 1 January 1970) from the distinct
/// practice dates, latest first; `None` when a date does not read. Whatever
/// the day, the streak is at most the number of dates.
pub fn current_streak(dates: &Vec<String>) -> (r: Option<i64>)
    requires
        dates@.len() < i64::MAX,
    ensures
        r is None <==> !all_dates_read(dates@),
        r matches Some(k) ==> 0 <= k <= dates@.len() && exists|secs: u64|
            k == streak(day_numbers(dates@), day_number_of_secs(secs) as i64),
{
    let today = today_from_secs(crate::authoring::unix_now_secs());
    let r = streak_from_dates(dates, today);
    proof {
        if let Some(k) = r {
            lemma_streak_bound(day_numbers(dates@), today);
        }
    }
    r
}

/// A streak never exceeds the number of days.
proof fn lemma_streak_bound(days: Seq<i64>, today: i64)
    ensures
        0 <= streak(days, today) <= days.len(),
{
    if days.len() > 0 {
        lemma_run_len_bounds(days, 0);
    }
}

proof fn lemma_run_len_bounds(days: Seq<i64>, i: int)
    requires
        0 <= i < days.len(),
    ensures
        0 <= run_len(days, i) <= days.len() - 1 - i,
    decreases days.len() - i,
{
    if i + 1 < days.len() && days[i] - days[i + 1] == 1 {
        lemma_run_len_bounds(days, i + 1);
    }
}

} // verus!

