use clings::mastery::{
    compute_next_review, compute_next_review_with, current_streak, decay_periods, streak_from_dates,
    streak_from_days, SrsSchedule, SECS_PER_DAY,
};

#[test]
fn test_srs_success() {
    let (next, interval) = compute_next_review(1, true, 1_000_000);
    assert_eq!(interval, 3);
    assert_eq!(next, 1_000_000 + 3 * 86400);
}

#[test]
fn test_srs_failure_resets() {
    let (_, interval) = compute_next_review(30, false, 1_000_000);
    assert_eq!(interval, 1);
}

#[test]
fn test_srs_interval_capped_at_max() {
    let (_, interval) = compute_next_review(50, true, 1_000_000);
    assert_eq!(interval, 60);
}

#[test]
fn srs_rounds_halves_up() {
    // 3 * 2.5 = 7.5 -> 8
    let (_, interval) = compute_next_review(3, true, 0);
    assert_eq!(interval, 8);
    // 0 * 2.5 = 0 -> raised to the base interval
    let (_, interval) = compute_next_review(0, true, 0);
    assert_eq!(interval, 1);
}

#[test]
fn custom_schedule_is_applied() {
    let s = SrsSchedule { base_interval_days: 2, max_interval_days: 10, multiplier_num: 3, multiplier_den: 1 };
    assert_eq!(compute_next_review_with(s, 3, true, 100), (100 + 9 * SECS_PER_DAY, 9));
    assert_eq!(compute_next_review_with(s, 4, true, 0).1, 10);
    assert_eq!(compute_next_review_with(s, 4, false, 0).1, 2);
}

#[test]
fn decay_after_fifteen_days() {
    let now = 1_700_000_000;
    let last = now - 15 * SECS_PER_DAY;
    assert_eq!(decay_periods(Some(last), now, 14), Some((1, last + 14 * SECS_PER_DAY)));
}

#[test]
fn no_decay_under_period() {
    let now = 1_700_000_000;
    assert_eq!(decay_periods(Some(now - 10 * SECS_PER_DAY), now, 14), None);
    assert_eq!(decay_periods(None, now, 14), None);
}

#[test]
fn decay_counts_several_periods() {
    let now = 1_700_000_000;
    let last = now - 29 * SECS_PER_DAY;
    assert_eq!(decay_periods(Some(last), now, 14), Some((2, last + 28 * SECS_PER_DAY)));
}

#[test]
fn decay_is_applied_once() {
    let now = 1_700_000_000;
    let last = now - 15 * SECS_PER_DAY;
    let (_, advanced) = decay_periods(Some(last), now, 14).unwrap();
    assert_eq!(decay_periods(Some(advanced), now, 14), None);
}

#[test]
fn streak_empty() {
    assert_eq!(streak_from_days(&vec![], 100), 0);
}

#[test]
fn streak_today() {
    assert_eq!(streak_from_days(&vec![100], 100), 1);
}

#[test]
fn streak_consecutive_days() {
    assert_eq!(streak_from_days(&vec![100, 99, 98], 100), 3);
    assert_eq!(streak_from_days(&vec![99, 98], 100), 2);
}

#[test]
fn streak_broken() {
    assert_eq!(streak_from_days(&vec![100, 97], 100), 1);
    assert_eq!(streak_from_days(&vec![98, 97], 100), 0);
}

#[test]
fn decay_with_a_negative_period_counts_no_period() {
    let now = 1_700_000_000;
    let last = now - 30 * SECS_PER_DAY;
    // Rust's division by a negative length: -(30 / 7) periods, advancing by 28 days
    assert_eq!(decay_periods(Some(last), now, -7), Some((-4, last + 28 * SECS_PER_DAY)));
    assert_eq!(decay_periods(Some(now + 100), now, -7), Some((0, now + 100)));
}

fn day_of(date: &str) -> i64 {
    use_day(chrono::NaiveDate::parse_from_str(date, "%Y-%m-%d").unwrap())
}

fn use_day(d: chrono::NaiveDate) -> i64 {
    chrono::Datelike::num_days_from_ce(&d) as i64
}

#[test]
fn streak_from_practice_dates() {
    let dates: Vec<String> = ["2024-03-05", "2024-03-04", "2024-03-02"].iter().map(|s| s.to_string()).collect();
    assert_eq!(streak_from_dates(&dates, day_of("2024-03-05")), Some(2));
    assert_eq!(streak_from_dates(&dates, day_of("2024-03-06")), Some(2));
    assert_eq!(streak_from_dates(&dates, day_of("2024-03-07")), Some(0));
    let across_month: Vec<String> = ["2024-03-01", "2024-02-29"].iter().map(|s| s.to_string()).collect();
    assert_eq!(streak_from_dates(&across_month, day_of("2024-03-01")), Some(2));
    assert_eq!(streak_from_dates(&vec![], day_of("2024-03-01")), Some(0));
}

#[test]
fn streak_needs_readable_dates() {
    let dates = vec!["2024-03-05".to_string(), "hier".to_string()];
    assert_eq!(streak_from_dates(&dates, day_of("2024-03-05")), None);
    assert_eq!(current_streak(&dates), None);
    assert_eq!(current_streak(&vec!["1999-01-01".to_string()]), Some(0));
}
