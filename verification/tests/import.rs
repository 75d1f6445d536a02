use clings::import::{clamp_import_counters, ImportedCounters};

fn counters(d: i32, interval: i64, total: i64, success: i64) -> ImportedCounters {
    ImportedCounters {
        name: "pointers".to_string(),
        difficulty_unlocked: d,
        srs_interval_days: interval,
        attempts_total: total,
        attempts_success: success,
    }
}

#[test]
fn valid_counters_are_kept() {
    let (c, warnings) = clamp_import_counters(&counters(3, 10, 5, 4));
    assert_eq!(c, counters(3, 10, 5, 4));
    assert!(warnings.is_empty());
}

#[test]
fn out_of_range_counters_are_clamped_with_warnings() {
    let (c, warnings) = clamp_import_counters(&counters(9, 500, -3, 7));
    assert_eq!(c, counters(5, 60, 0, 0));
    assert_eq!(
        warnings,
        vec![
            "'pointers': difficulty_unlocked 9 → 5 (clamped)",
            "'pointers': srs_interval_days 500 → 60 (clamped)",
            "'pointers': attempts_total -3 → 0 (clamped)",
            "'pointers': attempts_success 7 → 0 (clamped)",
        ]
    );
}

#[test]
fn successes_capped_by_attempts() {
    let (c, warnings) = clamp_import_counters(&counters(0, 0, 4, 9));
    assert_eq!(c, counters(1, 1, 4, 4));
    assert_eq!(warnings.len(), 3);
    assert_eq!(warnings[2], "'pointers': attempts_success 9 → 4 (clamped)");
}

#[test]
fn clamping_twice_changes_nothing() {
    let (c, _) = clamp_import_counters(&counters(-7, i64::MIN, i64::MIN, i64::MAX));
    let (again, warnings) = clamp_import_counters(&c);
    assert_eq!(again, c);
    assert!(warnings.is_empty());
}
