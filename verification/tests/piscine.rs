use clings::piscine::{completed_count, exam_score_percent, resume_index, split_hms};

#[test]
fn test_skip_increments_index() {
    let total = 5usize;
    let mut index = 2usize;
    index += 1;
    assert_eq!(index, 3);
    assert!(index < total);

    index = total - 1;
    index += 1;
    assert_eq!(index, total);
}

#[test]
fn resume_from_checkpoint() {
    assert_eq!(resume_index(Some(3), 10), 3);
    assert_eq!(resume_index(Some(25), 10), 9);
    assert_eq!(resume_index(None, 10), 0);
    assert_eq!(resume_index(Some(4), 0), 0);
}

#[test]
fn completed_exercises_are_counted() {
    assert_eq!(completed_count(&vec![true, false, true, true]), 3);
    assert_eq!(completed_count(&vec![]), 0);
}

#[test]
fn exam_percentage() {
    assert_eq!(exam_score_percent(2, 3), 66);
    assert_eq!(exam_score_percent(3, 3), 100);
    assert_eq!(exam_score_percent(0, 0), 0);
}

#[test]
fn elapsed_time_breakdown() {
    assert_eq!(split_hms(3725), (1, 2, 5));
    assert_eq!(split_hms(59), (0, 0, 59));
}
