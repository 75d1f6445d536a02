use clings::chapters::{chapters, curriculum_chapter};
use clings::error::KfError;
use clings::reporting::{
    build_chapter_report_by_number, build_chapter_reports, find_chapter_report, SubjectAttempts,
    SubjectWeakest,
};

fn attempts(subject: &str, successes: u64, total: u64) -> SubjectAttempts {
    SubjectAttempts { subject: subject.to_string(), successes, total }
}

#[test]
fn build_chapter_reports_count_attempts() {
    let chs = chapters();
    let att = vec![attempts("pointers", 3, 5), attempts("structs", 1, 2), attempts("signals", 0, 4)];
    let weak = vec![SubjectWeakest { subject: "pointers".to_string(), exercise_id: "ptr-07".to_string() }];
    let reports = build_chapter_reports(&chs, &att, &weak);
    assert_eq!(reports.len(), chs.len());
    let first = &reports[0];
    assert_eq!(first.chapter_num, 1);
    assert_eq!(first.subjects.len(), 2);
    assert_eq!(first.subjects[0].subject, "structs");
    assert_eq!(first.subjects[1].subject, "pointers");
    assert_eq!(first.subjects[1].weakest_exercises, vec!["ptr-07".to_string()]);
    assert_eq!(first.total_attempts, 7);
    assert_eq!(first.total_successes, 4);
    assert_eq!(reports[7].total_attempts, 4);
    assert_eq!(reports[2].total_attempts, 0);
}

#[test]
fn later_entry_wins_for_a_subject() {
    let chs = vec![curriculum_chapter(4)];
    let att = vec![attempts("filesystem", 1, 1), attempts("filesystem", 2, 9)];
    let reports = build_chapter_reports(&chs, &att, &vec![]);
    assert_eq!(reports[0].total_attempts, 9);
    assert_eq!(reports[0].subjects[0].successes, 2);
}

#[test]
fn report_lookup_by_chapter() {
    let reports = build_chapter_reports(&chapters(), &vec![], &vec![]);
    assert_eq!(find_chapter_report(&reports, 3).unwrap(), 2);
    match find_chapter_report(&reports, 42) {
        Err(KfError::ExerciseNotFound(msg)) => assert_eq!(msg, "Chapitre 42 non trouvé"),
        other => panic!("unexpected result: {other:?}"),
    }
}

#[test]
fn report_built_for_one_chapter() {
    let att = vec![attempts("signals", 2, 3)];
    let r = build_chapter_report_by_number(&chapters(), &att, &vec![], 8).unwrap();
    assert_eq!(r.chapter_num, 8);
    assert_eq!(r.chapter_title, "Signaux");
    assert_eq!((r.total_successes, r.total_attempts), (2, 3));
    assert!(r.subjects[0].weakest_exercises.is_empty());
    assert!(build_chapter_report_by_number(&chapters(), &att, &vec![], 0).is_none());
}
