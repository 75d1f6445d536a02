use clings::models::{Difficulty, Exercise, ExerciseType, Lang, ValidationConfig, Visualizer};
use clings::watch::{days_until_review, gate_exercises, subject_order, UnlockLevel};

fn exercise(id: &str, subject: &str, difficulty: Difficulty) -> Exercise {
    Exercise {
        id: id.to_string(),
        subject: subject.to_string(),
        lang: Lang::C,
        difficulty,
        title: id.to_string(),
        description: String::new(),
        starter_code: String::new(),
        solution_code: String::new(),
        hints: vec![],
        validation: ValidationConfig::default(),
        prerequisites: vec![],
        files: vec![],
        exercise_type: ExerciseType::default(),
        key_concept: None,
        common_mistake: None,
        kc_ids: vec![],
        starter_code_stages: vec![],
        visualizer: Visualizer::default(),
        libsys_module: None,
        libsys_function: None,
        libsys_unlock: None,
        header_code: None,
    }
}

#[test]
fn locked_difficulties_are_hidden() {
    let exercises = vec![
        exercise("p1", "pointers", Difficulty::Easy),
        exercise("p3", "pointers", Difficulty::Hard),
        exercise("s2", "signals", Difficulty::Medium),
        exercise("s1", "signals", Difficulty::Easy),
    ];
    let levels = vec![UnlockLevel { name: "signals".to_string(), difficulty_unlocked: 2 }];
    assert_eq!(gate_exercises(&exercises, &levels, false), vec![0, 2, 3]);
}

#[test]
fn subject_without_easy_exercises_stays_open() {
    let exercises = vec![
        exercise("c3", "capstones", Difficulty::Hard),
        exercise("c4", "capstones", Difficulty::Advanced),
    ];
    assert_eq!(gate_exercises(&exercises, &vec![], false), vec![0]);
}

#[test]
fn nsy103_sessions_skip_utc502_subjects() {
    let exercises = vec![
        exercise("sc", "scheduling", Difficulty::Easy),
        exercise("vm", "virtual_memory", Difficulty::Easy),
        exercise("pi", "pipes", Difficulty::Easy),
    ];
    assert_eq!(gate_exercises(&exercises, &vec![], true), vec![2]);
    assert_eq!(gate_exercises(&exercises, &vec![], false), vec![0, 1, 2]);
}

#[test]
fn review_days_round_toward_zero() {
    assert_eq!(days_until_review(Some(86_400 * 3 + 5), 0), Some(3));
    assert_eq!(days_until_review(Some(-86_400 - 5), 0), Some(-1));
    assert_eq!(days_until_review(None, 0), None);
}

#[test]
fn subjects_listed_once_in_order() {
    let a = exercise("a", "pipes", Difficulty::Easy);
    let b = exercise("b", "signals", Difficulty::Easy);
    let c = exercise("c", "pipes", Difficulty::Hard);
    let order = subject_order(&vec![&a, &b, &c]);
    assert_eq!(order, vec!["pipes", "signals"]);
}
