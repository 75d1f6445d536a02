use clings::error::KfError;
use clings::exam::{
    collect_unique_ids, default_duration, find_session, initial_cursor, is_cancel_answer,
    select_exam_exercises, selector_step, SelectorKey, SelectorStep,
};
use clings::models::{Difficulty, Exercise, ExerciseType, Lang, ValidationConfig, Visualizer};

fn q(exercises: &[&str]) -> Vec<String> {
    exercises.iter().map(|s| s.to_string()).collect()
}

fn exercise(id: &str, title: &str) -> Exercise {
    Exercise {
        id: id.to_string(),
        subject: "pipes".to_string(),
        lang: Lang::C,
        difficulty: Difficulty::Easy,
        title: title.to_string(),
        description: String::new(),
        starter_code: String::new(),
        solution_code: String::new(),
        hints: vec![],
        validation: ValidationConfig::default(),
        prerequisites: vec![],
        files: vec![],
        exercise_type: ExerciseType::default(),
        key_concept: None,
        common_mistake: None,
        kc_ids: vec![],
        starter_code_stages: vec![],
        visualizer: Visualizer::default(),
        libsys_module: None,
        libsys_function: None,
        libsys_unlock: None,
        header_code: None,
    }
}

#[test]
fn test_collect_unique_ids_deduplicates() {
    let questions = vec![q(&["ptr-1", "ptr-2"]), q(&["ptr-2", "ptr-3", "ptr-1"])];
    let ids = collect_unique_ids(&questions);
    assert_eq!(ids, vec!["ptr-1", "ptr-2", "ptr-3"]);
}

#[test]
fn test_collect_unique_ids_preserves_order() {
    let questions = vec![q(&["c", "a"]), q(&["b"])];
    let ids = collect_unique_ids(&questions);
    assert_eq!(ids, vec!["c", "a", "b"]);
}

#[test]
fn test_collect_unique_ids_empty() {
    assert!(collect_unique_ids(&[]).is_empty());
    assert!(collect_unique_ids(&[q(&[])]).is_empty());
}

#[test]
fn test_default_duration_nsy103() {
    assert_eq!(default_duration("nsy103-s1-2024"), 150);
}

#[test]
fn test_default_duration_utc502() {
    assert_eq!(default_duration("utc502-s2-2024"), 180);
}

#[test]
fn session_found_by_identifier() {
    let ids = vec!["nsy103-a".to_string(), "utc502-b".to_string()];
    assert_eq!(find_session(&ids, "utc502-b").unwrap(), 1);
}

#[test]
fn unknown_session_is_reported() {
    let ids = vec!["nsy103-a".to_string()];
    match find_session(&ids, "nope") {
        Err(KfError::Config(msg)) => assert_eq!(msg, "Session introuvable : 'nope'"),
        other => panic!("unexpected result: {other:?}"),
    }
}

#[test]
fn exam_exercises_follow_identifier_order() {
    let all = vec![exercise("a", "A1"), exercise("b", "B"), exercise("a", "A2")];
    let ids = vec!["b".to_string(), "zz".to_string(), "a".to_string()];
    let chosen = select_exam_exercises(&all, &ids);
    let titles: Vec<&str> = chosen.iter().map(|e| e.title.as_str()).collect();
    assert_eq!(titles, vec!["B", "A2"]);
}

#[test]
fn cancel_answer_is_q_in_any_case() {
    assert!(is_cancel_answer("q\n"));
    assert!(is_cancel_answer("  Q "));
    assert!(!is_cancel_answer("\n"));
    assert!(!is_cancel_answer("quit"));
}

#[test]
fn selector_starts_on_the_last_session() {
    let ids: Vec<String> = vec!["nsy103-a".to_string(), "utc502-b".to_string(), "nsy103-c".to_string()];
    assert_eq!(initial_cursor(&ids, Some("nsy103-c")), 2);
    assert_eq!(initial_cursor(&ids, Some("inconnue")), 0);
    assert_eq!(initial_cursor(&ids, None), 0);
}

#[test]
fn selector_moves_within_the_list() {
    assert_eq!(selector_step(0, 3, SelectorKey::Up), SelectorStep::Select(0));
    assert_eq!(selector_step(1, 3, SelectorKey::Up), SelectorStep::Select(0));
    assert_eq!(selector_step(1, 3, SelectorKey::Down), SelectorStep::Select(2));
    assert_eq!(selector_step(2, 3, SelectorKey::Down), SelectorStep::Select(2));
    assert_eq!(selector_step(2, 3, SelectorKey::Enter), SelectorStep::Launch(2));
    assert_eq!(selector_step(1, 3, SelectorKey::Cancel), SelectorStep::Cancel);
    assert_eq!(selector_step(1, 3, SelectorKey::Other), SelectorStep::Select(1));
}
