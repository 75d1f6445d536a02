use clings::models::{Difficulty, Exercise, ExerciseType, Lang, ValidationConfig, Visualizer};
use clings::search::search_exercises;

fn exercise(id: &str, subject: &str, title: &str, description: &str) -> Exercise {
    Exercise {
        id: id.to_string(),
        subject: subject.to_string(),
        lang: Lang::C,
        difficulty: Difficulty::Easy,
        title: title.to_string(),
        description: description.to_string(),
        starter_code: String::new(),
        solution_code: String::new(),
        hints: vec![],
        validation: ValidationConfig::default(),
        prerequisites: vec![],
        files: vec![],
        exercise_type: ExerciseType::default(),
        key_concept: None,
        common_mistake: None,
        kc_ids: vec![],
        starter_code_stages: vec![],
        visualizer: Visualizer::default(),
        libsys_module: None,
        libsys_function: None,
        libsys_unlock: None,
        header_code: None,
    }
}

fn sample() -> Vec<Exercise> {
    vec![
        exercise("ptr-01", "pointers", "Échange de deux entiers", "Utilisez des pointeurs pour échanger deux valeurs"),
        exercise("fork-01", "processes", "Créer un fils", "Appelez fork puis attendez le processus fils"),
        exercise("pipe-01", "pipes", "Tube père → fils", "Créez un tube puis appelez fork"),
        exercise("mq-01", "message_queues", "Envoyer un message", "Ouvrez une file de messages POSIX"),
    ]
}

#[test]
fn test_search_empty_query_matches_all() {
    let exercises = sample();
    let results = search_exercises(&exercises, "", None);
    assert_eq!(results.len(), exercises.len(), "query vide doit matcher tous les exercices");
}

#[test]
fn test_search_known_subject_returns_results() {
    let exercises = sample();
    let results = search_exercises(&exercises, "pointer", None);
    assert!(!results.is_empty(), "\"pointer\" doit trouver au moins un exercice");
    assert_eq!(results[0].0, 0);
}

#[test]
fn test_search_filter_subject_limits_results() {
    let exercises = sample();
    let all = search_exercises(&exercises, "fork", None);
    let first_subject = exercises[1].subject.as_str();
    let filtered = search_exercises(&exercises, "fork", Some(first_subject));
    assert!(filtered.len() <= all.len());
    assert!(!filtered.is_empty());
    for (idx, _) in &filtered {
        assert_eq!(exercises[*idx].subject, first_subject);
    }
}

#[test]
fn test_search_results_sorted_by_score_descending() {
    let exercises = sample();
    let results = search_exercises(&exercises, "fork", None);
    assert!(results.len() >= 2);
    for window in results.windows(2) {
        assert!(window[0].1 >= window[1].1);
    }
}

#[test]
fn search_without_match_is_empty() {
    let exercises = sample();
    assert!(search_exercises(&exercises, "zzzzqqq", None).is_empty());
}

#[test]
fn search_filter_on_unknown_subject_is_empty() {
    let exercises = sample();
    assert!(search_exercises(&exercises, "", Some("nonexistent_subject_xyz")).is_empty());
}

#[test]
fn empty_query_scores_zero() {
    let exercises = sample();
    let results = search_exercises(&exercises, "", None);
    assert!(results.iter().all(|(_, s)| *s == 0));
}
