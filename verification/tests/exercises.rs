use clings::exercises::{build_subject_index, find_exercise};
use clings::models::{Difficulty, Exercise, ExerciseType, Lang, ValidationConfig, Visualizer};

fn exercise(id: &str, subject: &str) -> Exercise {
    Exercise {
        id: id.to_string(),
        subject: subject.to_string(),
        lang: Lang::C,
        difficulty: Difficulty::Easy,
        title: format!("title of {id}"),
        description: String::new(),
        starter_code: String::new(),
        solution_code: String::new(),
        hints: vec![],
        validation: ValidationConfig::default(),
        prerequisites: vec![],
        files: vec![],
        exercise_type: ExerciseType::default(),
        key_concept: None,
        common_mistake: None,
        kc_ids: vec![],
        starter_code_stages: vec![],
        visualizer: Visualizer::default(),
        libsys_module: None,
        libsys_function: None,
        libsys_unlock: None,
        header_code: None,
    }
}

#[test]
fn test_find_exercise_exists() {
    let exercises = vec![exercise("a-1", "pointers"), exercise("b-1", "pipes")];
    let first_id = &exercises[0].id;
    let found = find_exercise(&exercises, first_id);
    assert!(found.is_some());
    assert_eq!(found.unwrap().id, *first_id);
}

#[test]
fn test_find_exercise_missing() {
    let exercises = vec![exercise("a-1", "pointers")];
    assert!(find_exercise(&exercises, "nonexistent-id-999").is_none());
}

#[test]
fn find_returns_first_of_duplicates() {
    let mut second = exercise("dup", "pipes");
    second.title = "second".to_string();
    let exercises = vec![exercise("dup", "pointers"), second];
    assert_eq!(find_exercise(&exercises, "dup").unwrap().subject, "pointers");
}

#[test]
fn test_by_subject_consistency() {
    let exercises = vec![
        exercise("a", "pointers"),
        exercise("b", "pipes"),
        exercise("c", "pointers"),
        exercise("d", "signals"),
    ];
    let index = build_subject_index(&exercises);
    let total_in_map: usize = index.iter().map(|e| e.positions.len()).sum();
    assert_eq!(exercises.len(), total_in_map);
    for entry in &index {
        for &i in &entry.positions {
            assert_eq!(exercises[i].subject, entry.subject);
        }
    }
    let subjects: Vec<&str> = index.iter().map(|e| e.subject.as_str()).collect();
    assert_eq!(subjects, vec!["pointers", "pipes", "signals"]);
    assert_eq!(index[0].positions, vec![0, 2]);
}

#[test]
fn solution_needs_an_attempt() {
    assert!(!clings::exercises::solution_unlocked(0));
    assert!(clings::exercises::solution_unlocked(1));
    assert!(clings::exercises::solution_unlocked(12));
}
