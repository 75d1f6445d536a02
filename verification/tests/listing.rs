use clings::listing::{list_groups, question_exercises, stats_sections};
use clings::models::{Difficulty, Exercise, ExerciseType, Lang, ValidationConfig, Visualizer};

fn exercise(id: &str, subject: &str) -> Exercise {
    Exercise {
        id: id.to_string(),
        subject: subject.to_string(),
        lang: Lang::C,
        difficulty: Difficulty::Easy,
        title: id.to_string(),
        description: String::new(),
        starter_code: String::new(),
        solution_code: String::new(),
        hints: vec![],
        validation: ValidationConfig::default(),
        prerequisites: vec![],
        files: vec![],
        exercise_type: ExerciseType::default(),
        key_concept: None,
        common_mistake: None,
        kc_ids: vec![],
        starter_code_stages: vec![],
        visualizer: Visualizer::default(),
        libsys_module: None,
        libsys_function: None,
        libsys_unlock: None,
        header_code: None,
    }
}

fn catalog() -> Vec<Exercise> {
    vec![
        exercise("sig-01", "signals"),
        exercise("ptr-01", "pointers"),
        exercise("odd-01", "cooking"),
        exercise("ptr-02", "pointers"),
        exercise("str-01", "structs"),
    ]
}

#[test]
fn list_groups_follow_the_curriculum() {
    let groups = list_groups(&catalog(), None, None);
    let view: Vec<(Option<usize>, Vec<usize>)> = groups.iter().map(|g| (g.chapter, g.exercises.clone())).collect();
    assert_eq!(view, vec![(Some(0), vec![1, 3, 4]), (Some(7), vec![0]), (None, vec![2])]);
}

#[test]
fn list_groups_filter_by_subject_and_due() {
    let exs = catalog();
    let by_subject = list_groups(&exs, Some("pointers"), None);
    assert_eq!(by_subject.len(), 1);
    assert_eq!(by_subject[0].exercises, vec![1, 3]);
    let due = vec!["signals".to_string(), "cooking".to_string()];
    let by_due = list_groups(&exs, None, Some(&due));
    let view: Vec<(Option<usize>, Vec<usize>)> = by_due.iter().map(|g| (g.chapter, g.exercises.clone())).collect();
    assert_eq!(view, vec![(Some(7), vec![0]), (None, vec![2])]);
    assert!(list_groups(&exs, Some("pointers"), Some(&due)).is_empty());
}

#[test]
fn stats_lists_all_subjects_by_mastery_when_few() {
    let s = stats_sections(&vec![1, 3, 3, 0]);
    assert_eq!(s.strongest, vec![1, 2, 0, 3]);
    assert!(s.to_reinforce.is_empty());
}

#[test]
fn stats_splits_strongest_and_weakest_when_many() {
    let ranks: Vec<u64> = (0..12).collect();
    let s = stats_sections(&ranks);
    assert_eq!(s.strongest, vec![11, 10, 9, 8, 7]);
    assert_eq!(s.to_reinforce, vec![0, 1, 2, 3, 4]);
}

#[test]
fn question_prefers_its_own_exercises() {
    let exs = catalog();
    let curated: Vec<String> = ["a", "b", "c", "d", "e", "f", "g"].iter().map(|s| s.to_string()).collect();
    let (shown, more) = question_exercises(&curated, &vec!["pointers".to_string()], &exs);
    assert_eq!(shown, vec!["a", "b", "c", "d", "e"]);
    assert_eq!(more, 2);
    let (shown, more) = question_exercises(&vec![], &vec!["pointers".to_string()], &exs);
    assert_eq!(shown, vec!["ptr-01", "ptr-02"]);
    assert_eq!(more, 0);
    let (shown, more) = question_exercises(&vec![], &vec![], &exs);
    assert!(shown.is_empty());
    assert_eq!(more, 0);
}
