use clings::models::{Difficulty, Exercise, ExerciseType, Lang, ValidationConfig, Visualizer};
use clings::review::{review_queue, ReviewState, WeakestExercise};

fn exercise(id: &str, subject: &str) -> Exercise {
    Exercise {
        id: id.to_string(),
        subject: subject.to_string(),
        lang: Lang::C,
        difficulty: Difficulty::Easy,
        title: id.to_string(),
        description: String::new(),
        starter_code: String::new(),
        solution_code: String::new(),
        hints: vec![],
        validation: ValidationConfig::default(),
        prerequisites: vec![],
        files: vec![],
        exercise_type: ExerciseType::default(),
        key_concept: None,
        common_mistake: None,
        kc_ids: vec![],
        starter_code_stages: vec![],
        visualizer: Visualizer::default(),
        libsys_module: None,
        libsys_function: None,
        libsys_unlock: None,
        header_code: None,
    }
}

fn state(name: &str, rank: u64, next: Option<i64>) -> ReviewState {
    ReviewState { name: name.to_string(), rank, next_review_at: next }
}

#[test]
fn weakest_subject_comes_first() {
    let exercises = vec![exercise("p1", "pointers"), exercise("s1", "signals"), exercise("s2", "signals")];
    let due = vec!["pointers".to_string(), "signals".to_string()];
    let weakest = vec![WeakestExercise { subject: "signals".to_string(), exercise_id: "s2".to_string() }];
    let states = vec![state("pointers", 3, Some(50)), state("signals", 1, Some(90))];
    let queue = review_queue(&exercises, &due, &weakest, &states, 0);
    let ids: Vec<&str> = queue.iter().map(|e| e.id.as_str()).collect();
    assert_eq!(ids, vec!["s2", "p1"]);
}

#[test]
fn earlier_review_breaks_ties() {
    let exercises = vec![exercise("a", "pipes"), exercise("b", "sockets"), exercise("c", "signals")];
    let due = vec!["pipes".to_string(), "sockets".to_string(), "signals".to_string()];
    let states = vec![state("pipes", 2, None), state("sockets", 2, Some(10)), state("signals", 2, Some(10))];
    let queue = review_queue(&exercises, &due, &vec![], &states, 0);
    let ids: Vec<&str> = queue.iter().map(|e| e.id.as_str()).collect();
    assert_eq!(ids, vec!["b", "c", "a"]);
}

#[test]
fn unknown_weakest_falls_back_to_first_exercise() {
    let exercises = vec![exercise("x1", "pipes"), exercise("x2", "pipes")];
    let due = vec!["pipes".to_string(), "threads".to_string()];
    let weakest = vec![WeakestExercise { subject: "pipes".to_string(), exercise_id: "gone".to_string() }];
    let queue = review_queue(&exercises, &due, &weakest, &vec![], 0);
    assert_eq!(queue.len(), 1);
    assert_eq!(queue[0].id, "x1");
}
