use clings::chapters::{
    chapter_index_of, chapters, curriculum_chapter, filter_by_chapter, flatten_chapters,
    order_by_chapters, ChapterBlock, SubjectRank,
};
use clings::models::{
    Difficulty, Exercise, ExerciseType, Lang, ValidationConfig, Visualizer,
};

fn exercise(id: &str, subject: &str, difficulty: Difficulty) -> Exercise {
    Exercise {
        id: id.to_string(),
        subject: subject.to_string(),
        lang: Lang::C,
        difficulty,
        title: id.to_string(),
        description: "Test".to_string(),
        starter_code: String::new(),
        solution_code: String::new(),
        hints: vec![],
        validation: ValidationConfig {
            expected_output: Some("test".to_string()),
            ..Default::default()
        },
        prerequisites: vec![],
        files: vec![],
        exercise_type: ExerciseType::default(),
        key_concept: None,
        common_mistake: None,
        kc_ids: vec![],
        starter_code_stages: vec![],
        visualizer: Visualizer::default(),
        libsys_module: None,
        libsys_function: None,
        libsys_unlock: None,
        header_code: None,
    }
}

#[test]
fn test_chapters_not_empty() {
    assert!(!chapters().is_empty(), "CHAPTERS array should not be empty");
}

#[test]
fn test_all_chapters_have_subjects() {
    for chapter in chapters() {
        assert!(
            !chapter.subjects.is_empty(),
            "Chapter {} '{}' has no subjects",
            chapter.number,
            chapter.title
        );
    }
}

#[test]
fn test_flatten_chapters_preserves_order() {
    let ex1 = exercise("ex1", "structs", Difficulty::Easy);
    let ex2 = Exercise {
        id: "ex2".to_string(),
        subject: "pointers".to_string(),
        ..ex1.clone()
    };
    let blocks = vec![ChapterBlock {
        chapter: curriculum_chapter(0),
        exercises: vec![&ex1, &ex2],
    }];
    let flattened = flatten_chapters(&blocks);
    assert_eq!(flattened.len(), 2);
    assert_eq!(flattened[0].id, "ex1");
    assert_eq!(flattened[1].id, "ex2");
}

#[test]
fn test_piscine_order() {
    let exercises = vec![
        exercise("pipes-hard", "pipes", Difficulty::Hard),
        exercise("structs-easy", "structs", Difficulty::Easy),
        exercise("structs-medium", "structs", Difficulty::Medium),
    ];
    let subjects: Vec<SubjectRank> = vec![];
    let blocks = order_by_chapters(&exercises, &subjects, 0);
    let order = flatten_chapters(&blocks);
    assert_eq!(order.len(), 3);
    assert_eq!(order[0].subject, "structs");
    assert_eq!(order[1].subject, "structs");
    assert_eq!(order[2].subject, "pipes");
    assert_eq!(order[0].difficulty, Difficulty::Easy);
    assert_eq!(order[1].difficulty, Difficulty::Medium);
}

#[test]
fn test_piscine_order_multi_chapter() {
    let exercises = vec![
        exercise("pipes-easy", "pipes", Difficulty::Easy),
        exercise("structs-hard", "structs", Difficulty::Hard),
        exercise("structs-easy", "structs", Difficulty::Easy),
    ];
    let subjects: Vec<SubjectRank> = vec![];
    let blocks = order_by_chapters(&exercises, &subjects, 0);
    let order = flatten_chapters(&blocks);
    assert_eq!(order.len(), 3);
    let structs_positions: Vec<usize> = order
        .iter()
        .enumerate()
        .filter(|(_, e)| e.subject == "structs")
        .map(|(i, _)| i)
        .collect();
    let pipes_positions: Vec<usize> = order
        .iter()
        .enumerate()
        .filter(|(_, e)| e.subject == "pipes")
        .map(|(i, _)| i)
        .collect();
    assert!(structs_positions
        .iter()
        .all(|&p| pipes_positions.iter().all(|&q| p < q)));
    assert_eq!(structs_positions.len(), 2);
    assert_eq!(order[structs_positions[0]].difficulty, Difficulty::Easy);
    assert_eq!(order[structs_positions[1]].difficulty, Difficulty::Hard);
}

#[test]
fn chapter_lookup_by_subject() {
    assert_eq!(chapter_index_of("structs"), Some(0));
    assert_eq!(chapter_index_of("pipes"), Some(8));
    assert_eq!(chapter_index_of("capstones"), Some(15));
    assert_eq!(chapter_index_of("astronomy"), None);
}

#[test]
fn lower_mastery_first_within_difficulty() {
    let exercises = vec![
        exercise("ptr", "pointers", Difficulty::Easy),
        exercise("st", "structs", Difficulty::Easy),
    ];
    let ranks = vec![
        SubjectRank { name: "pointers".to_string(), rank: 2 },
        SubjectRank { name: "structs".to_string(), rank: 1 },
    ];
    let blocks = order_by_chapters(&exercises, &ranks, 0);
    assert_eq!(blocks.len(), 1);
    assert_eq!(blocks[0].chapter.number, 1);
    let order = flatten_chapters(&blocks);
    assert_eq!(order[0].id, "st");
    assert_eq!(order[1].id, "ptr");
}

#[test]
fn uncategorized_exercises_come_last() {
    let exercises = vec![
        exercise("misc", "astronomy", Difficulty::Easy),
        exercise("sig", "signals", Difficulty::Hard),
    ];
    let ranks: Vec<SubjectRank> = vec![];
    let blocks = order_by_chapters(&exercises, &ranks, 0);
    assert_eq!(blocks.len(), 2);
    assert_eq!(blocks[0].chapter.number, 8);
    assert_eq!(blocks[1].chapter.number, 0);
    assert_eq!(blocks[1].chapter.title, "Divers");
}

#[test]
fn filter_keeps_only_requested_chapter() {
    let exercises = vec![
        exercise("st", "structs", Difficulty::Easy),
        exercise("sig", "signals", Difficulty::Easy),
    ];
    let ranks: Vec<SubjectRank> = vec![];
    let mut blocks = order_by_chapters(&exercises, &ranks, 0);
    assert!(filter_by_chapter(&mut blocks, Some(8)));
    assert_eq!(blocks.len(), 1);
    assert_eq!(blocks[0].exercises[0].id, "sig");
    assert!(!filter_by_chapter(&mut blocks, Some(3)));
    assert!(blocks.is_empty());
}

#[test]
fn filter_without_chapter_keeps_everything() {
    let exercises = vec![exercise("st", "structs", Difficulty::Easy)];
    let ranks: Vec<SubjectRank> = vec![];
    let mut blocks = order_by_chapters(&exercises, &ranks, 0);
    assert!(filter_by_chapter(&mut blocks, None));
    assert_eq!(blocks.len(), 1);
}
