use clings::authoring::{check_exercise, generate_skeleton, parse_mode, skeleton_at};
use clings::error::KfError;
use clings::models::ValidationMode;

#[test]
fn test_generate_skeleton_output_mode() {
    let ex = generate_skeleton("pointers", 2, "output").unwrap();
    assert_eq!(ex.subject, "pointers");
    assert!(ex.id.starts_with("pointers-new-"));
    assert!(ex.validation.expected_output.is_some());
    assert!(ex.validation.test_code.is_none());
    assert_eq!(ex.validation.mode, ValidationMode::Output);
}

#[test]
fn test_generate_skeleton_test_mode() {
    let ex = generate_skeleton("semaphores", 1, "test").unwrap();
    assert!(ex.validation.test_code.is_some());
    assert!(ex.validation.expected_output.is_none());
    assert!(ex.validation.expected_tests_pass.is_some());
    assert_eq!(ex.validation.mode, ValidationMode::Test);
}

#[test]
fn test_generate_skeleton_invalid_difficulty() {
    assert!(generate_skeleton("pointers", 6, "output").is_err());
    assert!(generate_skeleton("pointers", 0, "output").is_err());
}

#[test]
fn parse_mode_ignores_case() {
    assert_eq!(parse_mode("OUTPUT").unwrap(), ValidationMode::Output);
    assert_eq!(parse_mode("Test").unwrap(), ValidationMode::Test);
}

#[test]
fn parse_mode_rejects_unknown_mode() {
    match parse_mode("Both") {
        Err(KfError::Config(msg)) => {
            assert_eq!(msg, "mode invalide : 'both' (attendu : output, test)")
        }
        other => panic!("unexpected result: {other:?}"),
    }
}

#[test]
fn skeleton_id_carries_timestamp() {
    let ex = skeleton_at("pipes", 3, "output", 1234).unwrap();
    assert_eq!(ex.id, "pipes-new-1234");
    assert_eq!(ex.subject, "pipes");
}

#[test]
fn skeleton_has_placeholder_problems() {
    let ex = skeleton_at("pipes", 1, "output", 7).unwrap();
    let problems = check_exercise(&ex);
    assert!(problems.iter().any(|e| e.0.contains("title")));
    assert!(problems.iter().any(|e| e.0.contains("description")));
}

#[test]
fn skeleton_invalid_difficulty_message() {
    match skeleton_at("pipes", 9, "output", 0) {
        Err(KfError::Config(msg)) => {
            assert_eq!(msg, "difficulty invalide : invalid difficulty: 9")
        }
        other => panic!("unexpected result: {other:?}"),
    }
}

#[test]
fn lowercase_mode_names() {
    assert_eq!(clings::authoring::mode_of_lowercase("output").unwrap(), ValidationMode::Output);
    assert_eq!(clings::authoring::mode_of_lowercase("test").unwrap(), ValidationMode::Test);
    assert!(clings::authoring::mode_of_lowercase("Test").is_err());
}
