use clings::models::{Difficulty, ExerciseType, Lang};

#[test]
fn test_difficulty_try_from_valid() {
    for v in 1..=5 {
        let result = Difficulty::try_from(v);
        assert!(result.is_ok(), "Difficulty::try_from({}) should succeed", v);
    }
    assert_eq!(Difficulty::try_from(1).unwrap(), Difficulty::Easy);
    assert_eq!(Difficulty::try_from(2).unwrap(), Difficulty::Medium);
    assert_eq!(Difficulty::try_from(3).unwrap(), Difficulty::Hard);
    assert_eq!(Difficulty::try_from(4).unwrap(), Difficulty::Advanced);
    assert_eq!(Difficulty::try_from(5).unwrap(), Difficulty::Expert);
}

#[test]
fn test_difficulty_try_from_invalid() {
    assert!(Difficulty::try_from(0).is_err(), "Difficulty::try_from(0) should fail");
    assert!(Difficulty::try_from(6).is_err(), "Difficulty::try_from(6) should fail");
    assert!(Difficulty::try_from(255).is_err(), "Difficulty::try_from(255) should fail");
}

#[test]
fn test_difficulty_display() {
    assert_eq!(Difficulty::Easy.to_string(), "Easy");
    assert_eq!(Difficulty::Medium.to_string(), "Medium");
    assert_eq!(Difficulty::Hard.to_string(), "Hard");
    assert_eq!(Difficulty::Advanced.to_string(), "Advanced");
    assert_eq!(Difficulty::Expert.to_string(), "Expert");
}

#[test]
fn test_difficulty_ordering() {
    assert!(Difficulty::Easy < Difficulty::Medium);
    assert!(Difficulty::Medium < Difficulty::Hard);
    assert!(Difficulty::Hard < Difficulty::Advanced);
    assert!(Difficulty::Advanced < Difficulty::Expert);
}

#[test]
fn test_difficulty_roundtrip() {
    for original in [
        Difficulty::Easy,
        Difficulty::Medium,
        Difficulty::Hard,
        Difficulty::Advanced,
        Difficulty::Expert,
    ] {
        let u8_val: u8 = original.into();
        let recovered = Difficulty::try_from(u8_val).unwrap();
        assert_eq!(original, recovered);
    }
}

#[test]
fn invalid_difficulty_message() {
    assert_eq!(Difficulty::try_from(7).unwrap_err(), "invalid difficulty: 7");
    assert_eq!(Difficulty::from_level(42).unwrap_err(), "invalid difficulty: 42");
}

#[test]
fn labels() {
    assert_eq!(Lang::C.to_string(), "c");
    assert_eq!(Lang::Cpp.to_string(), "cpp");
    assert_eq!(ExerciseType::FixBug.to_string(), "Fix Bug");
    assert_eq!(ExerciseType::default().to_string(), "Complete");
    assert_eq!(Difficulty::Hard.as_u8(), 3);
}
