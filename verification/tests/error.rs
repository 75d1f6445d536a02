use clings::error::KfError;

#[test]
fn test_exercise_not_found_display() {
    let e = KfError::ExerciseNotFound("ptr-deref-42".to_string());
    assert_eq!(e.to_string(), "exercice introuvable : ptr-deref-42");
}

#[test]
fn test_config_error_display() {
    let e = KfError::Config("Variable $HOME non définie".to_string());
    assert_eq!(e.to_string(), "Variable $HOME non définie");
}

#[test]
fn sync_error_display() {
    let e = KfError::Sync("push refusé".to_string());
    assert_eq!(e.to_string(), "erreur de synchronisation : push refusé");
}
