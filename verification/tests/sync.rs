use clings::config::SyncConfig;
use clings::error::KfError;
use clings::sync::{
    commit_message, push_branch, resolve_hostname, snapshot_hash, status, subject_count_in,
    validate_branch_name, JsonTop, SYNC_GITIGNORE_CONTENT,
};

#[test]
fn test_gitignore_excludes_db() {
    assert!(SYNC_GITIGNORE_CONTENT.contains("*.db"));
    assert!(SYNC_GITIGNORE_CONTENT.contains("*.db-wal"));
    assert!(SYNC_GITIGNORE_CONTENT.contains("*.toml"));
    assert!(SYNC_GITIGNORE_CONTENT.contains("*.c"));
}

#[test]
fn test_resolve_hostname_uses_config() {
    let mut cfg = SyncConfig::default();
    cfg.hostname = "machine-a".to_string();
    assert_eq!(resolve_hostname(&cfg, None), "machine-a");
}

#[test]
fn hostname_falls_back_to_system_then_unknown() {
    let cfg = SyncConfig::default();
    assert_eq!(resolve_hostname(&cfg, Some(" box-7\n".to_string())), "box-7");
    assert_eq!(resolve_hostname(&cfg, Some("  ".to_string())), "unknown");
    assert_eq!(resolve_hostname(&cfg, None), "unknown");
}

#[test]
fn test_status_no_git_repo() {
    let cfg = SyncConfig::default();
    let status = status(&cfg, None, 0);
    assert!(!status.enabled);
    assert!(status.last_commit.is_none());
    assert_eq!(status.subject_count, 0);
}

#[test]
fn status_reports_last_commit() {
    let mut cfg = SyncConfig::default();
    cfg.enabled = true;
    cfg.branch = String::new();
    let s = status(&cfg, Some("2024-05-01 sync: host\n".to_string()), 12);
    assert_eq!(s.last_commit.as_deref(), Some("2024-05-01 sync: host"));
    assert_eq!(s.branch, "main");
    assert_eq!(s.subject_count, 12);
}

#[test]
fn branch_names_are_checked() {
    assert!(validate_branch_name("main").is_ok());
    assert!(validate_branch_name("feature/x").is_ok());
    assert!(validate_branch_name("").is_err());
    assert!(validate_branch_name("-rf").is_err());
    match validate_branch_name("a b") {
        Err(KfError::Config(msg)) => assert_eq!(msg, "Nom de branche invalide : 'a b'"),
        other => panic!("unexpected result: {other:?}"),
    }
}

#[test]
fn push_branch_defaults_to_main() {
    let mut cfg = SyncConfig::default();
    cfg.branch = String::new();
    assert_eq!(push_branch(&cfg).unwrap(), "main");
    cfg.branch = "dev".to_string();
    assert_eq!(push_branch(&cfg).unwrap(), "dev");
    cfg.branch = "--force".to_string();
    assert!(push_branch(&cfg).is_err());
}

#[test]
fn commit_message_is_sanitised() {
    assert_eq!(commit_message("my\"host\n", "2024-01-01T00:00:00Z"), "sync: my_host_ 2024-01-01T00:00:00Z");
}

#[test]
fn snapshot_hash_weights_leading_bytes() {
    assert_eq!(snapshot_hash(&vec![]), 0);
    assert_eq!(snapshot_hash(&vec![1, 2, 3]), 3 + 1 + 2 * 2 + 3 * 3);
    let long = vec![1u8; 100];
    assert_eq!(snapshot_hash(&long), 100 + (1..=64).sum::<u64>());
}

#[test]
fn snapshot_subjects_are_counted() {
    let snap = r#"{"version": 1, "subjects": [{"name": "pointers"}, {"name": "signals"}]}"#.to_string();
    assert_eq!(clings::sync::snapshot_subject_count(Some(snap)), 2);
    assert_eq!(clings::sync::snapshot_subject_count(Some("not json".to_string())), 0);
    assert_eq!(clings::sync::snapshot_subject_count(Some("{}".to_string())), 0);
    assert_eq!(clings::sync::snapshot_subject_count(None), 0);
}

#[test]
fn snapshot_in_array_form_is_counted() {
    let count = |t: &str| clings::sync::snapshot_subject_count(Some(t.to_string()));
    assert_eq!(count("[[1, 2]]"), 2);
    assert_eq!(count("[[]]"), 0);
    assert_eq!(count("[[1], [2]]"), 0);
    assert_eq!(count("[1]"), 0);
    assert_eq!(count("[]"), 0);
    assert_eq!(count(r#"{"subjects": 3}"#), 0);
    assert_eq!(count(r#"{"subjects": null}"#), 0);
    assert_eq!(count(r#"{"other": [1], "subjects": [1, 2, 3]}"#), 3);
    assert_eq!(count("42"), 0);
}

#[test]
fn repeated_subjects_field_counts_nothing() {
    let once = JsonTop::Object(vec![("a".to_string(), None), ("subjects".to_string(), Some(4))]);
    assert_eq!(subject_count_in(&once), 4);
    let twice = JsonTop::Object(vec![
        ("subjects".to_string(), Some(4)),
        ("subjects".to_string(), Some(4)),
    ]);
    assert_eq!(subject_count_in(&twice), 0);
    let not_list = JsonTop::Object(vec![("subjects".to_string(), None)]);
    assert_eq!(subject_count_in(&not_list), 0);
    assert_eq!(subject_count_in(&JsonTop::Array(vec![Some(7)])), 7);
    assert_eq!(subject_count_in(&JsonTop::Array(vec![None])), 0);
    assert_eq!(subject_count_in(&JsonTop::Scalar), 0);
}
