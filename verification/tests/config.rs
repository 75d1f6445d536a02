use clings::config::{
    check_config_key, config_value_kind, parse_i64, ConfigValue, SyncConfig, TmuxConfig, UiConfig,
    SYNC_DEFAULT_BRANCH, TMUX_EDITOR,
};
use clings::error::KfError;

#[test]
fn config_test_ui_config_default_editor() {
    let cfg = UiConfig::default();
    assert_eq!(cfg.editor, TMUX_EDITOR);
    assert_eq!(cfg.editor, "nvim");
}

#[test]
fn config_test_ui_config_default_pane_width() {
    let cfg = UiConfig::default();
    assert_eq!(cfg.tmux_pane_width, 50);
}

#[test]
fn config_test_tmux_config_default_enabled() {
    let cfg = TmuxConfig::default();
    assert!(cfg.enabled);
}

#[test]
fn config_test_sync_config_default_disabled() {
    let cfg = SyncConfig::default();
    assert!(!cfg.enabled);
}

#[test]
fn config_test_sync_config_default_empty_remote() {
    let cfg = SyncConfig::default();
    assert_eq!(cfg.remote, "");
}

#[test]
fn config_test_sync_config_default_branch() {
    let cfg = SyncConfig::default();
    assert_eq!(cfg.branch, SYNC_DEFAULT_BRANCH);
    assert_eq!(cfg.branch, "main");
}

#[test]
fn config_test_sync_config_default_empty_hostname() {
    let cfg = SyncConfig::default();
    assert_eq!(cfg.hostname, "");
}

#[test]
fn tests_test_ui_config_default_editor() {
    let cfg = UiConfig::default();
    assert_eq!(cfg.editor, TMUX_EDITOR);
    assert_eq!(cfg.editor, "nvim");
}

#[test]
fn tests_test_ui_config_default_pane_width() {
    let cfg = UiConfig::default();
    assert_eq!(cfg.tmux_pane_width, 50);
}

#[test]
fn tests_test_tmux_config_default_enabled() {
    let cfg = TmuxConfig::default();
    assert!(cfg.enabled);
}

#[test]
fn tests_test_sync_config_default_disabled() {
    let cfg = SyncConfig::default();
    assert!(!cfg.enabled);
}

#[test]
fn tests_test_sync_config_default_empty_remote() {
    let cfg = SyncConfig::default();
    assert_eq!(cfg.remote, "");
}

#[test]
fn tests_test_sync_config_default_branch() {
    let cfg = SyncConfig::default();
    assert_eq!(cfg.branch, SYNC_DEFAULT_BRANCH);
    assert_eq!(cfg.branch, "main");
}

#[test]
fn tests_test_sync_config_default_empty_hostname() {
    let cfg = SyncConfig::default();
    assert_eq!(cfg.hostname, "");
}

#[test]
fn settable_key_is_accepted() {
    assert!(check_config_key("srs", "decay_days").is_ok());
    assert!(check_config_key("sync", "hostname").is_ok());
}

#[test]
fn unknown_key_lists_allowed_keys() {
    match check_config_key("ui", "theme") {
        Err(KfError::Config(msg)) => assert_eq!(
            msg,
            "clé inconnue 'ui.theme' — valeurs autorisées : srs.decay_days, srs.base_interval_days, ui.editor, tmux.enabled, ui.tmux_pane_width, sync.enabled, sync.remote, sync.branch, sync.hostname"
        ),
        other => panic!("unexpected result: {other:?}"),
    }
}

#[test]
fn integers_read_as_std_reads_them() {
    assert_eq!(parse_i64("42"), Some(42));
    assert_eq!(parse_i64("+7"), Some(7));
    assert_eq!(parse_i64("-5"), Some(-5));
    assert_eq!(parse_i64("-9223372036854775808"), Some(i64::MIN));
    assert_eq!(parse_i64("9223372036854775807"), Some(i64::MAX));
    assert_eq!(parse_i64("9223372036854775808"), None);
    assert_eq!(parse_i64(""), None);
    assert_eq!(parse_i64("-"), None);
    assert_eq!(parse_i64("1.5"), None);
    assert_eq!(parse_i64(" 3"), None);
}

#[test]
fn config_values_by_kind() {
    assert_eq!(config_value_kind("14", true), ConfigValue::Integer(14));
    assert_eq!(config_value_kind("2.5", true), ConfigValue::Float);
    assert_eq!(config_value_kind("true", false), ConfigValue::Boolean(true));
    assert_eq!(config_value_kind("false", false), ConfigValue::Boolean(false));
    assert_eq!(config_value_kind("True", false), ConfigValue::Text);
    assert_eq!(config_value_kind("git@github.com:me/sync.git", false), ConfigValue::Text);
}
