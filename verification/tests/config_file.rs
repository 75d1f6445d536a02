use clings::config_file::set_in_config_text;
use clings::error::KfError;

fn read(text: &str) -> toml::Table {
    toml::from_str::<toml::Table>(text).unwrap()
}

#[test]
fn set_value_creates_section_and_key() {
    let out = set_in_config_text(None, "srs", "decay_days", "7", None).unwrap();
    let t = read(&out);
    assert_eq!(t["srs"]["decay_days"].as_integer(), Some(7));
    assert_eq!(t.len(), 1);
}

#[test]
fn set_value_keeps_other_entries() {
    let text = "[ui]\neditor = \"vim\"\n\n[srs]\ndecay_days = 14\nbase_interval_days = 2\nmultiplier = 2.5\n".to_string();
    let out = set_in_config_text(Some(text), "srs", "decay_days", "7", None).unwrap();
    let t = read(&out);
    assert_eq!(t["srs"]["decay_days"].as_integer(), Some(7));
    assert_eq!(t["srs"]["base_interval_days"].as_integer(), Some(2));
    assert_eq!(t["srs"]["multiplier"].as_float(), Some(2.5));
    assert_eq!(t["ui"]["editor"].as_str(), Some("vim"));
}

#[test]
fn set_value_kinds() {
    let out = set_in_config_text(None, "tmux", "enabled", "false", None).unwrap();
    assert_eq!(read(&out)["tmux"]["enabled"].as_bool(), Some(false));
    let out = set_in_config_text(None, "sync", "remote", "git@host:me/sync.git", None).unwrap();
    assert_eq!(read(&out)["sync"]["remote"].as_str(), Some("git@host:me/sync.git"));
    let out = set_in_config_text(None, "srs", "x", "2.5", Some(toml::Value::Float(2.5))).unwrap();
    assert_eq!(read(&out)["srs"]["x"].as_float(), Some(2.5));
}

#[test]
fn set_value_on_unreadable_text_starts_empty() {
    let out = set_in_config_text(Some("not = [toml".to_string()), "ui", "editor", "nano", None).unwrap();
    let t = read(&out);
    assert_eq!(t.len(), 1);
    assert_eq!(t["ui"]["editor"].as_str(), Some("nano"));
}

#[test]
fn set_value_refuses_a_section_that_is_no_table() {
    match set_in_config_text(Some("srs = 3\n".to_string()), "srs", "decay_days", "7", None) {
        Err(KfError::Config(m)) => assert_eq!(m, "section 'srs' n'est pas une table"),
        other => panic!("unexpected: {other:?}"),
    }
}
