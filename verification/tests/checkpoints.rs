use std::collections::HashMap;

use clings::checkpoints::{
    exam_checkpoint_text, index_text, last_session_texts, parse_exam_checkpoint,
    parse_last_session, parse_piscine_checkpoint, EXAM_CHECKPOINT_KEY,
    PISCINE_CHECKPOINT_KEY,
};

/// The progress store's key-value table: what it keeps is the library's text.
#[derive(Default)]
struct Kv(HashMap<String, String>);

impl Kv {
    fn set(&mut self, key: &str, value: String) {
        self.0.insert(key.to_string(), value);
    }
    fn get(&self, key: &str) -> Option<String> {
        self.0.get(key).cloned()
    }
    fn del(&mut self, key: &str) {
        self.0.remove(key);
    }

    fn save_piscine_checkpoint(&mut self, index: usize) {
        self.set(PISCINE_CHECKPOINT_KEY, index_text(index));
    }
    fn load_piscine_checkpoint(&self) -> Option<usize> {
        parse_piscine_checkpoint(self.get(PISCINE_CHECKPOINT_KEY))
    }
    fn clear_piscine_checkpoint(&mut self) {
        self.del(PISCINE_CHECKPOINT_KEY);
    }
    fn save_exam_checkpoint(&mut self, session_id: &str, index: usize) {
        self.set(EXAM_CHECKPOINT_KEY, exam_checkpoint_text(session_id, index));
    }
    fn load_exam_checkpoint(&self, session_id: &str) -> Option<usize> {
        parse_exam_checkpoint(self.get(EXAM_CHECKPOINT_KEY), session_id)
    }
    fn clear_exam_checkpoint(&mut self) {
        self.del(EXAM_CHECKPOINT_KEY);
    }
    fn save_last_session(&mut self, mode: &str, chapter: Option<u8>, index: usize) {
        let (m, c, i) = last_session_texts(mode, chapter, index);
        self.set("last_mode", m);
        self.set("last_chapter", c);
        self.set("last_exercise_index", i);
    }
    fn load_last_session(&self) -> Option<(String, Option<u8>, usize)> {
        parse_last_session(self.get("last_mode"), self.get("last_chapter"), self.get("last_exercise_index"))
    }
}

#[test]
fn test_checkpoint_roundtrip() {
    let mut kv = Kv::default();
    kv.save_piscine_checkpoint(3);
    assert_eq!(kv.load_piscine_checkpoint(), Some(3));
}

#[test]
fn test_clear_checkpoint() {
    let mut kv = Kv::default();
    kv.save_piscine_checkpoint(5);
    kv.clear_piscine_checkpoint();
    assert_eq!(kv.load_piscine_checkpoint(), None);
}

#[test]
fn test_checkpoint_advances_with_index() {
    let mut kv = Kv::default();
    for expected_index in [0usize, 1, 2, 5, 10] {
        kv.save_piscine_checkpoint(expected_index);
        assert_eq!(kv.load_piscine_checkpoint(), Some(expected_index));
    }
}

#[test]
fn test_checkpoint_overwrite() {
    let mut kv = Kv::default();
    kv.save_piscine_checkpoint(3);
    kv.save_piscine_checkpoint(7);
    assert_eq!(kv.load_piscine_checkpoint(), Some(7));
}

#[test]
fn test_load_checkpoint_missing_returns_none() {
    assert_eq!(Kv::default().load_piscine_checkpoint(), None);
}

#[test]
fn test_kv_checkpoint_roundtrip() {
    let mut kv = Kv::default();
    kv.save_piscine_checkpoint(42);
    assert_eq!(kv.load_piscine_checkpoint(), Some(42));
}

#[test]
fn test_kv_checkpoint_missing_returns_none() {
    assert_eq!(Kv::default().load_piscine_checkpoint(), None);
}

#[test]
fn test_kv_checkpoint_clear() {
    let mut kv = Kv::default();
    kv.save_piscine_checkpoint(7);
    kv.clear_piscine_checkpoint();
    assert_eq!(kv.load_piscine_checkpoint(), None);
}

#[test]
fn test_kv_checkpoint_overwrite() {
    let mut kv = Kv::default();
    kv.save_piscine_checkpoint(3);
    kv.save_piscine_checkpoint(17);
    assert_eq!(kv.load_piscine_checkpoint(), Some(17));
}

#[test]
fn piscine_checkpoint_unreadable_text() {
    assert_eq!(parse_piscine_checkpoint(Some(index_text(0))), Some(0));
    assert_eq!(parse_piscine_checkpoint(Some("x7".to_string())), None);
    assert_eq!(parse_piscine_checkpoint(Some(String::new())), None);
}

#[test]
fn test_exam_checkpoint_roundtrip() {
    let mut kv = Kv::default();
    kv.save_exam_checkpoint("nsy103-2024", 5);
    assert_eq!(kv.load_exam_checkpoint("nsy103-2024"), Some(5));
}

#[test]
fn exam_checkpoint_text_shape() {
    assert_eq!(exam_checkpoint_text("nsy103-2024", 5), "nsy103-2024:5");
}

#[test]
fn test_exam_checkpoint_session_isolation() {
    let mut kv = Kv::default();
    kv.save_exam_checkpoint("nsy103-2024", 3);
    assert_eq!(kv.load_exam_checkpoint("utc502-2023"), None);
}

#[test]
fn test_exam_checkpoint_session_id_with_colon() {
    let mut kv = Kv::default();
    kv.save_exam_checkpoint("utc502:2024", 7);
    assert_eq!(kv.load_exam_checkpoint("utc502:2024"), Some(7));
    // A session_id that only matches the prefix must not match
    assert_eq!(kv.load_exam_checkpoint("utc502"), None);
}

#[test]
fn test_exam_checkpoint_clear() {
    let mut kv = Kv::default();
    kv.save_exam_checkpoint("nsy103-2024", 2);
    kv.clear_exam_checkpoint();
    assert_eq!(kv.load_exam_checkpoint("nsy103-2024"), None);
}

#[test]
fn test_last_session_roundtrip() {
    let mut kv = Kv::default();
    kv.save_last_session("watch", Some(7), 12);
    assert_eq!(kv.load_last_session(), Some(("watch".to_string(), Some(7), 12)));
}

#[test]
fn test_last_session_all_chapters() {
    let mut kv = Kv::default();
    kv.save_last_session("piscine", None, 5);
    assert_eq!(kv.get("last_chapter"), Some("0".to_string()));
    assert_eq!(kv.load_last_session(), Some(("piscine".to_string(), None, 5)));
}

#[test]
fn test_last_session_missing_returns_none() {
    assert_eq!(Kv::default().load_last_session(), None);
    assert_eq!(parse_last_session(Some("watch".to_string()), None, Some("1".to_string())), None);
}

#[test]
fn last_session_unreadable_values() {
    let r = parse_last_session(Some("watch".to_string()), Some("300".to_string()), Some("abc".to_string()));
    assert_eq!(r, Some(("watch".to_string(), None, 0)));
}
