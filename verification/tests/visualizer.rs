use clings::models::{
    Difficulty, Exercise, ExerciseType, Lang, ValidationConfig, VisStep, VisVar, Visualizer,
};
use clings::visualizer::visualizer_panel;

fn var(name: &str, value: &str) -> VisVar {
    VisVar { name: name.to_string(), value: value.to_string() }
}

fn step(label: &str, step_label: &str, stack: Vec<VisVar>, heap: Vec<VisVar>, explanation: &str) -> VisStep {
    VisStep {
        label: label.to_string(),
        stack,
        heap,
        explanation: explanation.to_string(),
        step_label: step_label.to_string(),
    }
}

fn exercise_with(steps: Vec<VisStep>) -> Exercise {
    Exercise {
        id: "ptr-01".to_string(),
        subject: "pointers".to_string(),
        lang: Lang::C,
        difficulty: Difficulty::Easy,
        title: "Pointeurs".to_string(),
        description: String::new(),
        starter_code: String::new(),
        solution_code: String::new(),
        hints: vec![],
        validation: ValidationConfig::default(),
        prerequisites: vec![],
        files: vec![],
        exercise_type: ExerciseType::default(),
        key_concept: None,
        common_mistake: None,
        kc_ids: vec![],
        starter_code_stages: vec![],
        visualizer: Visualizer { vis_type: "memory".to_string(), steps },
        libsys_module: None,
        libsys_function: None,
        libsys_unlock: None,
        header_code: None,
    }
}

fn pad(s: &str, w: usize) -> String {
    format!("{:<w$}", s)
}

#[test]
fn visualizer_without_steps_shows_nothing() {
    assert!(visualizer_panel(&exercise_with(vec![]), 0).is_none());
}

#[test]
fn visualizer_panel_lays_out_a_step() {
    let ex = exercise_with(vec![
        step("Déclaration", "", vec![var("x", "42"), var("p", "&x")], vec![], "p pointe sur x"),
        step("Allocation", "malloc", vec![var("q", "0x10")], vec![var("0x10", "7")], ""),
    ]);
    let p = visualizer_panel(&ex, 0).unwrap();
    assert_eq!(p.title, "Visualiseur — 1/2");
    assert_eq!((p.step, p.total), (0, 2));
    assert_eq!(p.step_info, pad("  Etape 1/2", 49));
    assert_eq!(p.label, pad("Déclaration", 52));
    assert_eq!(p.header.left, pad("STACK", 26));
    assert_eq!(p.rows.len(), 2);
    assert_eq!(p.rows[0].left, pad("x: 42", 26));
    assert_eq!(p.rows[0].right, pad("(vide)", 26));
    assert!(p.rows[0].right_dimmed);
    assert_eq!(p.rows[1].left, pad("p: &x", 26));
    assert_eq!(p.rows[1].right, pad("", 26));
    assert!(!p.rows[1].right_dimmed);
    assert_eq!(p.explanation, vec![pad("p pointe sur x", 52)]);
    assert_eq!(p.line_count, 9 + 2 + 1);
}

#[test]
fn visualizer_clamps_step_and_prefers_short_label() {
    let ex = exercise_with(vec![
        step("Déclaration", "", vec![], vec![], ""),
        step("Allocation", "malloc", vec![var("q", "0x10")], vec![var("0x10", "7")], ""),
    ]);
    let p = visualizer_panel(&ex, 9).unwrap();
    assert_eq!(p.step, 1);
    assert_eq!(p.title, "Visualiseur — 2/2");
    assert_eq!(p.label, pad("malloc", 52));
    assert_eq!(p.rows.len(), 1);
    assert_eq!(p.rows[0].right, pad("0x10: 7", 26));
    assert!(!p.rows[0].right_dimmed);
    assert!(p.explanation.is_empty());
    assert_eq!(p.line_count, 10);
}
