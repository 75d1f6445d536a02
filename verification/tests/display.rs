use clings::display::{
    difficulty_star_text, fmt_var, footer_box, header_box, hr, output_diff, pct_band, sparkline,
    try_parse_arrow, wrap_text, ArrowKey, DiffKind, HEADER_WIDTH, progress_bar, minimap,
    stage_label, statement_lines,
};
use clings::models::{Difficulty, VisVar};

#[test]
fn wrap_text_short_line_unchanged() {
    let lines = wrap_text("hello world", 80);
    assert_eq!(lines, vec!["hello world"]);
}

#[test]
fn wrap_text_empty_input() {
    let lines = wrap_text("", 80);
    assert!(lines.is_empty(), "empty input should produce no lines");
}

#[test]
fn wrap_text_splits_at_width() {
    let lines = wrap_text("one two", 4);
    assert_eq!(lines, vec!["one", "two"]);
}

#[test]
fn wrap_text_long_sentence() {
    let text = "alpha beta gamma delta epsilon";
    let lines = wrap_text(text, 11);
    assert_eq!(lines[0], "alpha beta");
    assert_eq!(lines[1], "gamma delta");
    assert_eq!(lines[2], "epsilon");
}

#[test]
fn wrap_text_single_word_longer_than_width() {
    let lines = wrap_text("superlongword", 5);
    assert_eq!(lines, vec!["superlongword"]);
}

#[test]
fn wrap_text_keeps_every_word() {
    let text = "  the quick\tbrown fox   jumps over\nthe lazy dog ";
    let lines = wrap_text(text, 9);
    assert_eq!(lines.join(" "), "the quick brown fox jumps over the lazy dog");
    assert!(lines.iter().all(|l| l.chars().count() <= 9));
}

#[test]
fn hr_has_correct_width() {
    let line = hr();
    assert_eq!(line.chars().count(), HEADER_WIDTH);
}

#[test]
fn header_box_contains_title() {
    let title = "TEST";
    let result = header_box(title);
    assert!(result.contains(title), "header_box should contain the title");
    assert!(result.starts_with('╔'), "should start with ╔");
    assert!(result.ends_with('╗'), "should end with ╗");
}

#[test]
fn header_box_empty_title() {
    let result = header_box("");
    assert!(result.starts_with('╔'));
    assert!(result.ends_with('╗'));
}

#[test]
fn footer_box_structure() {
    let result = footer_box();
    assert!(result.starts_with('╚'), "should start with ╚");
    assert!(result.ends_with('╝'), "should end with ╝");
    let inner: String = result.chars().skip(1).take_while(|&c| c == '═').collect();
    assert_eq!(inner.chars().count(), HEADER_WIDTH - 2);
}

#[test]
fn sparkline_empty() {
    assert_eq!(sparkline(&[]), "");
}

#[test]
fn sparkline_uniform_data() {
    let result = sparkline(&[5, 5, 5]);
    assert_eq!(result.chars().count(), 3);
    assert!(result.chars().all(|c| c == result.chars().next().unwrap()));
}

#[test]
fn sparkline_ascending() {
    let result = sparkline(&[0, 4, 8]);
    let chars: Vec<char> = result.chars().collect();
    assert_eq!(chars.len(), 3);
    assert!(
        chars[0] <= chars[1] && chars[1] <= chars[2],
        "ascending data should produce non-decreasing sparkline: {result}"
    );
}

#[test]
fn sparkline_all_zeros() {
    let result = sparkline(&[0, 0, 0]);
    assert!(result.chars().all(|c| c == '▁'));
}

#[test]
fn sparkline_single_value() {
    let result = sparkline(&[42]);
    assert_eq!(result.chars().count(), 1);
    assert_eq!(result.chars().next().unwrap(), '█');
}

#[test]
fn sparkline_exact_levels() {
    assert_eq!(sparkline(&[0, 1, 7, 14]), "▁▂▅█");
}

#[test]
fn fmt_var_nominal() {
    let v = VisVar {
        name: "x".to_string(),
        value: "42".to_string(),
    };
    assert_eq!(fmt_var(&v), "x: 42");
}

#[test]
fn fmt_var_empty_fields() {
    let v = VisVar {
        name: String::new(),
        value: String::new(),
    };
    assert_eq!(fmt_var(&v), ": ");
}

#[test]
fn arrow_sequences_are_parsed() {
    assert_eq!(try_parse_arrow(&[0x1b, b'[', b'A']), Some(ArrowKey::Up));
    assert_eq!(try_parse_arrow(&[0x1b, b'[', b'D']), Some(ArrowKey::Left));
    assert_eq!(try_parse_arrow(&[0x1b, b'[', b'Z']), None);
    assert_eq!(try_parse_arrow(&[b'q']), None);
}

#[test]
fn difficulty_stars_count() {
    assert_eq!(difficulty_star_text(Difficulty::Easy), "★☆☆☆☆");
    assert_eq!(difficulty_star_text(Difficulty::Advanced), "★★★★☆");
    assert_eq!(difficulty_star_text(Difficulty::Expert), "★★★★★");
}

#[test]
fn percentage_bands() {
    assert_eq!(pct_band(100), 2);
    assert_eq!(pct_band(75), 2);
    assert_eq!(pct_band(74), 1);
    assert_eq!(pct_band(25), 1);
    assert_eq!(pct_band(24), 0);
}

#[test]
fn diff_marks_changed_and_extra_lines() {
    let d = output_diff("a\nb\nc\n", "  a\nx\n");
    let view: Vec<(DiffKind, &str)> = d.iter().map(|l| (l.kind, l.text.as_str())).collect();
    assert_eq!(
        view,
        vec![
            (DiffKind::Same, "a"),
            (DiffKind::Expected, "b"),
            (DiffKind::Got, "x"),
            (DiffKind::Expected, "c"),
        ]
    );
}

#[test]
fn diff_of_equal_outputs_is_all_same() {
    let d = output_diff("1\n2", "1\n2\n");
    assert_eq!(d.len(), 2);
    assert!(d.iter().all(|l| l.kind == DiffKind::Same));
}

#[test]
fn progress_bar_cells() {
    assert_eq!(progress_bar(0, 0), "░".repeat(30));
    assert_eq!(progress_bar(1, 2), format!("{}{}", "█".repeat(15), "░".repeat(15)));
    assert_eq!(progress_bar(1, 4), format!("{}▓{}", "█".repeat(7), "░".repeat(22)));
    assert_eq!(progress_bar(3, 3), "█".repeat(30));
    assert_eq!(progress_bar(2, 7).chars().count(), 30);
}

#[test]
fn minimap_marks_current_and_done() {
    assert_eq!(minimap(1, &vec![true, false, false, true]), "●◉○●");
    assert_eq!(minimap(9, &vec![]), "");
}

#[test]
fn statement_wraps_only_long_lines() {
    let long = "mot ".repeat(30);
    let text = format!("court\n{}\n\nfin", long.trim_end());
    let lines = statement_lines(&text);
    assert_eq!(lines[0], "court");
    assert!(lines.len() > 4);
    assert!(lines.iter().all(|l| l.chars().count() <= 72));
    assert_eq!(lines[lines.len() - 2], "");
    assert_eq!(lines[lines.len() - 1], "fin");
    assert_eq!(lines[1..lines.len() - 2].join(" "), long.trim_end());
}

#[test]
fn stage_labels() {
    assert_eq!(stage_label(Some(0)), "S0 Exemple");
    assert_eq!(stage_label(Some(4)), "S4 Autonome");
    assert_eq!(stage_label(Some(9)), "S2 Blancs");
    assert_eq!(stage_label(None), "S2 Blancs");
}

#[test]
fn difficulty_stars_contains_correct_count() {
    // Each variant must contain the right number of filled (★) and empty (☆) stars
    let easy = difficulty_star_text(Difficulty::Easy).to_string();
    let medium = difficulty_star_text(Difficulty::Medium).to_string();
    let hard = difficulty_star_text(Difficulty::Hard).to_string();
    let advanced = difficulty_star_text(Difficulty::Advanced).to_string();
    let expert = difficulty_star_text(Difficulty::Expert).to_string();

    assert_eq!(easy.chars().filter(|&c| c == '★').count(), 1);
    assert_eq!(easy.chars().filter(|&c| c == '☆').count(), 4);

    assert_eq!(medium.chars().filter(|&c| c == '★').count(), 2);
    assert_eq!(medium.chars().filter(|&c| c == '☆').count(), 3);

    assert_eq!(hard.chars().filter(|&c| c == '★').count(), 3);
    assert_eq!(hard.chars().filter(|&c| c == '☆').count(), 2);

    assert_eq!(advanced.chars().filter(|&c| c == '★').count(), 4);
    assert_eq!(advanced.chars().filter(|&c| c == '☆').count(), 1);

    assert_eq!(expert.chars().filter(|&c| c == '★').count(), 5);
    assert_eq!(expert.chars().filter(|&c| c == '☆').count(), 0);
}

#[test]
fn difficulty_stars_total_five_per_variant() {
    for d in [
        Difficulty::Easy,
        Difficulty::Medium,
        Difficulty::Hard,
        Difficulty::Advanced,
        Difficulty::Expert,
    ] {
        let s = difficulty_star_text(d).to_string();
        let star_count = s.chars().filter(|&c| c == '★' || c == '☆').count();
        assert_eq!(star_count, 5, "Difficulty {d:?} should have exactly 5 star chars");
    }
}
