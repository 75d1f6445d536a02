use clings::models::{Difficulty, Exercise, ExerciseType, Lang, ValidationConfig};
use clings::runner::{
    build_gcc_compilation_args, linker_flags, make_compile_error, normalize, output_run_result,
    parse_gcc_hint, starter_code_for_stage, validate_output, compiler_line, compiler_lines,
    CompilerLine, Severity,
};

fn make_exercise(subject: &str, expected: Option<String>) -> Exercise {
    Exercise {
        id: "test".to_string(),
        subject: subject.to_string(),
        lang: Lang::C,
        difficulty: Difficulty::Easy,
        title: "Test".to_string(),
        description: "Test".to_string(),
        starter_code: "int main() { return 0; }".to_string(),
        solution_code: "int main() { return 0; }".to_string(),
        hints: vec![],
        validation: ValidationConfig {
            expected_output: expected,
            ..Default::default()
        },
        prerequisites: vec![],
        files: vec![],
        exercise_type: ExerciseType::Complete,
        key_concept: None,
        common_mistake: None,
        kc_ids: vec![],
        starter_code_stages: vec![],
        visualizer: Default::default(),
        libsys_module: None,
        libsys_function: None,
        libsys_unlock: None,
        header_code: None,
    }
}

fn staged(default: &str, stages: &[&str]) -> Exercise {
    let mut exercise = make_exercise("pointers", None);
    exercise.starter_code = default.to_string();
    exercise.starter_code_stages = stages.iter().map(|s| s.to_string()).collect();
    exercise
}

#[test]
fn test_normalize_trims_whitespace() {
    let input = "  hello  \n  world  \n  ";
    let result = normalize(input);
    assert_eq!(result, "hello\n  world");
}

#[test]
fn test_normalize_crlf() {
    let input = "hello\r\nworld\r\n";
    let result = normalize(input);
    assert_eq!(result, "hello\nworld");
}

#[test]
fn test_normalize_empty() {
    let result = normalize("");
    assert_eq!(result, "");
}

#[test]
fn test_normalize_trailing_whitespace_per_line() {
    let input = "hello   \nworld   \n";
    let result = normalize(input);
    assert_eq!(result, "hello\nworld");
}

#[test]
fn compiler_test_normalize_removes_whitespace() {
    assert_eq!(normalize("hello"), "hello");
    assert_eq!(normalize("  hello  "), "hello");
    assert_eq!(normalize("hello\n\n"), "hello");
    assert_eq!(normalize("hello   \nworld"), "hello\nworld");
}

#[test]
fn compiler_test_normalize_preserves_internal_structure() {
    let input = "line 1  \nline 2  \nline 3";
    let expected = "line 1\nline 2\nline 3";
    assert_eq!(normalize(input), expected);
}

#[test]
fn mod_test_normalize_removes_whitespace() {
    assert_eq!(normalize("hello"), "hello");
    assert_eq!(normalize("  hello  "), "hello");
    assert_eq!(normalize("hello\n\n"), "hello");
    assert_eq!(normalize("hello   \nworld"), "hello\nworld");
}

#[test]
fn mod_test_normalize_preserves_internal_structure() {
    let input = "line 1  \nline 2  \nline 3";
    let expected = "line 1\nline 2\nline 3";
    assert_eq!(normalize(input), expected);
}

#[test]
fn normalize_is_idempotent_on_example() {
    let once = normalize("  a  \r\n b \n\n");
    assert_eq!(normalize(&once), once);
}

#[test]
fn runner_test_validate_output_exact_match() {
    let exercise = make_exercise("pointers", Some("42".to_string()));
    assert!(validate_output("42", &exercise));
}

#[test]
fn test_validate_output_mismatch() {
    let exercise = make_exercise("pointers", Some("42".to_string()));
    assert!(!validate_output("43", &exercise));
}

#[test]
fn test_validate_output_whitespace_normalization() {
    let exercise = make_exercise("pointers", Some("hello\n  world".to_string()));
    assert!(validate_output("hello  \n  world  ", &exercise));
}

#[test]
fn test_validate_output_regex() {
    let exercise = make_exercise("pointers", Some("REGEX:^[0-9]+$".to_string()));
    assert!(validate_output("42", &exercise));
    assert!(!validate_output("abc", &exercise));
}

#[test]
fn test_validate_output_regex_with_whitespace() {
    let exercise = make_exercise("pointers", Some("REGEX:^hello\\s+world$".to_string()));
    assert!(validate_output("hello   world", &exercise));
    assert!(!validate_output("hello world extra", &exercise));
}

#[test]
fn test_validate_output_regex_invalid() {
    let exercise = make_exercise("pointers", Some("REGEX:[invalid(".to_string()));
    assert!(!validate_output("anything", &exercise));
}

#[test]
fn runner_test_validate_output_no_expected() {
    let exercise = make_exercise("pointers", None);
    assert!(validate_output("anything", &exercise));
}

#[test]
fn compiler_test_validate_output_exact_match() {
    let mut exercise = make_exercise("test", Some("expected".to_string()));
    exercise.validation.expected_output = Some("expected".to_string());
    assert!(validate_output("expected", &exercise));
    assert!(!validate_output("wrong", &exercise));
}

#[test]
fn compiler_test_validate_output_regex_match() {
    let mut exercise = make_exercise("test", Some("REGEX:\\d+".to_string()));
    exercise.validation.expected_output = Some("REGEX:\\d+".to_string());
    assert!(validate_output("42", &exercise));
    assert!(!validate_output("abc", &exercise));
}

#[test]
fn compiler_test_validate_output_no_expected() {
    let exercise = make_exercise("test", None);
    assert!(validate_output("anything", &exercise));
}

#[test]
fn mod_test_validate_output_exact_match() {
    let mut exercise = make_exercise("test", Some("expected".to_string()));
    exercise.validation.expected_output = Some("expected".to_string());
    assert!(validate_output("expected", &exercise));
    assert!(!validate_output("wrong", &exercise));
}

#[test]
fn mod_test_validate_output_regex_match() {
    let mut exercise = make_exercise("test", Some("REGEX:\\d+".to_string()));
    exercise.validation.expected_output = Some("REGEX:\\d+".to_string());
    assert!(validate_output("42", &exercise));
    assert!(!validate_output("abc", &exercise));
}

#[test]
fn mod_test_validate_output_no_expected() {
    let exercise = make_exercise("test", None);
    assert!(validate_output("anything", &exercise));
}

#[test]
fn overlong_regex_pattern_is_refused() {
    let pattern = format!("REGEX:{}", "a".repeat(501));
    let ex = make_exercise("pointers", Some(pattern));
    assert!(!validate_output(&"a".repeat(501), &ex));
}

#[test]
fn test_linker_flags() {
    let cases: &[(&str, &[&str])] = &[
        ("pthreads", &["-lpthread"]),
        ("semaphores", &["-lpthread"]),
        ("sync_concepts", &["-lpthread"]),
        ("sockets", &["-lpthread"]),
        ("capstones", &["-lpthread"]),
        ("message_queues", &["-lrt", "-lpthread"]),
        ("shared_memory", &["-lrt", "-lpthread"]),
        ("file_io", &["-lrt"]),
        ("unknown_subject", &[]),
        ("pointers", &[]),
    ];
    for (subject, expected) in cases {
        assert_eq!(linker_flags(subject), *expected, "linker_flags({subject:?})");
    }
}

#[test]
fn test_linker_flags_pthreads_modules() {
    let pthread_subjects = vec!["pthreads", "semaphores", "sync_concepts", "sockets", "capstones"];
    for subject in pthread_subjects {
        let flags = linker_flags(subject);
        assert!(flags.contains(&"-lpthread"), "{subject} should include -lpthread, got: {flags:?}");
    }
}

#[test]
fn test_linker_flags_ipc_subjects() {
    let ipc_subjects = vec!["message_queues", "shared_memory"];
    for subject in ipc_subjects {
        let flags = linker_flags(subject);
        assert!(flags.contains(&"-lrt"), "{subject} should include -lrt, got: {flags:?}");
        assert!(flags.contains(&"-lpthread"), "{subject} should include -lpthread, got: {flags:?}");
    }
}

#[test]
fn test_linker_flags_file_io() {
    let flags = linker_flags("file_io");
    assert_eq!(flags, vec!["-lrt"], "file_io should only have -lrt");
}

#[test]
fn test_linker_flags_no_special_flags() {
    let no_flag_subjects = vec!["pointers", "structs", "processes", "bitwise_ops", "unknown_subject"];
    for subject in no_flag_subjects {
        let flags = linker_flags(subject);
        assert!(flags.is_empty(), "{subject} should have no special flags, got: {flags:?}");
    }
}

#[test]
fn test_parse_gcc_hint_missing_semicolon() {
    let stderr = "error: expected ';' before 'return' at line 5";
    let hint = parse_gcc_hint(stderr);
    assert!(hint.is_some(), "should detect missing semicolon pattern");
    assert!(hint.unwrap().contains("Point-virgule"), "hint should mention semicolon in French");
}

#[test]
fn test_parse_gcc_hint_implicit_function() {
    let stderr = "warning: implicit declaration of function 'strlen'";
    let hint = parse_gcc_hint(stderr);
    assert!(hint.is_some(), "should detect implicit declaration pattern");
    assert!(hint.unwrap().contains("déclaration"), "hint should mention declaration");
}

#[test]
fn test_parse_gcc_hint_undefined_reference() {
    let stderr = "undefined reference to `pthread_create'";
    let hint = parse_gcc_hint(stderr);
    assert!(hint.is_some(), "should detect undefined reference pattern");
    assert!(hint.unwrap().contains("liaison"), "hint should mention linker flags");
}

#[test]
fn test_parse_gcc_hint_no_match() {
    let stderr = "some random error message with no pattern match";
    let hint = parse_gcc_hint(stderr);
    assert!(hint.is_none(), "should return None for unknown errors");
}

#[test]
fn compile_error_result_carries_hint() {
    let r = make_compile_error("x.c:3: error: 'y' undeclared".to_string());
    assert!(!r.success);
    assert!(r.compile_failed);
    assert!(!r.timeout);
    assert_eq!(r.stdout, "");
    assert_eq!(
        r.gcc_hint.as_deref(),
        Some("Identifiant non déclaré — vérifiez le nom et la portée de la variable/fonction")
    );
}

#[test]
fn gcc_arguments_in_order() {
    let flags = vec!["-lrt", "-lpthread"];
    let args = build_gcc_compilation_args("out", "src.c", "-I.", &flags);
    assert_eq!(args, vec!["-o", "out", "src.c", "-I.", "-lrt", "-lpthread"]);
}

#[test]
fn failed_run_reports_exit_status() {
    let ex = make_exercise("pointers", Some("42".to_string()));
    let r = output_run_result("42".to_string(), String::new(), false, "exit status: 3", 12, &ex);
    assert!(!r.success);
    assert_eq!(r.stderr, "Process exited with exit status: 3");
    let r = output_run_result("42".to_string(), "boom".to_string(), false, "signal", 12, &ex);
    assert_eq!(r.stderr, "boom");
}

#[test]
fn successful_run_is_validated() {
    let ex = make_exercise("pointers", Some("42".to_string()));
    let r = output_run_result("42\n".to_string(), String::new(), true, "", 5, &ex);
    assert!(r.success);
    assert_eq!(r.duration_ms, 5);
    let r = output_run_result("41".to_string(), String::new(), true, "", 5, &ex);
    assert!(!r.success);
}

#[test]
fn select_starter_code_by_stage() {
    let ex = staged("default", &["stage0", "stage1", "stage2", "stage3", "stage4"]);
    assert_eq!(starter_code_for_stage(&ex, 0), "stage0");
    assert_eq!(starter_code_for_stage(&ex, 4), "stage4");
    let partial = staged("default", &["stage0", "stage1", "stage2"]);
    assert_eq!(starter_code_for_stage(&partial, 1), "stage1");
    assert_eq!(starter_code_for_stage(&partial, 4), "default");
    let none = staged("default", &[]);
    assert_eq!(starter_code_for_stage(&none, 3), "default");
}

#[test]
fn compiler_lines_locate_diagnostics() {
    let stderr = "main.c: In function 'main':\nmain.c:4:5: error: 'x' undeclared (first use in this function)\nmain.c:7:12: warning: unused variable 'y'\nmain.c:4:5: note: each undeclared identifier is reported only once";
    let lines = compiler_lines(stderr);
    assert_eq!(lines.len(), 4);
    assert!(matches!(&lines[0], CompilerLine::Plain(t) if t == "main.c: In function 'main':"));
    assert!(matches!(&lines[1], CompilerLine::Located { line, severity: Severity::Error, message }
        if line == "4" && message == "'x' undeclared (first use in this function)"));
    assert!(matches!(&lines[2], CompilerLine::Located { line, severity: Severity::Warning, .. } if line == "7"));
    assert!(matches!(&lines[3], CompilerLine::Located { severity: Severity::Note, .. }));
}

#[test]
fn compiler_line_needs_the_full_shape() {
    assert!(matches!(compiler_line("main.c:4: error: no column"), CompilerLine::Plain(_)));
    assert!(matches!(compiler_line("main.c:4:5: fatal: odd"), CompilerLine::Plain(_)));
    assert!(matches!(compiler_line("main.c:4:5: error: "), CompilerLine::Plain(_)));
    assert!(matches!(compiler_line(""), CompilerLine::Plain(t) if t.is_empty()));
}

#[test]
fn normalize_lone_carriage_return_ends_a_line() {
    assert_eq!(normalize("hello\rworld"), "hello\nworld");
    assert_eq!(normalize("a \r\rb\r\n"), "a\n\nb");
}

#[test]
fn compiler_line_from_capture_groups() {
    let groups = vec![
        Some("a.c:3:1: warning: w".to_string()),
        Some("3".to_string()),
        Some("warning".to_string()),
        Some("w".to_string()),
    ];
    assert!(matches!(clings::runner::compiler_line_of("x", Some(Some(groups))),
        CompilerLine::Located { line, severity: Severity::Warning, message } if line == "3" && message == "w"));
    assert!(matches!(clings::runner::compiler_line_of("x", Some(None)), CompilerLine::Plain(t) if t == "x"));
    assert!(matches!(clings::runner::compiler_line_of("x", None), CompilerLine::Plain(t) if t == "x"));
    assert!(matches!(clings::runner::compiler_line_of("x", Some(Some(vec![Some("x".to_string()), None]))), CompilerLine::Plain(_)));
}

#[test]
fn normalizing_twice_changes_nothing() {
    for s in ["  a \r\n b  \n\n", "x\r\ry\t\n", "", " \n \n", "é  \u{a0}\nz"] {
        let once = normalize(s);
        assert_eq!(normalize(&once), once);
        assert!(once.lines().all(|l| l.trim_end() == l));
        assert_eq!(once.trim(), once);
    }
}
