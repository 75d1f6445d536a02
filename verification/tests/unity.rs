use clings::unity::{
    count_ok_lines, evaluate_test_result, find_closing_brace, parse_test_summary,
    strip_main_function, test_source_text, validate_test_code,
};

#[test]
fn runner_test_parse_test_summary_all_pass() {
    let stdout = "  OK    test_foo\n  OK    test_bar\n\n3 Tests 0 Failures 0 Ignored\n";
    let (found, failures) = parse_test_summary(stdout);
    assert!(found);
    assert_eq!(failures, 0);
}

#[test]
fn runner_test_parse_test_summary_with_failures() {
    let stdout = "  OK    test_foo\n  FAIL  test_bar — expected 1 but got 0\n\n2 Tests 1 Failures 0 Ignored\n";
    let (found, failures) = parse_test_summary(stdout);
    assert!(found);
    assert_eq!(failures, 1);
}

#[test]
fn runner_test_parse_test_summary_no_summary_line() {
    let stdout = "some random output\nno summary here\n";
    let (found, failures) = parse_test_summary(stdout);
    assert!(!found);
    assert_eq!(failures, 1);
}

#[test]
fn runner_test_parse_test_summary_empty() {
    let (found, failures) = parse_test_summary("");
    assert!(!found);
    assert_eq!(failures, 1);
}

#[test]
fn unity_test_parse_test_summary_all_pass() {
    let stdout = "  OK    test_foo\n  OK    test_bar\n\n3 Tests 0 Failures 0 Ignored\n";
    let (found, failures) = parse_test_summary(stdout);
    assert!(found);
    assert_eq!(failures, 0);
}

#[test]
fn unity_test_parse_test_summary_with_failures() {
    let stdout = "  OK    test_foo\n  FAIL  test_bar — expected 1 but got 0\n\n2 Tests 1 Failures 0 Ignored\n";
    let (found, failures) = parse_test_summary(stdout);
    assert!(found);
    assert_eq!(failures, 1);
}

#[test]
fn unity_test_parse_test_summary_no_summary_line() {
    let stdout = "some random output\nno summary here\n";
    let (found, failures) = parse_test_summary(stdout);
    assert!(!found);
    assert_eq!(failures, 1);
}

#[test]
fn unity_test_parse_test_summary_empty() {
    let (found, failures) = parse_test_summary("");
    assert!(!found);
    assert_eq!(failures, 1);
}

#[test]
fn test_validate_test_code_detects_forbidden_patterns() {
    let cases = &[
        ("system(\"ls\");", "system("),
        ("popen(cmd, \"r\");", "popen("),
        ("execv(\"/bin/sh\", args);", "execv("),
        ("dlopen(\"lib.so\", RTLD_LAZY);", "dlopen("),
        ("fork();", "fork("),
        ("kill(pid, SIGTERM);", "kill("),
        ("ptrace(PTRACE_ATTACH, pid, 0, 0);", "ptrace("),
        ("setuid(0);", "setuid("),
    ];
    for (code, expected_pattern) in cases {
        let result = validate_test_code(code);
        assert_eq!(result, Some(*expected_pattern), "should detect {expected_pattern:?} in {code:?}");
    }
}

#[test]
fn test_validate_test_code_allows_safe_code() {
    let safe_code = r#"
            void test_add(void) {
                int result = add(2, 3);
                TEST_ASSERT_EQUAL_INT(5, result);
            }
            int main(void) {
                RUN_TEST(test_add);
                TEST_SUMMARY();
                return _clings_failures > 0 ? 1 : 0;
            }
        "#;
    assert_eq!(validate_test_code(safe_code), None);
}

#[test]
fn test_strip_main_function_basic() {
    let code = "void swap(int *a, int *b) { int t = *a; *a = *b; *b = t; }\nint main(void) {\n    return 0;\n}\n";
    let result = strip_main_function(code);
    assert!(!result.contains("int main"), "main() should be removed");
    assert!(result.contains("void swap"), "swap() should remain");
}

#[test]
fn test_strip_main_function_nested_braces() {
    let code = "int foo(void) { return 1; }\nint main(void) {\n    if (1) { int x = 0; }\n    return 0;\n}\n";
    let result = strip_main_function(code);
    assert!(!result.contains("int main"), "main() should be removed");
    assert!(result.contains("int foo"), "foo() should remain");
}

#[test]
fn test_strip_main_function_no_main() {
    let code = "void helper(void) { }\n";
    let result = strip_main_function(code);
    assert_eq!(result, code, "code without main should be unchanged");
}

#[test]
fn closing_brace_skips_nested_blocks() {
    let code: Vec<char> = "{ a { b } c } d".chars().collect();
    assert_eq!(find_closing_brace(&code, 0), Some(13));
    let open: Vec<char> = "{ { }".chars().collect();
    assert_eq!(find_closing_brace(&open, 0), None);
    let before: Vec<char> = "int f() { x; }".chars().collect();
    assert_eq!(find_closing_brace(&before, 0), Some(14));
    assert_eq!(find_closing_brace(&before, before.len()), None);
}

#[test]
fn ok_lines_are_counted() {
    let stdout = "  OK    test_foo\n  FAIL  test_bar\nOK test_baz\n";
    assert_eq!(count_ok_lines(stdout), 2);
}

#[test]
fn harness_result_requires_enough_passes() {
    let stdout = "  OK    test_foo\n\n1 Tests 0 Failures 0 Ignored\n";
    assert!(evaluate_test_result(stdout, "", true, "", None).success);
    assert!(evaluate_test_result(stdout, "", true, "", Some(1)).success);
    assert!(!evaluate_test_result(stdout, "", true, "", Some(2)).success);
    let failed = evaluate_test_result(stdout, "", false, "exit status: 1", None);
    assert!(!failed.success);
    assert_eq!(failed.stderr, "Process exited with exit status: 1");
}

#[test]
fn composed_test_source_keeps_user_functions() {
    let text = test_source_text("current.c", "int add(int a, int b) { return a + b; }\nint main(void) { return 0; }\n", "void test_add(void) {}\n");
    assert!(text.contains("int add"));
    assert!(!text.contains("int main(void) { return 0; }"));
    assert!(text.contains("void test_add"));
}

#[test]
fn test_mode_preflight() {
    let missing = clings::unity::test_preflight(None).unwrap_err();
    assert!(missing.compile_failed);
    assert_eq!(missing.stderr, "Mode Test : champ 'test_code' manquant dans l'exercice");
    let refused = clings::unity::test_preflight(Some("int main(void) { system(\"ls\"); }")).unwrap_err();
    assert!(refused.stderr.starts_with("test_code invalide : pattern interdit détecté (`"));
    assert_eq!(clings::unity::test_preflight(Some("void test_x(void) {}")).ok(), Some("void test_x(void) {}"));
}
