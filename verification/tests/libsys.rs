use clings::libsys::{
    exported_function_names, format_c_entry, format_h_entry, function_already_present,
    parse_libsys_fn_marker,
};

#[test]
fn test_function_already_present() {
    let code = "/* libsys: my_strdup */\nchar *my_strdup(const char *s) { return NULL; }\n";
    assert!(function_already_present(code, "my_strdup"));
    assert!(!function_already_present(code, "my_strlen"));
}

#[test]
fn marker_of_formatted_entry_is_found_again() {
    let entry = format_c_entry("int f(void) { return 1; }", "my_f");
    assert!(function_already_present(&entry, "my_f"));
    let names = exported_function_names(&entry);
    assert_eq!(names, vec!["my_f"]);
}

#[test]
fn header_entry_carries_marker() {
    let entry = format_h_entry("int my_g(void);", "my_g");
    assert!(function_already_present(&entry, "my_g"));
}

#[test]
fn marker_parsing() {
    assert_eq!(parse_libsys_fn_marker("/* libsys: my_strdup */"), Some("my_strdup".to_string()));
    assert_eq!(parse_libsys_fn_marker("int x;"), None);
}
