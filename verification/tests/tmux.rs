use clings::tmux::{
    choose_editor, editor_args_are_safe, editor_binary, executable_name_is_safe, is_gui_editor,
    pane_id_is_valid,
};

#[test]
fn test_is_gui_editor() {
    assert!(is_gui_editor("code"));
    assert!(is_gui_editor("/usr/bin/code"));
    assert!(is_gui_editor("subl"));
    assert!(is_gui_editor("zed"));
    assert!(is_gui_editor("gvim"));
    assert!(!is_gui_editor("nvim"));
    assert!(!is_gui_editor("vim"));
    assert!(!is_gui_editor("nano"));
    assert!(!is_gui_editor("emacs"));
}

#[test]
fn test_is_gui_editor_flatpak() {
    assert!(is_gui_editor("com.visualstudio.code"));
    assert!(is_gui_editor("org.kde.kate"));
    assert!(is_gui_editor("org.codium.codium"));
    assert!(!is_gui_editor("org.vim.Vim"));
    assert!(!is_gui_editor("org.neovim.nvim"));
}

#[test]
fn shell_characters_fail_the_character_check() {
    assert!(!executable_name_is_safe("vim;rm -rf"));
    assert!(!executable_name_is_safe("vim$(whoami)"));
    assert!(!executable_name_is_safe("vim`id`"));
    assert!(!executable_name_is_safe("vim | cat"));
}

#[test]
fn safe_names_pass_the_character_check() {
    assert!(executable_name_is_safe("sh"));
    assert!(executable_name_is_safe("code-insiders"));
    assert!(executable_name_is_safe("nvim.appimage"));
    assert!(executable_name_is_safe("éditeur"));
}

#[test]
fn editor_choice_order() {
    assert_eq!(choose_editor(Some("code".to_string()), Some("vim".to_string()), "nano"), "code");
    assert_eq!(choose_editor(None, Some("vim".to_string()), "nano"), "vim");
    assert_eq!(choose_editor(None, None, "nano"), "nano");
    assert_eq!(choose_editor(None, None, ""), "nvim");
}

#[test]
fn editor_binary_is_first_word() {
    assert_eq!(editor_binary("code --wait"), "code");
    assert_eq!(editor_binary("  nvim"), "nvim");
    assert_eq!(editor_binary("   "), "");
}

#[test]
fn pane_identifiers() {
    assert!(pane_id_is_valid("%12"));
    assert!(!pane_id_is_valid("%"));
    assert!(!pane_id_is_valid("12"));
    assert!(!pane_id_is_valid("%1a"));
}

#[test]
fn editor_arguments() {
    assert!(editor_args_are_safe(&vec!["-u".to_string(), "/etc/init.lua".to_string()]));
    assert!(!editor_args_are_safe(&vec!["-c".to_string(), "rm;ls".to_string()]));
    assert!(editor_args_are_safe(&vec![]));
}
