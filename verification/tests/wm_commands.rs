use swi3_groups::wmcmd::{
    detect_wm, focus_command, focus_output_command, move_command, needs_probe, rename_command,
    wm_msg_cmd, wm_name, workspace_number_command, Wm,
};

#[test]
fn focus_and_move_commands_quote_names() {
    assert_eq!(focus_command("a\"b", true), "workspace \"a\\\"b\"");
    assert_eq!(focus_command("w", false), "workspace --no-auto-back-and-forth \"w\"");
    assert_eq!(move_command("w", true), "move --no-auto-back-and-forth container to workspace \"w\"");
    assert_eq!(move_command("x\"", false), "move container to workspace \"x\\\"\"");
}

#[test]
fn rename_command_only_for_a_new_name() {
    assert_eq!(rename_command("a", "a"), None);
    assert_eq!(rename_command("a\"", "b"), Some("rename workspace \"a\\\"\" to \"b\"".to_string()));
}

#[test]
fn output_and_number_commands() {
    assert_eq!(focus_output_command("DP-1"), "focus output \"DP-1\"");
    assert_eq!(workspace_number_command(12), "workspace number 12");
}

#[test]
fn window_manager_detection() {
    assert!(matches!(detect_wm(true, true, Some(false)), Wm::Sway));
    assert!(matches!(detect_wm(false, true, Some(true)), Wm::I3));
    assert!(matches!(detect_wm(false, false, Some(true)), Wm::Sway));
    assert!(matches!(detect_wm(false, false, None), Wm::I3));
    assert!(needs_probe(false, false));
    assert!(!needs_probe(true, false));
    assert_eq!(wm_name(Wm::Sway), "sway");
    assert_eq!(wm_msg_cmd(Wm::I3), "i3-msg");
    assert_eq!(wm_msg_cmd(Wm::Sway), "swaymsg");
}
