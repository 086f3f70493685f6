use swi3_groups::cli::{
    get_flag_value, has_flag, parse_set_context, parse_set_local, set_local_error_message, Flavor,
    SetLocalError,
};
use swi3_groups::command::{doctor_config, parse_command, parse_u32_chars, waybar_signal, Command};
use swi3_groups::nav::SetContext;

fn argv(v: &[&str]) -> Vec<String> {
    v.iter().map(|s| s.to_string()).collect()
}

#[test]
fn flags_and_flag_values() {
    let a = argv(&["--x", "--fields", "set,monitor", "--fields", "other"]);
    assert!(has_flag(&a, "--x"));
    assert!(!has_flag(&a, "--y"));
    assert_eq!(get_flag_value(&a, "--fields"), Some("set,monitor"));
    assert_eq!(get_flag_value(&argv(&["--fields"]), "--fields"), None);
    assert_eq!(get_flag_value(&a, "--nope"), None);
}

#[test]
fn set_context_flags_by_flavor() {
    let (ctx, rest) = parse_set_context(&argv(&["--group-focused", "3", "--group-name", "work", "x"]), Flavor::Groups);
    assert!(matches!(ctx, SetContext::Named(ref n) if n == "work"));
    assert_eq!(rest, argv(&["3", "x"]));
    let (ctx, rest) = parse_set_context(&argv(&["--set-active", "--group-active"]), Flavor::Sets);
    assert!(matches!(ctx, SetContext::Active));
    assert_eq!(rest, argv(&["--group-active"]));
    let (ctx, rest) = parse_set_context(&argv(&["--set-name"]), Flavor::Sets);
    assert!(matches!(ctx, SetContext::Unset));
    assert!(rest.is_empty());
}

#[test]
fn set_and_number_input() {
    assert_eq!(parse_set_local("work:2"), Ok(("work".to_string(), 2)));
    assert_eq!(parse_set_local(":7"), Ok((String::new(), 7)));
    assert_eq!(parse_set_local("a:b:3"), Err(SetLocalError::BadNumber));
    assert_eq!(parse_set_local("work"), Err(SetLocalError::MissingColon));
    assert_eq!(
        set_local_error_message(&SetLocalError::MissingColon, "work"),
        "invalid 'set:number' input: work"
    );
    assert_eq!(set_local_error_message(&SetLocalError::BadNumber, "w:x"), "invalid number in 'w:x'");
}

#[test]
fn command_needs_a_name() {
    assert_eq!(parse_command(&[], Flavor::Groups).err(), Some("error: no command provided".to_string()));
}

#[test]
fn unknown_commands_are_reported_per_flavor() {
    assert_eq!(
        parse_command(&argv(&["frobnicate"]), Flavor::Groups).err(),
        Some("error: unknown command: frobnicate".to_string())
    );
    assert_eq!(
        parse_command(&argv(&["list-groups"]), Flavor::Sets).err(),
        Some("error: unknown command: list-groups".to_string())
    );
    assert_eq!(
        parse_command(&argv(&["list-sets"]), Flavor::Groups).err(),
        Some("error: unknown command: list-sets".to_string())
    );
    assert_eq!(
        parse_command(&argv(&["doctor"]), Flavor::Groups).err(),
        Some("error: unknown command: doctor".to_string())
    );
}

#[test]
fn workspace_number_command_line() {
    let c = parse_command(&argv(&["workspace-number", "--group-name", "w", "--no-auto-back-and-forth", "4"]), Flavor::Groups).unwrap();
    match c {
        Command::WorkspaceNumber { number, ctx, auto_back_and_forth } => {
            assert_eq!(number, 4);
            assert!(matches!(ctx, SetContext::Named(ref n) if n == "w"));
            assert!(!auto_back_and_forth);
        }
        other => panic!("unexpected {:?}", other),
    }
    assert_eq!(
        parse_command(&argv(&["workspace-number", "x"]), Flavor::Sets).err(),
        Some("error: workspace-number requires a number".to_string())
    );
    assert_eq!(
        parse_command(&argv(&["move-to-number"]), Flavor::Groups).err(),
        Some("error: move-to-number requires a number".to_string())
    );
    match parse_command(&argv(&["move-to-number", "--no-auto-back-and-forth", "+2"]), Flavor::Sets).unwrap() {
        Command::MoveToNumber { number, ctx, no_auto_back_and_forth } => {
            assert_eq!(number, 2);
            assert!(matches!(ctx, SetContext::Unset));
            assert!(no_auto_back_and_forth);
        }
        other => panic!("unexpected {:?}", other),
    }
}

#[test]
fn list_workspaces_command_line() {
    match parse_command(&argv(&["list-workspaces", "--focused-only"]), Flavor::Groups).unwrap() {
        Command::ListWorkspaces { fields, focused_only, focused_monitor_only, ctx } => {
            assert_eq!(fields.len(), 9);
            assert_eq!(fields[0], "global_number");
            assert_eq!(fields[8], "window_icons");
            assert!(focused_only);
            assert!(!focused_monitor_only);
            assert!(matches!(ctx, SetContext::Unset));
        }
        other => panic!("unexpected {:?}", other),
    }
    match parse_command(&argv(&["list-workspaces", "--fields", "set,,monitor", "--set-focused"]), Flavor::Sets).unwrap() {
        Command::ListWorkspaces { fields, ctx, .. } => {
            assert_eq!(fields, argv(&["set", "", "monitor"]));
            assert!(matches!(ctx, SetContext::Focused));
        }
        other => panic!("unexpected {:?}", other),
    }
}

#[test]
fn set_switch_and_assign_by_flavor() {
    assert_eq!(
        parse_command(&argv(&["switch-active-set", "--focused-monitor-only"]), Flavor::Sets).err(),
        Some("error: switch-active-set requires a set name".to_string())
    );
    assert_eq!(
        parse_command(&argv(&["assign-workspace-to-set"]), Flavor::Sets).err(),
        Some("error: assign-workspace-to-set requires a set name".to_string())
    );
    match parse_command(&argv(&["switch-active-group", "--focused-monitor-only"]), Flavor::Groups).unwrap() {
        Command::SwitchActiveGroup { group, focused_monitor_only } => {
            assert_eq!(group, "");
            assert!(focused_monitor_only);
        }
        other => panic!("unexpected {:?}", other),
    }
    match parse_command(&argv(&["assign-workspace-to-set", "-x", "web"]), Flavor::Sets).unwrap() {
        Command::AssignWorkspaceToGroup { group } => assert_eq!(group, "web"),
        other => panic!("unexpected {:?}", other),
    }
}

#[test]
fn rename_and_navigation_command_lines() {
    match parse_command(&argv(&["rename-workspace", "--name", "m", "--number", "x", "--group", "g", "--set", "s"]), Flavor::Groups).unwrap() {
        Command::RenameWorkspace { new_name, new_number, new_group } => {
            assert_eq!(new_name, Some("m".to_string()));
            assert_eq!(new_number, None);
            assert_eq!(new_group, Some("g".to_string()));
        }
        other => panic!("unexpected {:?}", other),
    }
    match parse_command(&argv(&["rename-workspace", "--number", "7", "--set", "s"]), Flavor::Sets).unwrap() {
        Command::RenameWorkspace { new_name, new_number, new_group } => {
            assert_eq!(new_name, None);
            assert_eq!(new_number, Some(7));
            assert_eq!(new_group, Some("s".to_string()));
        }
        other => panic!("unexpected {:?}", other),
    }
    assert!(matches!(parse_command(&argv(&["prev"]), Flavor::Groups).unwrap(), Command::WorkspaceGlobalRelative { offset: -1 }));
    assert!(matches!(parse_command(&argv(&["workspace-next"]), Flavor::Sets).unwrap(), Command::WorkspaceRelative { offset: 1 }));
    assert!(matches!(parse_command(&argv(&["move-to-prev"]), Flavor::Sets).unwrap(), Command::MoveRelative { offset: -1 }));
    assert!(matches!(parse_command(&argv(&["detect-wm"]), Flavor::Sets).unwrap(), Command::DetectWm));
    match parse_command(&argv(&["wm-msg", "-t", "get_tree"]), Flavor::Groups).unwrap() {
        Command::WmMsg(a) => assert_eq!(a, argv(&["-t", "get_tree"])),
        other => panic!("unexpected {:?}", other),
    }
    match parse_command(&argv(&["select-group", "-mesg", "hi"]), Flavor::Groups).unwrap() {
        Command::SelectGroup { mesg } => assert_eq!(mesg, "hi"),
        other => panic!("unexpected {:?}", other),
    }
    match parse_command(&argv(&["polybar", "-s"]), Flavor::Groups).unwrap() {
        Command::Polybar { opts } => assert!(opts.shorthand),
        other => panic!("unexpected {:?}", other),
    }
}

#[test]
fn arguments_read_before_a_command() {
    assert_eq!(waybar_signal(&argv(&["bar-updater"])), 8);
    assert_eq!(waybar_signal(&argv(&["bar-updater", "--waybar-signal", "11"])), 11);
    assert_eq!(waybar_signal(&argv(&["bar-updater", "--waybar-signal", "-1"])), 8);
    assert_eq!(waybar_signal(&argv(&["bar-updater", "--waybar-signal", "4294967296"])), 8);
    assert_eq!(parse_u32_chars(&['+', '3']), Some(3));
    assert_eq!(parse_u32_chars(&['-', '0']), None);
    assert_eq!(doctor_config(&argv(&["doctor", "-c", "/x", "--config", "/y"])), Some("/x".to_string()));
    assert_eq!(doctor_config(&argv(&["doctor", "--config"])), None);
    assert_eq!(doctor_config(&argv(&["doctor"])), None);
}
