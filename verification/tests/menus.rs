use swi3_groups::meta::{create_name, WsMeta};
use swi3_groups::menu::{
    build_menu, chosen_set, format_table, menu_candidates, menu_choice, menu_override,
    parse_rename_pattern, rename_message, rename_pattern_error_message, selected_line,
    set_menu_input, workspace_menu_rows, RenamePatternError,
};
use swi3_groups::workspace::WsInfo;

fn sv(v: &[&str]) -> Vec<String> {
    v.iter().map(|s| s.to_string()).collect()
}

fn mws(name: &str) -> WsInfo {
    WsInfo { name: name.to_string(), output: "A".to_string(), focused: false }
}

#[test]
fn rofi_menu_takes_every_option() {
    let m = build_menu("Workspace", "hello", "window {}", Some("DP-1"), "rofi").unwrap();
    assert_eq!(m.cmd, "rofi");
    assert_eq!(
        m.args,
        sv(&["-dmenu", "-p", "Workspace", "-kb-cancel", "Escape", "-monitor", "DP-1", "-theme-str", "window {}", "-mesg", "hello"])
    );
    let bare = build_menu("P", "", "", Some(""), "rofi -x").unwrap();
    assert_eq!(bare.args, sv(&["-dmenu", "-p", "P", "-kb-cancel", "Escape"]));
}

#[test]
fn other_launchers_and_custom_commands() {
    assert_eq!(build_menu("P", "m", "t", None, "wofi").unwrap().args, sv(&["--dmenu", "--prompt", "P"]));
    assert_eq!(build_menu("P", "m", "t", None, "fuzzel").unwrap().cmd, "fuzzel");
    assert_eq!(build_menu("P", "m", "t", None, "dmenu").unwrap().args, sv(&["-p", "P"]));
    let custom = build_menu("P", "m", "t", None, "  bemenu -i  -l 5 ").unwrap();
    assert_eq!(custom.cmd, "bemenu");
    assert_eq!(custom.args, sv(&["-i", "-l", "5"]));
    assert!(build_menu("P", "m", "t", None, "   ").is_none());
    assert_eq!(menu_candidates(), vec!["rofi", "wofi", "fuzzel", "dmenu"]);
}

#[test]
fn menu_override_and_choice() {
    assert_eq!(menu_override(Some(" wofi ")), Some(" wofi ".to_string()));
    assert_eq!(menu_override(Some("  ")), None);
    assert_eq!(menu_override(None), None);
    assert_eq!(menu_choice("work\n\n"), Some("work".to_string()));
    assert_eq!(menu_choice("\n"), None);
    assert_eq!(menu_choice("a\nb"), Some("a\nb".to_string()));
}

#[test]
fn set_menu_lists_default_first_when_missing() {
    let named = create_name(&WsMeta {
        global_number: Some(101),
        set: Some("work".to_string()),
        static_name: None,
        dynamic_name: None,
        local_number: Some(1),
    });
    assert_eq!(set_menu_input(&[mws(&named)]), "<default>\nwork\n");
    assert_eq!(set_menu_input(&[mws(&named), mws("1")]), "work\n<default>\n");
    assert_eq!(chosen_set("<default>"), "");
    assert_eq!(chosen_set("web"), "web");
}

#[test]
fn table_is_left_aligned_and_trimmed() {
    let rows = vec![sv(&["work", "1", "", "mail"]), sv(&["", "10", "", ""]), sv(&["x"])];
    let t = format_table(&rows, "    ");
    assert_eq!(t, sv(&["work    1         mail", "        10", "x"]));
    assert!(format_table(&[], " ").is_empty());
}

#[test]
fn workspace_menu_rows_and_selection() {
    let named = create_name(&WsMeta {
        global_number: Some(103),
        set: Some("work".to_string()),
        static_name: Some("ed".to_string()),
        dynamic_name: None,
        local_number: Some(3),
    });
    let rows = workspace_menu_rows(&[mws(&named), mws("7")]);
    assert_eq!(rows, vec![sv(&["work", "3", "", "ed"]), sv(&["", "", "", "7"])]);
    let shown = sv(&["a", "b", "a"]);
    assert_eq!(selected_line(&shown, "a"), Some(0));
    assert_eq!(selected_line(&shown, "b"), Some(1));
    assert_eq!(selected_line(&shown, "c"), None);
}

#[test]
fn rename_patterns() {
    let r = parse_rename_pattern("foo").unwrap();
    assert_eq!((r.name, r.number, r.set), (Some("foo".to_string()), None, None));
    let r = parse_rename_pattern("-:2").unwrap();
    assert_eq!((r.name, r.number, r.set), (Some(String::new()), Some(2), None));
    let r = parse_rename_pattern(":2").unwrap();
    assert_eq!((r.name, r.number, r.set), (None, Some(2), None));
    let r = parse_rename_pattern("bar::-").unwrap();
    assert_eq!((r.name, r.number, r.set), (None, None, Some("bar".to_string())));
    assert_eq!(parse_rename_pattern("a:b:c:d").err(), Some(RenamePatternError::TooManyColons));
    assert_eq!(parse_rename_pattern("foo:x").err(), Some(RenamePatternError::BadNumber));
    assert_eq!(
        rename_pattern_error_message(&RenamePatternError::BadNumber, "foo:x"),
        "invalid number in rename pattern: x"
    );
    assert_eq!(
        rename_pattern_error_message(&RenamePatternError::TooManyColons, "a:b:c:d"),
        "name pattern cannot contain more than 3 colons"
    );
    assert!(rename_message("mail").starts_with("<span alpha=\"50%\" size=\"smaller\"><b>Enter a new name for workspace \"mail\"</b>\n"));
}
