use swi3_groups::checks::{
    any_line, command_findings, deprecated_bins, is_valid_cmd, raw_nav_bindings, renamed_cmd,
    LineTest,
};
use swi3_groups::doctor::{dr_collect_aliases, dr_extract_cmd, report_color, Dr};

fn lines(v: &[&str]) -> Vec<String> {
    v.iter().map(|s| s.to_string()).collect()
}

#[test]
fn report_lines_without_colour() {
    let mut d = Dr::new(false);
    assert_eq!(d.ok("fine"), "  [OK]   fine");
    assert_eq!(d.warn("hmm"), "  [WARN] hmm");
    assert_eq!(d.fail("bad"), "  [FAIL] bad");
    assert_eq!(d.info("note"), "       note");
    assert_eq!(d.section("1. Bin"), "\n1. Bin\n──────");
    assert_eq!((d.pass, d.warn, d.fail), (1, 1, 1));
    assert_eq!(d.summary(), "\nSummary: 1 failed  1 warnings  1 passed");
}

#[test]
fn report_lines_with_colour() {
    let mut d = Dr::new(true);
    assert_eq!(d.ok("x"), "  \x1b[0;32m[OK]\x1b[0m   x");
    assert_eq!(d.summary(), "\n\x1b[1mSummary\x1b[0m: \x1b[0;32m1 passed\x1b[0m");
    assert_eq!(d.esc("\x1b[1m"), "\x1b[1m");
    assert_eq!(Dr::new(false).esc("\x1b[1m"), "");
}

#[test]
fn exit_code_ranks_failures_over_warnings() {
    let mut d = Dr::new(false);
    assert_eq!(d.exit_code(), 0);
    d.warn("w");
    assert_eq!(d.exit_code(), 1);
    d.fail("f");
    assert_eq!(d.exit_code(), 2);
    assert_eq!(Dr::new(false).summary(), "\nSummary: ");
}

#[test]
fn colour_follows_the_environment() {
    assert!(report_color(false, None));
    assert!(report_color(false, Some("xterm")));
    assert!(!report_color(false, Some("dumb")));
    assert!(!report_color(true, Some("xterm")));
}

#[test]
fn aliases_of_the_tool() {
    let l = lines(&[
        "set $g exec swi3-groups",
        "  set $n exec --no-startup-id swi3-groups workspace-number",
        "set $other exec rofi",
        "set nodollar exec swi3-groups",
        "set $x",
    ]);
    assert_eq!(dr_collect_aliases(&l), lines(&["$g", "$n"]));
}

#[test]
fn commands_extracted_from_lines() {
    let aliases = lines(&["$g"]);
    assert_eq!(dr_extract_cmd("bindsym $mod+1 exec swi3-groups workspace-number 1", &aliases), Some("workspace-number".to_string()));
    assert_eq!(dr_extract_cmd("exec --no-startup-id swi3-groups  init-session", &aliases), Some("init-session".to_string()));
    assert_eq!(dr_extract_cmd("bindsym $mod+n $g next", &aliases), Some("next".to_string()));
    assert_eq!(dr_extract_cmd("bindsym $mod+n $g --flag", &aliases), None);
    assert_eq!(dr_extract_cmd("# exec swi3-groups next", &aliases), None);
    assert_eq!(dr_extract_cmd("set $g exec swi3-groups", &aliases), None);
    assert_eq!(dr_extract_cmd("exec swi3-groups -x", &aliases), None);
    assert_eq!(dr_extract_cmd("", &aliases), None);
}

#[test]
fn command_after_a_word_character_is_not_the_tool() {
    let none: Vec<String> = Vec::new();
    assert_eq!(dr_extract_cmd("xexec swi3-groups next", &none), None);
    assert_eq!(dr_extract_cmd("_exec swi3-groups next", &none), None);
    assert_eq!(dr_extract_cmd("éexec swi3-groups next", &none), None);
    assert_eq!(dr_extract_cmd("(exec swi3-groups next", &none), Some("next".to_string()));
    assert_eq!(dr_extract_cmd("myexec swi3-groups foo", &none), None);
    assert_eq!(dr_extract_cmd("exec swi3-groups --help", &none), None);
    assert_eq!(
        dr_extract_cmd("bindsym $mod+g exec --no-startup-id swi3-groups switch-group", &none),
        Some("switch-group".to_string())
    );
    assert_eq!(
        dr_extract_cmd("bindsym $mod+1 $sg workspace-number 1", &lines(&["$sg"])),
        Some("workspace-number".to_string())
    );
    assert_eq!(dr_extract_cmd("x$g next", &lines(&["$g"])), None);
}

#[test]
fn valid_and_renamed_commands() {
    assert!(is_valid_cmd("workspace-number"));
    assert!(is_valid_cmd("doctor"));
    assert!(!is_valid_cmd("list-sets"));
    assert_eq!(renamed_cmd("list-sets"), Some("list-groups"));
    assert_eq!(renamed_cmd("move-to-number-focused-group"), Some("move-to-number --group-focused <N>"));
    assert_eq!(renamed_cmd("next"), None);
}

#[test]
fn findings_report_each_bad_command_once() {
    let l = lines(&[
        "bindsym a exec swi3-groups list-sets",
        "bindsym b exec swi3-groups bogus",
        "bindsym c exec swi3-groups list-sets",
        "bindsym d exec swi3-groups next",
        "bindsym e exec swi3-groups bogus --x",
    ]);
    let f = command_findings(&l, &[]);
    assert_eq!(f.len(), 2);
    assert_eq!((f[0].line, f[0].cmd.as_str(), f[0].replacement), (0, "list-sets", Some("list-groups")));
    assert_eq!((f[1].line, f[1].cmd.as_str(), f[1].replacement), (1, "bogus", None));
}

#[test]
fn deprecated_names_outside_comments() {
    let l = lines(&["# exec i3wsgroups", "exec i3-workspace-sets", "exec i3-sets-bar-module-updater"]);
    assert_eq!(deprecated_bins(&l), vec!["i3-workspace-sets", "i3-sets-bar-module-updater"]);
    assert!(deprecated_bins(&lines(&["exec swi3-groups next"])).is_empty());
}

#[test]
fn whole_configuration_tests() {
    let none: Vec<String> = Vec::new();
    let l = lines(&[
        "bar {",
        "  strip_workspace_numbers yes",
        "exec waybar",
        "exec swi3-groups bar-updater",
        "exec swi3-groups init-session",
    ]);
    assert!(any_line(LineTest::SwayBar, &l, &none));
    assert!(any_line(LineTest::StripNumbers, &l, &none));
    assert!(any_line(LineTest::Waybar, &l, &none));
    assert!(any_line(LineTest::BarUpdater, &l, &none));
    assert!(any_line(LineTest::InitSession, &l, &none));
    let bare = lines(&["bar{ x", "# exec waybar", "exec i3-sets-bar-module-updater"]);
    assert!(!any_line(LineTest::SwayBar, &bare, &none));
    assert!(!any_line(LineTest::Waybar, &bare, &none));
    assert!(!any_line(LineTest::BarUpdater, &bare, &none));
    assert!(!any_line(LineTest::InitSession, &bare, &none));
}

#[test]
fn raw_navigation_bindings() {
    let l = lines(&[
        "  bindsym $mod+n workspace next  ",
        "bindsym $mod+p workspace prev_on_output",
        "# bindsym $mod+n workspace next",
        "bindsym $mod+n exec swi3-groups next",
        "workspace next",
    ]);
    assert_eq!(raw_nav_bindings(&l), lines(&["bindsym $mod+n workspace next"]));
}
