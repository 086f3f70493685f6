use swi3_groups::meta::{create_name, WsMeta};
use swi3_groups::nav::SetContext;
use swi3_groups::outputs::{get_monitor_index, get_monitor_to_workspaces, get_sorted_outputs};
use swi3_groups::polybar::{parse_polybar_opts, polybar_text, PolybarOpts};
use swi3_groups::session::{
    init_session_commands, init_session_renames, is_fresh_session, select_workspaces, sets_listing,
    waybar_json, workspace_table,
};
use swi3_groups::workspace::{MemberOrder, OutputInfo, WsInfo};

fn rname(gn: i64, set: &str, name: Option<&str>, local: i64) -> String {
    create_name(&WsMeta {
        global_number: Some(gn),
        set: Some(set.to_string()),
        static_name: name.map(|s| s.to_string()),
        dynamic_name: None,
        local_number: Some(local),
    })
}

fn rws(name: &str, output: &str, focused: bool) -> WsInfo {
    WsInfo { name: name.to_string(), output: output.to_string(), focused }
}

fn out(name: &str, active: bool, x: i32, y: i32) -> OutputInfo {
    OutputInfo { name: name.to_string(), active, x, y }
}

fn strings(v: &[&str]) -> Vec<String> {
    v.iter().map(|s| s.to_string()).collect()
}

#[test]
fn outputs_sorted_by_position_inactive_dropped() {
    let outs = vec![out("R", true, 1920, 0), out("off", false, 0, 0), out("L", true, 0, 0), out("below", true, 0, 1080)];
    let s = get_sorted_outputs(&outs);
    let names: Vec<String> = s.iter().map(|o| o.name.clone()).collect();
    assert_eq!(names, strings(&["L", "below", "R"]));
    assert_eq!(get_monitor_index(&s, "R"), 2);
    assert_eq!(get_monitor_index(&s, "missing"), 0);
}

#[test]
fn workspaces_by_output_in_name_order() {
    let ws = vec![rws("1", "b", false), rws("2", "a", false), rws("3", "b", true)];
    let m = get_monitor_to_workspaces(&ws);
    assert_eq!(m.len(), 2);
    assert_eq!(m[0].0, "a");
    assert_eq!(m[1].0, "b");
    let b: Vec<String> = m[1].1.iter().map(|w| w.name.clone()).collect();
    assert_eq!(b, strings(&["1", "3"]));
}

#[test]
fn session_start_puts_workspace_one_on_the_leftmost_monitor() {
    let outs = vec![out("A", true, 1920, 0), out("B", true, 0, 100)];
    let sorted = get_sorted_outputs(&outs);
    let cmds = init_session_commands(&sorted);
    assert_eq!(
        cmds,
        strings(&["focus output \"B\"", "workspace number 1", "focus output \"A\"", "workspace number 2"])
    );
    let ws = vec![rws("1", "B", true), rws("2", "A", false)];
    let renames = init_session_renames(&sorted, &ws);
    assert_eq!(
        renames,
        vec![
            ("1".to_string(), rname(1, "", None, 1)),
            ("2".to_string(), rname(100002, "", None, 2)),
        ]
    );
}

#[test]
fn fresh_session_has_only_plain_numbered_workspaces() {
    assert!(is_fresh_session(&[rws("1", "A", true), rws("10", "B", false)]));
    assert!(!is_fresh_session(&[]));
    assert!(!is_fresh_session(&[rws("1", "A", true), rws("mail", "A", false)]));
    assert!(!is_fresh_session(&[rws("", "A", true)]));
    assert!(!is_fresh_session(&[rws(&rname(1, "", None, 1), "A", true)]));
}

#[test]
fn session_start_commands_and_renames() {
    let outs = vec![out("L", true, 0, 0), out("R", true, 1920, 0)];
    let cmds = init_session_commands(&outs);
    assert_eq!(
        cmds,
        strings(&["focus output \"L\"", "workspace number 1", "focus output \"R\"", "workspace number 2"])
    );
    let ws = vec![rws("1", "L", true), rws("2", "R", false), rws("3", "R", false)];
    let renames = init_session_renames(&outs, &ws);
    assert_eq!(
        renames,
        vec![
            ("1".to_string(), rname(1, "", None, 1)),
            ("2".to_string(), rname(100002, "", None, 2)),
        ]
    );
}

#[test]
fn session_start_is_idempotent() {
    let outs = vec![out("L", true, 0, 0)];
    let ws = vec![rws("1", "L", true)];
    let renames = init_session_renames(&outs, &ws);
    let after = vec![rws(&renames[0].1, "L", true)];
    assert!(!is_fresh_session(&after));
}

#[test]
fn set_listing_one_per_line() {
    let ws = vec![rws(&rname(101, "work", None, 1), "A", false), rws("1", "A", true)];
    assert_eq!(sets_listing(&ws), "work\n\n");
    assert_eq!(sets_listing(&[]), "\n");
}

#[test]
fn workspace_table_columns() {
    let ws = vec![rws(&rname(101, "work", Some("mail"), 1), "A", true), rws("x", "B", false)];
    let fields = strings(&["global_number", "set", "static_name", "local_number", "monitor", "focused", "bogus"]);
    let t = workspace_table(&ws, &fields);
    assert_eq!(t, "101\twork\tmail\t1\tA\t1\t\n\t\tx\t\tB\t0\t");
}

#[test]
fn listing_selects_set_and_focus() {
    let ws = vec![
        rws(&rname(103, "work", None, 3), "A", false),
        rws(&rname(101, "work", None, 1), "A", true),
        rws("1", "A", false),
    ];
    let all = select_workspaces(&ws, &ws, &SetContext::Unset, false, MemberOrder::Encounter).unwrap();
    assert_eq!(all.len(), 3);
    let work = select_workspaces(&ws, &ws, &SetContext::Focused, false, MemberOrder::ByLocalNumber).unwrap();
    let names: Vec<String> = work.iter().map(|w| w.name.clone()).collect();
    assert_eq!(names, vec![rname(101, "work", None, 1), rname(103, "work", None, 3)]);
    let only = select_workspaces(&ws, &ws, &SetContext::Unset, true, MemberOrder::Encounter).unwrap();
    assert_eq!(only.len(), 1);
    assert!(only[0].focused);
    let nofocus = vec![rws("1", "A", false)];
    assert!(select_workspaces(&nofocus, &nofocus, &SetContext::Focused, false, MemberOrder::Encounter).is_none());
}

#[test]
fn waybar_line_for_groups_and_sets() {
    let ws = vec![
        rws(&rname(1, "", Some("a\"b"), 1), "A", false),
        rws(&rname(101, "work", None, 1), "A", true),
        rws(&rname(102, "work", None, 2), "A", false),
    ];
    let groups = waybar_json(&ws, MemberOrder::ByLocalNumber, true);
    assert_eq!(
        groups,
        "{\"text\": \"default | work:1 | work:2\", \"tooltip\": \"default:1 a\\\"b\\nwork:1 *\\nwork:2\", \"class\": \"work\"}"
    );
    let sets = waybar_json(&ws, MemberOrder::Encounter, false);
    assert_eq!(
        sets,
        "{\"text\": \"default\", \"tooltip\": \"default:1 a\\\"b\\nwork:1 *\\nwork:2\", \"class\": \"work\"}"
    );
}

#[test]
fn polybar_options_and_text() {
    let o = parse_polybar_opts(&strings(&["-c", "#fff", "-x", "-e", "#f00", "-s", "-c"]));
    assert_eq!(o.color_current_ws, "#fff");
    assert_eq!(o.color_external_monitor, "#f00");
    assert!(o.shorthand);
    let plain = PolybarOpts { color_external_monitor: String::new(), color_current_ws: String::new(), shorthand: false };
    let t = polybar_text(&[rws("1", "A", true)], &plain);
    assert_eq!(
        t,
        "%{A1:swi3-groups switch-active-group \"\":}default:%{A}%{u#a3be8c}%{+u} %{F}%{A1:swi3-groups workspace-number 0 --group-name \"\":}0%{A}%{F-} %{-u}"
    );
}

#[test]
fn polybar_shorthand_collapses_runs() {
    let ws = vec![
        rws(&rname(1, "", None, 1), "A", true),
        rws(&rname(101, "w", None, 1), "A", false),
        rws(&rname(102, "w", None, 2), "A", false),
        rws(&rname(103, "w", None, 3), "A", false),
        rws(&rname(105, "w", None, 5), "A", false),
    ];
    let o = PolybarOpts { color_external_monitor: String::new(), color_current_ws: String::new(), shorthand: true };
    let t = polybar_text(&ws, &o);
    let item = |label: &str, n: i64| format!("%{{A1:swi3-groups workspace-number {} --group-name \"w\":}}{}%{{A}}", n, label);
    let expect_w = format!("{}{}{}", item(" 1", 1), item("-3", 3), item(", 5", 5));
    assert!(t.ends_with(&format!("%{{A1:swi3-groups switch-active-group \"w\":}}w:%{{A}}{}", expect_w)), "{}", t);
}

#[test]
fn polybar_shorthand_writes_each_run() {
    let locals = [1i64, 2, 4, 5, 6, 9];
    let mut ws = vec![rws(&rname(1, "", None, 1), "A", true)];
    for n in locals {
        ws.push(rws(&rname(100 + n, "w", None, n), "A", false));
    }
    let o = PolybarOpts { color_external_monitor: String::new(), color_current_ws: String::new(), shorthand: true };
    let t = polybar_text(&ws, &o);
    let item = |label: &str, n: i64| format!("%{{A1:swi3-groups workspace-number {} --group-name \"w\":}}{}%{{A}}", n, label);
    let expect_w = format!("{}{}{}{}{}", item(" 1", 1), item(", 2", 2), item(", 4", 4), item("-6", 6), item(", 9", 9));
    assert!(t.ends_with(&format!("w:%{{A}}{}", expect_w)), "{}", t);
}
