use swi3_groups::meta::{create_name, parse_name, WsMeta};
use swi3_groups::sets::plan_organize;
use swi3_groups::nav::{
    create_workspace_name_for, find_by_local_number, find_focused, get_workspace_by_local_number, monitor_takes_part, plan_rename,
    relative_index, relative_target, reorder_for_switch, resolve_set, switch_focus_target,
    SetContext,
};
use swi3_groups::stepping::{global_candidates, global_step, set_candidates, workspace_step};
use swi3_groups::workspace::{set_to_workspaces_ordered, MemberOrder, WsInfo};

fn named(gn: i64, set: &str, local: i64) -> String {
    create_name(&WsMeta {
        global_number: Some(gn),
        set: Some(set.to_string()),
        static_name: None,
        dynamic_name: None,
        local_number: Some(local),
    })
}

fn nws(name: &str, output: &str, focused: bool) -> WsInfo {
    WsInfo { name: name.to_string(), output: output.to_string(), focused }
}

fn list(v: &[WsInfo]) -> Vec<String> {
    v.iter().map(|w| w.name.clone()).collect()
}

fn sample() -> Vec<WsInfo> {
    vec![
        nws(&named(1, "", 1), "A", false),
        nws(&named(2, "", 2), "A", false),
        nws(&named(101, "work", 1), "A", true),
        nws(&named(100001, "", 1), "B", false),
        nws(&named(100101, "work", 1), "B", false),
    ]
}

#[test]
fn resolve_set_by_context() {
    let ws = sample();
    assert_eq!(resolve_set(&SetContext::Named("x".to_string()), &ws), Some("x".to_string()));
    assert_eq!(resolve_set(&SetContext::Focused, &ws), Some("work".to_string()));
    assert_eq!(resolve_set(&SetContext::Active, &ws), Some(String::new()));
    assert_eq!(resolve_set(&SetContext::Unset, &ws), Some(String::new()));
    let unfocused = vec![nws("1", "A", false)];
    assert_eq!(resolve_set(&SetContext::Focused, &unfocused), None);
    assert_eq!(find_focused(&ws), Some(2));
}

#[test]
fn workspace_found_by_set_and_local_number() {
    let ws = sample();
    assert_eq!(find_by_local_number(&ws, "work", 1), Some(named(101, "work", 1)));
    assert_eq!(find_by_local_number(&ws, "", 2), Some(named(2, "", 2)));
    assert_eq!(find_by_local_number(&ws, "work", 2), None);
}

#[test]
fn new_workspace_name_uses_monitor_and_set_index() {
    let ws = sample();
    let mon: Vec<WsInfo> = ws.iter().filter(|w| w.output == "B").map(|w| w.copy()).collect();
    let n = create_workspace_name_for("work", 3, 1, &mon, MemberOrder::ByLocalNumber).ok().unwrap();
    assert_eq!(n, named(100103, "work", 3));
    assert!(create_workspace_name_for("work", i64::MAX, 1, &mon, MemberOrder::ByLocalNumber).is_err());
}

#[test]
fn relative_index_wraps_both_ways() {
    assert_eq!(relative_index(3, 2, 1), 0);
    assert_eq!(relative_index(3, 0, -1), 2);
    assert_eq!(relative_index(3, 1, -7), 0);
    assert_eq!(relative_index(1, 0, i64::MIN), 0);
}

#[test]
fn relative_target_steps_from_the_focused_workspace() {
    let c = vec![nws("a", "A", false), nws("b", "A", true), nws("c", "A", false)];
    assert_eq!(relative_target(&c, "b", 1), Some("c".to_string()));
    assert_eq!(relative_target(&c, "a", -1), Some("c".to_string()));
    assert_eq!(relative_target(&c, "zz", 1), Some("b".to_string()));
    assert_eq!(relative_target(&[], "a", 1), None);
}

#[test]
fn stepping_inside_a_set_stays_on_the_output() {
    let ws = sample();
    let focused = ws[2].copy();
    assert_eq!(workspace_step(&ws, &focused, 1, MemberOrder::ByLocalNumber, true), Some(named(101, "work", 1)));
    let d = ws[0].copy();
    assert_eq!(workspace_step(&ws, &d, 1, MemberOrder::Encounter, true), Some(named(2, "", 2)));
    assert_eq!(workspace_step(&ws, &d, 2, MemberOrder::Encounter, false), Some(named(100001, "", 1)));
    let on_a = set_candidates(&ws, "", MemberOrder::Encounter, Some("A"));
    assert_eq!(list(&on_a), vec![named(1, "", 1), named(2, "", 2)]);
}

#[test]
fn global_stepping_orders_sets_by_name() {
    let ws = vec![
        nws(&named(101, "work", 1), "A", true),
        nws(&named(201, "alpha", 1), "A", false),
        nws(&named(1, "", 1), "A", false),
        nws(&named(100001, "", 1), "B", false),
    ];
    let c = global_candidates(&ws, MemberOrder::ByLocalNumber, "A");
    assert_eq!(list(&c), vec![named(1, "", 1), named(201, "alpha", 1), named(101, "work", 1)]);
    let focused = ws[0].copy();
    assert_eq!(global_step(&ws, &focused, 1, MemberOrder::ByLocalNumber), Some(named(1, "", 1)));
    assert_eq!(global_step(&ws, &focused, -1, MemberOrder::ByLocalNumber), Some(named(201, "alpha", 1)));
}

#[test]
fn switching_moves_the_target_set_first() {
    let ws = sample();
    let a: Vec<WsInfo> = ws.iter().filter(|w| w.output == "A").map(|w| w.copy()).collect();
    let groups = set_to_workspaces_ordered(&a, MemberOrder::ByLocalNumber);
    let r = reorder_for_switch(&groups, "work");
    assert_eq!(r.len(), 2);
    assert_eq!(r[0].0, "work");
    assert_eq!(list(&r[0].1), vec![named(101, "work", 1)]);
    assert_eq!(r[1].0, "");
    let fresh = reorder_for_switch(&groups, "new");
    assert_eq!(fresh[0].0, "new");
    assert!(fresh[0].1.is_empty());
    assert_eq!(fresh.len(), 3);
}

#[test]
fn which_monitors_take_part_in_a_switch() {
    let ws = sample();
    let b: Vec<WsInfo> = ws.iter().filter(|w| w.output == "B").map(|w| w.copy()).collect();
    let groups = set_to_workspaces_ordered(&b, MemberOrder::ByLocalNumber);
    assert!(monitor_takes_part("B", "A", false, &groups, "work"));
    assert!(!monitor_takes_part("B", "A", true, &groups, "work"));
    assert!(!monitor_takes_part("B", "A", false, &groups, "absent"));
    assert!(monitor_takes_part("A", "A", true, &groups, "absent"));
}

#[test]
fn focus_after_a_switch() {
    let ws = sample();
    let focused = ws[2].copy();
    let a: Vec<WsInfo> = ws.iter().filter(|w| w.output == "A").map(|w| w.copy()).collect();
    let stay = switch_focus_target(&focused, "work", &a, 0, &ws, MemberOrder::ByLocalNumber, false);
    assert_eq!(stay.ok().unwrap(), None);
    let again = switch_focus_target(&focused, "work", &a, 0, &ws, MemberOrder::ByLocalNumber, true);
    assert_eq!(again.ok().unwrap(), Some(focused.name.clone()));
    let other = switch_focus_target(&focused, "", &a, 0, &ws, MemberOrder::ByLocalNumber, false);
    assert_eq!(other.ok().unwrap(), Some(named(1, "", 1)));
    let new = switch_focus_target(&focused, "music", &a, 0, &ws, MemberOrder::ByLocalNumber, false);
    assert_eq!(new.ok().unwrap(), Some(named(201, "music", 1)));
}

#[test]
fn renaming_keeps_a_free_number_and_replaces_a_taken_one() {
    let ws = sample();
    let a: Vec<WsInfo> = ws.iter().filter(|w| w.output == "A").map(|w| w.copy()).collect();
    let focused = named(101, "work", 1);
    let r = plan_rename(&focused, Some("mail"), Some(5), None, &ws, 0, &a, MemberOrder::ByLocalNumber);
    let expect = create_name(&WsMeta {
        global_number: Some(105),
        set: Some("work".to_string()),
        static_name: Some("mail".to_string()),
        dynamic_name: Some(String::new()),
        local_number: Some(5),
    });
    assert_eq!(r.ok().unwrap(), expect);
    let moved = plan_rename(&focused, None, None, Some(""), &ws, 0, &a, MemberOrder::ByLocalNumber);
    assert_eq!(moved.ok().unwrap(), named(3, "", 3));
    assert!(plan_rename(&focused, None, Some(i64::MAX), None, &ws, 0, &a, MemberOrder::ByLocalNumber).is_err());
}

#[test]
fn after_a_switch_the_target_set_is_numbered_first() {
    let ws = sample();
    let a: Vec<WsInfo> = ws.iter().filter(|w| w.output == "A").map(|w| w.copy()).collect();
    let groups = set_to_workspaces_ordered(&a, MemberOrder::ByLocalNumber);
    let reordered = reorder_for_switch(&groups, "work");
    let renames = plan_organize(0, &reordered, &ws).ok().unwrap();
    let number = |n: &str| parse_name(n).global_number.unwrap();
    let work_max = renames.iter().filter(|(_, n)| parse_name(n).set.as_deref() == Some("work")).map(|(_, n)| number(n)).max().unwrap();
    let other_min = renames.iter().filter(|(_, n)| parse_name(n).set.as_deref() == Some("")).map(|(_, n)| number(n)).min().unwrap();
    assert!(work_max < other_min);
    assert_eq!(work_max, 2);
    assert_eq!(other_min, 102);
}

#[test]
fn stepping_there_and_back_returns() {
    let c = vec![nws("a", "A", false), nws("b", "A", true), nws("c", "A", false)];
    for offset in [-4i64, -1, 0, 1, 2, 7] {
        for start in ["a", "b", "c"] {
            let there = relative_target(&c, start, offset).unwrap();
            assert_eq!(relative_target(&c, &there, -offset), Some(start.to_string()));
        }
    }
}

#[test]
fn workspace_by_local_number_existing_or_new() {
    let ws = sample();
    let a: Vec<WsInfo> = ws.iter().filter(|w| w.output == "A").map(|w| w.copy()).collect();
    let found = get_workspace_by_local_number(&ws, "work", 1, 0, &a, MemberOrder::ByLocalNumber);
    assert_eq!(found.ok().unwrap(), (named(101, "work", 1), true));
    let fresh = get_workspace_by_local_number(&ws, "work", 4, 0, &a, MemberOrder::ByLocalNumber);
    assert_eq!(fresh.ok().unwrap(), (named(104, "work", 4), false));
}
