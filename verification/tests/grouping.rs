use std::collections::HashSet;
use swi3_groups::meta::{create_name, WsMeta};
use swi3_groups::numbers::get_lowest_free_local_numbers;
use swi3_groups::sets::{
    find_free_local_number, get_set_index, get_used_local_numbers, lowest_free_number,
    plan_organize, set_members,
};
use swi3_groups::workspace::{set_to_workspaces_ordered, MemberOrder, WsInfo};

fn enc(gn: i64, set: &str, local: i64) -> String {
    create_name(&WsMeta {
        global_number: Some(gn),
        set: Some(set.to_string()),
        static_name: None,
        dynamic_name: None,
        local_number: Some(local),
    })
}

fn gws(name: &str, output: &str, focused: bool) -> WsInfo {
    WsInfo { name: name.to_string(), output: output.to_string(), focused }
}

fn names(v: &[WsInfo]) -> Vec<String> {
    v.iter().map(|w| w.name.clone()).collect()
}

#[test]
fn lowest_free_numbers_skip_used_ones() {
    let used: HashSet<i64> = [1, 2, 4].into_iter().collect();
    assert_eq!(get_lowest_free_local_numbers(3, &used), vec![3, 5, 6]);
    assert_eq!(get_lowest_free_local_numbers(0, &used), Vec::<i64>::new());
    let none: HashSet<i64> = HashSet::new();
    assert_eq!(get_lowest_free_local_numbers(2, &none), vec![1, 2]);
}

#[test]
fn lowest_free_number_is_least_positive_absent() {
    let used: HashSet<i64> = [1, 2, 3, -5].into_iter().collect();
    assert_eq!(lowest_free_number(&used), 4);
    let used: HashSet<i64> = [2, 3].into_iter().collect();
    assert_eq!(lowest_free_number(&used), 1);
}

#[test]
fn grouping_keeps_first_occurrence_order_of_sets() {
    let ws = vec![
        gws(&enc(103, "work", 3), "A", false),
        gws("1", "A", false),
        gws(&enc(101, "work", 1), "A", true),
    ];
    let enc_order = set_to_workspaces_ordered(&ws, MemberOrder::Encounter);
    assert_eq!(enc_order.len(), 2);
    assert_eq!(enc_order[0].0, "work");
    assert_eq!(names(&enc_order[0].1), vec![enc(103, "work", 3), enc(101, "work", 1)]);
    assert_eq!(enc_order[1].0, "");
    assert_eq!(names(&enc_order[1].1), vec!["1".to_string()]);
    let sorted = set_to_workspaces_ordered(&ws, MemberOrder::ByLocalNumber);
    assert_eq!(names(&sorted[0].1), vec![enc(101, "work", 1), enc(103, "work", 3)]);
}

#[test]
fn workspaces_without_local_number_sort_last() {
    let ws = vec![gws("mail", "A", false), gws(&enc(2, "", 2), "A", false)];
    let g = set_to_workspaces_ordered(&ws, MemberOrder::ByLocalNumber);
    assert_eq!(names(&g[0].1), vec![enc(2, "", 2), "mail".to_string()]);
}

#[test]
fn used_local_numbers_come_from_names() {
    let ws = vec![gws(&enc(1, "", 1), "A", false), gws("x", "A", false), gws(&enc(5, "", 5), "A", false)];
    let used = get_used_local_numbers(&ws);
    let expect: HashSet<i64> = [1, 5].into_iter().collect();
    assert_eq!(used, expect);
}

#[test]
fn set_index_comes_from_first_global_number_or_is_next_free() {
    let ws = vec![
        gws(&enc(1, "", 1), "A", false),
        gws(&enc(201, "web", 1), "A", false),
    ];
    let groups = set_to_workspaces_ordered(&ws, MemberOrder::Encounter);
    assert_eq!(get_set_index("web", &groups), 2);
    assert_eq!(get_set_index("", &groups), 0);
    assert_eq!(get_set_index("new", &groups), 3);
    let empty: Vec<(String, Vec<WsInfo>)> = Vec::new();
    assert_eq!(get_set_index("new", &empty), 0);
}

#[test]
fn free_local_number_of_a_set() {
    let ws = vec![
        gws(&enc(101, "work", 1), "A", false),
        gws(&enc(102, "work", 2), "A", false),
        gws(&enc(3, "", 3), "A", false),
    ];
    assert_eq!(find_free_local_number(&ws, "work"), 3);
    assert_eq!(find_free_local_number(&ws, ""), 1);
    assert_eq!(names(&set_members(&ws, "work")), vec![enc(101, "work", 1), enc(102, "work", 2)]);
}

#[test]
fn organizing_renumbers_each_set_by_its_position() {
    let a = gws("1", "A", false);
    let b = gws(&enc(1, "", 1), "A", false);
    let w = gws(&enc(101, "work", 1), "A", true);
    let all = vec![a.copy(), b.copy(), w.copy()];
    let ordered = vec![
        ("work".to_string(), vec![w.copy()]),
        (String::new(), vec![b.copy(), a.copy()]),
    ];
    let renames = plan_organize(0, &ordered, &all).ok().unwrap();
    assert_eq!(renames.len(), 3);
    assert_eq!(renames[0], (w.name.clone(), enc(1, "work", 1)));
    assert_eq!(renames[1], (b.name.clone(), enc(101, "", 1)));
    let expect_a = create_name(&WsMeta {
        global_number: Some(102),
        set: Some(String::new()),
        static_name: Some("1".to_string()),
        dynamic_name: Some(String::new()),
        local_number: Some(2),
    });
    assert_eq!(renames[2], (a.name.clone(), expect_a));
}

#[test]
fn organizing_avoids_numbers_used_on_other_monitors() {
    let here = gws(&enc(101, "work", 1), "A", true);
    let there = gws(&enc(100101, "work", 1), "B", false);
    let all = vec![here.copy(), there.copy()];
    let ordered = vec![("work".to_string(), vec![here.copy()])];
    let renames = plan_organize(0, &ordered, &all).ok().unwrap();
    assert_eq!(renames, vec![(here.name.clone(), enc(2, "work", 2))]);
}

#[test]
fn organizing_reports_overflowing_numbers() {
    let big = gws(&enc(9, "", i64::MAX - 5), "A", false);
    let ordered = vec![(String::new(), vec![big.copy()])];
    assert!(plan_organize(1, &ordered, &[big.copy()]).is_err());
}
