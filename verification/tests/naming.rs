use swi3_groups::meta::{
    compute_global_number, create_name, get_local_number, global_number_to_local_number,
    global_number_to_set_index, parse_name, sanitize, strip_prefix_colon, strip_suffix_colon,
    WsMeta,
};
use swi3_groups::num::{int_to_chars, parse_i64_chars};
use swi3_groups::text::{chars_of, string_of};

const D: char = '\u{200b}';

fn meta_of(gn: i64, set: &str, name: Option<&str>, local: Option<i64>) -> WsMeta {
    WsMeta {
        global_number: Some(gn),
        set: Some(set.to_string()),
        static_name: name.map(|s| s.to_string()),
        dynamic_name: None,
        local_number: local,
    }
}

#[test]
fn create_name_puts_set_and_number_between_separators() {
    let n = create_name(&meta_of(101, "work", None, Some(1)));
    assert_eq!(n, format!("101:{D}work{D}{D}{D}:1"));
}

#[test]
fn create_name_without_set_has_no_leading_colons() {
    let n = create_name(&meta_of(3, "", Some("mail"), Some(3)));
    assert_eq!(n, format!("3:{D}{D}mail{D}{D}:3"));
    let bare = create_name(&meta_of(7, "", None, Some(7)));
    assert_eq!(bare, format!("7:{D}{D}{D}{D}7"));
}

#[test]
fn parse_name_of_plain_name_is_static_name_in_default_set() {
    let m = parse_name("mail");
    assert_eq!(m.global_number, None);
    assert_eq!(m.set, Some(String::new()));
    assert_eq!(m.static_name, Some("mail".to_string()));
    assert_eq!(m.dynamic_name, None);
    assert_eq!(m.local_number, None);
}

#[test]
fn parse_name_reads_every_part() {
    let m = parse_name(&format!("100205:{D}work{D}:mail{D}:dyn{D}:5"));
    assert_eq!(m.global_number, Some(100205));
    assert_eq!(m.set, Some("work".to_string()));
    assert_eq!(m.static_name, Some("mail".to_string()));
    assert_eq!(m.dynamic_name, Some("dyn".to_string()));
    assert_eq!(m.local_number, Some(5));
}

#[test]
fn parse_name_of_bad_numbers_drops_them() {
    let m = parse_name(&format!("x:{D}work{D}{D}{D}:y"));
    assert_eq!(m.global_number, None);
    assert_eq!(m.set, Some("work".to_string()));
    assert_eq!(m.local_number, None);
}

#[test]
fn parse_create_roundtrip_on_values() {
    let m = meta_of(100304, "work", Some("editor"), Some(4));
    let back = parse_name(&create_name(&m));
    assert_eq!(back.global_number, Some(100304));
    assert_eq!(back.set, Some("work".to_string()));
    assert_eq!(back.static_name, Some("editor".to_string()));
    assert_eq!(back.dynamic_name, None);
    assert_eq!(back.local_number, Some(4));
}

#[test]
fn sanitize_replaces_separator_and_drops_leading_colon() {
    assert_eq!(sanitize(&format!(":a{D}b")), "a%b");
    assert_eq!(sanitize("plain"), "plain");
    assert!(!sanitize(&format!("{D}{D}")).contains(D));
}

#[test]
fn colon_strippers_remove_one_colon() {
    assert_eq!(strip_suffix_colon("12::"), "12:");
    assert_eq!(strip_suffix_colon("12"), "12");
    assert_eq!(strip_prefix_colon("::x"), ":x");
    assert_eq!(strip_prefix_colon("x"), "x");
}

#[test]
fn global_number_formula() {
    assert_eq!(compute_global_number(1, 2, 3), 100203);
    assert_eq!(compute_global_number(0, 0, 1), 1);
    assert_eq!(global_number_to_set_index(100203), 2);
    assert_eq!(global_number_to_local_number(100203), 3);
}

#[test]
fn global_number_roundtrip_on_values() {
    let g = compute_global_number(4, 999, 99);
    assert_eq!(global_number_to_set_index(g), 999);
    assert_eq!(global_number_to_local_number(g), 99);
}

#[test]
fn global_numbers_order_by_monitor_then_set_then_local() {
    assert!(compute_global_number(0, 1, 99) < compute_global_number(0, 2, 1));
    assert!(compute_global_number(0, 999, 99) < compute_global_number(1, 0, 1));
    assert!(compute_global_number(2, 3, 4) < compute_global_number(2, 3, 5));
}

#[test]
fn local_number_falls_back_to_the_global_number() {
    let m = parse_name(&format!("100207:{D}work{D}{D}{D}"));
    assert_eq!(m.local_number, None);
    assert_eq!(get_local_number(&m), Some(7));
    let m = parse_name(&format!("100203:{D}work{D}{D}{D}:4"));
    assert_eq!(get_local_number(&m), Some(4));
    assert_eq!(get_local_number(&parse_name("mail")), None);
}

#[test]
fn integers_print_and_parse_back() {
    for n in [0i64, 7, -42, i64::MAX, i64::MIN] {
        let t = int_to_chars(n);
        assert_eq!(t.iter().collect::<String>(), n.to_string());
        assert_eq!(parse_i64_chars(&t), Some(n));
    }
    assert_eq!(parse_i64_chars(&['+', '5']), Some(5));
    assert_eq!(parse_i64_chars(&['-']), None);
    assert_eq!(parse_i64_chars(&['9'; 20]), None);
}

#[test]
fn strings_rebuild_from_their_characters() {
    let v = chars_of("zw\u{200b}é");
    assert_eq!(v, vec!['z', 'w', '\u{200b}', 'é']);
    assert_eq!(string_of(&v), "zw\u{200b}é");
    assert_eq!(string_of(&[]), "");
}
