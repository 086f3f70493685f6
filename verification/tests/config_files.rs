use swi3_groups::config::{config_candidates, glob_accepts, glob_split, include_target, xdg_dir};

fn cands(v: &[&str]) -> Vec<String> {
    v.iter().map(|s| s.to_string()).collect()
}

#[test]
fn configuration_directory() {
    assert_eq!(xdg_dir(Some("/x"), "/home/u"), "/x");
    assert_eq!(xdg_dir(Some(""), "/home/u"), "");
    assert_eq!(xdg_dir(None, "/home/u"), "/home/u/.config");
}

#[test]
fn configuration_candidates_in_order() {
    assert_eq!(
        config_candidates(true, false, "/c", "/h"),
        cands(&["/c/sway/config", "/c/sway/config", "/c/i3/config", "/h/.sway/config", "/h/.i3/config"])
    );
    assert_eq!(
        config_candidates(false, true, "/c", ""),
        cands(&["/c/i3/config", "/c/sway/config", "/c/i3/config"])
    );
}

#[test]
fn include_lines_resolve_their_pattern() {
    assert_eq!(include_target("  include \"~/conf.d/*\" ", "/h", "/etc/sway"), Some("/h/conf.d/*".to_string()));
    assert_eq!(include_target("include /abs/file", "/h", "/d"), Some("/abs/file".to_string()));
    assert_eq!(include_target("include rel/x", "/h", "/d"), Some("/d/rel/x".to_string()));
    assert_eq!(include_target("includes x", "/h", "/d"), None);
    assert_eq!(include_target("bindsym x", "/h", "/d"), None);
}

#[test]
fn glob_patterns() {
    assert_eq!(glob_split("/a/b/*//.conf"), Some(("/a/b/".to_string(), ".conf".to_string())));
    assert_eq!(glob_split("/a/*"), Some(("/a/".to_string(), String::new())));
    assert_eq!(glob_split("/a/b"), None);
    assert!(glob_accepts("x.conf", ".conf"));
    assert!(!glob_accepts(".hidden.conf", ".conf"));
    assert!(glob_accepts("anything", ""));
    assert!(!glob_accepts("x.txt", ".conf"));
}
