//! Session start-up and the read-only reports: the set list, the workspace
//! table and the waybar module.
use vstd::prelude::*;
use crate::text::{chars_of, string_of, extend_chars, extend_str, join, join_chars, chars_eq};
use crate::num::{
    all_digits, is_digit, int_text, push_int, int_to_chars, is_ascii_digit,
};
use crate::meta::{WsMeta, MetaView, parse_name, spec_parse_name, create_name, spec_create_name, compute_global_number, spec_global_number, get_local_number, spec_local_number, set_or_empty, filled, encodable, lemma_parse_create_roundtrip,
    gn_fits, spec_set_index, spec_local_of_global, MAX_WORKSPACES_PER_SET};
use crate::workspace::{
    WsInfo, WsView, OutputInfo, OutView, views, set_of, group_keys, ordered_members, spec_grouped,
    set_to_workspaces_ordered, MemberOrder, groups_view, drawn_from, lemma_ordered_members,
};
use crate::outputs::{out_views, sort_outputs, active_outputs};
use crate::wmcmd::{focus_output_command, workspace_number_command, escape_quotes};
use crate::nav::{first_focused, find_focused};
use crate::sets::str_eq;

verus! {

// ── session start-up ─────────────────────────────────────────────────────────

/// A fresh session: some workspace exists and every workspace name is a
/// non-empty run of ASCII digits (the window manager's default naming).
pub open spec fn spec_is_fresh(ws: Seq<WsView>) -> bool {
    ws.len() > 0 && forall|i: int| 0 <= i < ws.len() ==> (#[trigger] ws[i]).name.len() > 0 && all_digits(
        ws[i].name,
    )
}

fn all_digit_chars(v: &[char]) -> (r: bool)
    ensures
        r == all_digits(v@),
{
    let mut i: usize = 0;
    while i < v.len()
        invariant
            i <= v@.len(),
            forall|j: int| 0 <= j < i ==> is_digit(#[trigger] v@[j]),
        decreases v.len() - i,
    {
        if !is_ascii_digit(v[i]) {
            return false;
        }
        i += 1;
    }
    true
}

/// Whether the session is fresh: every workspace still has a plain number
/// as its name.
pub fn is_fresh_session(ws: &[WsInfo]) -> (r: bool)
    ensures
        r == spec_is_fresh(views(ws@)),
{
    if ws.len() == 0 {
        return false;
    }
    let ghost wv = views(ws@);
    let mut i: usize = 0;
    while i < ws.len()
        invariant
            i <= ws@.len(),
            wv == views(ws@),
            ws@.len() > 0,
            forall|j: int| 0 <= j < i ==> (#[trigger] wv[j]).name.len() > 0 && all_digits(wv[j].name),
        decreases ws.len() - i,
    {
        assert(wv[i as int] == ws@[i as int]@);
        let v = chars_of(ws[i].name.as_str());
        if v.len() == 0 || !all_digit_chars(&v) {
            return false;
        }
        i += 1;
    }
    true
}

/// Created names hold a `:`, so a session holding one is not fresh: running
/// the session start-up again after it renamed a workspace does nothing.
pub proof fn lemma_created_name_not_fresh(ws: Seq<WsView>, i: int, m: MetaView)
    requires
        0 <= i < ws.len(),
        m.global_number is Some,
        ws[i].name == spec_create_name(m),
    ensures
        !spec_is_fresh(ws),
{
    crate::num::lemma_parse_int_text(m.global_number->0);
    let t = int_text(m.global_number->0 as int);
    let name = spec_create_name(m);
    assert(name[t.len() as int] == ':');
    assert(!is_digit(':'));
    assert(!all_digits(name));
}

/// The commands that put workspace number `i + 1` on the `i`-th output:
/// focus the output, then the numbered workspace.
pub open spec fn spec_init_commands(outs: Seq<OutView>) -> Seq<Seq<char>>
    decreases outs.len(),
{
    if outs.len() == 0 {
        Seq::empty()
    } else {
        let k = outs.len() - 1;
        spec_init_commands(outs.drop_last()).push(
            crate::wmcmd::spec_focus_output_command(outs[k].name),
        ).push(crate::wmcmd::spec_workspace_number_command(k + 1))
    }
}

/// The session start-up commands, pair by pair: the `i`-th pair focuses the
/// `i`-th output and then workspace number `i + 1`.
pub proof fn lemma_init_commands_at(outs: Seq<OutView>, i: int)
    requires
        0 <= i < outs.len(),
    ensures
        spec_init_commands(outs).len() == 2 * outs.len(),
        spec_init_commands(outs)[2 * i] == crate::wmcmd::spec_focus_output_command(outs[i].name),
        spec_init_commands(outs)[2 * i + 1] == crate::wmcmd::spec_workspace_number_command(i + 1),
    decreases outs.len(),
{
    let d = outs.drop_last();
    if i < outs.len() - 1 {
        lemma_init_commands_at(d, i);
        assert(d[i] == outs[i]);
    } else if d.len() > 0 {
        lemma_init_commands_at(d, 0);
    } else {
        assert(spec_init_commands(d) =~= Seq::empty());
    }
}

/// The session start-up puts workspace 1 on the leftmost active monitor:
/// with the outputs sorted by `get_sorted_outputs`, its first commands focus
/// an active output that no active output lies left of, then workspace 1.
pub proof fn lemma_init_starts_leftmost(outs: Seq<OutView>)
    requires
        active_outputs(outs).len() > 0,
    ensures
        ({
            let s = sort_outputs(active_outputs(outs));
            &&& spec_init_commands(s)[0] == crate::wmcmd::spec_focus_output_command(s[0].name)
            &&& spec_init_commands(s)[1] == crate::wmcmd::spec_workspace_number_command(1)
            &&& active_outputs(outs).contains(s[0])
            &&& forall|k: int|
                0 <= k < active_outputs(outs).len() ==> s[0].x <= (#[trigger] active_outputs(outs)[k]).x
        }),
{
    let a = active_outputs(outs);
    crate::outputs::lemma_sorted_outputs(a);
    let s = sort_outputs(a);
    lemma_init_commands_at(s, 0);
}

/// The commands that put one numbered workspace on each of the sorted
/// outputs, in order: with the outputs as `get_sorted_outputs` gives them,
/// workspace 1 goes on the leftmost monitor, 2 on the next, and so on.
pub fn init_session_commands(sorted_outputs: &[OutputInfo]) -> (r: Vec<String>)
    requires
        sorted_outputs@.len() < i64::MAX,
    ensures
        r@.map_values(|c: String| c@) == spec_init_commands(out_views(sorted_outputs@)),
{
    let ghost ov = out_views(sorted_outputs@);
    let mut r: Vec<String> = Vec::new();
    let mut i: usize = 0;
    while i < sorted_outputs.len()
        invariant
            i <= sorted_outputs@.len(),
            sorted_outputs@.len() < i64::MAX,
            ov == out_views(sorted_outputs@),
            r@.map_values(|c: String| c@) == spec_init_commands(ov.take(i as int)),
        decreases sorted_outputs.len() - i,
    {
        assert(ov.take(i + 1).drop_last() =~= ov.take(i as int));
        assert(ov.take(i + 1)[i as int] == sorted_outputs@[i as int]@);
        let ghost before = r@;
        r.push(focus_output_command(sorted_outputs[i].name.as_str()));
        r.push(workspace_number_command((i + 1) as i64));
        assert(r@.map_values(|c: String| c@) =~= before.map_values(|c: String| c@).push(
            crate::wmcmd::spec_focus_output_command(ov[i as int].name),
        ).push(crate::wmcmd::spec_workspace_number_command(i + 1)));
        i += 1;
    }
    assert(ov.take(sorted_outputs@.len() as int) =~= ov);
    r
}

/// The metadata of the workspace the session start-up gives output `i`.
pub open spec fn init_meta(i: int) -> MetaView {
    MetaView {
        global_number: Some(spec_global_number(i, 0, i + 1) as i64),
        set: Some(Seq::empty()),
        static_name: None,
        dynamic_name: None,
        local_number: Some((i + 1) as i64),
    }
}

/// The name the session start-up gives the workspace of the `k`-th output
/// reads back in the default set with local number `k + 1`, and its global
/// number encodes monitor `k`, set index 0 and local number `k + 1`; so the
/// outputs' workspaces sort left to right.
pub proof fn lemma_init_name_reads_back(k: int)
    requires
        0 <= k,
        k + 1 < MAX_WORKSPACES_PER_SET,
        gn_fits(k, 0, k + 1),
    ensures
        set_or_empty(spec_parse_name(spec_create_name(init_meta(k)))) == Seq::<char>::empty(),
        spec_local_number(spec_parse_name(spec_create_name(init_meta(k)))) == Some(k + 1),
        spec_parse_name(spec_create_name(init_meta(k))).global_number == Some(
            spec_global_number(k, 0, k + 1) as i64,
        ),
        spec_global_number(k, 0, k + 1) / 100000 == k,
        spec_set_index(spec_global_number(k, 0, k + 1)) == 0,
        spec_local_of_global(spec_global_number(k, 0, k + 1)) == k + 1,
{
    let m = init_meta(k);
    assert(encodable(m));
    lemma_parse_create_roundtrip(m);
    crate::meta::lemma_global_number_roundtrip(k, 0, k + 1);
    let g = spec_global_number(k, 0, k + 1);
    assert(g / 100000 == k) by (nonlinear_arith)
        requires
            g == k * 100000 + 0 * 100 + (k + 1),
            0 <= k,
            k + 1 < 100,
    ;
}

/// The index of the first workspace on output `out` named `name`.
pub open spec fn find_on_output(ws: Seq<WsView>, out: Seq<char>, name: Seq<char>) -> Option<int>
    decreases ws.len(),
{
    if ws.len() == 0 {
        None
    } else if ws[0].output == out && ws[0].name == name {
        Some(0)
    } else {
        match find_on_output(ws.drop_first(), out, name) {
            Some(k) => Some(k + 1),
            None => None,
        }
    }
}

/// The renames of the session start-up for the first `n` outputs: the
/// workspace named `i + 1` on the `i`-th output gets the encoded name of
/// local number `i + 1` in the default set, when that differs.
pub open spec fn spec_init_renames(outs: Seq<OutView>, ws: Seq<WsView>) -> Seq<(Seq<char>, Seq<char>)>
    decreases outs.len(),
{
    if outs.len() == 0 {
        Seq::empty()
    } else {
        let k = outs.len() - 1;
        let prev = spec_init_renames(outs.drop_last(), ws);
        match find_on_output(ws, outs[k].name, int_text(k + 1)) {
            Some(j) => {
                let new_name = spec_create_name(init_meta(k));
                if new_name != ws[j].name {
                    prev.push((ws[j].name, new_name))
                } else {
                    prev
                }
            },
            None => prev,
        }
    }
}

fn find_on_output_exec(ws: &[WsInfo], out: &str, name: &[char]) -> (r: Option<usize>)
    ensures
        match r {
            Some(j) => find_on_output(views(ws@), out@, name@) == Some(j as int) && j < ws@.len(),
            None => find_on_output(views(ws@), out@, name@) is None,
        },
{
    let ghost wv = views(ws@);
    let mut i: usize = 0;
    assert(wv.skip(0) =~= wv);
    while i < ws.len()
        invariant
            i <= ws@.len(),
            wv == views(ws@),
            find_on_output(wv, out@, name@) == match find_on_output(wv.skip(i as int), out@, name@) {
                Some(k) => Some(k + i),
                None => None::<int>,
            },
        decreases ws.len() - i,
    {
        assert(wv.skip(i as int)[0] == ws@[i as int]@);
        let nv = chars_of(ws[i].name.as_str());
        if str_eq(ws[i].output.as_str(), out) && chars_eq(&nv, name) {
            return Some(i);
        }
        assert(wv.skip(i as int).drop_first() =~= wv.skip(i + 1));
        i += 1;
    }
    assert(wv.skip(i as int).len() == 0);
    None
}

/// The renames (old name, new name) that put the numbered workspace of each
/// sorted output into the default set with its encoded name.
pub fn init_session_renames(sorted_outputs: &[OutputInfo], ws: &[WsInfo]) -> (r: Vec<(String, String)>)
    requires
        sorted_outputs@.len() < 1000000000,
    ensures
        r@.map_values(|e: (String, String)| (e.0@, e.1@)) == spec_init_renames(
            out_views(sorted_outputs@),
            views(ws@),
        ),
{
    let ghost ov = out_views(sorted_outputs@);
    let ghost wv = views(ws@);
    let mut r: Vec<(String, String)> = Vec::new();
    let mut i: usize = 0;
    while i < sorted_outputs.len()
        invariant
            i <= sorted_outputs@.len(),
            sorted_outputs@.len() < 1000000000,
            ov == out_views(sorted_outputs@),
            wv == views(ws@),
            r@.map_values(|e: (String, String)| (e.0@, e.1@)) == spec_init_renames(
                ov.take(i as int),
                wv,
            ),
        decreases sorted_outputs.len() - i,
    {
        assert(ov.take(i + 1).drop_last() =~= ov.take(i as int));
        assert(ov.take(i + 1)[i as int] == sorted_outputs@[i as int]@);
        let n: i64 = (i + 1) as i64;
        let expected = int_to_chars(n);
        match find_on_output_exec(ws, sorted_outputs[i].name.as_str(), &expected) {
            Some(j) => {
                assert(wv[j as int] == ws@[j as int]@);
                let gn = compute_global_number(i as i64, 0, n);
                let meta = WsMeta {
                    global_number: Some(gn),
                    set: Some(String::new()),
                    static_name: None,
                    dynamic_name: None,
                    local_number: Some(n),
                };
                assert(meta@ == init_meta(i as int));
                let new_name = create_name(&meta);
                let nv = chars_of(new_name.as_str());
                let ov2 = chars_of(ws[j].name.as_str());
                if !chars_eq(&nv, &ov2) {
                    let ghost before = r@;
                    r.push((ws[j].name.clone(), new_name));
                    assert(r@.map_values(|e: (String, String)| (e.0@, e.1@)) =~= before.map_values(
                        |e: (String, String)| (e.0@, e.1@),
                    ).push((wv[j as int].name, spec_create_name(init_meta(i as int)))));
                }
            },
            None => {},
        }
        i += 1;
    }
    assert(ov.take(sorted_outputs@.len() as int) =~= ov);
    r
}

// ── reports ──────────────────────────────────────────────────────────────────

/// The set list: each set on a line of its own, each line ending in a newline.
pub open spec fn spec_sets_listing(ws: Seq<WsView>) -> Seq<char> {
    join(group_keys(ws), "\n"@) + "\n"@
}

/// The names of the sets of `ws`, in order of first occurrence, one per line.
pub fn sets_listing(ws: &[WsInfo]) -> (r: String)
    ensures
        r@ == spec_sets_listing(views(ws@)),
{
    let groups = set_to_workspaces_ordered(ws, MemberOrder::Encounter);
    let ghost keys = group_keys(views(ws@));
    let mut names: Vec<Vec<char>> = Vec::new();
    let mut i: usize = 0;
    while i < groups.len()
        invariant
            i <= groups@.len(),
            groups_view(groups@).len() == keys.len(),
            forall|k: int| 0 <= k < keys.len() ==> (#[trigger] groups_view(groups@)[k]).0 == keys[k],
            names@.map_values(|p: Vec<char>| p@) == keys.take(i as int),
        decreases groups.len() - i,
    {
        assert(groups_view(groups@)[i as int].0 == groups@[i as int].0@);
        let ghost before = names@;
        names.push(chars_of(groups[i].0.as_str()));
        assert(names@.map_values(|p: Vec<char>| p@) =~= before.map_values(|p: Vec<char>| p@).push(
            keys[i as int],
        ));
        assert(keys.take(i + 1) =~= keys.take(i as int).push(keys[i as int]));
        i += 1;
    }
    assert(keys.take(keys.len() as int) =~= keys);
    let nl: Vec<char> = vec!['\n'];
    let mut out = join_chars(&names, &nl);
    out.push('\n');
    proof {
        reveal_strlit("\n");
    }
    assert(nl@ =~= "\n"@);
    assert(out@ =~= spec_sets_listing(views(ws@)));
    string_of(&out)
}

/// The text of the `local_number` column and label: the local number, or
/// nothing when the workspace has none.
pub open spec fn opt_int_text(o: Option<int>) -> Seq<char> {
    match o {
        Some(n) => int_text(n),
        None => Seq::empty(),
    }
}

/// The value of column `field` for workspace `w`.
pub open spec fn field_value(w: WsView, field: Seq<char>) -> Seq<char> {
    let m = spec_parse_name(w.name);
    if field == "global_number"@ {
        match m.global_number {
            Some(g) => int_text(g as int),
            None => Seq::empty(),
        }
    } else if field == "set"@ {
        set_or_empty(m)
    } else if field == "static_name"@ {
        match m.static_name {
            Some(s) => s,
            None => Seq::empty(),
        }
    } else if field == "dynamic_name"@ {
        match m.dynamic_name {
            Some(s) => s,
            None => Seq::empty(),
        }
    } else if field == "local_number"@ {
        opt_int_text(spec_local_number(m))
    } else if field == "global_name"@ {
        w.name
    } else if field == "monitor"@ {
        w.output
    } else if field == "focused"@ {
        if w.focused {
            "1"@
        } else {
            "0"@
        }
    } else {
        Seq::empty()
    }
}

/// The `global_name` column shows the workspace's full name and the
/// `monitor` column its output; a table with the single column
/// `global_name` lists the workspaces' names, one per line.
pub proof fn lemma_name_and_monitor_columns(w: WsView)
    ensures
        field_value(w, "global_name"@) == w.name,
        field_value(w, "monitor"@) == w.output,
        spec_row(w, seq!["global_name"@]) == w.name,
{
    reveal_strlit("global_name");
    reveal_strlit("global_number");
    reveal_strlit("set");
    reveal_strlit("static_name");
    reveal_strlit("dynamic_name");
    reveal_strlit("local_number");
    reveal_strlit("monitor");
    assert("global_name"@ != "global_number"@) by {
        assert("global_name"@.len() != "global_number"@.len());
    }
    assert("global_name"@ != "set"@) by {
        assert("global_name"@.len() != "set"@.len());
    }
    assert("global_name"@ != "static_name"@) by {
        assert("global_name"@[0] != "static_name"@[0]);
    }
    assert("global_name"@ != "dynamic_name"@) by {
        assert("global_name"@.len() != "dynamic_name"@.len());
    }
    assert("global_name"@ != "local_number"@) by {
        assert("global_name"@.len() != "local_number"@.len());
    }
    assert("monitor"@ != "global_number"@) by {
        assert("monitor"@.len() != "global_number"@.len());
    }
    assert("monitor"@ != "set"@) by {
        assert("monitor"@.len() != "set"@.len());
    }
    assert("monitor"@ != "static_name"@) by {
        assert("monitor"@.len() != "static_name"@.len());
    }
    assert("monitor"@ != "dynamic_name"@) by {
        assert("monitor"@.len() != "dynamic_name"@.len());
    }
    assert("monitor"@ != "local_number"@) by {
        assert("monitor"@.len() != "local_number"@.len());
    }
    assert("monitor"@ != "global_name"@) by {
        assert("monitor"@.len() != "global_name"@.len());
    }
    assert(seq!["global_name"@].map_values(|f: Seq<char>| field_value(w, f)) =~= seq![w.name]);
}

/// The columns of a workspace whose name was built from metadata `m` show
/// that metadata: its global number, its set, its static and dynamic names
/// (nothing when absent), its local number, and `1` or `0` for focus.
pub proof fn lemma_columns_show_metadata(m: MetaView, output: Seq<char>, focused: bool)
    requires
        encodable(m),
    ensures
        ({
            let w = WsView { name: spec_create_name(m), output, focused };
            &&& field_value(w, "global_number"@) == int_text(m.global_number->0 as int)
            &&& field_value(w, "set"@) == set_or_empty(m)
            &&& field_value(w, "static_name"@) == (if filled(m.static_name) {
                m.static_name->0
            } else {
                Seq::<char>::empty()
            })
            &&& field_value(w, "dynamic_name"@) == (if filled(m.dynamic_name) {
                m.dynamic_name->0
            } else {
                Seq::<char>::empty()
            })
            &&& (m.local_number is Some ==> field_value(w, "local_number"@) == int_text(
                m.local_number->0 as int,
            ))
            &&& field_value(w, "focused"@) == (if focused {
                "1"@
            } else {
                "0"@
            })
        }),
{
    lemma_parse_create_roundtrip(m);
    reveal_strlit("global_name");
    reveal_strlit("global_number");
    reveal_strlit("set");
    reveal_strlit("static_name");
    reveal_strlit("dynamic_name");
    reveal_strlit("local_number");
    reveal_strlit("monitor");
    reveal_strlit("focused");
    assert("set"@ != "global_number"@) by {
        assert("set"@.len() != "global_number"@.len());
    }
    assert("static_name"@ != "global_number"@) by {
        assert("static_name"@.len() != "global_number"@.len());
    }
    assert("static_name"@ != "set"@) by {
        assert("static_name"@.len() != "set"@.len());
    }
    assert("dynamic_name"@ != "global_number"@) by {
        assert("dynamic_name"@.len() != "global_number"@.len());
    }
    assert("dynamic_name"@ != "set"@) by {
        assert("dynamic_name"@.len() != "set"@.len());
    }
    assert("dynamic_name"@ != "static_name"@) by {
        assert("dynamic_name"@.len() != "static_name"@.len());
    }
    assert("local_number"@ != "global_number"@) by {
        assert("local_number"@.len() != "global_number"@.len());
    }
    assert("local_number"@ != "set"@) by {
        assert("local_number"@.len() != "set"@.len());
    }
    assert("local_number"@ != "static_name"@) by {
        assert("local_number"@.len() != "static_name"@.len());
    }
    assert("local_number"@ != "dynamic_name"@) by {
        assert("local_number"@[0] != "dynamic_name"@[0]);
    }
    assert("focused"@ != "global_number"@) by {
        assert("focused"@.len() != "global_number"@.len());
    }
    assert("focused"@ != "set"@) by {
        assert("focused"@.len() != "set"@.len());
    }
    assert("focused"@ != "static_name"@) by {
        assert("focused"@.len() != "static_name"@.len());
    }
    assert("focused"@ != "dynamic_name"@) by {
        assert("focused"@.len() != "dynamic_name"@.len());
    }
    assert("focused"@ != "local_number"@) by {
        assert("focused"@.len() != "local_number"@.len());
    }
    assert("focused"@ != "global_name"@) by {
        assert("focused"@.len() != "global_name"@.len());
    }
    assert("focused"@ != "monitor"@) by {
        assert("focused"@[0] != "monitor"@[0]);
    }
}

fn opt_text(o: &Option<String>) -> (r: Vec<char>)
    ensures
        r@ == match crate::meta::opt_view(*o) {
            Some(s) => s,
            None => Seq::empty(),
        },
{
    match o {
        Some(s) => chars_of(s.as_str()),
        None => Vec::new(),
    }
}

/// The value of column `field` for workspace `w`.
pub fn workspace_field(w: &WsInfo, field: &str) -> (r: Vec<char>)
    ensures
        r@ == field_value(w@, field@),
{
    let m = parse_name(w.name.as_str());
    if str_eq(field, "global_number") {
        match m.global_number {
            Some(g) => int_to_chars(g),
            None => Vec::new(),
        }
    } else if str_eq(field, "set") {
        opt_text(&m.set)
    } else if str_eq(field, "static_name") {
        opt_text(&m.static_name)
    } else if str_eq(field, "dynamic_name") {
        opt_text(&m.dynamic_name)
    } else if str_eq(field, "local_number") {
        match get_local_number(&m) {
            Some(n) => int_to_chars(n),
            None => Vec::new(),
        }
    } else if str_eq(field, "global_name") {
        chars_of(w.name.as_str())
    } else if str_eq(field, "monitor") {
        chars_of(w.output.as_str())
    } else if str_eq(field, "focused") {
        if w.focused {
            chars_of("1")
        } else {
            chars_of("0")
        }
    } else {
        Vec::new()
    }
}

/// The row of workspace `w`: its columns `fields` separated by tabs.
pub open spec fn spec_row(w: WsView, fields: Seq<Seq<char>>) -> Seq<char> {
    join(fields.map_values(|f: Seq<char>| field_value(w, f)), "\t"@)
}

/// The table of workspaces `ws`: one row per workspace, rows separated by
/// newlines.
pub open spec fn spec_table(ws: Seq<WsView>, fields: Seq<Seq<char>>) -> Seq<char> {
    join(ws.map_values(|w: WsView| spec_row(w, fields)), "\n"@)
}

/// The row of workspace `w` with the columns `fields`.
fn workspace_row(w: &WsInfo, fields: &Vec<String>) -> (r: Vec<char>)
    ensures
        r@ == spec_row(w@, fields@.map_values(|f: String| f@)),
{
    let ghost fv = fields@.map_values(|f: String| f@);
    let mut cols: Vec<Vec<char>> = Vec::new();
    let mut i: usize = 0;
    while i < fields.len()
        invariant
            i <= fields@.len(),
            fv == fields@.map_values(|f: String| f@),
            cols@.map_values(|p: Vec<char>| p@) == fv.map_values(|f: Seq<char>| field_value(w@, f)).take(
                i as int,
            ),
        decreases fields.len() - i,
    {
        let ghost before = cols@;
        cols.push(workspace_field(w, fields[i].as_str()));
        assert(fv[i as int] == fields@[i as int]@);
        assert(cols@.map_values(|p: Vec<char>| p@) =~= before.map_values(|p: Vec<char>| p@).push(
            field_value(w@, fv[i as int]),
        ));
        assert(cols@.map_values(|p: Vec<char>| p@) =~= fv.map_values(|f: Seq<char>| field_value(w@, f)).take(
            i + 1,
        ));
        i += 1;
    }
    assert(fv.map_values(|f: Seq<char>| field_value(w@, f)).take(fields@.len() as int) =~= fv.map_values(
        |f: Seq<char>| field_value(w@, f),
    ));
    let tab: Vec<char> = vec!['\t'];
    proof {
        reveal_strlit("\t");
    }
    assert(tab@ =~= "\t"@);
    join_chars(&cols, &tab)
}

/// The table of workspaces `ws` with the columns `fields`.
pub fn workspace_table(ws: &[WsInfo], fields: &Vec<String>) -> (r: String)
    ensures
        r@ == spec_table(views(ws@), fields@.map_values(|f: String| f@)),
{
    let ghost fv = fields@.map_values(|f: String| f@);
    let ghost rows_v = views(ws@).map_values(|w: WsView| spec_row(w, fv));
    let mut rows: Vec<Vec<char>> = Vec::new();
    let mut i: usize = 0;
    while i < ws.len()
        invariant
            i <= ws@.len(),
            fv == fields@.map_values(|f: String| f@),
            rows_v == views(ws@).map_values(|w: WsView| spec_row(w, fv)),
            rows@.map_values(|p: Vec<char>| p@) == rows_v.take(i as int),
        decreases ws.len() - i,
    {
        let ghost before = rows@;
        rows.push(workspace_row(&ws[i], fields));
        assert(views(ws@)[i as int] == ws@[i as int]@);
        assert(rows@.map_values(|p: Vec<char>| p@) =~= before.map_values(|p: Vec<char>| p@).push(
            rows_v[i as int],
        ));
        assert(rows@.map_values(|p: Vec<char>| p@) =~= rows_v.take(i + 1));
        i += 1;
    }
    assert(rows_v.take(ws@.len() as int) =~= rows_v);
    let nl: Vec<char> = vec!['\n'];
    proof {
        reveal_strlit("\n");
    }
    assert(nl@ =~= "\n"@);
    let out = join_chars(&rows, &nl);
    string_of(&out)
}

/// The workspaces a listing shows: those of `scope` in the set `ctx` names,
/// ordered as `order` asks (all of `scope` when no set was asked for), and,
/// when `focused_only` holds, only the focused one; none when the set cannot
/// be resolved.
pub open spec fn spec_select(
    scope: Seq<WsView>,
    all: Seq<WsView>,
    ctx: crate::nav::SetContext,
    focused_only: bool,
    order: MemberOrder,
) -> Option<Seq<WsView>> {
    let target = match ctx {
        crate::nav::SetContext::Unset => Some(scope),
        _ => match crate::nav::spec_resolve_set(ctx, all) {
            Some(s) => Some(crate::workspace::ordered_members(scope, s, order)),
            None => None,
        },
    };
    match target {
        Some(t) => if focused_only {
            match first_focused(all) {
                Some(i) => Some(crate::outputs::with_name(t, all[i].name)),
                None => Some(Seq::empty()),
            }
        } else {
            Some(t)
        },
        None => None,
    }
}

proof fn lemma_with_name_drawn(ws: Seq<WsView>, name: Seq<char>)
    ensures
        drawn_from(crate::outputs::with_name(ws, name), ws),
        forall|i: int|
            0 <= i < crate::outputs::with_name(ws, name).len() ==> (
            #[trigger] crate::outputs::with_name(ws, name)[i]).name == name,
    decreases ws.len(),
{
    if ws.len() > 0 {
        let d = ws.drop_last();
        lemma_with_name_drawn(d, name);
        let o = crate::outputs::with_name(d, name);
        let r = crate::outputs::with_name(ws, name);
        assert forall|i: int| 0 <= i < r.len() implies exists|j: int| 0 <= j < ws.len() && ws[j] == #[trigger] r[i] by {
            if i < o.len() {
                let j = choose|j: int| 0 <= j < d.len() && d[j] == o[i];
                assert(ws[j] == d[j]);
            } else {
                assert(ws[ws.len() - 1] == r[i]);
            }
        }
    }
}

/// A listing shows only workspaces of the listed scope; when a set is asked
/// for, only workspaces of that set; when only the focused workspace is
/// asked for, only workspaces with its name. It shows nothing at all only
/// when the set asked for cannot be resolved.
pub proof fn lemma_selection(
    scope: Seq<WsView>,
    all: Seq<WsView>,
    ctx: crate::nav::SetContext,
    focused_only: bool,
    order: MemberOrder,
)
    ensures
        match spec_select(scope, all, ctx, focused_only, order) {
            Some(t) => {
                &&& drawn_from(t, scope)
                &&& (!(ctx is Unset) ==> forall|i: int|
                    0 <= i < t.len() ==> set_of(#[trigger] t[i]) == crate::nav::spec_resolve_set(ctx, all)->0)
                &&& (focused_only ==> forall|i: int|
                    0 <= i < t.len() ==> (#[trigger] t[i]).name == all[first_focused(all)->0].name)
            },
            None => !(ctx is Unset) && crate::nav::spec_resolve_set(ctx, all) is None,
        },
{
    let target = match ctx {
        crate::nav::SetContext::Unset => Some(scope),
        _ => match crate::nav::spec_resolve_set(ctx, all) {
            Some(s) => Some(ordered_members(scope, s, order)),
            None => None,
        },
    };
    match target {
        Some(t) => {
            if !(ctx is Unset) {
                lemma_ordered_members(scope, crate::nav::spec_resolve_set(ctx, all)->0, order);
            } else {
                assert forall|i: int| 0 <= i < t.len() implies exists|j: int| 0 <= j < scope.len() && scope[j] == #[trigger] t[i] by {
                    assert(scope[i] == t[i]);
                }
            }
            if focused_only {
                match first_focused(all) {
                    Some(k) => {
                        lemma_with_name_drawn(t, all[k].name);
                        let r = crate::outputs::with_name(t, all[k].name);
                        assert forall|i: int| 0 <= i < r.len() implies exists|j: int| 0 <= j < scope.len() && scope[j] == #[trigger] r[i] by {
                            let q = choose|q: int| 0 <= q < t.len() && t[q] == r[i];
                            let j = choose|j: int| 0 <= j < scope.len() && scope[j] == t[q];
                        }
                        if !(ctx is Unset) {
                            assert forall|i: int| 0 <= i < r.len() implies set_of(#[trigger] r[i])
                                == crate::nav::spec_resolve_set(ctx, all)->0 by {
                                let q = choose|q: int| 0 <= q < t.len() && t[q] == r[i];
                            }
                        }
                    },
                    None => {},
                }
            }
        },
        None => {},
    }
}

/// The workspaces a listing shows; none when the set cannot be resolved.
pub fn select_workspaces(
    scope: &[WsInfo],
    all: &[WsInfo],
    ctx: &crate::nav::SetContext,
    focused_only: bool,
    order: MemberOrder,
) -> (r: Option<Vec<WsInfo>>)
    ensures
        r is Some <==> spec_select(views(scope@), views(all@), *ctx, focused_only, order) is Some,
        r is Some ==> views(r->0@) == spec_select(views(scope@), views(all@), *ctx, focused_only, order)->0,
{
    let target: Vec<WsInfo> = match ctx {
        crate::nav::SetContext::Unset => crate::workspace::copy_all(scope),
        _ => match crate::nav::resolve_set(ctx, all) {
            Some(s) => {
                let m = crate::sets::set_members(scope, s.as_str());
                match order {
                    MemberOrder::Encounter => m,
                    MemberOrder::ByLocalNumber => crate::workspace::sort_members(m),
                }
            },
            None => {
                return None;
            },
        },
    };
    if focused_only {
        match find_focused(all) {
            Some(i) => {
                assert(views(all@)[i as int] == all@[i as int]@);
                Some(crate::outputs::get_named(&target, all[i].name.as_str()))
            },
            None => Some(Vec::new()),
        }
    } else {
        Some(target)
    }
}

// ── waybar ───────────────────────────────────────────────────────────────────

/// How a set is shown: its name, or `default` for the default set.
pub open spec fn display_name(set: Seq<char>) -> Seq<char> {
    if set.len() == 0 {
        "default"@
    } else {
        set
    }
}

/// The set of the focused workspace, the default set when none has focus.
pub open spec fn current_set(ws: Seq<WsView>) -> Seq<char> {
    match first_focused(ws) {
        Some(i) => set_of(ws[i]),
        None => Seq::empty(),
    }
}

/// The local number shown for a workspace, 0 when it has none.
pub open spec fn local_or_zero(w: WsView) -> int {
    match spec_local_number(spec_parse_name(w.name)) {
        Some(n) => n,
        None => 0,
    }
}

/// `set:number` for a workspace.
pub open spec fn short_label(w: WsView, display: Seq<char>) -> Seq<char> {
    display + ":"@ + int_text(local_or_zero(w))
}

/// The tooltip line of a workspace: `set:number`, its static name when it
/// has one, and `*` when it has focus.
pub open spec fn ws_label(w: WsView, display: Seq<char>) -> Seq<char> {
    let m = spec_parse_name(w.name);
    short_label(w, display) + (if filled(m.static_name) {
        " "@ + m.static_name->0
    } else {
        Seq::empty()
    }) + (if w.focused {
        " *"@
    } else {
        Seq::empty()
    })
}

/// The tooltip lines of all groups.
pub open spec fn tooltip_lines(g: Seq<(Seq<char>, Seq<WsView>)>) -> Seq<Seq<char>>
    decreases g.len(),
{
    if g.len() == 0 {
        Seq::empty()
    } else {
        let d = display_name(g.last().0);
        tooltip_lines(g.drop_last()) + g.last().1.map_values(|w: WsView| ws_label(w, d))
    }
}

/// The parts of the bar text: the names of the inactive sets and, when
/// `expand_active` holds, `set:number` for each workspace of the active set.
pub open spec fn text_parts(
    g: Seq<(Seq<char>, Seq<WsView>)>,
    current: Seq<char>,
    expand_active: bool,
) -> Seq<Seq<char>>
    decreases g.len(),
{
    if g.len() == 0 {
        Seq::empty()
    } else {
        let d = display_name(g.last().0);
        let prev = text_parts(g.drop_last(), current, expand_active);
        if g.last().0 != current {
            prev.push(d)
        } else if expand_active {
            prev + g.last().1.map_values(|w: WsView| short_label(w, d))
        } else {
            prev
        }
    }
}

/// Without the active set expanded, the bar text names exactly the sets
/// other than the active one: every part is the shown name of such a set,
/// and every such set is shown.
pub proof fn lemma_text_names_inactive_sets(g: Seq<(Seq<char>, Seq<WsView>)>, current: Seq<char>)
    ensures
        forall|k: int|
            0 <= k < text_parts(g, current, false).len() ==> exists|j: int|
                0 <= j < g.len() && g[j].0 != current && #[trigger] text_parts(g, current, false)[k]
                    == display_name(g[j].0),
        forall|j: int|
            0 <= j < g.len() && (#[trigger] g[j]).0 != current ==> text_parts(g, current, false).contains(
                display_name(g[j].0),
            ),
    decreases g.len(),
{
    if g.len() > 0 {
        let d = g.drop_last();
        lemma_text_names_inactive_sets(d, current);
        let p = text_parts(d, current, false);
        let t = text_parts(g, current, false);
        assert forall|k: int| 0 <= k < t.len() implies exists|j: int|
            0 <= j < g.len() && g[j].0 != current && #[trigger] t[k] == display_name(g[j].0) by {
            if k < p.len() {
                assert(t[k] == p[k]);
                let j = choose|j: int| 0 <= j < d.len() && d[j].0 != current && p[k] == display_name(d[j].0);
                assert(g[j] == d[j]);
            } else {
                assert(g[g.len() - 1].0 != current);
            }
        }
        assert forall|j: int| 0 <= j < g.len() && (#[trigger] g[j]).0 != current implies t.contains(
            display_name(g[j].0),
        ) by {
            if j < g.len() - 1 {
                assert(d[j] == g[j]);
                let k = choose|k: int| 0 <= k < p.len() && p[k] == display_name(d[j].0);
                assert(t[k] == p[k]);
            } else {
                assert(t[t.len() - 1] == display_name(g[j].0));
            }
        }
    }
}

/// The waybar module's JSON line.
pub open spec fn spec_waybar(ws: Seq<WsView>, order: MemberOrder, expand_active: bool) -> Seq<char> {
    let g = spec_grouped(ws, order);
    let cur = current_set(ws);
    "{\"text\": \""@ + escape_quotes(join(text_parts(g, cur, expand_active), " | "@))
        + "\", \"tooltip\": \""@ + escape_quotes(join(tooltip_lines(g), "\\n"@))
        + "\", \"class\": \""@ + display_name(cur) + "\"}"@
}

/// The waybar class is the shown name of the focused workspace's set, and
/// `default` when no workspace has focus.
pub proof fn lemma_waybar_class(ws: Seq<WsView>, order: MemberOrder, expand_active: bool)
    ensures
        exists|p: Seq<char>|
            spec_waybar(ws, order, expand_active) == p + "\", \"class\": \""@ + display_name(
                match first_focused(ws) {
                    Some(i) => set_of(ws[i]),
                    None => Seq::<char>::empty(),
                },
            ) + "\"}"@,
{
    let g = spec_grouped(ws, order);
    let cur = current_set(ws);
    let p = "{\"text\": \""@ + escape_quotes(join(text_parts(g, cur, expand_active), " | "@))
        + "\", \"tooltip\": \""@ + escape_quotes(join(tooltip_lines(g), "\\n"@));
    assert(spec_waybar(ws, order, expand_active) == p + "\", \"class\": \""@ + display_name(cur) + "\"}"@);
}

fn display_chars(set: &String) -> (r: Vec<char>)
    ensures
        r@ == display_name(set@),
{
    let v = chars_of(set.as_str());
    if v.len() == 0 {
        chars_of("default")
    } else {
        v
    }
}

fn short_label_exec(w: &WsInfo, d: &Vec<char>) -> (r: Vec<char>)
    ensures
        r@ == short_label(w@, d@),
{
    let m = parse_name(w.name.as_str());
    let n: i64 = match get_local_number(&m) {
        Some(n) => n,
        None => 0,
    };
    let mut out: Vec<char> = Vec::new();
    extend_chars(&mut out, d);
    extend_str(&mut out, ":");
    push_int(&mut out, n);
    assert(out@ =~= short_label(w@, d@));
    out
}

fn ws_label_exec(w: &WsInfo, d: &Vec<char>) -> (r: Vec<char>)
    ensures
        r@ == ws_label(w@, d@),
{
    let m = parse_name(w.name.as_str());
    let mut out = short_label_exec(w, d);
    let ghost base = out@;
    match &m.static_name {
        Some(s) => {
            if s.unicode_len() > 0 {
                extend_str(&mut out, " ");
                extend_str(&mut out, s.as_str());
            }
        },
        None => {},
    }
    let ghost mid = out@;
    if w.focused {
        extend_str(&mut out, " *");
    }
    assert(out@ =~= ws_label(w@, d@));
    out
}

/// The waybar module's JSON line: the inactive sets (and, when
/// `expand_active` holds, the active set's workspaces) as text, every
/// workspace as a tooltip line, and the focused set as class.
pub fn waybar_json(ws: &[WsInfo], order: MemberOrder, expand_active: bool) -> (r: String)
    ensures
        r@ == spec_waybar(views(ws@), order, expand_active),
{
    let ghost wv = views(ws@);
    let cur: String = match find_focused(ws) {
        Some(i) => {
            assert(wv[i as int] == ws@[i as int]@);
            crate::workspace::set_of_name(ws[i].name.as_str())
        },
        None => String::new(),
    };
    assert(cur@ == current_set(wv));
    let groups = set_to_workspaces_ordered(ws, order);
    let ghost g = groups_view(groups@);
    let mut parts: Vec<Vec<char>> = Vec::new();
    let mut lines: Vec<Vec<char>> = Vec::new();
    let mut i: usize = 0;
    while i < groups.len()
        invariant
            i <= groups@.len(),
            g == groups_view(groups@),
            parts@.map_values(|p: Vec<char>| p@) == text_parts(g.take(i as int), cur@, expand_active),
            lines@.map_values(|p: Vec<char>| p@) == tooltip_lines(g.take(i as int)),
        decreases groups.len() - i,
    {
        assert(g.take(i + 1).drop_last() =~= g.take(i as int));
        assert(g.take(i + 1).last() == g[i as int]);
        assert(g[i as int] == (groups@[i as int].0@, views(groups@[i as int].1@)));
        let d = display_chars(&groups[i].0);
        let gws = &groups[i].1;
        let ghost gw = views(gws@);
        let is_current = str_eq(groups[i].0.as_str(), cur.as_str());
        if !is_current {
            let ghost before = parts@;
            parts.push(d.clone());
            assert(parts@.map_values(|p: Vec<char>| p@) =~= before.map_values(|p: Vec<char>| p@).push(d@));
        } else if expand_active {
            let ghost base = parts@.map_values(|p: Vec<char>| p@);
            let mut j: usize = 0;
            while j < gws.len()
                invariant
                    j <= gws@.len(),
                    gw == views(gws@),
                    parts@.map_values(|p: Vec<char>| p@) == base + gw.map_values(|w: WsView| short_label(w, d@)).take(
                        j as int,
                    ),
                decreases gws.len() - j,
            {
                let ghost before = parts@;
                parts.push(short_label_exec(&gws[j], &d));
                assert(gw[j as int] == gws@[j as int]@);
                assert(parts@.map_values(|p: Vec<char>| p@) =~= before.map_values(|p: Vec<char>| p@).push(
                    short_label(gw[j as int], d@),
                ));
                assert(gw.map_values(|w: WsView| short_label(w, d@)).take(j + 1) =~= gw.map_values(
                    |w: WsView| short_label(w, d@),
                ).take(j as int).push(short_label(gw[j as int], d@)));
                j += 1;
            }
            assert(gw.map_values(|w: WsView| short_label(w, d@)).take(gws@.len() as int) =~= gw.map_values(
                |w: WsView| short_label(w, d@),
            ));
        }
        let ghost lbase = lines@.map_values(|p: Vec<char>| p@);
        let mut j: usize = 0;
        while j < gws.len()
            invariant
                j <= gws@.len(),
                gw == views(gws@),
                lines@.map_values(|p: Vec<char>| p@) == lbase + gw.map_values(|w: WsView| ws_label(w, d@)).take(
                    j as int,
                ),
            decreases gws.len() - j,
        {
            let ghost before = lines@;
            lines.push(ws_label_exec(&gws[j], &d));
            assert(gw[j as int] == gws@[j as int]@);
            assert(lines@.map_values(|p: Vec<char>| p@) =~= before.map_values(|p: Vec<char>| p@).push(
                ws_label(gw[j as int], d@),
            ));
            assert(gw.map_values(|w: WsView| ws_label(w, d@)).take(j + 1) =~= gw.map_values(
                |w: WsView| ws_label(w, d@),
            ).take(j as int).push(ws_label(gw[j as int], d@)));
            j += 1;
        }
        assert(gw.map_values(|w: WsView| ws_label(w, d@)).take(gws@.len() as int) =~= gw.map_values(
            |w: WsView| ws_label(w, d@),
        ));
        i += 1;
    }
    assert(g.take(groups@.len() as int) =~= g);
    let sep = chars_of(" | ");
    let text = join_chars(&parts, &sep);
    let nl = chars_of("\\n");
    let tooltip = join_chars(&lines, &nl);
    let class = display_chars(&cur);
    let mut out: Vec<char> = Vec::new();
    extend_str(&mut out, "{\"text\": \"");
    crate::wmcmd::push_escaped_chars(&mut out, &text);
    extend_str(&mut out, "\", \"tooltip\": \"");
    crate::wmcmd::push_escaped_chars(&mut out, &tooltip);
    extend_str(&mut out, "\", \"class\": \"");
    extend_chars(&mut out, &class);
    extend_str(&mut out, "\"}");
    assert(out@ =~= spec_waybar(wv, order, expand_active));
    string_of(&out)
}

} // verus!
