//! The decisions of the navigation commands: which set is meant, which
//! workspace a local number names, where relative moves land, and what a
//! set switch or a rename does.
use vstd::prelude::*;
use crate::meta::{WsMeta, MetaView, encodable, lemma_parse_create_roundtrip, filled, starts_with_colon, DELIM, lemma_static_name_roundtrip, lemma_parsed_parts_lack_delim, parse_name, spec_parse_name, create_name, spec_create_name, checked_global_number, gn_fits, NumberOverflow, spec_global_number, get_local_number, spec_local_number, set_or_empty};
use crate::workspace::{
    WsInfo, WsView, views, set_of, set_of_name, group_keys, members, ordered_members,
    spec_grouped, set_to_workspaces_ordered, MemberOrder, groups_view, lemma_ordered_members,
};
use crate::outputs::{on_output, get_monitor_workspaces};
use crate::text::lacks;
use crate::sets::{str_eq, get_set_index, spec_set_index_of, group_slice_view, find_free_local_number, spec_free_local_number, used_local_numbers, get_used_local_numbers, lowest_free_number, lowest_free, set_members, group_locals, group_renames, lemma_set_renames_at, others_used, names_of};

verus! {

/// Which set a command acts on.
#[derive(Debug)]
pub enum SetContext {
    /// The active set of the focused monitor.
    Active,
    /// The set of the focused workspace.
    Focused,
    /// The set with this name.
    Named(String),
    /// No set was asked for; commands that need one use the active set.
    Unset,
}

/// The index of the first focused workspace.
pub open spec fn first_focused(ws: Seq<WsView>) -> Option<int>
    decreases ws.len(),
{
    if ws.len() == 0 {
        None
    } else if ws[0].focused {
        Some(0)
    } else {
        match first_focused(ws.drop_first()) {
            Some(i) => Some(i + 1),
            None => None,
        }
    }
}

proof fn lemma_first_focused(ws: Seq<WsView>)
    ensures
        match first_focused(ws) {
            Some(i) => 0 <= i < ws.len() && ws[i].focused,
            None => forall|i: int| 0 <= i < ws.len() ==> !(#[trigger] ws[i]).focused,
        },
    decreases ws.len(),
{
    if ws.len() > 0 && !ws[0].focused {
        lemma_first_focused(ws.drop_first());
        if first_focused(ws.drop_first()) is None {
            assert forall|i: int| 0 <= i < ws.len() implies !(#[trigger] ws[i]).focused by {
                if i > 0 {
                    assert(ws[i] == ws.drop_first()[i - 1]);
                }
            }
        }
    }
}

/// The index of the first focused workspace.
pub fn find_focused(ws: &[WsInfo]) -> (r: Option<usize>)
    ensures
        match r {
            Some(i) => first_focused(views(ws@)) == Some(i as int) && i < ws@.len(),
            None => first_focused(views(ws@)) is None,
        },
{
    let ghost wv = views(ws@);
    let mut i: usize = 0;
    assert(wv.skip(0) =~= wv);
    while i < ws.len()
        invariant
            i <= ws@.len(),
            wv == views(ws@),
            first_focused(wv) == match first_focused(wv.skip(i as int)) {
                Some(k) => Some(k + i),
                None => None::<int>,
            },
        decreases ws.len() - i,
    {
        assert(wv.skip(i as int)[0] == ws@[i as int]@);
        if ws[i].focused {
            return Some(i);
        }
        assert(wv.skip(i as int).drop_first() =~= wv.skip(i + 1));
        i += 1;
    }
    assert(wv.skip(i as int).len() == 0);
    None
}

/// The active set of the monitor of the focused workspace: the first set on
/// that monitor, or the default set when it has none.
pub open spec fn active_set_of(ws: Seq<WsView>, monitor: Seq<char>) -> Seq<char> {
    let keys = group_keys(on_output(ws, monitor));
    if keys.len() > 0 {
        keys[0]
    } else {
        Seq::empty()
    }
}

/// The set that `ctx` names, given every workspace; none when it needs a
/// focused workspace and there is none.
pub open spec fn spec_resolve_set(ctx: SetContext, ws: Seq<WsView>) -> Option<Seq<char>> {
    match ctx {
        SetContext::Named(n) => Some(n@),
        SetContext::Focused => match first_focused(ws) {
            Some(i) => Some(set_of(ws[i])),
            None => None,
        },
        _ => match first_focused(ws) {
            Some(i) => Some(active_set_of(ws, ws[i].output)),
            None => None,
        },
    }
}

/// The set that `ctx` names; none when it needs a focused workspace and
/// there is none.
pub fn resolve_set(ctx: &SetContext, all: &[WsInfo]) -> (r: Option<String>)
    ensures
        r is Some <==> spec_resolve_set(*ctx, views(all@)) is Some,
        r is Some ==> r->0@ == spec_resolve_set(*ctx, views(all@))->0,
{
    match ctx {
        SetContext::Named(name) => {
            Some(name.clone())
        },
        SetContext::Focused => match find_focused(all) {
            Some(i) => {
                assert(views(all@)[i as int] == all@[i as int]@);
                Some(set_of_name(all[i].name.as_str()))
            },
            None => None,
        },
        _ => match find_focused(all) {
            Some(i) => {
                assert(views(all@)[i as int] == all@[i as int]@);
                let mws = get_monitor_workspaces(all, all[i].output.as_str());
                let groups = set_to_workspaces_ordered(&mws, MemberOrder::Encounter);
                let ghost keys = group_keys(views(mws@));
                assert(groups_view(groups@).len() == keys.len());
                if groups.len() > 0 {
                    assert(groups_view(groups@)[0].0 == keys[0]);
                    assert(groups_view(groups@)[0].0 == groups@[0].0@);
                    Some(groups[0].0.clone())
                } else {
                    Some(String::new())
                }
            },
            None => None,
        },
    }
}

// ── workspaces by local number ───────────────────────────────────────────────

/// Whether workspace `w` is in set `set` with local number `ln`.
pub open spec fn has_local(w: WsView, set: Seq<char>, ln: i64) -> bool {
    &&& spec_parse_name(w.name).set == Some(set)
    &&& spec_local_number(spec_parse_name(w.name)) == Some(ln as int)
}

/// The index of the first workspace in set `set` with local number `ln`.
pub open spec fn first_with_local(ws: Seq<WsView>, set: Seq<char>, ln: i64) -> Option<int>
    decreases ws.len(),
{
    if ws.len() == 0 {
        None
    } else if has_local(ws[0], set, ln) {
        Some(0)
    } else {
        match first_with_local(ws.drop_first(), set, ln) {
            Some(i) => Some(i + 1),
            None => None,
        }
    }
}

/// The name of the first workspace in set `set` with local number
/// `local_number`, if there is one.
pub fn find_by_local_number(all: &[WsInfo], set: &str, local_number: i64) -> (r: Option<String>)
    ensures
        match r {
            Some(n) => exists|i: int|
                first_with_local(views(all@), set@, local_number) == Some(i) && 0 <= i < all@.len()
                    && n@ == all@[i].name@,
            None => first_with_local(views(all@), set@, local_number) is None,
        },
{
    let ghost wv = views(all@);
    let mut i: usize = 0;
    assert(wv.skip(0) =~= wv);
    while i < all.len()
        invariant
            i <= all@.len(),
            wv == views(all@),
            first_with_local(wv, set@, local_number) == match first_with_local(
                wv.skip(i as int),
                set@,
                local_number,
            ) {
                Some(k) => Some(k + i),
                None => None::<int>,
            },
        decreases all.len() - i,
    {
        assert(wv.skip(i as int)[0] == all@[i as int]@);
        let meta = parse_name(all[i].name.as_str());
        let same_set = match &meta.set {
            Some(s) => str_eq(s.as_str(), set),
            None => false,
        };
        let ln = get_local_number(&meta);
        if same_set && ln == Some(local_number) {
            return Some(all[i].name.clone());
        }
        assert(wv.skip(i as int).drop_first() =~= wv.skip(i + 1));
        i += 1;
    }
    assert(wv.skip(i as int).len() == 0);
    None
}

/// The metadata of a new workspace with local number `ln` in set `set` and
/// global number `gn`.
pub open spec fn new_meta(set: Seq<char>, ln: i64, gn: i64) -> MetaView {
    MetaView {
        global_number: Some(gn),
        set: Some(set),
        static_name: None,
        dynamic_name: None,
        local_number: Some(ln),
    }
}

/// The set index of `set` on a monitor with workspaces `monitor_ws`.
pub open spec fn monitor_set_index(set: Seq<char>, monitor_ws: Seq<WsView>, order: MemberOrder) -> int {
    spec_set_index_of(set, spec_grouped(monitor_ws, order))
}

/// The name of a new workspace with local number `ln` in set `set`, on
/// monitor `mi` whose workspaces are `monitor_ws`.
pub open spec fn spec_new_workspace_name(
    set: Seq<char>,
    ln: i64,
    mi: int,
    monitor_ws: Seq<WsView>,
    order: MemberOrder,
) -> Seq<char> {
    let si = monitor_set_index(set, monitor_ws, order);
    spec_create_name(new_meta(set, ln, spec_global_number(mi, si, ln as int) as i64))
}

/// Local number `ln` of set `set` names the first workspace whose name
/// reads as that set and local number; there is none exactly when no
/// workspace's name does.
pub proof fn lemma_first_with_local(ws: Seq<WsView>, set: Seq<char>, ln: i64)
    ensures
        match first_with_local(ws, set, ln) {
            Some(i) => {
                &&& 0 <= i < ws.len()
                &&& spec_parse_name(ws[i].name).set == Some(set)
                &&& spec_local_number(spec_parse_name(ws[i].name)) == Some(ln as int)
                &&& forall|j: int|
                    0 <= j < i ==> !(spec_parse_name(#[trigger] ws[j].name).set == Some(set)
                        && spec_local_number(spec_parse_name(ws[j].name)) == Some(ln as int))
            },
            None => forall|j: int|
                0 <= j < ws.len() ==> !(spec_parse_name(#[trigger] ws[j].name).set == Some(set)
                    && spec_local_number(spec_parse_name(ws[j].name)) == Some(ln as int)),
        },
    decreases ws.len(),
{
    if ws.len() > 0 && !has_local(ws[0], set, ln) {
        let t = ws.drop_first();
        lemma_first_with_local(t, set, ln);
        assert forall|j: int| 1 <= j < ws.len() implies ws[j] == t[j - 1] by {}
    }
}

/// A workspace created for local number `ln` of set `set` is the one that
/// local number then names: its name reads back as that set and number.
/// This holds for a set without separator that does not end in `:`, when
/// the global number fits.
pub proof fn lemma_new_workspace_found(
    set: Seq<char>,
    ln: i64,
    mi: int,
    monitor_ws: Seq<WsView>,
    order: MemberOrder,
    output: Seq<char>,
    focused: bool,
)
    requires
        lacks(set, DELIM),
        set.len() > 0 ==> set.last() != ':',
        gn_fits(mi, monitor_set_index(set, monitor_ws, order), ln as int),
    ensures
        spec_parse_name(spec_new_workspace_name(set, ln, mi, monitor_ws, order)).set == Some(set),
        spec_local_number(spec_parse_name(spec_new_workspace_name(set, ln, mi, monitor_ws, order)))
            == Some(ln as int),
        first_with_local(
            seq![WsView { name: spec_new_workspace_name(set, ln, mi, monitor_ws, order), output, focused }],
            set,
            ln,
        ) == Some(0int),
{
    let si = monitor_set_index(set, monitor_ws, order);
    let m = new_meta(set, ln, spec_global_number(mi, si, ln as int) as i64);
    assert(encodable(m));
    lemma_parse_create_roundtrip(m);
}

proof fn lemma_groups_view_eq(g: Seq<(String, Vec<WsInfo>)>)
    ensures
        groups_view(g) == group_slice_view(g),
{
}

/// The name of a new workspace with local number `local_number` in set
/// `set`, on monitor `monitor_index` whose workspaces are `monitor_ws`.
pub fn create_workspace_name_for(
    set: &str,
    local_number: i64,
    monitor_index: i64,
    monitor_ws: &[WsInfo],
    order: MemberOrder,
) -> (r: Result<String, NumberOverflow>)
    ensures
        match r {
            Ok(n) => gn_fits(
                monitor_index as int,
                monitor_set_index(set@, views(monitor_ws@), order),
                local_number as int,
            ) && n@ == spec_new_workspace_name(
                set@,
                local_number,
                monitor_index as int,
                views(monitor_ws@),
                order,
            ),
            Err(_) => !gn_fits(
                monitor_index as int,
                monitor_set_index(set@, views(monitor_ws@), order),
                local_number as int,
            ),
        },
{
    let groups = set_to_workspaces_ordered(monitor_ws, order);
    proof {
        lemma_groups_view_eq(groups@);
    }
    let set_index = get_set_index(set, &groups);
    let gn = match checked_global_number(monitor_index, set_index, local_number) {
        Some(g) => g,
        None => {
            return Err(NumberOverflow);
        },
    };
    let meta = WsMeta {
        global_number: Some(gn),
        set: Some(crate::text::string_of(&crate::text::chars_of(set))),
        static_name: None,
        dynamic_name: None,
        local_number: Some(local_number),
    };
    assert(meta@ == new_meta(set@, local_number, gn));
    Ok(create_name(&meta))
}

/// The workspace that local number `local_number` of set `set` names, and
/// whether it exists: the first workspace of `all` with that set and number,
/// else a new workspace's name on the focused monitor (index
/// `monitor_index`, workspaces `monitor_ws`); an error when that name's
/// global number would overflow.
pub fn get_workspace_by_local_number(
    all: &[WsInfo],
    set: &str,
    local_number: i64,
    monitor_index: i64,
    monitor_ws: &[WsInfo],
    order: MemberOrder,
) -> (r: Result<(String, bool), NumberOverflow>)
    ensures
        match r {
            Ok((n, true)) => exists|i: int|
                first_with_local(views(all@), set@, local_number) == Some(i) && 0 <= i < all@.len()
                    && n@ == all@[i].name@,
            Ok((n, false)) => first_with_local(views(all@), set@, local_number) is None && gn_fits(
                monitor_index as int,
                monitor_set_index(set@, views(monitor_ws@), order),
                local_number as int,
            ) && n@ == spec_new_workspace_name(
                set@,
                local_number,
                monitor_index as int,
                views(monitor_ws@),
                order,
            ),
            Err(_) => first_with_local(views(all@), set@, local_number) is None && !gn_fits(
                monitor_index as int,
                monitor_set_index(set@, views(monitor_ws@), order),
                local_number as int,
            ),
        },
{
    match find_by_local_number(all, set, local_number) {
        Some(n) => Ok((n, true)),
        None => match create_workspace_name_for(set, local_number, monitor_index, monitor_ws, order) {
            Ok(n) => Ok((n, false)),
            Err(e) => Err(e),
        },
    }
}

// ── relative moves ───────────────────────────────────────────────────────────

/// The position of the first workspace named `name`, else 0.
pub open spec fn position_or_zero(ws: Seq<WsView>, name: Seq<char>) -> int
    decreases ws.len(),
{
    if ws.len() == 0 {
        0
    } else if ws[0].name == name {
        0
    } else if exists|i: int| 0 <= i < ws.len() && ws[i].name == name {
        position_or_zero(ws.drop_first(), name) + 1
    } else {
        0
    }
}

/// The first index of a workspace named `name` in `ws`, else 0.
fn position_of_name(ws: &[WsInfo], name: &str) -> (r: usize)
    ensures
        r as int == position_or_zero(views(ws@), name@),
        ws@.len() > 0 ==> r < ws@.len(),
{
    let ghost wv = views(ws@);
    let mut i: usize = 0;
    while i < ws.len()
        invariant
            i <= ws@.len(),
            wv == views(ws@),
            forall|j: int| 0 <= j < i ==> wv[j].name != name@,
        decreases ws.len() - i,
    {
        if str_eq(ws[i].name.as_str(), name) {
            proof {
                lemma_position_found(wv, name@, i as int);
            }
            return i;
        }
        i += 1;
    }
    proof {
        lemma_position_absent(wv, name@);
    }
    0
}

proof fn lemma_position_found(ws: Seq<WsView>, name: Seq<char>, i: int)
    requires
        0 <= i < ws.len(),
        ws[i].name == name,
        forall|j: int| 0 <= j < i ==> ws[j].name != name,
    ensures
        position_or_zero(ws, name) == i,
    decreases i,
{
    if i > 0 {
        assert(ws.drop_first()[i - 1] == ws[i]);
        assert forall|j: int| 0 <= j < i - 1 implies ws.drop_first()[j].name != name by {
            assert(ws.drop_first()[j] == ws[j + 1]);
        }
        lemma_position_found(ws.drop_first(), name, i - 1);
    }
}

proof fn lemma_position_absent(ws: Seq<WsView>, name: Seq<char>)
    requires
        forall|j: int| 0 <= j < ws.len() ==> ws[j].name != name,
    ensures
        position_or_zero(ws, name) == 0,
{
}

/// `(current + offset)` wrapped into `0..len`, as `rem_euclid` computes it.
pub fn relative_index(len: usize, current: usize, offset: i64) -> (r: usize)
    requires
        current < len,
    ensures
        r as int == (current as int + offset as int) % (len as int),
        r < len,
{
    let l = len as i128;
    let s = current as i128 + offset as i128;
    if s >= 0 {
        let m = s % l;
        m as usize
    } else {
        let a = (0 - s) % l;
        let q = (0 - s) / l;
        proof {
            vstd::arithmetic::div_mod::lemma_fundamental_div_mod((0 - s) as int, l as int);
        }
        if a == 0 {
            proof {
                assert(s == (-q) * l + 0) by (nonlinear_arith)
                    requires
                        0 - s == l * q + a,
                        a == 0,
                ;
                vstd::arithmetic::div_mod::lemma_fundamental_div_mod_converse(s as int, l as int, -q as int, 0);
            }
            0
        } else {
            proof {
                assert(s == (-q - 1) * l + (l - a)) by (nonlinear_arith)
                    requires
                        0 - s == l * q + a,
                ;
                vstd::arithmetic::div_mod::lemma_fundamental_div_mod_converse(
                    s as int,
                    l as int,
                    (-q - 1) as int,
                    (l - a) as int,
                );
            }
            (l - a) as usize
        }
    }
}

/// The name of the workspace `offset` places after the focused one (named
/// `focused_name`) in `candidates`, wrapping around; none when there are no
/// candidates.
pub open spec fn spec_relative_target(
    candidates: Seq<WsView>,
    focused_name: Seq<char>,
    offset: int,
) -> Option<Seq<char>> {
    if candidates.len() == 0 {
        None
    } else {
        let cur = position_or_zero(candidates, focused_name);
        Some(candidates[(cur + offset) % (candidates.len() as int)].name)
    }
}

/// The name of the workspace `offset` places after the focused one in
/// `candidates`, wrapping around; none when there are no candidates.
pub fn relative_target(candidates: &[WsInfo], focused_name: &str, offset: i64) -> (r: Option<String>)
    ensures
        match r {
            Some(n) => spec_relative_target(views(candidates@), focused_name@, offset as int) == Some(n@),
            None => spec_relative_target(views(candidates@), focused_name@, offset as int) is None,
        },
{
    if candidates.len() == 0 {
        return None;
    }
    let cur = position_of_name(candidates, focused_name);
    let next = relative_index(candidates.len(), cur, offset);
    Some(candidates[next].name.clone())
}

/// Whether no two workspaces of `ws` share a name (the window manager keeps
/// workspace names unique).
pub open spec fn distinct_names(ws: Seq<WsView>) -> bool {
    forall|i: int, j: int| 0 <= i < ws.len() && 0 <= j < ws.len() && i != j ==> ws[i].name != ws[j].name
}

/// Stepping `offset` places from a workspace and then `-offset` places back
/// returns to it, among workspaces with distinct names.
pub proof fn lemma_step_there_and_back(c: Seq<WsView>, k: int, offset: int)
    requires
        distinct_names(c),
        0 <= k < c.len(),
    ensures
        spec_relative_target(c, c[k].name, offset) is Some,
        spec_relative_target(c, spec_relative_target(c, c[k].name, offset)->0, -offset) == Some(c[k].name),
{
    let n = c.len() as int;
    lemma_position_found(c, c[k].name, k);
    let q = (k + offset) % n;
    assert(0 <= q < n) by {
        vstd::arithmetic::div_mod::lemma_mod_bound(k + offset, n);
    }
    lemma_position_found(c, c[q].name, q);
    assert((q - offset) % n == k) by {
        vstd::arithmetic::div_mod::lemma_fundamental_div_mod(k + offset, n);
        let d = (k + offset) / n;
        assert(q - offset == k - n * d);
        assert(k - n * d == (-d) * n + k) by (nonlinear_arith);
        vstd::arithmetic::div_mod::lemma_fundamental_div_mod_converse(q - offset, n, -d, k);
    }
}

// ── switching the active set ─────────────────────────────────────────────────

/// The workspaces of every group keyed `t`, concatenated in order.
pub open spec fn target_members(g: Seq<(Seq<char>, Seq<WsView>)>, t: Seq<char>) -> Seq<WsView>
    decreases g.len(),
{
    if g.len() == 0 {
        Seq::empty()
    } else {
        target_members(g.drop_last(), t) + (if g.last().0 == t {
            g.last().1
        } else {
            Seq::empty()
        })
    }
}

/// The groups not keyed `t`, in order.
pub open spec fn other_groups(g: Seq<(Seq<char>, Seq<WsView>)>, t: Seq<char>) -> Seq<
    (Seq<char>, Seq<WsView>),
>
    decreases g.len(),
{
    if g.len() == 0 {
        Seq::empty()
    } else if g.last().0 == t {
        other_groups(g.drop_last(), t)
    } else {
        other_groups(g.drop_last(), t).push(g.last())
    }
}

/// The groups of a monitor with set `t` moved to the front (present even
/// when empty) and the others after it in their order.
pub open spec fn spec_reorder(g: Seq<(Seq<char>, Seq<WsView>)>, t: Seq<char>) -> Seq<
    (Seq<char>, Seq<WsView>),
> {
    seq![(t, target_members(g, t))] + other_groups(g, t)
}

/// The groups of a monitor with set `target` moved to the front and the
/// others after it in their order.
pub fn reorder_for_switch(groups: &[(String, Vec<WsInfo>)], target: &str) -> (r: Vec<
    (String, Vec<WsInfo>),
>)
    ensures
        group_slice_view(r@) == spec_reorder(group_slice_view(groups@), target@),
{
    let ghost gv = group_slice_view(groups@);
    let mut target_ws: Vec<WsInfo> = Vec::new();
    let mut others: Vec<(String, Vec<WsInfo>)> = Vec::new();
    let mut i: usize = 0;
    while i < groups.len()
        invariant
            i <= groups@.len(),
            gv == group_slice_view(groups@),
            views(target_ws@) == target_members(gv.take(i as int), target@),
            group_slice_view(others@) == other_groups(gv.take(i as int), target@),
        decreases groups.len() - i,
    {
        assert(gv.take(i + 1).drop_last() =~= gv.take(i as int));
        assert(gv.take(i + 1).last() == gv[i as int]);
        assert(gv[i as int] == (groups@[i as int].0@, views(groups@[i as int].1@)));
        if str_eq(groups[i].0.as_str(), target) {
            let mut j: usize = 0;
            let ghost base = target_ws@;
            while j < groups[i].1.len()
                invariant
                    i < groups@.len(),
                    j <= groups@[i as int].1@.len(),
                    views(target_ws@) == views(base) + views(groups@[i as int].1@).take(j as int),
                decreases groups@[i as int].1@.len() - j,
            {
                let ghost before = target_ws@;
                target_ws.push(groups[i].1[j].copy());
                assert(views(target_ws@) =~= views(before).push(groups@[i as int].1@[j as int]@));
                assert(views(groups@[i as int].1@).take(j + 1) =~= views(groups@[i as int].1@).take(
                    j as int,
                ).push(groups@[i as int].1@[j as int]@));
                j += 1;
            }
            assert(views(groups@[i as int].1@).take(j as int) =~= views(groups@[i as int].1@));
        } else {
            let ghost before = others@;
            let copy = crate::workspace::copy_all(&groups[i].1);
            others.push((groups[i].0.clone(), copy));
            assert(group_slice_view(others@) =~= group_slice_view(before).push(gv[i as int]));
            assert(views(target_ws@) =~= target_members(gv.take(i + 1), target@));
        }
        i += 1;
    }
    assert(gv.take(groups@.len() as int) =~= gv);
    let mut r: Vec<(String, Vec<WsInfo>)> = Vec::new();
    r.push((crate::text::string_of(&crate::text::chars_of(target)), target_ws));
    let mut k: usize = 0;
    while k < others.len()
        invariant
            k <= others@.len(),
            group_slice_view(r@) == seq![(target@, target_members(gv, target@))] + group_slice_view(
                others@,
            ).take(k as int),
        decreases others.len() - k,
    {
        let ghost before = r@;
        let copy = crate::workspace::copy_all(&others[k].1);
        r.push((others[k].0.clone(), copy));
        assert(group_slice_view(r@) =~= group_slice_view(before).push(group_slice_view(others@)[k as int]));
        assert(group_slice_view(others@).take(k + 1) =~= group_slice_view(others@).take(k as int).push(
            group_slice_view(others@)[k as int],
        ));
        k += 1;
    }
    assert(group_slice_view(others@).take(others@.len() as int) =~= group_slice_view(others@));
    r
}

/// Switching to set `t` makes it the active set of the monitor: after its
/// sets are reordered with `t` first and renumbered, the new name of every
/// workspace of `t` reads back a global number below that of every workspace
/// of another set on the monitor, as long as the local numbers handed out lie
/// in `0..100` and the monitor has at most 1000 sets.
pub proof fn lemma_switch_puts_target_first(
    mi: int,
    g: Seq<(Seq<char>, Seq<WsView>)>,
    t: Seq<char>,
    all: Seq<WsView>,
    k: int,
    i: int,
    j: int,
)
    requires
        0 <= mi,
        mi * 100000 + 100000 <= i64::MAX,
        spec_reorder(g, t).len() <= 1000,
        1 <= k < spec_reorder(g, t).len(),
        0 <= i < spec_reorder(g, t)[0].1.len(),
        0 <= j < spec_reorder(g, t)[k].1.len(),
        0 <= group_locals(spec_reorder(g, t), all, 0)[i] < 100,
        0 <= group_locals(spec_reorder(g, t), all, k)[j] < 100,
    ensures
        spec_reorder(g, t)[0].0 == t,
        spec_parse_name(group_renames(mi, spec_reorder(g, t), all, 0)[i].1).global_number->0
            < spec_parse_name(group_renames(mi, spec_reorder(g, t), all, k)[j].1).global_number->0,
{
    let o = spec_reorder(g, t);
    let u0 = others_used(all, o[0].0, names_of(o[0].1));
    let uk = others_used(all, o[k].0, names_of(o[k].1));
    lemma_set_renames_at(o[0].1, u0, mi, 0, o[0].0, i);
    lemma_set_renames_at(o[k].1, uk, mi, k, o[k].0, j);
    let li = group_locals(o, all, 0)[i];
    let lj = group_locals(o, all, k)[j];
    let gi = spec_global_number(mi, 0, li as int);
    let gj = spec_global_number(mi, k, lj as int);
    assert(0 <= gi <= i64::MAX && 0 <= gj <= i64::MAX) by (nonlinear_arith)
        requires
            gi == mi * 100000 + 0 * 100 + li,
            gj == mi * 100000 + k * 100 + lj,
            0 <= mi,
            mi * 100000 + 100000 <= i64::MAX,
            0 <= li < 100,
            0 <= lj < 100,
            1 <= k < 1000,
    ;
    crate::meta::lemma_created_global_number(
        crate::sets::renumbered(o[0].1[i], o[0].0, li, gi as i64),
    );
    crate::meta::lemma_created_global_number(
        crate::sets::renumbered(o[k].1[j], o[k].0, lj, gj as i64),
    );
    crate::meta::lemma_global_number_order(mi, 0, li as int, mi, k, lj as int);
}

/// Whether a monitor takes part in switching to `target`: the focused
/// monitor always does; another one only when switching on every monitor
/// and the set exists there.
pub open spec fn spec_monitor_takes_part(
    monitor: Seq<char>,
    focused_monitor: Seq<char>,
    focused_monitor_only: bool,
    keys: Seq<Seq<char>>,
    target: Seq<char>,
) -> bool {
    !(monitor != focused_monitor && (focused_monitor_only || !keys.contains(target)))
}

/// The focused monitor always takes part in a switch, whatever the flag and
/// its sets; another monitor takes part exactly when the switch is not
/// limited to the focused monitor and the target set is on it.
pub proof fn lemma_who_takes_part(
    monitor: Seq<char>,
    focused_monitor: Seq<char>,
    focused_monitor_only: bool,
    keys: Seq<Seq<char>>,
    target: Seq<char>,
)
    ensures
        spec_monitor_takes_part(focused_monitor, focused_monitor, focused_monitor_only, keys, target),
        monitor != focused_monitor ==> (spec_monitor_takes_part(
            monitor,
            focused_monitor,
            focused_monitor_only,
            keys,
            target,
        ) <==> !focused_monitor_only && exists|i: int| 0 <= i < keys.len() && keys[i] == target),
{
}

/// Whether monitor `monitor`, whose groups are `groups`, takes part in
/// switching to set `target`.
pub fn monitor_takes_part(
    monitor: &str,
    focused_monitor: &str,
    focused_monitor_only: bool,
    groups: &[(String, Vec<WsInfo>)],
    target: &str,
) -> (r: bool)
    ensures
        r == spec_monitor_takes_part(
            monitor@,
            focused_monitor@,
            focused_monitor_only,
            group_slice_view(groups@).map_values(|e: (Seq<char>, Seq<WsView>)| e.0),
            target@,
        ),
{
    let ghost keys = group_slice_view(groups@).map_values(|e: (Seq<char>, Seq<WsView>)| e.0);
    let mut exists = false;
    let mut i: usize = 0;
    while i < groups.len()
        invariant
            i <= groups@.len(),
            keys == group_slice_view(groups@).map_values(|e: (Seq<char>, Seq<WsView>)| e.0),
            exists == keys.take(i as int).contains(target@),
        decreases groups.len() - i,
    {
        assert(keys[i as int] == groups@[i as int].0@);
        assert(keys.take(i + 1) =~= keys.take(i as int).push(keys[i as int]));
        let same = str_eq(groups[i].0.as_str(), target);
        if same {
            exists = true;
        }
        proof {
            let t0 = keys.take(i as int);
            let t1 = keys.take(i + 1);
            if t0.contains(target@) {
                let k = choose|k: int| 0 <= k < t0.len() && t0[k] == target@;
                assert(t1[k] == target@);
            }
            if same {
                assert(t1[i as int] == target@);
            }
            if t1.contains(target@) {
                let k = choose|k: int| 0 <= k < t1.len() && t1[k] == target@;
                if k < i {
                    assert(t0[k] == target@);
                }
            }
        }
        i += 1;
    }
    assert(keys.take(groups@.len() as int) =~= keys);
    !(!str_eq(monitor, focused_monitor) && (focused_monitor_only || !exists))
}

/// Where focus goes after switching to set `target`: nowhere new (or, when
/// `refocus` holds, the focused workspace again) when the focused workspace
/// is in it; else the set's first workspace on the focused monitor; else a
/// new workspace of the set with its lowest free local number.
pub open spec fn spec_switch_focus(
    focused: WsView,
    target: Seq<char>,
    monitor_ws: Seq<WsView>,
    mi: int,
    all: Seq<WsView>,
    order: MemberOrder,
    refocus: bool,
) -> Option<Seq<char>> {
    if set_of(focused) == target {
        if refocus {
            Some(focused.name)
        } else {
            None
        }
    } else {
        let m = ordered_members(monitor_ws, target, order);
        if m.len() > 0 {
            Some(m[0].name)
        } else {
            Some(
                spec_new_workspace_name(
                    target,
                    spec_free_local_number(all, target),
                    mi,
                    monitor_ws,
                    order,
                ),
            )
        }
    }
}

/// Switching to set `target` always lands in it: focus stays put only when
/// the focused workspace is already in the set (and then moves to it again
/// when `refocus` holds); otherwise it goes to a workspace of the focused
/// monitor in the set when there is one, and else to a new workspace whose
/// name reads back as the set. This holds for a set without separator that
/// does not end in `:`.
pub proof fn lemma_switch_lands_in_target(
    focused: WsView,
    target: Seq<char>,
    monitor_ws: Seq<WsView>,
    mi: int,
    all: Seq<WsView>,
    order: MemberOrder,
    refocus: bool,
)
    requires
        lacks(target, DELIM),
        target.len() > 0 ==> target.last() != ':',
    ensures
        spec_switch_focus(focused, target, monitor_ws, mi, all, order, refocus) is None <==> (set_of(
            focused,
        ) == target && !refocus),
        set_of(focused) == target && refocus ==> spec_switch_focus(
            focused,
            target,
            monitor_ws,
            mi,
            all,
            order,
            refocus,
        ) == Some(focused.name),
        match spec_switch_focus(focused, target, monitor_ws, mi, all, order, refocus) {
            Some(n) => set_or_empty(spec_parse_name(n)) == target,
            None => true,
        },
        set_of(focused) != target && (exists|j: int|
            0 <= j < monitor_ws.len() && set_of(#[trigger] monitor_ws[j]) == target) ==> exists|j: int|
            0 <= j < monitor_ws.len() && set_of(#[trigger] monitor_ws[j]) == target && Some(
                monitor_ws[j].name,
            ) == spec_switch_focus(focused, target, monitor_ws, mi, all, order, refocus),
{
    lemma_ordered_members(monitor_ws, target, order);
    let om = ordered_members(monitor_ws, target, order);
    if set_of(focused) != target {
        if om.len() > 0 {
            assert(set_of(om[0]) == target);
            let j = choose|j: int| 0 <= j < monitor_ws.len() && monitor_ws[j] == om[0];
            assert(set_of(monitor_ws[j]) == target);
        } else {
            let ln = spec_free_local_number(all, target);
            let si = monitor_set_index(target, monitor_ws, order);
            let m = new_meta(target, ln, spec_global_number(mi, si, ln as int) as i64);
            assert(encodable(m));
            lemma_parse_create_roundtrip(m);
        }
    }
}

/// Whether the new workspace that switching to set `target` may create has
/// a global number that fits: always when no new workspace is needed.
pub open spec fn switch_fits(
    focused: WsView,
    target: Seq<char>,
    monitor_ws: Seq<WsView>,
    mi: int,
    all: Seq<WsView>,
    order: MemberOrder,
) -> bool {
    set_of(focused) == target || ordered_members(monitor_ws, target, order).len() > 0 || gn_fits(
        mi,
        monitor_set_index(target, monitor_ws, order),
        spec_free_local_number(all, target) as int,
    )
}

/// The workspace to focus after switching to set `target`, given the
/// focused workspace, the workspaces of the focused monitor (index
/// `monitor_index`) and all workspaces, as they are after the renames; an
/// error when the new workspace's global number would overflow.
pub fn switch_focus_target(
    focused: &WsInfo,
    target: &str,
    monitor_ws: &[WsInfo],
    monitor_index: i64,
    all: &[WsInfo],
    order: MemberOrder,
    refocus: bool,
) -> (r: Result<Option<String>, NumberOverflow>)
    requires
        all@.len() + 1 < i64::MAX,
    ensures
        match r {
            Ok(o) => switch_fits(focused@, target@, views(monitor_ws@), monitor_index as int, views(all@), order)
                && crate::meta::opt_view(o) == spec_switch_focus(
                focused@,
                target@,
                views(monitor_ws@),
                monitor_index as int,
                views(all@),
                order,
                refocus,
            ),
            Err(_) => !switch_fits(focused@, target@, views(monitor_ws@), monitor_index as int, views(all@), order),
        },
{
    let fs = set_of_name(focused.name.as_str());
    if str_eq(fs.as_str(), target) {
        if refocus {
            return Ok(Some(focused.name.clone()));
        } else {
            return Ok(None);
        }
    }
    let m = set_members(monitor_ws, target);
    let m = match order {
        MemberOrder::Encounter => m,
        MemberOrder::ByLocalNumber => crate::workspace::sort_members(m),
    };
    if m.len() > 0 {
        assert(views(m@)[0] == m@[0]@);
        return Ok(Some(m[0].name.clone()));
    }
    let ln = find_free_local_number(all, target);
    match create_workspace_name_for(target, ln, monitor_index, monitor_ws, order) {
        Ok(n) => Ok(Some(n)),
        Err(e) => Err(e),
    }
}

// ── renaming the focused workspace ───────────────────────────────────────────

/// The metadata of the focused workspace with the requested changes.
pub open spec fn rename_base(
    focused_name: Seq<char>,
    new_name: Option<Seq<char>>,
    number: Option<i64>,
    set: Option<Seq<char>>,
) -> MetaView {
    let m = spec_parse_name(focused_name);
    MetaView {
        global_number: m.global_number,
        set: if set is Some {
            set
        } else {
            m.set
        },
        static_name: if new_name is Some {
            new_name
        } else {
            m.static_name
        },
        dynamic_name: m.dynamic_name,
        local_number: if number is Some {
            number
        } else {
            m.local_number
        },
    }
}

/// Whether another workspace of set `s` already has local number `ln`.
pub open spec fn has_conflict(all: Seq<WsView>, s: Seq<char>, focused_name: Seq<char>, ln: i64) -> bool {
    exists|i: int|
        0 <= i < members(all, s).len() && members(all, s)[i].name != focused_name
            && spec_local_number(spec_parse_name(#[trigger] members(all, s)[i].name)) == Some(ln as int)
}

/// The local number after the rename: on a conflict the lowest number the
/// set does not use, else the requested or current one.
pub open spec fn rename_local(base: MetaView, all: Seq<WsView>, focused_name: Seq<char>) -> Option<i64> {
    let s = set_or_empty(base);
    let ln = match base.local_number {
        Some(n) => n,
        None => 1,
    };
    if has_conflict(all, s, focused_name, ln) {
        Some(lowest_free(used_local_numbers(members(all, s))))
    } else {
        base.local_number
    }
}

/// The metadata of the focused workspace after the rename.
pub open spec fn spec_rename_meta(
    focused_name: Seq<char>,
    new_name: Option<Seq<char>>,
    number: Option<i64>,
    set: Option<Seq<char>>,
    all: Seq<WsView>,
    mi: int,
    monitor_ws: Seq<WsView>,
    order: MemberOrder,
) -> MetaView {
    let base = rename_base(focused_name, new_name, number, set);
    let s = set_or_empty(base);
    let local = rename_local(base, all, focused_name);
    let ln = match local {
        Some(n) => n,
        None => 1,
    };
    let si = monitor_set_index(s, monitor_ws, order);
    MetaView {
        global_number: Some(spec_global_number(mi, si, ln as int) as i64),
        set: base.set,
        static_name: base.static_name,
        dynamic_name: Some(Seq::empty()),
        local_number: local,
    }
}

/// Whether the global number of the rename fits in an `i64`.
pub open spec fn rename_fits(
    focused_name: Seq<char>,
    new_name: Option<Seq<char>>,
    number: Option<i64>,
    set: Option<Seq<char>>,
    all: Seq<WsView>,
    mi: int,
    monitor_ws: Seq<WsView>,
    order: MemberOrder,
) -> bool {
    let base = rename_base(focused_name, new_name, number, set);
    let s = set_or_empty(base);
    let local = rename_local(base, all, focused_name);
    let ln = match local {
        Some(n) => n,
        None => 1,
    };
    gn_fits(mi, monitor_set_index(s, monitor_ws, order), ln as int)
}

/// The workspaces of a set are at most all workspaces.
proof fn lemma_members_len(ws: Seq<WsView>, s: Seq<char>)
    ensures
        members(ws, s).len() <= ws.len(),
    decreases ws.len(),
{
    if ws.len() > 0 {
        lemma_members_len(ws.drop_last(), s);
    }
}

/// The local numbers stored in the names of `ws` are finitely many, at most
/// one per workspace.
proof fn lemma_used_bound(ws: Seq<WsView>)
    ensures
        used_local_numbers(ws).finite(),
        used_local_numbers(ws).len() <= ws.len(),
    decreases ws.len(),
{
    if ws.len() == 0 {
        assert(used_local_numbers(ws) =~= Set::empty());
    } else {
        let d = ws.drop_last();
        lemma_used_bound(d);
        let u = used_local_numbers(d);
        match spec_parse_name(ws.last().name).local_number {
            Some(x) => {
                assert(used_local_numbers(ws) =~= u.insert(x)) by {
                    assert forall|n: i64| used_local_numbers(ws).contains(n) implies u.insert(x).contains(n) by {
                        let i = choose|i: int| 0 <= i < ws.len() && #[trigger] spec_parse_name(ws[i].name).local_number == Some(n);
                        if i < ws.len() - 1 {
                            assert(d[i] == ws[i]);
                        }
                    }
                    assert forall|n: i64| u.insert(x).contains(n) implies used_local_numbers(ws).contains(n) by {
                        if n != x {
                            let i = choose|i: int| 0 <= i < d.len() && #[trigger] spec_parse_name(d[i].name).local_number == Some(n);
                            assert(d[i] == ws[i]);
                        } else {
                            assert(spec_parse_name(ws[ws.len() - 1].name).local_number == Some(n));
                        }
                    }
                }
            },
            None => {
                assert(used_local_numbers(ws) =~= u) by {
                    assert forall|n: i64| used_local_numbers(ws).contains(n) implies u.contains(n) by {
                        let i = choose|i: int| 0 <= i < ws.len() && #[trigger] spec_parse_name(ws[i].name).local_number == Some(n);
                        if i < ws.len() - 1 {
                            assert(d[i] == ws[i]);
                        }
                    }
                    assert forall|n: i64| u.contains(n) implies used_local_numbers(ws).contains(n) by {
                        let i = choose|i: int| 0 <= i < d.len() && #[trigger] spec_parse_name(d[i].name).local_number == Some(n);
                        assert(d[i] == ws[i]);
                    }
                }
            },
        }
    }
}

/// After a rename, no other workspace of the set the focused workspace ends
/// up in carries its new local number in its name: a taken number is
/// replaced by one the set does not use.
pub proof fn lemma_rename_number_unique(
    focused_name: Seq<char>,
    new_name: Option<Seq<char>>,
    number: Option<i64>,
    set: Option<Seq<char>>,
    all: Seq<WsView>,
    k: int,
)
    requires
        all.len() + 1 < i64::MAX,
        rename_local(rename_base(focused_name, new_name, number, set), all, focused_name) is Some,
        0 <= k < members(all, set_or_empty(rename_base(focused_name, new_name, number, set))).len(),
        members(all, set_or_empty(rename_base(focused_name, new_name, number, set)))[k].name != focused_name,
    ensures
        spec_parse_name(members(all, set_or_empty(rename_base(focused_name, new_name, number, set)))[k].name).local_number
            != rename_local(rename_base(focused_name, new_name, number, set), all, focused_name),
{
    let base = rename_base(focused_name, new_name, number, set);
    let s = set_or_empty(base);
    let m = members(all, s);
    let ln = match base.local_number {
        Some(n) => n,
        None => 1,
    };
    if has_conflict(all, s, focused_name, ln) {
        lemma_members_len(all, s);
        lemma_used_bound(m);
        crate::sets::lemma_lowest_free_exists(used_local_numbers(m));
        let x = lowest_free(used_local_numbers(m));
        if spec_parse_name(m[k].name).local_number == Some(x) {
            assert(used_local_numbers(m).contains(x));
        }
    } else {
        assert(!(m[k].name != focused_name && spec_local_number(spec_parse_name(m[k].name)) == Some(ln as int)));
    }
}

fn opt_str_view(o: Option<&str>) -> (r: Option<String>)
    ensures
        crate::meta::opt_view(r) == match o {
            Some(s) => Some(s@),
            None => None,
        },
{
    match o {
        Some(s) => Some(crate::text::string_of(&crate::text::chars_of(s))),
        None => None,
    }
}

/// The spec form of an optional string slice.
pub open spec fn opt_str(o: Option<&str>) -> Option<Seq<char>> {
    match o {
        Some(s) => Some(s@),
        None => None,
    }
}

/// The new name of the focused workspace `focused_name` after setting its
/// static name, local number and set as requested (each when given): a
/// local number another workspace of the set holds is replaced by the set's
/// lowest free one, the global number is recomputed for the focused monitor
/// (index `monitor_index`, workspaces `monitor_ws`), and the dynamic name
/// is cleared.
pub fn plan_rename(
    focused_name: &str,
    new_name: Option<&str>,
    number: Option<i64>,
    set: Option<&str>,
    all: &[WsInfo],
    monitor_index: i64,
    monitor_ws: &[WsInfo],
    order: MemberOrder,
) -> (r: Result<String, NumberOverflow>)
    requires
        all@.len() + 1 < i64::MAX,
    ensures
        match r {
            Ok(n) => rename_fits(
                focused_name@,
                opt_str(new_name),
                number,
                opt_str(set),
                views(all@),
                monitor_index as int,
                views(monitor_ws@),
                order,
            ) && n@ == spec_create_name(
                spec_rename_meta(
                    focused_name@,
                    opt_str(new_name),
                    number,
                    opt_str(set),
                    views(all@),
                    monitor_index as int,
                    views(monitor_ws@),
                    order,
                ),
            ),
            Err(_) => !rename_fits(
                focused_name@,
                opt_str(new_name),
                number,
                opt_str(set),
                views(all@),
                monitor_index as int,
                views(monitor_ws@),
                order,
            ),
        },
{
    let ghost all_v = views(all@);
    let mut meta = parse_name(focused_name);
    let nn = opt_str_view(new_name);
    if nn.is_some() {
        meta.static_name = nn;
    }
    if number.is_some() {
        meta.local_number = number;
    }
    let sn = opt_str_view(set);
    if sn.is_some() {
        meta.set = sn;
    }
    let ghost base = meta@;
    assert(base == rename_base(focused_name@, opt_str(new_name), number, opt_str(set)));
    let s: String = match &meta.set {
        Some(x) => x.clone(),
        None => String::new(),
    };
    let ln: i64 = match meta.local_number {
        Some(n) => n,
        None => 1,
    };
    let set_ws = set_members(all, s.as_str());
    let mut conflict = false;
    let mut i: usize = 0;
    while i < set_ws.len()
        invariant
            i <= set_ws@.len(),
            views(set_ws@) == members(all_v, s@),
            conflict == exists|j: int|
                0 <= j < i && members(all_v, s@)[j].name != focused_name@
                    && spec_local_number(spec_parse_name(#[trigger] members(all_v, s@)[j].name)) == Some(
                    ln as int,
                ),
        decreases set_ws.len() - i,
    {
        assert(members(all_v, s@)[i as int] == set_ws@[i as int]@);
        let m = parse_name(set_ws[i].name.as_str());
        let l = get_local_number(&m);
        let hit = !str_eq(set_ws[i].name.as_str(), focused_name) && l == Some(ln);
        if hit {
            conflict = true;
        }
        proof {
            let mv = members(all_v, s@);
            if hit {
                assert(mv[i as int].name != focused_name@ && spec_local_number(
                    spec_parse_name(mv[i as int].name),
                ) == Some(ln as int));
            } else {
                assert(!(mv[i as int].name != focused_name@ && spec_local_number(
                    spec_parse_name(mv[i as int].name),
                ) == Some(ln as int)));
            }
        }
        i += 1;
    }
    if conflict {
        let used = get_used_local_numbers(&set_ws);
        meta.local_number = Some(lowest_free_number(&used));
    }
    assert(meta.local_number == rename_local(base, all_v, focused_name@));
    let local_number: i64 = match meta.local_number {
        Some(n) => n,
        None => 1,
    };
    let groups = set_to_workspaces_ordered(monitor_ws, order);
    proof {
        lemma_groups_view_eq(groups@);
    }
    let set_index = get_set_index(s.as_str(), &groups);
    let gn = match checked_global_number(monitor_index, set_index, local_number) {
        Some(g) => g,
        None => {
            return Err(NumberOverflow);
        },
    };
    meta.global_number = Some(gn);
    meta.dynamic_name = Some(String::new());
    assert(meta@ == spec_rename_meta(
        focused_name@,
        opt_str(new_name),
        number,
        opt_str(set),
        all_v,
        monitor_index as int,
        views(monitor_ws@),
        order,
    ));
    Ok(create_name(&meta))
}


/// The set a rename puts the focused workspace in: the requested one, else
/// its own.
pub open spec fn rename_target_set(focused_name: Seq<char>, set: Option<Seq<char>>) -> Seq<char> {
    if set is Some {
        set->0
    } else {
        set_or_empty(spec_parse_name(focused_name))
    }
}

/// A rename moves the focused workspace into the requested set (else keeps
/// its set), and gives it the requested local number when no other
/// workspace of that set holds it. This holds when the target set holds no
/// separator and does not end in `:`, and the static name it keeps or gets
/// holds no separator and does not start with `:` where no set precedes it.
pub proof fn lemma_rename_set_and_number(
    focused_name: Seq<char>,
    new_name: Option<Seq<char>>,
    number: Option<i64>,
    set: Option<Seq<char>>,
    all: Seq<WsView>,
    mi: int,
    monitor_ws: Seq<WsView>,
    order: MemberOrder,
)
    requires
        lacks(rename_target_set(focused_name, set), DELIM),
        rename_target_set(focused_name, set).len() > 0 ==> rename_target_set(focused_name, set).last() != ':',
        filled(new_name) ==> lacks(new_name->0, DELIM),
        ({
            let want = if new_name is Some {
                new_name
            } else {
                spec_parse_name(focused_name).static_name
            };
            filled(want) && rename_target_set(focused_name, set).len() == 0 ==> !starts_with_colon(want->0)
        }),
    ensures
        spec_parse_name(
            spec_create_name(spec_rename_meta(focused_name, new_name, number, set, all, mi, monitor_ws, order)),
        ).set == Some(rename_target_set(focused_name, set)),
        number is Some && (forall|i: int|
            0 <= i < members(all, rename_target_set(focused_name, set)).len() && (#[trigger] members(
                all,
                rename_target_set(focused_name, set),
            )[i]).name != focused_name ==> spec_local_number(
                spec_parse_name(members(all, rename_target_set(focused_name, set))[i].name),
            ) != Some(number->0 as int)) ==> spec_parse_name(
            spec_create_name(spec_rename_meta(focused_name, new_name, number, set, all, mi, monitor_ws, order)),
        ).local_number == number,
{
    lemma_parsed_parts_lack_delim(focused_name);
    let m = spec_rename_meta(focused_name, new_name, number, set, all, mi, monitor_ws, order);
    assert(encodable(m));
    lemma_parse_create_roundtrip(m);
    let base = rename_base(focused_name, new_name, number, set);
    let target = rename_target_set(focused_name, set);
    assert(target == set_or_empty(base));
    if number is Some {
        let n = number->0;
        if forall|i: int|
            0 <= i < members(all, target).len() && (#[trigger] members(all, target)[i]).name != focused_name
                ==> spec_local_number(spec_parse_name(members(all, target)[i].name)) != Some(n as int) {
            assert(base.local_number == Some(n));
            assert(!has_conflict(all, target, focused_name, n));
            assert(m.local_number == Some(n));
        }
    }
}

/// A rename keeps the static name of the focused workspace unless a new one
/// is requested: the static name read back from the new name is the
/// requested one, else the one read from `focused_name` (an empty name reads
/// back as absent). This holds when a requested set or name holds no
/// separator and a static name does not start with `:` where no set is
/// written before it.
pub proof fn lemma_rename_static_name(
    focused_name: Seq<char>,
    new_name: Option<Seq<char>>,
    number: Option<i64>,
    set: Option<Seq<char>>,
    all: Seq<WsView>,
    mi: int,
    monitor_ws: Seq<WsView>,
    order: MemberOrder,
)
    requires
        set is Some ==> lacks(set->0, DELIM),
        filled(new_name) ==> lacks(new_name->0, DELIM),
        ({
            let want = if new_name is Some {
                new_name
            } else {
                spec_parse_name(focused_name).static_name
            };
            let target = if set is Some {
                set->0
            } else {
                set_or_empty(spec_parse_name(focused_name))
            };
            filled(want) && target.len() == 0 ==> !starts_with_colon(want->0)
        }),
    ensures
        ({
            let want = if new_name is Some {
                new_name
            } else {
                spec_parse_name(focused_name).static_name
            };
            spec_parse_name(
                spec_create_name(
                    spec_rename_meta(focused_name, new_name, number, set, all, mi, monitor_ws, order),
                ),
            ).static_name == (if filled(want) {
                want
            } else {
                None
            })
        }),
{
    lemma_parsed_parts_lack_delim(focused_name);
    let m = spec_rename_meta(focused_name, new_name, number, set, all, mi, monitor_ws, order);
    assert(!filled(m.dynamic_name));
    lemma_static_name_roundtrip(m);
}

} // verus!
