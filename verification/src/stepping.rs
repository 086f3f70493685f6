//! Stepping to the next or previous workspace: inside the focused set, or
//! over all sets in the order of their names.
use vstd::prelude::*;
use crate::text::{chars_of, lex_lt, lex_less, lemma_lex_irreflexive, lemma_lex_transitive, lemma_lex_total};
use crate::workspace::{
    WsInfo, WsView, views, set_of, set_of_name, members, ordered_members, MemberOrder, sort_members,
    drawn_from, lemma_ordered_members,
};
use crate::outputs::{on_output, get_monitor_workspaces, lex_sorted};
use crate::sets::set_members;
use crate::nav::{relative_target, spec_relative_target};

verus! {

// ── inside a set ────────────────────────────────────────────────────────────

/// The workspaces of set `set`, ordered as `order` asks, and only those on
/// output `out` when one is given.
pub open spec fn spec_set_candidates(
    ws: Seq<WsView>,
    set: Seq<char>,
    order: MemberOrder,
    out: Option<Seq<char>>,
) -> Seq<WsView> {
    match out {
        Some(o) => on_output(ordered_members(ws, set, order), o),
        None => ordered_members(ws, set, order),
    }
}

/// The workspaces of set `set`, ordered as `order` asks, and only those on
/// output `output` when one is given.
pub fn set_candidates(all: &[WsInfo], set: &str, order: MemberOrder, output: Option<&str>) -> (r: Vec<
    WsInfo,
>)
    ensures
        views(r@) == spec_set_candidates(
            views(all@),
            set@,
            order,
            match output {
                Some(o) => Some(o@),
                None => None,
            },
        ),
{
    let m = set_members(all, set);
    let m = match order {
        MemberOrder::Encounter => m,
        MemberOrder::ByLocalNumber => sort_members(m),
    };
    match output {
        Some(o) => get_monitor_workspaces(&m, o),
        None => m,
    }
}

// ── over all sets ───────────────────────────────────────────────────────────

/// The sets of the workspaces of `ws`.
pub open spec fn sets_in(ws: Seq<WsView>) -> Set<Seq<char>> {
    Set::new(|s: Seq<char>| exists|i: int| 0 <= i < ws.len() && set_of(#[trigger] ws[i]) == s)
}

/// The sets of `ws` in the order of their names.
pub open spec fn sorted_sets(ws: Seq<WsView>) -> Seq<Seq<char>> {
    choose|k: Seq<Seq<char>>| lex_sorted(k) && k.to_set() == sets_in(ws)
}

/// The members of each set of `keys` in turn, ordered as `order` asks.
pub open spec fn concat_members(ws: Seq<WsView>, keys: Seq<Seq<char>>, order: MemberOrder) -> Seq<
    WsView,
>
    decreases keys.len(),
{
    if keys.len() == 0 {
        Seq::empty()
    } else {
        concat_members(ws, keys.drop_last(), order) + ordered_members(ws, keys.last(), order)
    }
}

/// The workspaces on output `out` of all sets, sets in the order of their
/// names, each set's workspaces ordered as `order` asks.
pub open spec fn spec_global_candidates(ws: Seq<WsView>, order: MemberOrder, out: Seq<char>) -> Seq<
    WsView,
> {
    on_output(concat_members(ws, sorted_sets(ws), order), out)
}

/// The first element of a strictly increasing sequence comes before every
/// other element of it.
proof fn lemma_sorted_first(a: Seq<Seq<char>>, x: Seq<char>)
    requires
        lex_sorted(a),
        a.len() > 0,
        a.to_set().contains(x),
    ensures
        x == a[0] || lex_lt(a[0], x),
{
    let i = choose|i: int| 0 <= i < a.len() && a[i] == x;
    if i > 0 {
        assert(lex_lt(a[0], a[i]));
    }
}

/// Two strictly increasing sequences with the same elements are equal.
pub proof fn lemma_lex_sorted_unique(a: Seq<Seq<char>>, b: Seq<Seq<char>>)
    requires
        lex_sorted(a),
        lex_sorted(b),
        a.to_set() == b.to_set(),
    ensures
        a == b,
    decreases a.len(),
{
    if a.len() == 0 {
        if b.len() > 0 {
            assert(b.to_set().contains(b[0]));
        }
        assert(a =~= b);
    } else {
        assert(a.to_set().contains(a[0]));
        assert(b.len() > 0);
        assert(b.to_set().contains(b[0]));
        lemma_sorted_first(a, b[0]);
        lemma_sorted_first(b, a[0]);
        if a[0] != b[0] {
            lemma_lex_transitive(a[0], b[0], a[0]);
            lemma_lex_irreflexive(a[0]);
        }
        let a1 = a.drop_first();
        let b1 = b.drop_first();
        assert(lex_sorted(a1)) by {
            assert forall|i: int, j: int| 0 <= i < j < a1.len() implies lex_lt(a1[i], a1[j]) by {
                assert(a1[i] == a[i + 1] && a1[j] == a[j + 1]);
            }
        }
        assert(lex_sorted(b1)) by {
            assert forall|i: int, j: int| 0 <= i < j < b1.len() implies lex_lt(b1[i], b1[j]) by {
                assert(b1[i] == b[i + 1] && b1[j] == b[j + 1]);
            }
        }
        assert(a1.to_set() =~= b1.to_set()) by {
            assert forall|x: Seq<char>| a1.to_set().contains(x) implies b1.to_set().contains(x) by {
                let i = choose|i: int| 0 <= i < a1.len() && a1[i] == x;
                assert(lex_lt(a[0], a[i + 1]));
                lemma_lex_irreflexive(a[0]);
                assert(b.to_set().contains(x));
                let j = choose|j: int| 0 <= j < b.len() && b[j] == x;
                assert(j != 0);
                assert(b1[j - 1] == x);
            }
            assert forall|x: Seq<char>| b1.to_set().contains(x) implies a1.to_set().contains(x) by {
                let i = choose|i: int| 0 <= i < b1.len() && b1[i] == x;
                assert(lex_lt(b[0], b[i + 1]));
                lemma_lex_irreflexive(b[0]);
                assert(a.to_set().contains(x));
                let j = choose|j: int| 0 <= j < a.len() && a[j] == x;
                assert(j != 0);
                assert(a1[j - 1] == x);
            }
        }
        lemma_lex_sorted_unique(a1, b1);
        assert(a =~= seq![a[0]] + a1);
        assert(b =~= seq![b[0]] + b1);
    }
}

/// Inserts `key` into a strictly increasing list, unless present.
fn insert_sorted(keys: &mut Vec<Vec<char>>, key: Vec<char>)
    requires
        lex_sorted(old(keys)@.map_values(|k: Vec<char>| k@)),
    ensures
        lex_sorted(final(keys)@.map_values(|k: Vec<char>| k@)),
        final(keys)@.map_values(|k: Vec<char>| k@).to_set() == old(keys)@.map_values(
            |k: Vec<char>| k@,
        ).to_set().insert(key@),
{
    let ghost kv = keys@.map_values(|k: Vec<char>| k@);
    let mut p: usize = 0;
    while p < keys.len() && lex_less(&keys[p], &key)
        invariant
            p <= keys@.len(),
            kv == keys@.map_values(|k: Vec<char>| k@),
            forall|t: int| 0 <= t < p ==> lex_lt(#[trigger] kv[t], key@),
        decreases keys.len() - p,
    {
        p += 1;
    }
    if p < keys.len() && crate::text::chars_eq(&keys[p], &key) {
        assert(kv.to_set().contains(key@)) by {
            assert(kv[p as int] == key@);
        }
        assert(kv.to_set().insert(key@) =~= kv.to_set());
        return;
    }
    proof {
        if p < kv.len() {
            lemma_lex_total(kv[p as int], key@);
        }
    }
    keys.insert(p, key);
    let ghost nk = keys@.map_values(|k: Vec<char>| k@);
    assert(nk =~= kv.insert(p as int, key@));
    assert forall|i: int, j: int| 0 <= i < j < nk.len() implies lex_lt(nk[i], nk[j]) by {
        if j < p {
            assert(nk[i] == kv[i] && nk[j] == kv[j]);
        } else if j == p {
            assert(nk[i] == kv[i]);
        } else if i == p {
            assert(nk[j] == kv[j - 1]);
            if j - 1 > p {
                lemma_lex_transitive(key@, kv[p as int], kv[j - 1]);
            }
        } else if i < p {
            assert(nk[i] == kv[i] && nk[j] == kv[j - 1]);
        } else {
            assert(nk[i] == kv[i - 1] && nk[j] == kv[j - 1]);
        }
    }
    assert(nk.to_set() =~= kv.to_set().insert(key@)) by {
        assert forall|x: Seq<char>| nk.to_set().contains(x) implies kv.to_set().insert(key@).contains(x) by {
            let i = choose|i: int| 0 <= i < nk.len() && nk[i] == x;
            if i < p {
                assert(kv[i] == x);
            } else if i > p {
                assert(kv[i - 1] == x);
            }
        }
        assert forall|x: Seq<char>| kv.to_set().insert(key@).contains(x) implies nk.to_set().contains(x) by {
            if x == key@ {
                assert(nk[p as int] == x);
            } else {
                let i = choose|i: int| 0 <= i < kv.len() && kv[i] == x;
                if i < p {
                    assert(nk[i] == x);
                } else {
                    assert(nk[i + 1] == x);
                }
            }
        }
    }
}

/// The sets of `ws`, in the order of their names.
fn sorted_set_names(ws: &[WsInfo]) -> (r: Vec<Vec<char>>)
    ensures
        r@.map_values(|k: Vec<char>| k@) == sorted_sets(views(ws@)),
{
    let ghost wv = views(ws@);
    let mut keys: Vec<Vec<char>> = Vec::new();
    let mut i: usize = 0;
    while i < ws.len()
        invariant
            i <= ws@.len(),
            wv == views(ws@),
            lex_sorted(keys@.map_values(|k: Vec<char>| k@)),
            keys@.map_values(|k: Vec<char>| k@).to_set() == sets_in(wv.take(i as int)),
        decreases ws.len() - i,
    {
        let s = set_of_name(ws[i].name.as_str());
        let ghost sv = s@;
        assert(sv == set_of(wv[i as int]));
        insert_sorted(&mut keys, chars_of(s.as_str()));
        assert(sets_in(wv.take(i + 1)) =~= sets_in(wv.take(i as int)).insert(sv)) by {
            assert(wv.take(i + 1)[i as int] == wv[i as int]);
            assert forall|x: Seq<char>| sets_in(wv.take(i + 1)).contains(x) implies sets_in(
                wv.take(i as int),
            ).insert(sv).contains(x) by {
                let k = choose|k: int| 0 <= k < i + 1 && set_of(#[trigger] wv.take(i + 1)[k]) == x;
                if k < i {
                    assert(wv.take(i as int)[k] == wv.take(i + 1)[k]);
                }
            }
            assert forall|x: Seq<char>| sets_in(wv.take(i as int)).insert(sv).contains(x) implies sets_in(
                wv.take(i + 1),
            ).contains(x) by {
                if x != sv {
                    let k = choose|k: int| 0 <= k < i && set_of(#[trigger] wv.take(i as int)[k]) == x;
                    assert(wv.take(i as int)[k] == wv.take(i + 1)[k]);
                }
            }
        }
        i += 1;
    }
    assert(wv.take(ws@.len() as int) =~= wv);
    let ghost kv = keys@.map_values(|k: Vec<char>| k@);
    proof {
        assert(lex_sorted(kv) && kv.to_set() == sets_in(wv));
        let c = sorted_sets(wv);
        assert(lex_sorted(c) && c.to_set() == sets_in(wv));
        lemma_lex_sorted_unique(kv, c);
    }
    keys
}

/// The workspaces on output `output` of all sets, sets in the order of their
/// names, each set's workspaces ordered as `order` asks.
pub fn global_candidates(all: &[WsInfo], order: MemberOrder, output: &str) -> (r: Vec<WsInfo>)
    ensures
        views(r@) == spec_global_candidates(views(all@), order, output@),
{
    let keys = sorted_set_names(all);
    let ghost kv = keys@.map_values(|k: Vec<char>| k@);
    let ghost wv = views(all@);
    let mut flat: Vec<WsInfo> = Vec::new();
    let mut j: usize = 0;
    while j < keys.len()
        invariant
            j <= keys@.len(),
            kv == keys@.map_values(|k: Vec<char>| k@),
            wv == views(all@),
            views(flat@) == on_output(concat_members(wv, kv.take(j as int), order), output@),
        decreases keys.len() - j,
    {
        let name = crate::text::string_of(&keys[j]);
        let part = set_candidates(all, name.as_str(), order, Some(output));
        let ghost before = views(flat@);
        let mut k: usize = 0;
        while k < part.len()
            invariant
                k <= part@.len(),
                views(flat@) == before + views(part@).take(k as int),
            decreases part.len() - k,
        {
            let ghost prev = views(flat@);
            flat.push(part[k].copy());
            assert(views(flat@) =~= prev.push(part@[k as int]@));
            assert(views(part@).take(k + 1) =~= views(part@).take(k as int).push(part@[k as int]@));
            assert(views(flat@) =~= before + views(part@).take(k + 1));
            k += 1;
        }
        proof {
            assert(views(part@).take(part@.len() as int) =~= views(part@));
            assert(kv.take(j + 1).drop_last() =~= kv.take(j as int));
            assert(kv.take(j + 1).last() == name@);
            lemma_on_output_concat(
                concat_members(wv, kv.take(j as int), order),
                ordered_members(wv, name@, order),
                output@,
            );
        }
        j += 1;
    }
    assert(kv.take(keys@.len() as int) =~= kv);
    flat
}

/// Keeping the workspaces of one output commutes with concatenation.
pub proof fn lemma_on_output_concat(a: Seq<WsView>, b: Seq<WsView>, out: Seq<char>)
    ensures
        on_output(a + b, out) == on_output(a, out) + on_output(b, out),
    decreases b.len(),
{
    if b.len() == 0 {
        assert(a + b =~= a);
        assert(on_output(a, out) + on_output(b, out) =~= on_output(a, out));
    } else {
        lemma_on_output_concat(a, b.drop_last(), out);
        assert((a + b).drop_last() =~= a + b.drop_last());
        assert((a + b).last() == b.last());
        if b.last().output == out {
            assert(on_output(a, out) + on_output(b, out) =~= (on_output(a, out) + on_output(
                b.drop_last(),
                out,
            )).push(b.last()));
        }
    }
}

proof fn lemma_on_output_drawn(ws: Seq<WsView>, out: Seq<char>)
    ensures
        drawn_from(on_output(ws, out), ws),
        forall|i: int| 0 <= i < on_output(ws, out).len() ==> (#[trigger] on_output(ws, out)[i]).output == out,
    decreases ws.len(),
{
    if ws.len() > 0 {
        let d = ws.drop_last();
        lemma_on_output_drawn(d, out);
        let o = on_output(d, out);
        assert forall|i: int| 0 <= i < on_output(ws, out).len() implies exists|j: int|
            0 <= j < ws.len() && ws[j] == #[trigger] on_output(ws, out)[i] by {
            if i < o.len() {
                let j = choose|j: int| 0 <= j < d.len() && d[j] == o[i];
                assert(ws[j] == d[j]);
            } else {
                assert(ws[ws.len() - 1] == on_output(ws, out)[i]);
            }
        }
    }
}

proof fn lemma_concat_drawn(ws: Seq<WsView>, keys: Seq<Seq<char>>, order: MemberOrder)
    ensures
        drawn_from(concat_members(ws, keys, order), ws),
    decreases keys.len(),
{
    if keys.len() > 0 {
        lemma_concat_drawn(ws, keys.drop_last(), order);
        lemma_ordered_members(ws, keys.last(), order);
        let a = concat_members(ws, keys.drop_last(), order);
        let b = ordered_members(ws, keys.last(), order);
        assert forall|i: int| 0 <= i < (a + b).len() implies exists|j: int| 0 <= j < ws.len() && ws[j]
            == #[trigger] (a + b)[i] by {
            if i < a.len() {
                assert((a + b)[i] == a[i]);
            } else {
                assert((a + b)[i] == b[i - a.len()]);
            }
        }
    }
}

/// The target of a relative move is one of the candidates.
proof fn lemma_relative_target_in(c: Seq<WsView>, name: Seq<char>, offset: int)
    ensures
        match spec_relative_target(c, name, offset) {
            Some(n) => exists|k: int| 0 <= k < c.len() && (#[trigger] c[k]).name == n,
            None => c.len() == 0,
        },
{
    if c.len() > 0 {
        let cur = crate::nav::position_or_zero(c, name);
        let k = (cur + offset) % (c.len() as int);
        vstd::arithmetic::div_mod::lemma_mod_bound(cur + offset, c.len() as int);
        assert(c[k].name == c[k].name);
    }
}

/// `workspace-next` and `-prev` stay in the focused workspace's set, and on
/// its output when `same_output` holds: the target is a workspace of that
/// set (on that output). Without the output limit there is no target only
/// when no workspace is in the set.
pub proof fn lemma_step_stays_in_set(
    ws: Seq<WsView>,
    focused: WsView,
    offset: int,
    order: MemberOrder,
    same_output: bool,
)
    ensures
        match spec_workspace_step(ws, focused, offset, order, same_output) {
            Some(n) => exists|j: int|
                0 <= j < ws.len() && (#[trigger] ws[j]).name == n && set_of(ws[j]) == set_of(focused) && (
                same_output ==> ws[j].output == focused.output),
            None => !same_output ==> forall|j: int| 0 <= j < ws.len() ==> set_of(#[trigger] ws[j]) != set_of(focused),
        },
{
    let key = set_of(focused);
    lemma_ordered_members(ws, key, order);
    let om = ordered_members(ws, key, order);
    let c = spec_set_candidates(ws, key, order, if same_output { Some(focused.output) } else { None });
    lemma_relative_target_in(c, focused.name, offset);
    if same_output {
        lemma_on_output_drawn(om, focused.output);
    }
    match spec_relative_target(c, focused.name, offset) {
        Some(n) => {
            let k = choose|k: int| 0 <= k < c.len() && (#[trigger] c[k]).name == n;
            let w = c[k];
            let q = choose|q: int| 0 <= q < om.len() && om[q] == w;
            assert(set_of(om[q]) == key);
            let j = choose|j: int| 0 <= j < ws.len() && ws[j] == om[q];
            assert(ws[j].name == n);
        },
        None => {},
    }
}

/// `next` and `prev` stay on the focused workspace's output: the target is
/// a workspace on that output.
pub proof fn lemma_global_step_same_output(ws: Seq<WsView>, focused: WsView, offset: int, order: MemberOrder)
    ensures
        match spec_global_step(ws, focused, offset, order) {
            Some(n) => exists|j: int|
                0 <= j < ws.len() && (#[trigger] ws[j]).name == n && ws[j].output == focused.output,
            None => true,
        },
{
    let cm = concat_members(ws, sorted_sets(ws), order);
    lemma_concat_drawn(ws, sorted_sets(ws), order);
    lemma_on_output_drawn(cm, focused.output);
    let c = spec_global_candidates(ws, order, focused.output);
    lemma_relative_target_in(c, focused.name, offset);
    match spec_relative_target(c, focused.name, offset) {
        Some(n) => {
            let k = choose|k: int| 0 <= k < c.len() && (#[trigger] c[k]).name == n;
            assert(c[k].output == focused.output);
            let q = choose|q: int| 0 <= q < cm.len() && cm[q] == c[k];
            let j = choose|j: int| 0 <= j < ws.len() && ws[j] == cm[q];
            assert(ws[j].name == n);
        },
        None => {},
    }
}

// ── the targets ─────────────────────────────────────────────────────────────

/// The workspace `offset` places after the focused one `focused` among the
/// workspaces of its set on its output (`workspace-next`/`-prev`).
pub open spec fn spec_workspace_step(
    ws: Seq<WsView>,
    focused: WsView,
    offset: int,
    order: MemberOrder,
    same_output: bool,
) -> Option<Seq<char>> {
    spec_relative_target(
        spec_set_candidates(
            ws,
            set_of(focused),
            order,
            if same_output {
                Some(focused.output)
            } else {
                None
            },
        ),
        focused.name,
        offset,
    )
}

/// The workspace `offset` places after the focused one among the workspaces
/// of its set, on its output only when `same_output` holds; none when there
/// are none.
pub fn workspace_step(
    all: &[WsInfo],
    focused: &WsInfo,
    offset: i64,
    order: MemberOrder,
    same_output: bool,
) -> (r: Option<String>)
    ensures
        crate::command::opt_str_view(r) == spec_workspace_step(views(all@), focused@, offset as int, order, same_output),
{
    let set = set_of_name(focused.name.as_str());
    let out: Option<&str> = if same_output {
        Some(focused.output.as_str())
    } else {
        None
    };
    let cands = set_candidates(all, set.as_str(), order, out);
    relative_target(&cands, focused.name.as_str(), offset)
}

/// The workspace `offset` places after the focused one `focused` among the
/// workspaces on its output of all sets, sets in the order of their names
/// (`next`/`prev`).
pub open spec fn spec_global_step(ws: Seq<WsView>, focused: WsView, offset: int, order: MemberOrder) -> Option<
    Seq<char>,
> {
    spec_relative_target(spec_global_candidates(ws, order, focused.output), focused.name, offset)
}

/// The workspace `offset` places after the focused one among the workspaces
/// on its output of all sets, sets in the order of their names.
pub fn global_step(all: &[WsInfo], focused: &WsInfo, offset: i64, order: MemberOrder) -> (r: Option<String>)
    ensures
        crate::command::opt_str_view(r) == spec_global_step(views(all@), focused@, offset as int, order),
{
    let cands = global_candidates(all, order, focused.output.as_str());
    relative_target(&cands, focused.name.as_str(), offset)
}

} // verus!
