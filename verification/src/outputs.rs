//! Outputs (monitors) in screen order, and workspaces grouped by output.
use vstd::prelude::*;
use crate::text::{lex_lt, lex_less, chars_of, lemma_lex_transitive, lemma_lex_total};
use crate::workspace::{OutputInfo, OutView, WsInfo, WsView, views};
use crate::sets::str_eq;

verus! {

/// The views of a sequence of outputs.
pub open spec fn out_views(s: Seq<OutputInfo>) -> Seq<OutView> {
    s.map_values(|o: OutputInfo| o@)
}

/// Whether `a` sorts no later than `b`: left to right (`x`), and top to
/// bottom (`y`) between outputs in the same column.
pub open spec fn out_key_le(a: OutView, b: OutView) -> bool {
    a.x < b.x || (a.x == b.x && a.y <= b.y)
}

/// `t` with `o` inserted after every element that sorts no later, counted
/// from the end: one step of a stable insertion sort.
pub open spec fn insert_out(t: Seq<OutView>, o: OutView) -> Seq<OutView>
    decreases t.len(),
{
    if t.len() == 0 {
        seq![o]
    } else if out_key_le(t.last(), o) {
        t.push(o)
    } else {
        insert_out(t.drop_last(), o).push(t.last())
    }
}

/// `s` sorted stably by position, left to right and then top to bottom.
pub open spec fn sort_outputs(s: Seq<OutView>) -> Seq<OutView>
    decreases s.len(),
{
    if s.len() == 0 {
        Seq::empty()
    } else {
        insert_out(sort_outputs(s.drop_last()), s.last())
    }
}

/// The active outputs of `s`, in order.
pub open spec fn active_outputs(s: Seq<OutView>) -> Seq<OutView>
    decreases s.len(),
{
    if s.len() == 0 {
        Seq::empty()
    } else if s.last().active {
        active_outputs(s.drop_last()).push(s.last())
    } else {
        active_outputs(s.drop_last())
    }
}

/// The position at which [`insert_out`] puts `o`.
pub open spec fn insert_out_pos(t: Seq<OutView>, o: OutView) -> int
    decreases t.len(),
{
    if t.len() == 0 {
        0
    } else if out_key_le(t.last(), o) {
        t.len() as int
    } else {
        insert_out_pos(t.drop_last(), o)
    }
}

proof fn lemma_insert_out(t: Seq<OutView>, o: OutView)
    ensures
        0 <= insert_out_pos(t, o) <= t.len(),
        insert_out(t, o) == t.take(insert_out_pos(t, o)).push(o) + t.skip(insert_out_pos(t, o)),
    decreases t.len(),
{
    if t.len() == 0 {
        assert(insert_out(t, o) =~= t.take(0).push(o) + t.skip(0));
    } else if out_key_le(t.last(), o) {
        assert(insert_out(t, o) =~= t.take(t.len() as int).push(o) + t.skip(t.len() as int));
    } else {
        let d = t.drop_last();
        lemma_insert_out(d, o);
        let p = insert_out_pos(d, o);
        assert(insert_out(t, o) =~= t.take(p).push(o) + t.skip(p));
    }
}

fn key_le(a: &OutputInfo, b: &OutputInfo) -> (r: bool)
    ensures
        r == out_key_le(a@, b@),
{
    a.x < b.x || (a.x == b.x && a.y <= b.y)
}

/// The active outputs, sorted stably left to right (the leftmost first),
/// and top to bottom between outputs in the same column.
pub fn get_sorted_outputs(outputs: &[OutputInfo]) -> (r: Vec<OutputInfo>)
    ensures
        out_views(r@) == sort_outputs(active_outputs(out_views(outputs@))),
{
    let ghost ov = out_views(outputs@);
    let mut active: Vec<OutputInfo> = Vec::new();
    let mut i: usize = 0;
    while i < outputs.len()
        invariant
            i <= outputs@.len(),
            ov == out_views(outputs@),
            out_views(active@) == active_outputs(ov.take(i as int)),
        decreases outputs.len() - i,
    {
        assert(ov.take(i + 1).drop_last() =~= ov.take(i as int));
        assert(ov.take(i + 1).last() == outputs@[i as int]@);
        if outputs[i].active {
            let ghost before = active@;
            active.push(outputs[i].copy());
            assert(out_views(active@) =~= out_views(before).push(outputs@[i as int]@));
        }
        i += 1;
    }
    assert(ov.take(outputs@.len() as int) =~= ov);
    let ghost av = out_views(active@);
    let mut sorted: Vec<OutputInfo> = Vec::new();
    let mut j: usize = 0;
    while j < active.len()
        invariant
            j <= active@.len(),
            av == out_views(active@),
            out_views(sorted@) == sort_outputs(av.take(j as int)),
        decreases active.len() - j,
    {
        let o = active[j].copy();
        let ghost t = out_views(sorted@);
        proof {
            lemma_insert_out(t, o@);
        }
        let mut p: usize = sorted.len();
        assert(t.take(p as int) =~= t);
        while p > 0 && !key_le(&sorted[p - 1], &o)
            invariant
                p <= sorted@.len(),
                t == out_views(sorted@),
                insert_out_pos(t, o@) == insert_out_pos(t.take(p as int), o@),
            decreases p,
        {
            assert(t.take(p as int).last() == t[p - 1]);
            assert(t.take(p as int).drop_last() =~= t.take(p - 1));
            p -= 1;
        }
        proof {
            if p > 0 {
                assert(t.take(p as int).last() == t[p - 1]);
            }
        }
        let ghost before = sorted@;
        sorted.insert(p, o);
        assert(av.take(j + 1).drop_last() =~= av.take(j as int));
        assert(av.take(j + 1).last() == active@[j as int]@);
        assert(out_views(sorted@) =~= t.take(p as int).push(active@[j as int]@) + t.skip(p as int));
        j += 1;
    }
    assert(av.take(active@.len() as int) =~= av);
    sorted
}

/// Whether `s` is in screen order: each output sorts no later than every
/// output after it.
pub open spec fn outs_ordered(s: Seq<OutView>) -> bool {
    forall|i: int, j: int| 0 <= i < j < s.len() ==> out_key_le(s[i], s[j])
}

proof fn lemma_insert_out_pos(t: Seq<OutView>, o: OutView)
    requires
        outs_ordered(t),
    ensures
        insert_out_pos(t, o) > 0 ==> out_key_le(t[insert_out_pos(t, o) - 1], o),
        forall|j: int| insert_out_pos(t, o) <= j < t.len() ==> !out_key_le(#[trigger] t[j], o),
    decreases t.len(),
{
    if t.len() > 0 && !out_key_le(t.last(), o) {
        let d = t.drop_last();
        assert(outs_ordered(d)) by {
            assert forall|i: int, j: int| 0 <= i < j < d.len() implies out_key_le(d[i], d[j]) by {
                assert(d[i] == t[i] && d[j] == t[j]);
            }
        }
        lemma_insert_out_pos(d, o);
        lemma_insert_out(d, o);
        let p = insert_out_pos(d, o);
        assert forall|j: int| p <= j < t.len() implies !out_key_le(#[trigger] t[j], o) by {
            if j < t.len() - 1 {
                assert(t[j] == d[j]);
            }
        }
        if p > 0 {
            assert(t[p - 1] == d[p - 1]);
        }
    }
}

/// Sorting outputs puts them in screen order, keeps every output and adds
/// none: the leftmost output comes first.
pub proof fn lemma_sorted_outputs(s: Seq<OutView>)
    ensures
        sort_outputs(s).len() == s.len(),
        outs_ordered(sort_outputs(s)),
        forall|k: int| 0 <= k < s.len() ==> sort_outputs(s).contains(#[trigger] s[k]),
        forall|i: int| 0 <= i < s.len() ==> s.contains(#[trigger] sort_outputs(s)[i]),
        forall|k: int| 0 <= k < s.len() ==> sort_outputs(s)[0].x <= (#[trigger] s[k]).x,
    decreases s.len(),
{
    if s.len() > 0 {
        let d = s.drop_last();
        let o = s.last();
        lemma_sorted_outputs(d);
        let t = sort_outputs(d);
        lemma_insert_out(t, o);
        lemma_insert_out_pos(t, o);
        let p = insert_out_pos(t, o);
        let r = sort_outputs(s);
        assert(r == t.take(p).push(o) + t.skip(p));
        assert(r.len() == s.len());
        assert forall|i: int| 0 <= i < r.len() implies (#[trigger] r[i]) == (if i < p {
            t[i]
        } else if i == p {
            o
        } else {
            t[i - 1]
        }) by {}
        assert forall|i: int, j: int| 0 <= i < j < r.len() implies out_key_le(r[i], r[j]) by {
            if j < p {
                assert(r[i] == t[i] && r[j] == t[j]);
            } else if j == p {
                assert(r[i] == t[i]);
                assert(out_key_le(t[p - 1], o));
                if i < p - 1 {
                    assert(out_key_le(t[i], t[p - 1]));
                }
            } else if i == p {
                assert(r[j] == t[j - 1]);
                assert(!out_key_le(t[j - 1], o));
            } else if i < p {
                assert(r[i] == t[i] && r[j] == t[j - 1]);
            } else {
                assert(r[i] == t[i - 1] && r[j] == t[j - 1]);
            }
        }
        assert forall|k: int| 0 <= k < s.len() implies r.contains(#[trigger] s[k]) by {
            if k == s.len() - 1 {
                assert(r[p] == o);
            } else {
                assert(s[k] == d[k]);
                assert(t.contains(d[k]));
                let i = choose|i: int| 0 <= i < t.len() && t[i] == d[k];
                if i < p {
                    assert(r[i] == t[i]);
                } else {
                    assert(r[i + 1] == t[i]);
                }
            }
        }
        assert forall|i: int| 0 <= i < r.len() implies s.contains(#[trigger] r[i]) by {
            if i == p {
                assert(s[s.len() - 1] == o);
            } else {
                let ti = if i < p { i } else { i - 1 };
                assert(r[i] == t[ti]);
                assert(d.contains(t[ti]));
                let k = choose|k: int| 0 <= k < d.len() && d[k] == t[ti];
                assert(s[k] == d[k]);
            }
        }
        assert forall|k: int| 0 <= k < s.len() implies r[0].x <= (#[trigger] s[k]).x by {
            assert(r.contains(s[k]));
            let i = choose|i: int| 0 <= i < r.len() && r[i] == s[k];
            if i > 0 {
                assert(out_key_le(r[0], r[i]));
            }
        }
    }
}

/// The position of the first output named `name`, if any.
pub open spec fn output_position(s: Seq<OutView>, name: Seq<char>) -> Option<int>
    decreases s.len(),
{
    if s.len() == 0 {
        None
    } else if s[0].name == name {
        Some(0)
    } else {
        match output_position(s.drop_first(), name) {
            Some(i) => Some(i + 1),
            None => None,
        }
    }
}

/// A monitor's index is the position of the first output with its name
/// among the sorted outputs; a name no output has has no position.
pub proof fn lemma_output_position(s: Seq<OutView>, name: Seq<char>)
    ensures
        match output_position(s, name) {
            Some(i) => 0 <= i < s.len() && s[i].name == name && forall|j: int|
                0 <= j < i ==> (#[trigger] s[j]).name != name,
            None => forall|j: int| 0 <= j < s.len() ==> (#[trigger] s[j]).name != name,
        },
    decreases s.len(),
{
    if s.len() > 0 && s[0].name != name {
        lemma_output_position(s.drop_first(), name);
        assert forall|j: int| 1 <= j < s.len() implies s[j] == s.drop_first()[j - 1] by {}
    }
}

/// The index of monitor `monitor_name` among the sorted outputs, 0 when it is
/// not among them.
pub fn get_monitor_index(sorted_outputs: &[OutputInfo], monitor_name: &str) -> (r: i64)
    requires
        sorted_outputs@.len() < i64::MAX,
    ensures
        r == match output_position(out_views(sorted_outputs@), monitor_name@) {
            Some(i) => i,
            None => 0,
        },
{
    let ghost ov = out_views(sorted_outputs@);
    let mut i: usize = 0;
    assert(ov.skip(0) =~= ov);
    while i < sorted_outputs.len()
        invariant
            i <= sorted_outputs@.len(),
            sorted_outputs@.len() < i64::MAX,
            ov == out_views(sorted_outputs@),
            output_position(ov, monitor_name@) == match output_position(ov.skip(i as int), monitor_name@) {
                Some(k) => Some(k + i),
                None => None::<int>,
            },
        decreases sorted_outputs.len() - i,
    {
        assert(ov.skip(i as int)[0] == sorted_outputs@[i as int]@);
        if str_eq(sorted_outputs[i].name.as_str(), monitor_name) {
            return i as i64;
        }
        assert(ov.skip(i as int).drop_first() =~= ov.skip(i + 1));
        i += 1;
    }
    assert(ov.skip(i as int).len() == 0);
    0
}

// ── workspaces by output ─────────────────────────────────────────────────────

/// The workspaces of `ws` on output `out`, in order.
pub open spec fn on_output(ws: Seq<WsView>, out: Seq<char>) -> Seq<WsView>
    decreases ws.len(),
{
    if ws.len() == 0 {
        Seq::empty()
    } else if ws.last().output == out {
        on_output(ws.drop_last(), out).push(ws.last())
    } else {
        on_output(ws.drop_last(), out)
    }
}

/// The workspaces of `ws` on output `out`, in order.
pub fn get_monitor_workspaces(ws: &[WsInfo], out: &str) -> (r: Vec<WsInfo>)
    ensures
        views(r@) == on_output(views(ws@), out@),
        r@.len() <= ws@.len(),
{
    let ghost wv = views(ws@);
    let mut r: Vec<WsInfo> = Vec::new();
    let mut i: usize = 0;
    while i < ws.len()
        invariant
            i <= ws@.len(),
            wv == views(ws@),
            r@.len() <= i,
            views(r@) == on_output(wv.take(i as int), out@),
        decreases ws.len() - i,
    {
        assert(wv.take(i + 1).drop_last() =~= wv.take(i as int));
        assert(wv.take(i + 1).last() == ws@[i as int]@);
        if str_eq(ws[i].output.as_str(), out) {
            let ghost before = r@;
            r.push(ws[i].copy());
            assert(views(r@) =~= views(before).push(ws@[i as int]@));
        }
        i += 1;
    }
    assert(wv.take(ws@.len() as int) =~= wv);
    r
}

/// Whether `s` is strictly increasing in lexicographic order.
pub open spec fn lex_sorted(s: Seq<Seq<char>>) -> bool {
    forall|i: int, j: int| 0 <= i < j < s.len() ==> lex_lt(s[i], s[j])
}

/// The outputs of the workspaces.
pub open spec fn outputs_of(ws: Seq<WsView>) -> Set<Seq<char>> {
    Set::new(|o: Seq<char>| exists|i: int| 0 <= i < ws.len() && #[trigger] ws[i].output == o)
}

/// The workspaces grouped by output, outputs in lexicographic order (the
/// order of a `BTreeMap` keyed by output name).
pub open spec fn spec_by_output(keys: Seq<Seq<char>>, ws: Seq<WsView>) -> bool {
    &&& lex_sorted(keys)
    &&& keys.to_set() == outputs_of(ws)
}

/// Inserts `key` into a strictly increasing list, unless present.
fn insert_sorted_key(keys: &mut Vec<Vec<char>>, key: Vec<char>)
    requires
        lex_sorted(old(keys)@.map_values(|k: Vec<char>| k@)),
    ensures
        lex_sorted(final(keys)@.map_values(|k: Vec<char>| k@)),
        final(keys)@.map_values(|k: Vec<char>| k@).to_set() == old(keys)@.map_values(
            |k: Vec<char>| k@,
        ).to_set().insert(key@),
{
    let ghost kv = keys@.map_values(|k: Vec<char>| k@);
    let mut p: usize = 0;
    while p < keys.len() && lex_less(&keys[p], &key)
        invariant
            p <= keys@.len(),
            kv == keys@.map_values(|k: Vec<char>| k@),
            forall|t: int| 0 <= t < p ==> lex_lt(#[trigger] kv[t], key@),
        decreases keys.len() - p,
    {
        p += 1;
    }
    if p < keys.len() && crate::text::chars_eq(&keys[p], &key) {
        assert(kv.to_set().contains(key@)) by {
            assert(kv[p as int] == key@);
        }
        assert(kv.to_set().insert(key@) =~= kv.to_set());
        return;
    }
    proof {
        if p < kv.len() {
            lemma_lex_total(kv[p as int], key@);
        }
    }
    keys.insert(p, key);
    let ghost nk = keys@.map_values(|k: Vec<char>| k@);
    assert(nk =~= kv.insert(p as int, key@));
    assert forall|i: int, j: int| 0 <= i < j < nk.len() implies lex_lt(nk[i], nk[j]) by {
        if j < p {
            assert(nk[i] == kv[i] && nk[j] == kv[j]);
        } else if j == p {
            assert(nk[i] == kv[i]);
        } else if i == p {
            assert(nk[j] == kv[j - 1]);
            if j - 1 > p {
                lemma_lex_transitive(key@, kv[p as int], kv[j - 1]);
            }
        } else if i < p {
            assert(nk[i] == kv[i] && nk[j] == kv[j - 1]);
        } else {
            assert(nk[i] == kv[i - 1] && nk[j] == kv[j - 1]);
        }
    }
    assert(nk.to_set() =~= kv.to_set().insert(key@)) by {
        assert forall|x: Seq<char>| nk.to_set().contains(x) implies kv.to_set().insert(key@).contains(x) by {
            let i = choose|i: int| 0 <= i < nk.len() && nk[i] == x;
            if i < p {
                assert(kv[i] == x);
            } else if i > p {
                assert(kv[i - 1] == x);
            }
        }
        assert forall|x: Seq<char>| kv.to_set().insert(key@).contains(x) implies nk.to_set().contains(x) by {
            if x == key@ {
                assert(nk[p as int] == x);
            } else {
                let i = choose|i: int| 0 <= i < kv.len() && kv[i] == x;
                if i < p {
                    assert(nk[i] == x);
                } else {
                    assert(nk[i + 1] == x);
                }
            }
        }
    }
}

/// The workspaces grouped by output: one entry per output, in lexicographic
/// order of output names, each with that output's workspaces in order.
pub fn get_monitor_to_workspaces(ws: &[WsInfo]) -> (r: Vec<(String, Vec<WsInfo>)>)
    ensures
        spec_by_output(r@.map_values(|e: (String, Vec<WsInfo>)| e.0@), views(ws@)),
        forall|k: int| 0 <= k < r@.len() ==> views((#[trigger] r@[k]).1@) == on_output(views(ws@), r@[k].0@),
{
    let ghost wv = views(ws@);
    let mut keys: Vec<Vec<char>> = Vec::new();
    let mut i: usize = 0;
    while i < ws.len()
        invariant
            i <= ws@.len(),
            wv == views(ws@),
            lex_sorted(keys@.map_values(|k: Vec<char>| k@)),
            keys@.map_values(|k: Vec<char>| k@).to_set() == outputs_of(wv.take(i as int)),
        decreases ws.len() - i,
    {
        let o = chars_of(ws[i].output.as_str());
        insert_sorted_key(&mut keys, o);
        assert(outputs_of(wv.take(i + 1)) =~= outputs_of(wv.take(i as int)).insert(ws@[i as int]@.output)) by {
            assert(wv.take(i + 1)[i as int] == ws@[i as int]@);
            assert forall|x: Seq<char>| outputs_of(wv.take(i + 1)).contains(x) implies outputs_of(wv.take(i as int)).insert(ws@[i as int]@.output).contains(x) by {
                let k = choose|k: int| 0 <= k < i + 1 && #[trigger] wv.take(i + 1)[k].output == x;
                if k < i {
                    assert(wv.take(i as int)[k] == wv.take(i + 1)[k]);
                }
            }
            assert forall|x: Seq<char>| outputs_of(wv.take(i as int)).insert(ws@[i as int]@.output).contains(x) implies outputs_of(wv.take(i + 1)).contains(x) by {
                if x != ws@[i as int]@.output {
                    let k = choose|k: int| 0 <= k < i && #[trigger] wv.take(i as int)[k].output == x;
                    assert(wv.take(i as int)[k] == wv.take(i + 1)[k]);
                }
            }
        }
        i += 1;
    }
    assert(wv.take(ws@.len() as int) =~= wv);
    let ghost kv = keys@.map_values(|k: Vec<char>| k@);
    let mut r: Vec<(String, Vec<WsInfo>)> = Vec::new();
    let mut j: usize = 0;
    while j < keys.len()
        invariant
            j <= keys@.len(),
            kv == keys@.map_values(|k: Vec<char>| k@),
            wv == views(ws@),
            r@.len() == j,
            forall|k: int| 0 <= k < j ==> (#[trigger] r@[k]).0@ == kv[k],
            forall|k: int| 0 <= k < j ==> views((#[trigger] r@[k]).1@) == on_output(wv, r@[k].0@),
        decreases keys.len() - j,
    {
        let name = crate::text::string_of(&keys[j]);
        let members = get_monitor_workspaces(ws, name.as_str());
        r.push((name, members));
        j += 1;
    }
    assert(r@.map_values(|e: (String, Vec<WsInfo>)| e.0@) =~= kv);
    r
}

/// The workspaces of `ws` named `name`, in order.
pub open spec fn with_name(ws: Seq<WsView>, name: Seq<char>) -> Seq<WsView>
    decreases ws.len(),
{
    if ws.len() == 0 {
        Seq::empty()
    } else if ws.last().name == name {
        with_name(ws.drop_last(), name).push(ws.last())
    } else {
        with_name(ws.drop_last(), name)
    }
}

/// The workspaces of `ws` named `name`, in order.
pub fn get_named(ws: &[WsInfo], name: &str) -> (r: Vec<WsInfo>)
    ensures
        views(r@) == with_name(views(ws@), name@),
{
    let ghost wv = views(ws@);
    let mut r: Vec<WsInfo> = Vec::new();
    let mut i: usize = 0;
    while i < ws.len()
        invariant
            i <= ws@.len(),
            wv == views(ws@),
            views(r@) == with_name(wv.take(i as int), name@),
        decreases ws.len() - i,
    {
        assert(wv.take(i + 1).drop_last() =~= wv.take(i as int));
        assert(wv.take(i + 1).last() == ws@[i as int]@);
        if str_eq(ws[i].name.as_str(), name) {
            let ghost before = r@;
            r.push(ws[i].copy());
            assert(views(r@) =~= views(before).push(ws@[i as int]@));
        }
        i += 1;
    }
    assert(wv.take(ws@.len() as int) =~= wv);
    r
}

} // verus!
