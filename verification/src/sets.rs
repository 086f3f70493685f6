//! Set bookkeeping: used and free local numbers, set indices, and the
//! renumbering of a monitor's sets.
use vstd::prelude::*;
use std::collections::HashSet;
use crate::meta::{WsMeta, MetaView, parse_name, spec_parse_name, create_name, spec_create_name, spec_global_number, global_number_to_set_index, spec_set_index, trunc_rem, gn_fits, checked_global_number, NumberOverflow};
use crate::numbers::{get_lowest_free_local_numbers, is_lowest_free};
use crate::workspace::{WsInfo, WsView, views, set_of, set_of_name, members};

verus! {

broadcast use vstd::std_specs::hash::group_hash_axioms;

// ── used and free local numbers ──────────────────────────────────────────────

/// The local numbers stored in the names of `ws`.
pub open spec fn used_local_numbers(ws: Seq<WsView>) -> Set<i64> {
    Set::new(|n: i64| exists|i: int| 0 <= i < ws.len() && #[trigger] spec_parse_name(ws[i].name).local_number == Some(n))
}

/// The local numbers stored in the names of `workspaces`.
pub fn get_used_local_numbers(workspaces: &[WsInfo]) -> (r: HashSet<i64>)
    ensures
        r@ == used_local_numbers(views(workspaces@)),
        r@.finite(),
        r@.len() <= workspaces@.len(),
{
    let ghost wv = views(workspaces@);
    let mut r: HashSet<i64> = HashSet::new();
    let mut i: usize = 0;
    while i < workspaces.len()
        invariant
            i <= workspaces@.len(),
            wv == views(workspaces@),
            r@.finite(),
            r@.len() <= i,
            r@ == used_local_numbers(wv.take(i as int)),
        decreases workspaces.len() - i,
    {
        let m = parse_name(workspaces[i].name.as_str());
        let ghost before = r@;
        match m.local_number {
            Some(n) => {
                r.insert(n);
            },
            None => {},
        }
        assert(wv.take(i + 1)[i as int] == workspaces@[i as int]@);
        assert(r@ =~= used_local_numbers(wv.take(i + 1))) by {
            assert(m@ == spec_parse_name(wv.take(i + 1)[i as int].name));
            assert forall|n: i64| r@.contains(n) implies used_local_numbers(wv.take(i + 1)).contains(n) by {
                if !before.contains(n) {
                    assert(m.local_number == Some(n));
                    assert(spec_parse_name(wv.take(i + 1)[i as int].name).local_number == Some(n));
                } else {
                    let k = choose|k: int| 0 <= k < i && #[trigger] spec_parse_name(wv.take(i as int)[k].name).local_number == Some(n);
                    assert(wv.take(i + 1)[k] == wv.take(i as int)[k]);
                }
            }
            assert forall|n: i64| used_local_numbers(wv.take(i + 1)).contains(n) implies r@.contains(n) by {
                let k = choose|k: int| 0 <= k < i + 1 && #[trigger] spec_parse_name(wv.take(i + 1)[k].name).local_number == Some(n);
                if k < i {
                    assert(wv.take(i + 1)[k] == wv.take(i as int)[k]);
                }
            }
        }
        i += 1;
    }
    assert(wv.take(workspaces@.len() as int) =~= wv);
    r
}

/// The lowest positive integer that `used` does not contain.
pub open spec fn lowest_free(used: Set<i64>) -> i64 {
    choose|x: i64| is_lowest_free(seq![x], 1, used)
}

/// A one-element [`is_lowest_free`] result is [`lowest_free`].
pub proof fn lemma_lowest_free_unique(x: i64, used: Set<i64>)
    requires
        is_lowest_free(seq![x], 1, used),
    ensures
        lowest_free(used) == x,
{
    let y = lowest_free(used);
    assert(is_lowest_free(seq![y], 1, used));
    assert(seq![x][0] == x && seq![x].last() == x);
    assert(seq![y][0] == y && seq![y].last() == y);
    if y < x {
        assert(seq![x].contains(y));
        assert(seq![x][0] == y);
    } else if x < y {
        assert(seq![y].contains(x));
        assert(seq![y][0] == x);
    }
}

/// The lowest positive integer that `used` does not contain.
pub fn lowest_free_number(used: &HashSet<i64>) -> (r: i64)
    requires
        used@.finite(),
        used@.len() + 1 < i64::MAX,
    ensures
        r == lowest_free(used@),
        r >= 1,
        !used@.contains(r),
        r <= used@.len() + 1,
{
    let v = get_lowest_free_local_numbers(1, used);
    let x = v[0];
    proof {
        assert(v@ =~= seq![x]);
        lemma_lowest_free_unique(x, used@);
        lemma_lowest_free_bound(used@);
    }
    x
}

/// The lowest free number is at most one more than the count of used numbers.
pub proof fn lemma_lowest_free_bound(used: Set<i64>)
    requires
        used.finite(),
        exists|x: i64| is_lowest_free(seq![x], 1, used),
    ensures
        lowest_free(used) <= used.len() + 1,
{
    let x = lowest_free(used);
    assert(is_lowest_free(seq![x], 1, used));
    assert(seq![x][0] == x && seq![x].last() == x);
    // every number below x is used
    let below = Set::new(|y: i64| 1 <= y < x);
    assert forall|y: i64| below.contains(y) implies used.contains(y) by {
        if !used.contains(y) {
            assert(seq![x].contains(y));
            assert(seq![x][0] == y);
        }
    }
    lemma_range_len(x);
    vstd::set_lib::lemma_len_subset(below, used);
}

proof fn lemma_range_len(x: i64)
    requires
        x >= 1,
    ensures
        Set::new(|y: i64| 1 <= y < x).finite(),
        Set::new(|y: i64| 1 <= y < x).len() == x - 1,
    decreases x,
{
    let s = Set::new(|y: i64| 1 <= y < x);
    if x == 1 {
        assert(s =~= Set::empty());
    } else {
        lemma_range_len((x - 1) as i64);
        let t = Set::new(|y: i64| 1 <= y < x - 1);
        assert(s =~= t.insert((x - 1) as i64));
    }
}

/// The lowest local number that set `target_set` does not use among `all`.
pub open spec fn spec_free_local_number(all: Seq<WsView>, target_set: Seq<char>) -> i64 {
    lowest_free(used_local_numbers(members(all, target_set)))
}

// ── set index ───────────────────────────────────────────────────────────────

/// The first global number stored in the names of `ws`.
pub open spec fn first_global(ws: Seq<WsView>) -> Option<i64>
    decreases ws.len(),
{
    if ws.len() == 0 {
        None
    } else {
        match spec_parse_name(ws[0].name).global_number {
            Some(g) => Some(g),
            None => first_global(ws.drop_first()),
        }
    }
}

/// The value recorded for `key` in a table of set indices.
pub open spec fn lookup(t: Seq<(Seq<char>, int)>, key: Seq<char>) -> Option<int>
    decreases t.len(),
{
    if t.len() == 0 {
        None
    } else if t[0].0 == key {
        Some(t[0].1)
    } else {
        lookup(t.drop_first(), key)
    }
}

/// The set index of each set that has a workspace with a global number, taken
/// from its first such workspace; the first group of a set wins.
pub open spec fn index_table(g: Seq<(Seq<char>, Seq<WsView>)>) -> Seq<(Seq<char>, int)>
    decreases g.len(),
{
    if g.len() == 0 {
        Seq::empty()
    } else {
        let t = index_table(g.drop_last());
        match first_global(g.last().1) {
            Some(gn) => if lookup(t, g.last().0) is Some {
                t
            } else {
                t.push((g.last().0, spec_set_index(gn as int)))
            },
            None => t,
        }
    }
}

/// The largest value of a non-empty table.
pub open spec fn table_max(t: Seq<(Seq<char>, int)>) -> int
    decreases t.len(),
{
    if t.len() <= 1 {
        t[0].1
    } else {
        let m = table_max(t.drop_last());
        if t.last().1 > m {
            t.last().1
        } else {
            m
        }
    }
}

/// The set index of `target` among `groups`: the recorded one, else one past
/// the largest recorded index, else 0.
pub open spec fn spec_set_index_of(target: Seq<char>, groups: Seq<(Seq<char>, Seq<WsView>)>) -> int {
    let t = index_table(groups);
    match lookup(t, target) {
        Some(i) => i,
        None => if t.len() == 0 {
            0
        } else {
            table_max(t) + 1
        },
    }
}

proof fn lemma_lookup_in(t: Seq<(Seq<char>, int)>, key: Seq<char>)
    ensures
        lookup(t, key) matches Some(v) ==> exists|k: int| 0 <= k < t.len() && #[trigger] t[k] == (key, v),
        lookup(t, key) is None ==> forall|k: int| 0 <= k < t.len() ==> (#[trigger] t[k]).0 != key,
    decreases t.len(),
{
    if t.len() > 0 {
        lemma_lookup_in(t.drop_first(), key);
        if t[0].0 != key {
            assert forall|k: int| 1 <= k < t.len() implies t[k] == t.drop_first()[k - 1] by {}
        }
    }
}

proof fn lemma_lookup_push(t: Seq<(Seq<char>, int)>, e: (Seq<char>, int), key: Seq<char>)
    requires
        lookup(t, e.0) is None,
    ensures
        lookup(t.push(e), key) == (if lookup(t, key) is Some {
            lookup(t, key)
        } else if e.0 == key {
            Some(e.1)
        } else {
            None
        }),
    decreases t.len(),
{
    if t.len() == 0 {
        assert(t.push(e).drop_first() =~= Seq::<(Seq<char>, int)>::empty());
    } else {
        assert(t.push(e).drop_first() =~= t.drop_first().push(e));
        lemma_lookup_push(t.drop_first(), e, key);
    }
}

/// A set has a recorded index exactly when one of its groups holds a
/// workspace with a global number.
proof fn lemma_recorded(g: Seq<(Seq<char>, Seq<WsView>)>, key: Seq<char>)
    ensures
        lookup(index_table(g), key) is Some <==> exists|j: int|
            0 <= j < g.len() && (#[trigger] g[j]).0 == key && first_global(g[j].1) is Some,
    decreases g.len(),
{
    if g.len() > 0 {
        let d = g.drop_last();
        lemma_recorded(d, key);
        let t = index_table(d);
        match first_global(g.last().1) {
            Some(gn) => {
                if lookup(t, g.last().0) is None {
                    lemma_lookup_push(t, (g.last().0, spec_set_index(gn as int)), key);
                } else if g.last().0 == key {
                    assert(exists|j: int| 0 <= j < d.len() && (#[trigger] d[j]).0 == key && first_global(d[j].1) is Some) by {
                        lemma_recorded(d, g.last().0);
                    }
                }
            },
            None => {},
        }
        if exists|j: int| 0 <= j < d.len() && (#[trigger] d[j]).0 == key && first_global(d[j].1) is Some {
            let j = choose|j: int| 0 <= j < d.len() && (#[trigger] d[j]).0 == key && first_global(d[j].1) is Some;
            assert(g[j] == d[j]);
        }
        if exists|j: int| 0 <= j < g.len() && (#[trigger] g[j]).0 == key && first_global(g[j].1) is Some {
            let j = choose|j: int| 0 <= j < g.len() && (#[trigger] g[j]).0 == key && first_global(g[j].1) is Some;
            if j < g.len() - 1 {
                assert(d[j] == g[j]);
            }
        }
    }
}

proof fn lemma_table_max_ge(t: Seq<(Seq<char>, int)>)
    requires
        t.len() > 0,
    ensures
        forall|k: int| 0 <= k < t.len() ==> (#[trigger] t[k]).1 <= table_max(t),
    decreases t.len(),
{
    if t.len() > 1 {
        lemma_table_max_ge(t.drop_last());
        assert forall|k: int| 0 <= k < t.len() implies (#[trigger] t[k]).1 <= table_max(t) by {
            if k < t.len() - 1 {
                assert(t[k] == t.drop_last()[k]);
            }
        }
    }
}

/// A set none of whose workspaces on a monitor carries a global number gets
/// a set index above that of every set whose workspaces do: a new set never
/// shares an index with an existing one.
pub proof fn lemma_new_set_index_fresh(
    target: Seq<char>,
    other: Seq<char>,
    g: Seq<(Seq<char>, Seq<WsView>)>,
)
    requires
        forall|j: int| 0 <= j < g.len() && (#[trigger] g[j]).0 == target ==> first_global(g[j].1) is None,
        exists|j: int| 0 <= j < g.len() && (#[trigger] g[j]).0 == other && first_global(g[j].1) is Some,
    ensures
        spec_set_index_of(target, g) > spec_set_index_of(other, g),
{
    lemma_recorded(g, target);
    lemma_recorded(g, other);
    let t = index_table(g);
    lemma_lookup_in(t, other);
    let v = lookup(t, other)->0;
    let k = choose|k: int| 0 <= k < t.len() && #[trigger] t[k] == (other, v);
    lemma_table_max_ge(t);
    assert(t[k].1 <= table_max(t));
}

/// The first group of a monitor whose workspaces carry a global number keeps
/// the set index that number encodes.
pub proof fn lemma_first_group_keeps_index(g: Seq<(Seq<char>, Seq<WsView>)>, gn: i64)
    requires
        g.len() > 0,
        first_global(g[0].1) == Some(gn),
    ensures
        lookup(index_table(g), g[0].0) == Some(spec_set_index(gn as int)),
        spec_set_index_of(g[0].0, g) == spec_set_index(gn as int),
    decreases g.len(),
{
    let d = g.drop_last();
    if g.len() == 1 {
        assert(index_table(d) =~= Seq::<(Seq<char>, int)>::empty());
        let t1 = index_table(g);
        assert(t1 =~= seq![(g[0].0, spec_set_index(gn as int))]);
    } else {
        assert(d[0] == g[0]);
        lemma_first_group_keeps_index(d, gn);
        let t = index_table(d);
        match first_global(g.last().1) {
            Some(x) => {
                if lookup(t, g.last().0) is None {
                    lemma_lookup_push(t, (g.last().0, spec_set_index(x as int)), g[0].0);
                }
            },
            None => {},
        }
    }
}

/// A set index that a global number encodes lies in `-999..=999`.
pub proof fn lemma_set_index_bounds(g: int)
    ensures
        -999 <= spec_set_index(g) <= 999,
{
    let r = trunc_rem(g, 100000);
    if g >= 0 {
        assert(0 <= g % 100000 < 100000);
    } else {
        assert(0 <= (-g) % 100000 < 100000);
    }
    assert(-100000 < r < 100000);
    if r >= 0 {
        assert(r / 100 <= 999) by (nonlinear_arith)
            requires
                0 <= r < 100000,
        ;
    } else {
        assert((-r) / 100 <= 999) by (nonlinear_arith)
            requires
                0 < -r < 100000,
        ;
    }
}

proof fn lemma_table_bounds(g: Seq<(Seq<char>, Seq<WsView>)>)
    ensures
        forall|i: int| 0 <= i < index_table(g).len() ==> -999 <= #[trigger] index_table(g)[i].1 <= 999,
    decreases g.len(),
{
    if g.len() > 0 {
        lemma_table_bounds(g.drop_last());
        let t = index_table(g.drop_last());
        match first_global(g.last().1) {
            Some(gn) => {
                lemma_set_index_bounds(gn as int);
                if lookup(t, g.last().0) is None {
                    let t2 = t.push((g.last().0, spec_set_index(gn as int)));
                    assert forall|i: int| 0 <= i < t2.len() implies -999 <= #[trigger] t2[i].1 <= 999 by {
                        if i < t.len() {
                            assert(t2[i] == t[i]);
                        }
                    }
                }
            },
            None => {},
        }
    }
}

proof fn lemma_table_max_bounds(t: Seq<(Seq<char>, int)>)
    requires
        t.len() > 0,
        forall|i: int| 0 <= i < t.len() ==> -999 <= #[trigger] t[i].1 <= 999,
    ensures
        -999 <= table_max(t) <= 999,
    decreases t.len(),
{
    if t.len() > 1 {
        lemma_table_max_bounds(t.drop_last());
    }
}

/// The view of a group list passed by reference.
pub open spec fn group_slice_view(g: Seq<(String, Vec<WsInfo>)>) -> Seq<(Seq<char>, Seq<WsView>)> {
    g.map_values(|e: (String, Vec<WsInfo>)| (e.0@, views(e.1@)))
}

fn first_global_exec(ws: &Vec<WsInfo>) -> (r: Option<i64>)
    ensures
        r == first_global(views(ws@)),
{
    let ghost wv = views(ws@);
    let mut i: usize = 0;
    assert(wv.skip(0) =~= wv);
    while i < ws.len()
        invariant
            i <= ws@.len(),
            wv == views(ws@),
            first_global(wv) == first_global(wv.skip(i as int)),
        decreases ws.len() - i,
    {
        assert(wv.skip(i as int)[0] == ws@[i as int]@);
        let m = parse_name(ws[i].name.as_str());
        match m.global_number {
            Some(g) => {
                return Some(g);
            },
            None => {},
        }
        assert(wv.skip(i as int).drop_first() =~= wv.skip(i + 1));
        i += 1;
    }
    assert(wv.skip(i as int).len() == 0);
    None
}

fn lookup_exec(t: &Vec<(String, i64)>, key: &str) -> (r: Option<i64>)
    ensures
        match r {
            Some(i) => lookup(t@.map_values(|e: (String, i64)| (e.0@, e.1 as int)), key@)
                == Some(i as int),
            None => lookup(t@.map_values(|e: (String, i64)| (e.0@, e.1 as int)), key@) is None,
        },
{
    let ghost tv = t@.map_values(|e: (String, i64)| (e.0@, e.1 as int));
    let mut j: usize = 0;
    assert(tv.skip(0) =~= tv);
    while j < t.len()
        invariant
            j <= t@.len(),
            tv == t@.map_values(|e: (String, i64)| (e.0@, e.1 as int)),
            lookup(tv, key@) == lookup(tv.skip(j as int), key@),
        decreases t.len() - j,
    {
        assert(tv.skip(j as int)[0] == tv[j as int]);
        if str_eq(t[j].0.as_str(), key) {
            return Some(t[j].1);
        }
        assert(tv.skip(j as int).drop_first() =~= tv.skip(j + 1));
        j += 1;
    }
    assert(tv.skip(j as int).len() == 0);
    None
}

/// Whether two strings are equal.
pub fn str_eq(a: &str, b: &str) -> (r: bool)
    ensures
        r == (a@ == b@),
{
    let av = crate::text::chars_of(a);
    let bv = crate::text::chars_of(b);
    crate::text::chars_eq(&av, &bv)
}

/// The set index that `target_set` has, or would get, among `groups`.
pub fn get_set_index(target_set: &str, groups: &[(String, Vec<WsInfo>)]) -> (r: i64)
    ensures
        r == spec_set_index_of(target_set@, group_slice_view(groups@)),
{
    let ghost gv = group_slice_view(groups@);
    let mut table: Vec<(String, i64)> = Vec::new();
    let mut i: usize = 0;
    while i < groups.len()
        invariant
            i <= groups@.len(),
            gv == group_slice_view(groups@),
            table@.map_values(|e: (String, i64)| (e.0@, e.1 as int)) == index_table(gv.take(i as int)),
        decreases groups.len() - i,
    {
        assert(gv.take(i + 1).drop_last() =~= gv.take(i as int));
        assert(gv.take(i + 1).last() == gv[i as int]);
        let fg = first_global_exec(&groups[i].1);
        match fg {
            Some(gn) => {
                if lookup_exec(&table, groups[i].0.as_str()).is_none() {
                    let idx = global_number_to_set_index(gn);
                    let ghost before = table@;
                    table.push((groups[i].0.clone(), idx));
                    assert(table@.map_values(|e: (String, i64)| (e.0@, e.1 as int)) =~= before.map_values(
                        |e: (String, i64)| (e.0@, e.1 as int),
                    ).push((gv[i as int].0, spec_set_index(gn as int))));
                }
            },
            None => {},
        }
        i += 1;
    }
    assert(gv.take(groups@.len() as int) =~= gv);
    let ghost tv = index_table(gv);
    proof {
        lemma_table_bounds(gv);
    }
    match lookup_exec(&table, target_set) {
        Some(idx) => idx,
        None => {
            if table.len() == 0 {
                0
            } else {
                let mut m = table[0].1;
                let mut j: usize = 1;
                assert(tv.take(1).drop_last() =~= Seq::<(Seq<char>, int)>::empty());
                while j < table.len()
                    invariant
                        1 <= j <= table@.len(),
                        tv == table@.map_values(|e: (String, i64)| (e.0@, e.1 as int)),
                        m == table_max(tv.take(j as int)),
                    decreases table.len() - j,
                {
                    assert(tv.take(j + 1).drop_last() =~= tv.take(j as int));
                    if table[j].1 > m {
                        m = table[j].1;
                    }
                    j += 1;
                }
                assert(tv.take(table@.len() as int) =~= tv);
                proof {
                    lemma_table_max_bounds(tv);
                }
                m + 1
            }
        },
    }
}

/// The workspaces of `all` in set `target_set`, in order.
pub fn set_members(all: &[WsInfo], target_set: &str) -> (r: Vec<WsInfo>)
    ensures
        views(r@) == members(views(all@), target_set@),
        r@.len() <= all@.len(),
{
    let ghost wv = views(all@);
    let mut r: Vec<WsInfo> = Vec::new();
    let mut i: usize = 0;
    while i < all.len()
        invariant
            i <= all@.len(),
            wv == views(all@),
            r@.len() <= i,
            views(r@) == members(wv.take(i as int), target_set@),
        decreases all.len() - i,
    {
        assert(wv.take(i + 1).drop_last() =~= wv.take(i as int));
        assert(wv.take(i + 1).last() == all@[i as int]@);
        let s = set_of_name(all[i].name.as_str());
        if str_eq(s.as_str(), target_set) {
            let ghost before = r@;
            r.push(all[i].copy());
            assert(views(r@) =~= views(before).push(all@[i as int]@));
        }
        i += 1;
    }
    assert(wv.take(all@.len() as int) =~= wv);
    r
}

/// The lowest local number that set `target_set` does not use among `all`.
pub fn find_free_local_number(all: &[WsInfo], target_set: &str) -> (r: i64)
    requires
        all@.len() + 1 < i64::MAX,
    ensures
        r == spec_free_local_number(views(all@), target_set@),
        r >= 1,
{
    let set_workspaces = set_members(all, target_set);
    let used = get_used_local_numbers(&set_workspaces);
    lowest_free_number(&used)
}

// ── renumbering a monitor's sets ─────────────────────────────────────────────

/// The local number a workspace gets: its own when still free, else the
/// lowest free one.
pub open spec fn choose_local(own: Option<i64>, used: Set<i64>) -> i64 {
    match own {
        Some(n) => if !used.contains(n) {
            n
        } else {
            lowest_free(used)
        },
        None => lowest_free(used),
    }
}

/// The metadata of workspace `w` after renumbering: set `set`, local number
/// `ln`, global number `gn`, no dynamic name, its static name kept.
pub open spec fn renumbered(w: WsView, set: Seq<char>, ln: i64, gn: i64) -> MetaView {
    let m = spec_parse_name(w.name);
    MetaView {
        global_number: Some(gn),
        set: Some(set),
        static_name: m.static_name,
        dynamic_name: Some(Seq::empty()),
        local_number: Some(ln),
    }
}

/// Whether every global number computed while renumbering `ws` fits in an
/// `i64` (monitor `mi`, set index `si`, numbers in `used` taken).
pub open spec fn set_fits(ws: Seq<WsView>, used: Set<i64>, mi: int, si: int) -> bool
    decreases ws.len(),
{
    if ws.len() == 0 {
        true
    } else {
        let ln = choose_local(spec_parse_name(ws[0].name).local_number, used);
        &&& gn_fits(mi, si, ln as int)
        &&& set_fits(ws.drop_first(), used.insert(ln), mi, si)
    }
}

/// The renames that renumber the workspaces `ws` of set `set` (index `si` on
/// monitor `mi`), each in turn taking a local number not in `used`.
pub open spec fn set_renames(
    ws: Seq<WsView>,
    used: Set<i64>,
    mi: int,
    si: int,
    set: Seq<char>,
) -> Seq<(Seq<char>, Seq<char>)>
    decreases ws.len(),
{
    if ws.len() == 0 {
        Seq::empty()
    } else {
        let ln = choose_local(spec_parse_name(ws[0].name).local_number, used);
        let gn = spec_global_number(mi, si, ln as int) as i64;
        seq![(ws[0].name, spec_create_name(renumbered(ws[0], set, ln, gn)))] + set_renames(
            ws.drop_first(),
            used.insert(ln),
            mi,
            si,
            set,
        )
    }
}

/// The local numbers that renumbering `ws` hands out, in order.
pub open spec fn chosen_locals(ws: Seq<WsView>, used: Set<i64>) -> Seq<i64>
    decreases ws.len(),
{
    if ws.len() == 0 {
        Seq::empty()
    } else {
        let ln = choose_local(spec_parse_name(ws[0].name).local_number, used);
        seq![ln] + chosen_locals(ws.drop_first(), used.insert(ln))
    }
}

/// The local numbers that set `set` uses on workspaces of `all` not named in
/// `names`: its workspaces on the other monitors.
pub open spec fn others_used(all: Seq<WsView>, set: Seq<char>, names: Seq<Seq<char>>) -> Set<
    i64,
> {
    Set::new(
        |n: i64|
            exists|i: int|
                0 <= i < all.len() && set_of(all[i]) == set && !names.contains(all[i].name)
                    && #[trigger] spec_parse_name(all[i].name).local_number == Some(n),
    )
}

/// The names of a sequence of workspaces.
pub open spec fn names_of(ws: Seq<WsView>) -> Seq<Seq<char>> {
    ws.map_values(|w: WsView| w.name)
}

/// The renames that renumber every set of `ordered` (set index = position)
/// on monitor `mi`, given all workspaces `all`.
pub open spec fn organize_renames(
    mi: int,
    ordered: Seq<(Seq<char>, Seq<WsView>)>,
    all: Seq<WsView>,
) -> Seq<(Seq<char>, Seq<char>)>
    decreases ordered.len(),
{
    if ordered.len() == 0 {
        Seq::empty()
    } else {
        let k = ordered.len() - 1;
        let e = ordered[k];
        organize_renames(mi, ordered.drop_last(), all) + set_renames(
            e.1,
            others_used(all, e.0, names_of(e.1)),
            mi,
            k,
            e.0,
        )
    }
}

/// The local numbers that renumbering hands the workspaces of group `k` of
/// `ordered`.
pub open spec fn group_locals(ordered: Seq<(Seq<char>, Seq<WsView>)>, all: Seq<WsView>, k: int) -> Seq<i64> {
    chosen_locals(ordered[k].1, others_used(all, ordered[k].0, names_of(ordered[k].1)))
}

/// The renames of group `k` of `ordered`: the block that [`organize_renames`]
/// adds for it.
pub open spec fn group_renames(
    mi: int,
    ordered: Seq<(Seq<char>, Seq<WsView>)>,
    all: Seq<WsView>,
    k: int,
) -> Seq<(Seq<char>, Seq<char>)> {
    set_renames(ordered[k].1, others_used(all, ordered[k].0, names_of(ordered[k].1)), mi, k, ordered[k].0)
}

/// The `i`-th rename of a set renames its `i`-th workspace to the name with
/// the `i`-th local number handed out and the matching global number.
pub proof fn lemma_set_renames_at(ws: Seq<WsView>, used: Set<i64>, mi: int, si: int, set: Seq<char>, i: int)
    requires
        0 <= i < ws.len(),
    ensures
        set_renames(ws, used, mi, si, set).len() == ws.len(),
        chosen_locals(ws, used).len() == ws.len(),
        set_renames(ws, used, mi, si, set)[i] == (
            ws[i].name,
            spec_create_name(
                renumbered(
                    ws[i],
                    set,
                    chosen_locals(ws, used)[i],
                    spec_global_number(mi, si, chosen_locals(ws, used)[i] as int) as i64,
                ),
            ),
        ),
    decreases ws.len(),
{
    let ln = choose_local(spec_parse_name(ws[0].name).local_number, used);
    if i > 0 {
        lemma_set_renames_at(ws.drop_first(), used.insert(ln), mi, si, set, i - 1);
        assert(ws.drop_first()[i - 1] == ws[i]);
    } else if ws.len() > 1 {
        lemma_set_renames_at(ws.drop_first(), used.insert(ln), mi, si, set, 0);
    } else {
        assert(ws.drop_first().len() == 0);
        assert(set_renames(ws.drop_first(), used.insert(ln), mi, si, set) =~= Seq::empty());
        assert(chosen_locals(ws.drop_first(), used.insert(ln)) =~= Seq::empty());
    }
}

/// Whether every global number of [`organize_renames`] fits in an `i64`.
pub open spec fn organize_fits(
    mi: int,
    ordered: Seq<(Seq<char>, Seq<WsView>)>,
    all: Seq<WsView>,
) -> bool {
    forall|k: int|
        0 <= k < ordered.len() ==> set_fits(
            (#[trigger] ordered[k]).1,
            others_used(all, ordered[k].0, names_of(ordered[k].1)),
            mi,
            k,
        )
}

/// Whether `names` holds `name`.
fn contains_name(names: &Vec<String>, name: &String) -> (r: bool)
    ensures
        r == names@.map_values(|k: String| k@).contains(name@),
{
    let ghost kv = names@.map_values(|k: String| k@);
    let mut j: usize = 0;
    while j < names.len()
        invariant
            j <= names@.len(),
            kv == names@.map_values(|k: String| k@),
            forall|t: int| 0 <= t < j ==> kv[t] != name@,
        decreases names.len() - j,
    {
        if names[j] == *name {
            assert(kv[j as int] == name@);
            return true;
        }
        j += 1;
    }
    false
}

/// The local numbers that set `set` uses on workspaces of `all` that are not
/// in `ws`.
fn get_others_used(all: &[WsInfo], set: &String, ws: &Vec<WsInfo>) -> (r: HashSet<i64>)
    ensures
        r@ == others_used(views(all@), set@, names_of(views(ws@))),
        r@.finite(),
        r@.len() <= all@.len(),
{
    let mut names: Vec<String> = Vec::new();
    let mut j: usize = 0;
    while j < ws.len()
        invariant
            j <= ws@.len(),
            names@.map_values(|k: String| k@) == names_of(views(ws@)).take(j as int),
        decreases ws.len() - j,
    {
        let ghost before = names@;
        names.push(ws[j].name.clone());
        assert(names@.map_values(|k: String| k@) =~= before.map_values(|k: String| k@).push(ws@[j as int]@.name));
        assert(names_of(views(ws@)).take(j + 1) =~= names_of(views(ws@)).take(j as int).push(ws@[j as int]@.name));
        j += 1;
    }
    assert(names_of(views(ws@)).take(ws@.len() as int) =~= names_of(views(ws@)));
    let ghost nv = names_of(views(ws@));
    let ghost wv = views(all@);
    let mut r: HashSet<i64> = HashSet::new();
    let mut i: usize = 0;
    while i < all.len()
        invariant
            i <= all@.len(),
            wv == views(all@),
            nv == names_of(views(ws@)),
            names@.map_values(|k: String| k@) == nv,
            r@.finite(),
            r@.len() <= i,
            r@ == others_used(wv.take(i as int), set@, nv),
        decreases all.len() - i,
    {
        let s = set_of_name(all[i].name.as_str());
        let ghost before = r@;
        let ghost w = all@[i as int]@;
        assert(wv.take(i + 1)[i as int] == w);
        if s == *set && !contains_name(&names, &all[i].name) {
            let m = parse_name(all[i].name.as_str());
            match m.local_number {
                Some(n) => {
                    r.insert(n);
                },
                None => {},
            }
        }
        assert(r@ =~= others_used(wv.take(i + 1), set@, nv)) by {
            assert forall|n: i64| r@.contains(n) implies others_used(wv.take(i + 1), set@, nv).contains(n) by {
                if before.contains(n) {
                    let k = choose|k: int|
                        0 <= k < i && set_of(wv.take(i as int)[k]) == set@ && !nv.contains(wv.take(i as int)[k].name)
                            && #[trigger] spec_parse_name(wv.take(i as int)[k].name).local_number == Some(n);
                    assert(wv.take(i + 1)[k] == wv.take(i as int)[k]);
                } else {
                    assert(spec_parse_name(wv.take(i + 1)[i as int].name).local_number == Some(n));
                }
            }
            assert forall|n: i64| others_used(wv.take(i + 1), set@, nv).contains(n) implies r@.contains(n) by {
                let k = choose|k: int|
                    0 <= k < i + 1 && set_of(wv.take(i + 1)[k]) == set@ && !nv.contains(wv.take(i + 1)[k].name)
                        && #[trigger] spec_parse_name(wv.take(i + 1)[k].name).local_number == Some(n);
                if k < i {
                    assert(wv.take(i + 1)[k] == wv.take(i as int)[k]);
                }
            }
        }
        i += 1;
    }
    assert(wv.take(all@.len() as int) =~= wv);
    r
}

/// The renames that renumber the workspaces of one set.
fn plan_set(
    monitor_index: i64,
    set_index: i64,
    set: &String,
    ws: &Vec<WsInfo>,
    used_in_others: HashSet<i64>,
    out: &mut Vec<(String, String)>,
) -> (fits: bool)
    requires
        used_in_others@.finite(),
        used_in_others@.len() + ws@.len() + 1 < i64::MAX,
    ensures
        fits == set_fits(views(ws@), used_in_others@, monitor_index as int, set_index as int),
        fits ==> final(out)@.map_values(|e: (String, String)| (e.0@, e.1@)) == old(out)@.map_values(
            |e: (String, String)| (e.0@, e.1@),
        ) + set_renames(views(ws@), used_in_others@, monitor_index as int, set_index as int, set@),
{
    let ghost wv = views(ws@);
    let ghost mi = monitor_index as int;
    let ghost si = set_index as int;
    let ghost start = old(out)@.map_values(|e: (String, String)| (e.0@, e.1@));
    let ghost target = set_renames(wv, used_in_others@, mi, si, set@);
    let mut used_so_far = used_in_others;
    let mut j: usize = 0;
    assert(wv.skip(0) =~= wv);
    while j < ws.len()
        invariant
            j <= ws@.len(),
            wv == views(ws@),
            mi == monitor_index as int,
            si == set_index as int,
            used_so_far@.finite(),
            used_so_far@.len() + (ws@.len() - j) + 1 < i64::MAX,
            set_fits(wv, used_in_others@, mi, si) == set_fits(wv.skip(j as int), used_so_far@, mi, si),
            out@.map_values(|e: (String, String)| (e.0@, e.1@)) + set_renames(
                wv.skip(j as int),
                used_so_far@,
                mi,
                si,
                set@,
            ) == start + target,
        decreases ws.len() - j,
    {
        let ghost rest = wv.skip(j as int);
        assert(rest[0] == ws@[j as int]@);
        assert(rest.drop_first() =~= wv.skip(j + 1));
        let meta = parse_name(ws[j].name.as_str());
        let ln = match meta.local_number {
            Some(n) => {
                if !used_so_far.contains(&n) {
                    n
                } else {
                    lowest_free_number(&used_so_far)
                }
            },
            None => lowest_free_number(&used_so_far),
        };
        assert(ln == choose_local(spec_parse_name(rest[0].name).local_number, used_so_far@));
        let ghost before_used = used_so_far@;
        used_so_far.insert(ln);
        proof {
            if before_used.contains(ln) {
                assert(used_so_far@ =~= before_used);
            } else {
                assert(used_so_far@.len() == before_used.len() + 1);
            }
        }
        let gn = match checked_global_number(monitor_index, set_index, ln) {
            Some(g) => g,
            None => {
                return false;
            },
        };
        let new_meta = WsMeta {
            global_number: Some(gn),
            set: Some(set.clone()),
            static_name: meta.static_name,
            dynamic_name: Some(String::new()),
            local_number: Some(ln),
        };
        assert(new_meta@ == renumbered(rest[0], set@, ln, gn));
        let new_name = create_name(&new_meta);
        let ghost before = out@;
        out.push((ws[j].name.clone(), new_name));
        assert(out@.map_values(|e: (String, String)| (e.0@, e.1@)) =~= before.map_values(
            |e: (String, String)| (e.0@, e.1@),
        ).push((rest[0].name, spec_create_name(renumbered(rest[0], set@, ln, gn)))));
        assert(set_renames(rest, before_used, mi, si, set@) == seq![
            (rest[0].name, spec_create_name(renumbered(rest[0], set@, ln, gn))),
        ] + set_renames(wv.skip(j + 1), used_so_far@, mi, si, set@));
        assert(out@.map_values(|e: (String, String)| (e.0@, e.1@)) + set_renames(
            wv.skip(j + 1),
            used_so_far@,
            mi,
            si,
            set@,
        ) =~= before.map_values(|e: (String, String)| (e.0@, e.1@)) + set_renames(
            rest,
            before_used,
            mi,
            si,
            set@,
        ));
        j += 1;
    }
    assert(wv.skip(j as int).len() == 0);
    assert(set_renames(wv.skip(j as int), used_so_far@, mi, si, set@) =~= Seq::<
        (Seq<char>, Seq<char>),
    >::empty());
    assert(out@.map_values(|e: (String, String)| (e.0@, e.1@)) =~= start + target);
    true
}

/// The renames (old name, new name) that renumber every set of
/// `ordered_sets` on monitor `monitor_index`: set `k` gets set index `k`,
/// each workspace keeps its local number when no other workspace of its set
/// holds it (on other monitors, or earlier on this one), else takes the
/// lowest free one, and loses its dynamic name.
pub fn plan_organize(
    monitor_index: i64,
    ordered_sets: &[(String, Vec<WsInfo>)],
    all_workspaces: &[WsInfo],
) -> (r: Result<Vec<(String, String)>, NumberOverflow>)
    requires
        ordered_sets@.len() < i64::MAX,
        forall|k: int|
            0 <= k < ordered_sets@.len() ==> all_workspaces@.len() + (#[trigger] ordered_sets@[k]).1@.len() + 1
                < i64::MAX,
    ensures
        match r {
            Ok(v) => organize_fits(monitor_index as int, group_slice_view(ordered_sets@), views(all_workspaces@))
                && v@.map_values(|e: (String, String)| (e.0@, e.1@)) == organize_renames(
                monitor_index as int,
                group_slice_view(ordered_sets@),
                views(all_workspaces@),
            ),
            Err(_) => !organize_fits(monitor_index as int, group_slice_view(ordered_sets@), views(all_workspaces@)),
        },
{
    let ghost gv = group_slice_view(ordered_sets@);
    let ghost av = views(all_workspaces@);
    let mut out: Vec<(String, String)> = Vec::new();
    let mut k: usize = 0;
    while k < ordered_sets.len()
        invariant
            k <= ordered_sets@.len(),
            ordered_sets@.len() < i64::MAX,
            gv == group_slice_view(ordered_sets@),
            av == views(all_workspaces@),
            forall|t: int|
                0 <= t < k ==> set_fits(
                    (#[trigger] gv[t]).1,
                    others_used(av, gv[t].0, names_of(gv[t].1)),
                    monitor_index as int,
                    t,
                ),
            forall|k: int|
                0 <= k < ordered_sets@.len() ==> all_workspaces@.len() + (#[trigger] ordered_sets@[k]).1@.len() + 1
                    < i64::MAX,
            out@.map_values(|e: (String, String)| (e.0@, e.1@)) == organize_renames(
                monitor_index as int,
                gv.take(k as int),
                av,
            ),
        decreases ordered_sets.len() - k,
    {
        let set = &ordered_sets[k].0;
        let ws = &ordered_sets[k].1;
        assert(gv[k as int] == (set@, views(ws@)));
        let used = get_others_used(all_workspaces, set, ws);
        if !plan_set(monitor_index, k as i64, set, ws, used, &mut out) {
            return Err(NumberOverflow);
        }
        assert(gv.take(k + 1).drop_last() =~= gv.take(k as int));
        assert(gv.take(k + 1)[k as int] == gv[k as int]);
        k += 1;
    }
    assert(gv.take(ordered_sets@.len() as int) =~= gv);
    Ok(out)
}

// ── laws ─────────────────────────────────────────────────────────────────────

proof fn lemma_lowest_exists_from(used: Set<i64>, c: i64)
    requires
        used.finite(),
        used.len() + 1 < i64::MAX,
        1 <= c <= used.len() + 1,
        forall|y: i64| 1 <= y < c ==> used.contains(y),
    ensures
        exists|x: i64| is_lowest_free(seq![x], 1, used),
    decreases used.len() + 1 - c,
{
    if !used.contains(c) {
        assert(seq![c][0] == c && seq![c].last() == c);
        assert forall|x: i64| 1 <= x <= seq![c].last() && !used.contains(x) implies #[trigger] seq![c].contains(x) by {
            assert(x == c);
            assert(seq![c][0] == x);
        }
        assert(is_lowest_free(seq![c], 1, used));
    } else {
        let below = Set::new(|y: i64| 1 <= y < c + 1);
        lemma_range_len((c + 1) as i64);
        assert(below.subset_of(used));
        vstd::set_lib::lemma_len_subset(below, used);
        lemma_lowest_exists_from(used, (c + 1) as i64);
    }
}

/// Every finite set of integers leaves a lowest free positive number, and it
/// is not in the set.
pub proof fn lemma_lowest_free_exists(used: Set<i64>)
    requires
        used.finite(),
        used.len() + 1 < i64::MAX,
    ensures
        is_lowest_free(seq![lowest_free(used)], 1, used),
        lowest_free(used) >= 1,
        !used.contains(lowest_free(used)),
{
    lemma_lowest_exists_from(used, 1);
    let x = lowest_free(used);
    assert(seq![x][0] == x);
}

/// Renumbering a set hands out pairwise distinct local numbers, none of them
/// already used (on other monitors): no two workspaces of a set collide.
pub proof fn lemma_chosen_locals_distinct(ws: Seq<WsView>, used: Set<i64>)
    requires
        used.finite(),
        used.len() + ws.len() + 1 < i64::MAX,
    ensures
        chosen_locals(ws, used).len() == ws.len(),
        chosen_locals(ws, used).no_duplicates(),
        forall|i: int|
            0 <= i < ws.len() ==> !used.contains(#[trigger] chosen_locals(ws, used)[i]),
    decreases ws.len(),
{
    if ws.len() > 0 {
        let own = spec_parse_name(ws[0].name).local_number;
        let ln = choose_local(own, used);
        lemma_lowest_free_exists(used);
        assert(!used.contains(ln));
        let u2 = used.insert(ln);
        assert(u2.len() == used.len() + 1);
        lemma_chosen_locals_distinct(ws.drop_first(), u2);
        let rest = chosen_locals(ws.drop_first(), u2);
        let c = chosen_locals(ws, used);
        assert(c == seq![ln] + rest);
        assert forall|i: int| 0 <= i < ws.len() implies !used.contains(#[trigger] c[i]) by {
            if i > 0 {
                assert(c[i] == rest[i - 1]);
                assert(!u2.contains(rest[i - 1]));
            }
        }
        assert forall|i: int, j: int| 0 <= i < c.len() && 0 <= j < c.len() && i != j implies c[i] != c[j] by {
            if i > 0 && j > 0 {
                assert(c[i] == rest[i - 1] && c[j] == rest[j - 1]);
            } else if i == 0 {
                assert(c[j] == rest[j - 1]);
                assert(!u2.contains(rest[j - 1]));
            } else {
                assert(c[i] == rest[i - 1]);
                assert(!u2.contains(rest[i - 1]));
            }
        }
    }
}

/// A workspace whose own local number is still free keeps it.
pub proof fn lemma_free_local_kept(n: i64, used: Set<i64>)
    requires
        !used.contains(n),
    ensures
        choose_local(Some(n), used) == n,
{
}

} // verus!
