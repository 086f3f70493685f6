//! Workspaces and outputs as the window manager reports them, grouped into
//! sets.
use vstd::prelude::*;
use crate::meta::{parse_name, get_local_number, spec_parse_name, set_or_empty, spec_local_number};

verus! {

/// A workspace: its name, the output it is on, and whether it has focus.
#[derive(Debug)]
pub struct WsInfo {
    pub name: String,
    pub output: String,
    pub focused: bool,
}

/// The model of a [`WsInfo`].
pub struct WsView {
    pub name: Seq<char>,
    pub output: Seq<char>,
    pub focused: bool,
}

impl View for WsInfo {
    type V = WsView;

    open spec fn view(&self) -> WsView {
        WsView { name: self.name@, output: self.output@, focused: self.focused }
    }
}

impl WsInfo {
    /// A copy of this workspace.
    pub fn copy(&self) -> (r: WsInfo)
        ensures
            r@ == self@,
    {
        WsInfo { name: self.name.clone(), output: self.output.clone(), focused: self.focused }
    }
}

/// An output (monitor): its name, whether it is active, and its position.
#[derive(Debug)]
pub struct OutputInfo {
    pub name: String,
    pub active: bool,
    pub x: i32,
    pub y: i32,
}

/// The model of an [`OutputInfo`].
pub struct OutView {
    pub name: Seq<char>,
    pub active: bool,
    pub x: i32,
    pub y: i32,
}

impl View for OutputInfo {
    type V = OutView;

    open spec fn view(&self) -> OutView {
        OutView { name: self.name@, active: self.active, x: self.x, y: self.y }
    }
}

impl OutputInfo {
    /// A copy of this output.
    pub fn copy(&self) -> (r: OutputInfo)
        ensures
            r@ == self@,
    {
        OutputInfo { name: self.name.clone(), active: self.active, x: self.x, y: self.y }
    }
}

/// The views of a sequence of workspaces.
pub open spec fn views(s: Seq<WsInfo>) -> Seq<WsView> {
    s.map_values(|w: WsInfo| w@)
}

/// The set a workspace belongs to.
pub open spec fn set_of(w: WsView) -> Seq<char> {
    set_or_empty(spec_parse_name(w.name))
}

/// The set of the workspace named `name` (`parse_name(name).set`, or the
/// default set).
pub fn set_of_name(name: &str) -> (r: String)
    ensures
        r@ == set_or_empty(spec_parse_name(name@)),
{
    let m = parse_name(name);
    match m.set {
        Some(s) => s,
        None => String::new(),
    }
}

/// Copies a sequence of workspaces.
pub fn copy_all(v: &[WsInfo]) -> (r: Vec<WsInfo>)
    ensures
        views(r@) == views(v@),
{
    let mut r: Vec<WsInfo> = Vec::new();
    let mut i: usize = 0;
    while i < v.len()
        invariant
            i <= v@.len(),
            views(r@) == views(v@).take(i as int),
        decreases v.len() - i,
    {
        let ghost old_r = r@;
        r.push(v[i].copy());
        assert(views(r@) =~= views(old_r).push(v@[i as int]@));
        assert(views(v@).take(i + 1) =~= views(v@).take(i as int).push(v@[i as int]@));
        i += 1;
    }
    assert(views(v@).take(v@.len() as int) =~= views(v@));
    r
}

// ── grouping by set ──────────────────────────────────────────────────────────

/// The sets of `ws` in the order in which each first occurs.
pub open spec fn group_keys(ws: Seq<WsView>) -> Seq<Seq<char>>
    decreases ws.len(),
{
    if ws.len() == 0 {
        Seq::empty()
    } else {
        let k = group_keys(ws.drop_last());
        let s = set_of(ws.last());
        if k.contains(s) {
            k
        } else {
            k.push(s)
        }
    }
}

/// The workspaces of `ws` in set `key`, in order.
pub open spec fn members(ws: Seq<WsView>, key: Seq<char>) -> Seq<WsView>
    decreases ws.len(),
{
    if ws.len() == 0 {
        Seq::empty()
    } else {
        let m = members(ws.drop_last(), key);
        if set_of(ws.last()) == key {
            m.push(ws.last())
        } else {
            m
        }
    }
}

/// The key by which workspaces of a set are ordered: the local number, and
/// `i64::MAX` for a workspace without one.
pub open spec fn order_key(w: WsView) -> int {
    match spec_local_number(spec_parse_name(w.name)) {
        Some(n) => n,
        None => i64::MAX as int,
    }
}

/// `t` with `x` inserted after every element whose key is at most `x`'s,
/// counted from the end: one step of a stable insertion sort.
pub open spec fn insert_by_key(t: Seq<WsView>, x: WsView) -> Seq<WsView>
    decreases t.len(),
{
    if t.len() == 0 {
        seq![x]
    } else if order_key(t.last()) <= order_key(x) {
        t.push(x)
    } else {
        insert_by_key(t.drop_last(), x).push(t.last())
    }
}

/// `s` sorted stably by [`order_key`].
pub open spec fn sort_by_key(s: Seq<WsView>) -> Seq<WsView>
    decreases s.len(),
{
    if s.len() == 0 {
        Seq::empty()
    } else {
        insert_by_key(sort_by_key(s.drop_last()), s.last())
    }
}

/// How the workspaces inside each set are ordered.
#[derive(Clone, Copy, Debug, PartialEq, Eq)]
pub enum MemberOrder {
    /// In the order the window manager lists them.
    Encounter,
    /// Sorted stably by local number, those without one last.
    ByLocalNumber,
}

/// The workspaces of set `key`, ordered as `order` asks.
pub open spec fn ordered_members(ws: Seq<WsView>, key: Seq<char>, order: MemberOrder) -> Seq<
    WsView,
> {
    match order {
        MemberOrder::Encounter => members(ws, key),
        MemberOrder::ByLocalNumber => sort_by_key(members(ws, key)),
    }
}

/// The view of a list of groups.
pub open spec fn groups_view(g: Seq<(String, Vec<WsInfo>)>) -> Seq<(Seq<char>, Seq<WsView>)> {
    g.map_values(|e: (String, Vec<WsInfo>)| (e.0@, views(e.1@)))
}

/// The grouping of `ws` by set: each set once, in order of first occurrence,
/// with its workspaces.
pub open spec fn spec_grouped(ws: Seq<WsView>, order: MemberOrder) -> Seq<
    (Seq<char>, Seq<WsView>),
> {
    group_keys(ws).map_values(|k: Seq<char>| (k, ordered_members(ws, k, order)))
}

/// The sets of the workspaces, one per workspace.
fn sets_of(ws: &[WsInfo]) -> (r: Vec<String>)
    ensures
        r@.len() == ws@.len(),
        forall|i: int| 0 <= i < ws@.len() ==> #[trigger] r@[i]@ == set_of(ws@[i]@),
{
    let mut r: Vec<String> = Vec::new();
    let mut i: usize = 0;
    while i < ws.len()
        invariant
            i <= ws@.len(),
            r@.len() == i,
            forall|j: int| 0 <= j < i ==> #[trigger] r@[j]@ == set_of(ws@[j]@),
        decreases ws.len() - i,
    {
        r.push(set_of_name(ws[i].name.as_str()));
        i += 1;
    }
    r
}

/// Whether some key equals `s`.
fn contains_string(keys: &Vec<String>, s: &String) -> (r: bool)
    ensures
        r == keys@.map_values(|k: String| k@).contains(s@),
{
    let ghost kv = keys@.map_values(|k: String| k@);
    let mut j: usize = 0;
    while j < keys.len()
        invariant
            j <= keys@.len(),
            kv == keys@.map_values(|k: String| k@),
            forall|t: int| 0 <= t < j ==> kv[t] != s@,
        decreases keys.len() - j,
    {
        if keys[j] == *s {
            assert(kv[j as int] == s@);
            return true;
        }
        j += 1;
    }
    false
}

/// The distinct sets of `ws`, in order of first occurrence.
fn keys_of(ws: &[WsInfo], sets: &Vec<String>) -> (r: Vec<String>)
    requires
        sets@.len() == ws@.len(),
        forall|i: int| 0 <= i < ws@.len() ==> #[trigger] sets@[i]@ == set_of(ws@[i]@),
    ensures
        r@.map_values(|k: String| k@) == group_keys(views(ws@)),
{
    let ghost wv = views(ws@);
    let mut keys: Vec<String> = Vec::new();
    let mut i: usize = 0;
    while i < ws.len()
        invariant
            i <= ws@.len(),
            wv == views(ws@),
            sets@.len() == ws@.len(),
            forall|i: int| 0 <= i < ws@.len() ==> #[trigger] sets@[i]@ == set_of(ws@[i]@),
            keys@.map_values(|k: String| k@) == group_keys(wv.take(i as int)),
        decreases ws.len() - i,
    {
        assert(wv.take(i + 1).drop_last() =~= wv.take(i as int));
        assert(wv.take(i + 1).last() == ws@[i as int]@);
        if !contains_string(&keys, &sets[i]) {
            let s = sets[i].clone();
            keys.push(s);
            assert(keys@.map_values(|k: String| k@) =~= group_keys(wv.take(i as int)).push(
                set_of(ws@[i as int]@),
            ));
        }
        i += 1;
    }
    assert(wv.take(ws@.len() as int) =~= wv);
    keys
}

/// The workspaces of `ws` whose set is `key`, in order.
fn members_of(ws: &[WsInfo], sets: &Vec<String>, key: &String) -> (r: Vec<WsInfo>)
    requires
        sets@.len() == ws@.len(),
        forall|i: int| 0 <= i < ws@.len() ==> #[trigger] sets@[i]@ == set_of(ws@[i]@),
    ensures
        views(r@) == members(views(ws@), key@),
{
    let ghost wv = views(ws@);
    let mut r: Vec<WsInfo> = Vec::new();
    let mut i: usize = 0;
    while i < ws.len()
        invariant
            i <= ws@.len(),
            wv == views(ws@),
            sets@.len() == ws@.len(),
            forall|i: int| 0 <= i < ws@.len() ==> #[trigger] sets@[i]@ == set_of(ws@[i]@),
            views(r@) == members(wv.take(i as int), key@),
        decreases ws.len() - i,
    {
        assert(wv.take(i + 1).drop_last() =~= wv.take(i as int));
        assert(wv.take(i + 1).last() == ws@[i as int]@);
        if sets[i] == *key {
            r.push(ws[i].copy());
            assert(views(r@) =~= members(wv.take(i as int), key@).push(ws@[i as int]@));
        }
        i += 1;
    }
    assert(wv.take(ws@.len() as int) =~= wv);
    r
}

/// The position at which [`insert_by_key`] puts an element with key `k`.
pub open spec fn insert_pos(t: Seq<WsView>, k: int) -> int
    decreases t.len(),
{
    if t.len() == 0 {
        0
    } else if order_key(t.last()) <= k {
        t.len() as int
    } else {
        insert_pos(t.drop_last(), k)
    }
}

proof fn lemma_insert_by_key(t: Seq<WsView>, x: WsView)
    ensures
        0 <= insert_pos(t, order_key(x)) <= t.len(),
        insert_by_key(t, x) == t.take(insert_pos(t, order_key(x))).push(x) + t.skip(
            insert_pos(t, order_key(x)),
        ),
        forall|j: int|
            insert_pos(t, order_key(x)) <= j < t.len() ==> order_key(x) < order_key(#[trigger] t[j]),
        insert_pos(t, order_key(x)) > 0 ==> order_key(t[insert_pos(t, order_key(x)) - 1])
            <= order_key(x),
    decreases t.len(),
{
    if t.len() == 0 {
        assert(insert_by_key(t, x) =~= t.take(0).push(x) + t.skip(0));
    } else if order_key(t.last()) <= order_key(x) {
        assert(insert_by_key(t, x) =~= t.take(t.len() as int).push(x) + t.skip(t.len() as int));
    } else {
        let d = t.drop_last();
        lemma_insert_by_key(d, x);
        let p = insert_pos(d, order_key(x));
        assert(insert_by_key(t, x) =~= t.take(p).push(x) + t.skip(p));
        assert forall|j: int| p <= j < t.len() implies order_key(x) < order_key(#[trigger] t[j]) by {
            if j < t.len() - 1 {
                assert(t[j] == d[j]);
            }
        }
    }
}

/// Whether every element of `s` is an element of `ws`.
pub open spec fn drawn_from(s: Seq<WsView>, ws: Seq<WsView>) -> bool {
    forall|i: int| 0 <= i < s.len() ==> exists|j: int| 0 <= j < ws.len() && ws[j] == #[trigger] s[i]
}

proof fn lemma_members_drawn(ws: Seq<WsView>, key: Seq<char>)
    ensures
        drawn_from(members(ws, key), ws),
        forall|i: int| 0 <= i < members(ws, key).len() ==> set_of(#[trigger] members(ws, key)[i]) == key,
        (exists|j: int| 0 <= j < ws.len() && set_of(#[trigger] ws[j]) == key) ==> members(ws, key).len() > 0,
    decreases ws.len(),
{
    if ws.len() > 0 {
        let d = ws.drop_last();
        lemma_members_drawn(d, key);
        let m = members(d, key);
        assert forall|i: int| 0 <= i < members(ws, key).len() implies exists|j: int|
            0 <= j < ws.len() && ws[j] == #[trigger] members(ws, key)[i] by {
            if i < m.len() {
                let j = choose|j: int| 0 <= j < d.len() && d[j] == m[i];
                assert(ws[j] == d[j]);
            } else {
                assert(ws[ws.len() - 1] == members(ws, key)[i]);
            }
        }
        if exists|j: int| 0 <= j < ws.len() && set_of(#[trigger] ws[j]) == key {
            let j = choose|j: int| 0 <= j < ws.len() && set_of(#[trigger] ws[j]) == key;
            if j < ws.len() - 1 {
                assert(set_of(d[j]) == key);
            }
        }
    }
}

proof fn lemma_sort_drawn(s: Seq<WsView>)
    ensures
        sort_by_key(s).len() == s.len(),
        drawn_from(sort_by_key(s), s),
    decreases s.len(),
{
    if s.len() > 0 {
        let d = s.drop_last();
        lemma_sort_drawn(d);
        let t = sort_by_key(d);
        let x = s.last();
        lemma_insert_by_key(t, x);
        let p = insert_pos(t, order_key(x));
        let r = sort_by_key(s);
        assert(r == t.take(p).push(x) + t.skip(p));
        assert forall|i: int| 0 <= i < r.len() implies exists|j: int| 0 <= j < s.len() && s[j] == #[trigger] r[i] by {
            if i < p {
                assert(r[i] == t[i]);
                let j = choose|j: int| 0 <= j < d.len() && d[j] == t[i];
                assert(s[j] == d[j]);
            } else if i == p {
                assert(r[i] == s[s.len() - 1]);
            } else {
                assert(r[i] == t[i - 1]);
                let j = choose|j: int| 0 <= j < d.len() && d[j] == t[i - 1];
                assert(s[j] == d[j]);
            }
        }
    }
}

/// The workspaces of set `key`, in either order, are workspaces of `ws`
/// in that set, and there is one as soon as a workspace of `ws` is in it.
pub proof fn lemma_ordered_members(ws: Seq<WsView>, key: Seq<char>, order: MemberOrder)
    ensures
        drawn_from(ordered_members(ws, key, order), ws),
        forall|i: int|
            0 <= i < ordered_members(ws, key, order).len() ==> set_of(
                #[trigger] ordered_members(ws, key, order)[i],
            ) == key,
        (exists|j: int| 0 <= j < ws.len() && set_of(#[trigger] ws[j]) == key) ==> ordered_members(
            ws,
            key,
            order,
        ).len() > 0,
{
    lemma_members_drawn(ws, key);
    let m = members(ws, key);
    match order {
        MemberOrder::Encounter => {},
        MemberOrder::ByLocalNumber => {
            lemma_sort_drawn(m);
            let r = sort_by_key(m);
            assert forall|i: int| 0 <= i < r.len() implies set_of(#[trigger] r[i]) == key by {
                let k = choose|k: int| 0 <= k < m.len() && m[k] == r[i];
            }
            assert forall|i: int| 0 <= i < r.len() implies exists|j: int| 0 <= j < ws.len() && ws[j] == #[trigger] r[i] by {
                let k = choose|k: int| 0 <= k < m.len() && m[k] == r[i];
                let j = choose|j: int| 0 <= j < ws.len() && ws[j] == m[k];
            }
        },
    }
}

/// Sorts `v` stably by local number, those without one last.
pub fn sort_members(v: Vec<WsInfo>) -> (r: Vec<WsInfo>)
    ensures
        views(r@) == sort_by_key(views(v@)),
{
    let ghost vv = views(v@);
    let mut sorted: Vec<WsInfo> = Vec::new();
    let mut keys: Vec<i64> = Vec::new();
    let mut i: usize = 0;
    while i < v.len()
        invariant
            i <= v@.len(),
            vv == views(v@),
            keys@.len() == sorted@.len(),
            forall|j: int| 0 <= j < sorted@.len() ==> keys@[j] == order_key(#[trigger] sorted@[j]@),
            views(sorted@) == sort_by_key(vv.take(i as int)),
        decreases v.len() - i,
    {
        let x = v[i].copy();
        let m = parse_name(x.name.as_str());
        let k: i64 = match get_local_number(&m) {
            Some(n) => n,
            None => i64::MAX,
        };
        assert(k == order_key(x@));
        let ghost t = views(sorted@);
        proof {
            lemma_insert_by_key(t, x@);
        }
        let mut p: usize = sorted.len();
        assert(t.take(p as int) =~= t);
        while p > 0 && keys[p - 1] > k
            invariant
                p <= sorted@.len(),
                t == views(sorted@),
                keys@.len() == sorted@.len(),
                forall|j: int| 0 <= j < sorted@.len() ==> keys@[j] == order_key(#[trigger] sorted@[j]@),
                insert_pos(t, k as int) == insert_pos(t.take(p as int), k as int),
                forall|j: int| p <= j < t.len() ==> k < order_key(#[trigger] t[j]),
            decreases p,
        {
            assert(t.take(p as int).last() == t[p - 1]);
            assert(t.take(p as int).drop_last() =~= t.take(p - 1));
            p -= 1;
        }
        proof {
            if p > 0 {
                assert(t.take(p as int).last() == t[p - 1]);
                assert(insert_pos(t.take(p as int), k as int) == p);
            } else {
                assert(t.take(0).len() == 0);
            }
        }
        let ghost old_sorted = sorted@;
        let ghost old_keys = keys@;
        sorted.insert(p, x);
        keys.insert(p, k);
        proof {
            assert(vv.take(i + 1).drop_last() =~= vv.take(i as int));
            assert(vv.take(i + 1).last() == v@[i as int]@);
            assert(views(sorted@) =~= t.take(p as int).push(v@[i as int]@) + t.skip(p as int));
            assert forall|j: int| 0 <= j < sorted@.len() implies keys@[j] == order_key(
                #[trigger] sorted@[j]@,
            ) by {
                if j > p {
                    assert(sorted@[j] == old_sorted[j - 1]);
                    assert(keys@[j] == old_keys[j - 1]);
                } else if j < p {
                    assert(sorted@[j] == old_sorted[j]);
                    assert(keys@[j] == old_keys[j]);
                }
            }
        }
        i += 1;
    }
    assert(vv.take(v@.len() as int) =~= vv);
    sorted
}

/// Groups workspaces by set: each set once, in order of first occurrence, with
/// its workspaces ordered as `order` asks.
pub fn set_to_workspaces_ordered(workspaces: &[WsInfo], order: MemberOrder) -> (r: Vec<
    (String, Vec<WsInfo>),
>)
    ensures
        groups_view(r@) == spec_grouped(views(workspaces@), order),
{
    let sets = sets_of(workspaces);
    let keys = keys_of(workspaces, &sets);
    let ghost kv = keys@.map_values(|k: String| k@);
    let ghost target = spec_grouped(views(workspaces@), order);
    let mut r: Vec<(String, Vec<WsInfo>)> = Vec::new();
    let mut j: usize = 0;
    while j < keys.len()
        invariant
            j <= keys@.len(),
            kv == keys@.map_values(|k: String| k@),
            kv == group_keys(views(workspaces@)),
            target == spec_grouped(views(workspaces@), order),
            sets@.len() == workspaces@.len(),
            forall|i: int| 0 <= i < workspaces@.len() ==> #[trigger] sets@[i]@ == set_of(workspaces@[i]@),
            groups_view(r@) == target.take(j as int),
        decreases keys.len() - j,
    {
        let m = members_of(workspaces, &sets, &keys[j]);
        let m = match order {
            MemberOrder::Encounter => m,
            MemberOrder::ByLocalNumber => sort_members(m),
        };
        let key = keys[j].clone();
        assert(key@ == kv[j as int]);
        assert(views(m@) == ordered_members(views(workspaces@), kv[j as int], order));
        let ghost old_r = r@;
        r.push((key, m));
        assert(groups_view(r@) =~= groups_view(old_r).push((kv[j as int], views(m@))));
        assert(target[j as int] == (kv[j as int], ordered_members(views(workspaces@), kv[j as int], order)));
        assert(target.take(j + 1) =~= target.take(j as int).push(target[j as int]));
        j += 1;
    }
    assert(target.take(keys@.len() as int) =~= target);
    r
}

} // verus!
