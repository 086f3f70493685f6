//! The encoded workspace name and its metadata.
//!
//! A workspace name has the form
//! `global_number:⁠D set D :static_name D :dynamic_name D :local_number`, where
//! `D` is the zero-width space `U+200B`; the `:` before a component is only
//! written when something non-empty precedes it.
use vstd::prelude::*;
use crate::text::{
    lacks, lemma_find_is, chars_of, string_of, extend_chars, sub_chars, find_chars, find, strip_prefix_char, occurs_at,
    strip_suffix_char, is_first_occurrence,
};
use crate::num::{is_digit, lemma_parse_int_text, int_text, int_to_chars, parse_i64, parse_i64_chars};

verus! {

/// Separator between the components of an encoded workspace name.
pub const DELIM: char = '\u{200b}';

/// Number of sets a monitor can hold in the global numbering.
pub const MAX_SETS_PER_MONITOR: i64 = 1000;

/// Number of workspaces a set can hold in the global numbering.
pub const MAX_WORKSPACES_PER_SET: i64 = 100;

/// The metadata encoded in a workspace name.
#[derive(Debug)]
pub struct WsMeta {
    pub global_number: Option<i64>,
    pub set: Option<String>,
    pub static_name: Option<String>,
    pub dynamic_name: Option<String>,
    pub local_number: Option<i64>,
}

/// The mathematical model of [`WsMeta`]: its strings as character sequences.
pub struct MetaView {
    pub global_number: Option<i64>,
    pub set: Option<Seq<char>>,
    pub static_name: Option<Seq<char>>,
    pub dynamic_name: Option<Seq<char>>,
    pub local_number: Option<i64>,
}

/// The view of an optional string.
pub open spec fn opt_view(o: Option<String>) -> Option<Seq<char>> {
    match o {
        Some(s) => Some(s@),
        None => None,
    }
}

impl View for WsMeta {
    type V = MetaView;

    open spec fn view(&self) -> MetaView {
        MetaView {
            global_number: self.global_number,
            set: opt_view(self.set),
            static_name: opt_view(self.static_name),
            dynamic_name: opt_view(self.dynamic_name),
            local_number: self.local_number,
        }
    }
}

/// Clones an optional string.
fn clone_opt(o: &Option<String>) -> (r: Option<String>)
    ensures
        opt_view(r) == opt_view(*o),
{
    match o {
        Some(s) => Some(s.clone()),
        None => None,
    }
}

impl WsMeta {
    /// A copy of this metadata.
    pub fn copy(&self) -> (r: WsMeta)
        ensures
            r@ == self@,
    {
        WsMeta {
            global_number: self.global_number,
            set: clone_opt(&self.set),
            static_name: clone_opt(&self.static_name),
            dynamic_name: clone_opt(&self.dynamic_name),
            local_number: self.local_number,
        }
    }
}

// ── small string helpers ─────────────────────────────────────────────────────

/// `s` with every separator character replaced by `%` and one leading `:`
/// removed.
pub open spec fn spec_sanitize(s: Seq<char>) -> Seq<char> {
    strip_prefix_char(s.map_values(|c: char| if c == DELIM { '%' } else { c }), ':')
}

/// Makes arbitrary text safe to store as a static name.
pub fn sanitize(s: &str) -> (r: String)
    ensures
        r@ == spec_sanitize(s@),
{
    let v = chars_of(s);
    let mut out: Vec<char> = Vec::new();
    let mut i: usize = 0;
    let ghost mapped = s@.map_values(|c: char| if c == DELIM { '%' } else { c });
    while i < v.len()
        invariant
            v@ == s@,
            i <= v@.len(),
            mapped == s@.map_values(|c: char| if c == DELIM { '%' } else { c }),
            out@ == mapped.take(i as int),
        decreases v.len() - i,
    {
        let c = v[i];
        if c == DELIM {
            out.push('%');
        } else {
            out.push(c);
        }
        assert(mapped.take(i + 1) =~= mapped.take(i as int).push(mapped[i as int]));
        i += 1;
    }
    assert(mapped.take(v@.len() as int) =~= mapped);
    if out.len() > 0 && out[0] == ':' {
        let t = sub_chars(&out, 1, out.len());
        assert(t@ =~= out@.drop_first());
        string_of(&t)
    } else {
        string_of(&out)
    }
}

/// `s` without one trailing `:`.
pub fn strip_suffix_colon(s: &str) -> (r: &str)
    ensures
        r@ == strip_suffix_char(s@, ':'),
{
    let n = s.unicode_len();
    if n > 0 && s.get_char(n - 1) == ':' {
        let r = s.substring_char(0, n - 1);
        assert(r@ =~= s@.drop_last());
        r
    } else {
        s
    }
}

/// `s` without one leading `:`.
pub fn strip_prefix_colon(s: &str) -> (r: &str)
    ensures
        r@ == strip_prefix_char(s@, ':'),
{
    let n = s.unicode_len();
    if n > 0 && s.get_char(0) == ':' {
        let r = s.substring_char(1, n);
        assert(r@ =~= s@.drop_first());
        r
    } else {
        s
    }
}

fn strip_suffix_colon_chars(v: &[char]) -> (r: Vec<char>)
    ensures
        r@ == strip_suffix_char(v@, ':'),
{
    if v.len() > 0 && v[v.len() - 1] == ':' {
        let r = sub_chars(v, 0, v.len() - 1);
        assert(r@ =~= v@.drop_last());
        r
    } else {
        sub_chars(v, 0, v.len())
    }
}

fn strip_prefix_colon_chars(v: &[char]) -> (r: Vec<char>)
    ensures
        r@ == strip_prefix_char(v@, ':'),
{
    if v.len() > 0 && v[0] == ':' {
        let r = sub_chars(v, 1, v.len());
        assert(r@ =~= v@.drop_first());
        r
    } else {
        sub_chars(v, 0, v.len())
    }
}

// ── parsing ──────────────────────────────────────────────────────────────────

/// `s` split at its first `c` (`str::split_once`).
pub open spec fn split_once(s: Seq<char>, c: char) -> Option<(Seq<char>, Seq<char>)> {
    match find(s, seq![c]) {
        Some(i) => Some((s.take(i), s.skip(i + 1))),
        None => None,
    }
}

/// The metadata of a name that is not in the encoded form.
pub open spec fn plain_meta(s: Seq<char>) -> MetaView {
    MetaView {
        global_number: None,
        set: Some(Seq::empty()),
        static_name: Some(spec_sanitize(s)),
        dynamic_name: None,
        local_number: None,
    }
}

/// The metadata of the five components of an encoded name.
pub open spec fn parts_meta(
    p0: Seq<char>,
    p1: Seq<char>,
    p2: Seq<char>,
    p3: Seq<char>,
    p4: Seq<char>,
) -> MetaView {
    MetaView {
        global_number: if p0.len() == 0 {
            None
        } else {
            parse_i64(strip_suffix_char(p0, ':'))
        },
        set: Some(
            if p1.len() == 0 {
                Seq::empty()
            } else {
                strip_suffix_char(p1, ':')
            },
        ),
        static_name: if p2.len() == 0 {
            None
        } else {
            Some(strip_prefix_char(p2, ':'))
        },
        dynamic_name: if p3.len() == 0 {
            None
        } else {
            Some(strip_prefix_char(p3, ':'))
        },
        local_number: if p4.len() == 0 {
            None
        } else {
            parse_i64(strip_prefix_char(p4, ':'))
        },
    }
}

/// The metadata of a workspace name: its first four separators split it into
/// five components; a name with fewer separators is a plain name.
#[verifier::opaque]
pub open spec fn spec_parse_name(s: Seq<char>) -> MetaView {
    match split_once(s, DELIM) {
        None => plain_meta(s),
        Some((p0, r0)) => match split_once(r0, DELIM) {
            None => plain_meta(s),
            Some((p1, r1)) => match split_once(r1, DELIM) {
                None => plain_meta(s),
                Some((p2, r2)) => match split_once(r2, DELIM) {
                    None => plain_meta(s),
                    Some((p3, p4)) => parts_meta(p0, p1, p2, p3, p4),
                },
            },
        },
    }
}

/// Splits `v` at its first separator.
fn split_once_delim(v: &[char]) -> (r: Option<(Vec<char>, Vec<char>)>)
    ensures
        match r {
            Some((a, b)) => split_once(v@, DELIM) == Some((a@, b@)),
            None => split_once(v@, DELIM) is None,
        },
{
    let d: Vec<char> = vec![DELIM];
    assert(d@ =~= seq![DELIM]);
    match find_chars(v, &d) {
        Some(i) => {
            assert(occurs_at(v@, d@, i as int));
            assert(d@.len() == 1);
            assert(i + 1 <= v@.len());
            assert(v@.len() == v.len());
            let a = sub_chars(v, 0, i);
            let b = sub_chars(v, i + 1, v.len());
            assert(a@ =~= v@.take(i as int));
            assert(b@ =~= v@.skip(i + 1));
            Some((a, b))
        },
        None => None,
    }
}

fn opt_string_of(v: &[char]) -> (r: Option<String>)
    ensures
        opt_view(r) == (if v@.len() == 0 {
            None
        } else {
            Some(strip_prefix_char(v@, ':'))
        }),
{
    if v.len() == 0 {
        None
    } else {
        let t = strip_prefix_colon_chars(v);
        Some(string_of(&t))
    }
}

/// The metadata encoded in a workspace name.
pub fn parse_name(name: &str) -> (r: WsMeta)
    ensures
        r@ == spec_parse_name(name@),
{
    reveal(spec_parse_name);
    let v = chars_of(name);
    let plain = WsMeta {
        global_number: None,
        set: Some(String::new()),
        static_name: Some(sanitize(name)),
        dynamic_name: None,
        local_number: None,
    };
    let (p0, r0) = match split_once_delim(&v) {
        Some(x) => x,
        None => return plain,
    };
    let (p1, r1) = match split_once_delim(&r0) {
        Some(x) => x,
        None => return plain,
    };
    let (p2, r2) = match split_once_delim(&r1) {
        Some(x) => x,
        None => return plain,
    };
    let (p3, p4) = match split_once_delim(&r2) {
        Some(x) => x,
        None => return plain,
    };
    let global_number = if p0.len() == 0 {
        None
    } else {
        let t = strip_suffix_colon_chars(&p0);
        parse_i64_chars(&t)
    };
    let set = if p1.len() == 0 {
        String::new()
    } else {
        let t = strip_suffix_colon_chars(&p1);
        string_of(&t)
    };
    let local_number = if p4.len() == 0 {
        None
    } else {
        let t = strip_prefix_colon_chars(&p4);
        parse_i64_chars(&t)
    };
    let r = WsMeta {
        global_number,
        set: Some(set),
        static_name: opt_string_of(&p2),
        dynamic_name: opt_string_of(&p3),
        local_number,
    };
    assert(r@ == parts_meta(p0@, p1@, p2@, p3@, p4@));
    r
}

// ── building names ───────────────────────────────────────────────────────────

/// Whether an optional string is present and non-empty.
pub open spec fn filled(o: Option<Seq<char>>) -> bool {
    o is Some && o->0.len() > 0
}

/// `s`, preceded by `:` when `need` holds.
pub open spec fn prefixed(need: bool, s: Seq<char>) -> Seq<char> {
    if need {
        seq![':'] + s
    } else {
        s
    }
}

/// The set of a metadata value, the empty set when absent.
pub open spec fn set_or_empty(m: MetaView) -> Seq<char> {
    match m.set {
        Some(s) => s,
        None => Seq::empty(),
    }
}

/// The encoded name of a metadata value with a global number.
pub open spec fn spec_create_name(m: MetaView) -> Seq<char> {
    let set = set_or_empty(m);
    let need0 = set.len() > 0;
    let need1 = need0 || filled(m.static_name);
    let need2 = need1 || filled(m.dynamic_name);
    let local_part = match m.local_number {
        Some(n) => prefixed(need2, int_text(n as int)),
        None => Seq::empty(),
    };
    int_text(m.global_number->0 as int) + seq![':'] + seq![DELIM] + set + seq![DELIM]
        + name_part_text(m.static_name, need0) + seq![DELIM] + name_part_text(
        m.dynamic_name,
        need1,
    ) + seq![DELIM] + local_part
}

fn push_prefixed(out: &mut Vec<char>, need: bool, s: &[char])
    ensures
        final(out)@ == old(out)@ + prefixed(need, s@),
{
    if need {
        out.push(':');
        extend_chars(out, s);
        assert(old(out)@.push(':') + s@ =~= old(out)@ + (seq![':'] + s@));
    } else {
        extend_chars(out, s);
    }
}

/// The text part for an optional name, and whether a later part needs a `:`.
fn name_part(o: &Option<String>, need: bool) -> (r: (Vec<char>, bool))
    ensures
        r.0@ == name_part_text(opt_view(*o), need),
        r.1 == (need || filled(opt_view(*o))),
{
    let mut out: Vec<char> = Vec::new();
    match o {
        Some(s) => {
            let sc = chars_of(s.as_str());
            if sc.len() > 0 {
                push_prefixed(&mut out, need, &sc);
                assert(out@ =~= prefixed(need, sc@));
                (out, true)
            } else {
                (out, need)
            }
        },
        None => (out, need),
    }
}

/// The encoded workspace name of `m`, which must have a global number.
pub fn create_name(m: &WsMeta) -> (r: String)
    requires
        m.global_number is Some,
    ensures
        r@ == spec_create_name(m@),
{
    let gn = match m.global_number {
        Some(g) => g,
        None => 0,
    };
    let set: Vec<char> = match &m.set {
        Some(s) => chars_of(s.as_str()),
        None => Vec::new(),
    };
    assert(set@ == set_or_empty(m@));
    let need0 = set.len() > 0;
    let (static_part, need1) = name_part(&m.static_name, need0);
    let (dynamic_part, need2) = name_part(&m.dynamic_name, need1);
    let mut local_part: Vec<char> = Vec::new();
    match m.local_number {
        Some(n) => {
            let t = int_to_chars(n);
            push_prefixed(&mut local_part, need2, &t);
        },
        None => {},
    }
    let mut out = int_to_chars(gn);
    out.push(':');
    out.push(DELIM);
    extend_chars(&mut out, &set);
    out.push(DELIM);
    extend_chars(&mut out, &static_part);
    out.push(DELIM);
    extend_chars(&mut out, &dynamic_part);
    out.push(DELIM);
    extend_chars(&mut out, &local_part);
    let ghost mv = m@;
    assert(local_part@ =~= match mv.local_number {
        Some(n) => prefixed(need2, int_text(n as int)),
        None => Seq::empty(),
    });
    assert(out@ =~= int_text(gn as int) + seq![':'] + seq![DELIM] + set@ + seq![DELIM]
        + static_part@ + seq![DELIM] + dynamic_part@ + seq![DELIM] + local_part@);
    string_of(&out)
}

// ── global numbering ─────────────────────────────────────────────────────────

/// Integer division rounding toward zero, as Rust's `/` does (`b > 0`).
pub open spec fn trunc_div(a: int, b: int) -> int {
    if a >= 0 {
        a / b
    } else {
        -((-a) / b)
    }
}

/// The remainder of [`trunc_div`], as Rust's `%` gives it (`b > 0`).
pub open spec fn trunc_rem(a: int, b: int) -> int {
    a - b * trunc_div(a, b)
}

/// The global number of local number `l` in set `s` on monitor `m`.
pub open spec fn spec_global_number(m: int, s: int, l: int) -> int {
    m * (MAX_SETS_PER_MONITOR * MAX_WORKSPACES_PER_SET) + s * MAX_WORKSPACES_PER_SET + l
}

/// A global workspace number that overflows `i64`: a monitor index, set
/// index or local number too large for the numbering.
#[derive(Debug)]
pub struct NumberOverflow;

/// Whether computing the global number of (`mi`, `si`, `l`) stays inside
/// `i64` at every step: `mi * 100000`, `si * 100`, their sum, and the total.
pub open spec fn gn_fits(mi: int, si: int, l: int) -> bool {
    &&& i64::MIN <= mi * 100000 <= i64::MAX
    &&& i64::MIN <= si * 100 <= i64::MAX
    &&& i64::MIN <= mi * 100000 + si * 100 <= i64::MAX
    &&& i64::MIN <= spec_global_number(mi, si, l) <= i64::MAX
}

/// The global number of local number `local_number` in set `set_index` on
/// monitor `monitor_index`.
pub fn compute_global_number(monitor_index: i64, set_index: i64, local_number: i64) -> (r: i64)
    requires
        gn_fits(monitor_index as int, set_index as int, local_number as int),
    ensures
        r == spec_global_number(monitor_index as int, set_index as int, local_number as int),
{
    monitor_index * (MAX_SETS_PER_MONITOR * MAX_WORKSPACES_PER_SET) + set_index
        * MAX_WORKSPACES_PER_SET + local_number
}

/// The global number of local number `local_number` in set `set_index` on
/// monitor `monitor_index`, or none when computing it overflows `i64`.
pub fn checked_global_number(monitor_index: i64, set_index: i64, local_number: i64) -> (r: Option<i64>)
    ensures
        r == (if gn_fits(monitor_index as int, set_index as int, local_number as int) {
            Some(spec_global_number(monitor_index as int, set_index as int, local_number as int) as i64)
        } else {
            None
        }),
{
    let a: i128 = monitor_index as i128 * 100000;
    let b: i128 = set_index as i128 * 100;
    let c: i128 = a + b;
    let d: i128 = c + local_number as i128;
    let lo: i128 = i64::MIN as i128;
    let hi: i128 = i64::MAX as i128;
    if lo <= a && a <= hi && lo <= b && b <= hi && lo <= c && c <= hi && lo <= d && d <= hi {
        Some(compute_global_number(monitor_index, set_index, local_number))
    } else {
        None
    }
}

/// The set index that a global number encodes.
pub open spec fn spec_set_index(g: int) -> int {
    trunc_div(trunc_rem(g, MAX_SETS_PER_MONITOR * MAX_WORKSPACES_PER_SET), MAX_WORKSPACES_PER_SET as int)
}

/// The local number that a global number encodes.
pub open spec fn spec_local_of_global(g: int) -> int {
    trunc_rem(g, MAX_WORKSPACES_PER_SET as int)
}

/// The set index that `global_number` encodes.
pub fn global_number_to_set_index(global_number: i64) -> (r: i64)
    ensures
        r == spec_set_index(global_number as int),
{
    global_number % (MAX_SETS_PER_MONITOR * MAX_WORKSPACES_PER_SET) / MAX_WORKSPACES_PER_SET
}

/// The local number that `global_number` encodes.
pub fn global_number_to_local_number(global_number: i64) -> (r: i64)
    ensures
        r == spec_local_of_global(global_number as int),
{
    global_number % MAX_WORKSPACES_PER_SET
}

/// The local number of a workspace: the stored one, else the one its global
/// number encodes.
pub open spec fn spec_local_number(m: MetaView) -> Option<int> {
    match m.local_number {
        Some(n) => Some(n as int),
        None => match m.global_number {
            Some(g) => Some(spec_local_of_global(g as int)),
            None => None,
        },
    }
}

/// The local number of a workspace: the stored one, else the one its global
/// number encodes.
pub fn get_local_number(meta: &WsMeta) -> (r: Option<i64>)
    ensures
        match r {
            Some(n) => spec_local_number(meta@) == Some(n as int),
            None => spec_local_number(meta@) is None,
        },
{
    match meta.local_number {
        Some(n) => Some(n),
        None => match meta.global_number {
            Some(g) => Some(global_number_to_local_number(g)),
            None => None,
        },
    }
}

// ── laws ─────────────────────────────────────────────────────────────────────

/// The metadata that parsing gives back for a created name: an absent set
/// reads as the empty set, and empty names read as absent.
pub open spec fn normalized(m: MetaView) -> MetaView {
    MetaView {
        global_number: m.global_number,
        set: Some(set_or_empty(m)),
        static_name: if filled(m.static_name) {
            m.static_name
        } else {
            None
        },
        dynamic_name: if filled(m.dynamic_name) {
            m.dynamic_name
        } else {
            None
        },
        local_number: m.local_number,
    }
}

/// Whether `s` starts with `:`.
pub open spec fn starts_with_colon(s: Seq<char>) -> bool {
    s.len() > 0 && s[0] == ':'
}

/// The metadata values whose encoded names read back unchanged: the
/// components hold no separator, a non-empty set does not end in `:`, and a
/// name that is written without a leading `:` does not start with one.
pub open spec fn encodable(m: MetaView) -> bool {
    let set = set_or_empty(m);
    let need0 = set.len() > 0;
    let need1 = need0 || filled(m.static_name);
    &&& m.global_number is Some
    &&& lacks(set, DELIM)
    &&& (set.len() > 0 ==> set.last() != ':')
    &&& (filled(m.static_name) ==> lacks(m.static_name->0, DELIM))
    &&& (filled(m.static_name) && !need0 ==> !starts_with_colon(m.static_name->0))
    &&& (filled(m.dynamic_name) ==> lacks(m.dynamic_name->0, DELIM))
    &&& (filled(m.dynamic_name) && !need1 ==> !starts_with_colon(m.dynamic_name->0))
}

/// Splitting `x + [c] + y` at its first `c` gives `x` and `y` when `x` holds
/// no `c`.
pub proof fn lemma_split_once_concat(x: Seq<char>, y: Seq<char>, c: char)
    requires
        lacks(x, c),
    ensures
        split_once(x + seq![c] + y, c) == Some((x, y)),
{
    let s = x + seq![c] + y;
    let i = x.len() as int;
    assert(s.subrange(i, i + 1) =~= seq![c]);
    assert forall|j: int| 0 <= j < i implies !occurs_at(s, seq![c], j) by {
        assert(s.subrange(j, j + 1)[0] == x[j]);
    }
    lemma_find_is(s, seq![c], i);
    assert(s.take(i) =~= x);
    assert(s.skip(i + 1) =~= y);
}

proof fn lemma_int_text_shape(n: i64)
    ensures
        lacks(int_text(n as int), DELIM),
        lacks(int_text(n as int), ':'),
        int_text(n as int).len() > 0,
        parse_i64(int_text(n as int)) == Some(n),
{
    lemma_parse_int_text(n);
    let t = int_text(n as int);
    assert forall|i: int| 0 <= i < t.len() implies t[i] != DELIM && t[i] != ':' by {
        assert(is_digit(t[i]) || t[i] == '-');
    }
}

proof fn lemma_prefixed_lacks(need: bool, s: Seq<char>)
    requires
        lacks(s, DELIM),
    ensures
        lacks(prefixed(need, s), DELIM),
{
    if need {
        let p = prefixed(need, s);
        assert forall|i: int| 0 <= i < p.len() implies p[i] != DELIM by {
            if i > 0 {
                assert(p[i] == s[i - 1]);
            }
        }
    }
}

proof fn lemma_strip_prefixed(need: bool, s: Seq<char>)
    requires
        need || !starts_with_colon(s),
    ensures
        strip_prefix_char(prefixed(need, s), ':') == s,
{
    if need {
        assert((seq![':'] + s).drop_first() =~= s);
    }
}

/// A name made of five components joined by separators, the first four
/// holding none, parses component by component.
pub proof fn lemma_parse_joined(
    a: Seq<char>,
    b: Seq<char>,
    c: Seq<char>,
    d: Seq<char>,
    e: Seq<char>,
)
    requires
        lacks(a, DELIM),
        lacks(b, DELIM),
        lacks(c, DELIM),
        lacks(d, DELIM),
    ensures
        spec_parse_name(a + seq![DELIM] + b + seq![DELIM] + c + seq![DELIM] + d + seq![DELIM] + e)
            == parts_meta(a, b, c, d, e),
{
    let r3 = d + seq![DELIM] + e;
    let r2 = c + seq![DELIM] + r3;
    let r1 = b + seq![DELIM] + r2;
    let name = a + seq![DELIM] + b + seq![DELIM] + c + seq![DELIM] + d + seq![DELIM] + e;
    reveal(spec_parse_name);
    assert(name =~= a + seq![DELIM] + r1);
    lemma_split_once_concat(a, r1, DELIM);
    lemma_split_once_concat(b, r2, DELIM);
    lemma_split_once_concat(c, r3, DELIM);
    lemma_split_once_concat(d, e, DELIM);
}

/// The text part that `create_name` writes for an optional name.
pub open spec fn name_part_text(o: Option<Seq<char>>, need: bool) -> Seq<char> {
    if filled(o) {
        prefixed(need, o->0)
    } else {
        Seq::empty()
    }
}

proof fn lemma_name_part(o: Option<Seq<char>>, need: bool)
    requires
        filled(o) ==> lacks(o->0, DELIM),
        filled(o) && !need ==> !starts_with_colon(o->0),
    ensures
        lacks(name_part_text(o, need), DELIM),
        (if name_part_text(o, need).len() == 0 {
            None
        } else {
            Some(strip_prefix_char(name_part_text(o, need), ':'))
        }) == (if filled(o) {
            o
        } else {
            None::<Seq<char>>
        }),
{
    if filled(o) {
        lemma_prefixed_lacks(need, o->0);
        lemma_strip_prefixed(need, o->0);
        assert(name_part_text(o, need).len() > 0);
    }
}

/// Parsing the name that `create_name` builds gives back the metadata, up to
/// [`normalized`], for every [`encodable`] metadata value.
pub proof fn lemma_parse_create_roundtrip(m: MetaView)
    requires
        encodable(m),
    ensures
        spec_parse_name(spec_create_name(m)) == normalized(m),
{
    let gn = m.global_number->0;
    let set = set_or_empty(m);
    let need0 = set.len() > 0;
    let a = int_text(gn as int) + seq![':'];
    let need1 = need0 || filled(m.static_name);
    let need2 = need1 || filled(m.dynamic_name);
    let static_part = name_part_text(m.static_name, need0);
    let dynamic_part = name_part_text(m.dynamic_name, need1);
    let local_part = match m.local_number {
        Some(n) => prefixed(need2, int_text(n as int)),
        None => Seq::empty(),
    };
    lemma_int_text_shape(gn);
    assert(lacks(a, DELIM));
    lemma_name_part(m.static_name, need0);
    lemma_name_part(m.dynamic_name, need1);
    assert(spec_create_name(m) == a + seq![DELIM] + set + seq![DELIM] + static_part + seq![DELIM]
        + dynamic_part + seq![DELIM] + local_part);
    lemma_parse_joined(a, set, static_part, dynamic_part, local_part);
    let pm = parts_meta(a, set, static_part, dynamic_part, local_part);
    let nm = normalized(m);
    assert(strip_suffix_char(a, ':') =~= int_text(gn as int));
    assert(pm.global_number == nm.global_number);
    match m.local_number {
        Some(n) => {
            lemma_int_text_shape(n);
            assert(!starts_with_colon(int_text(n as int)));
            lemma_strip_prefixed(need2, int_text(n as int));
            assert(local_part.len() > 0);
        },
        None => {},
    }
    assert(pm.local_number == nm.local_number);
    if set.len() > 0 {
        assert(strip_suffix_char(set, ':') == set);
    }
    assert(pm.set == nm.set);
    assert(pm.static_name == nm.static_name);
    assert(pm.dynamic_name == nm.dynamic_name);
}

/// A separator at index `q` of `s`: splitting `s` at its first separator
/// leaves the separators after index `q` in the rest.
proof fn lemma_split_at_or_before(s: Seq<char>, q: int)
    requires
        0 <= q < s.len(),
        s[q] == DELIM,
    ensures
        split_once(s, DELIM) matches Some((a, b)) && a.len() <= q && b == s.skip(a.len() as int + 1)
            && a == s.take(a.len() as int),
{
    assert(s.subrange(q, q + 1) =~= seq![DELIM]);
    crate::text::lemma_find_some(s, seq![DELIM], q);
}

/// Text with three separators splits three times over.
proof fn lemma_three_separators(b: Seq<char>, c: Seq<char>, e: Seq<char>, f: Seq<char>)
    ensures
        split_once(b + seq![DELIM] + c + seq![DELIM] + e + seq![DELIM] + f, DELIM) matches Some((p1, r1))
            && split_once(r1, DELIM) matches Some((p2, r2)) && split_once(r2, DELIM) is Some,
{
    let d = seq![DELIM];
    let r0 = b + d + c + d + e + d + f;
    assert(r0[b.len() as int] == DELIM);
    lemma_split_at_or_before(r0, b.len() as int);
    let (p1, r1) = split_once(r0, DELIM)->0;
    let i1 = p1.len() as int;
    let q2 = b.len() + c.len() - i1;
    assert(r1[q2] == r0[b.len() as int + 1 + c.len()]);
    lemma_split_at_or_before(r1, q2);
    let (p2, r2) = split_once(r1, DELIM)->0;
    let i2 = p2.len() as int;
    let q3 = q2 + e.len() - i2;
    assert(r2[q3] == r1[q2 + 1 + e.len() as int]);
    lemma_split_at_or_before(r2, q3);
}

/// A name whose first separator follows `a`, and whose rest splits three
/// more times, holds the global number that `a` holds.
proof fn lemma_global_part(name: Seq<char>, a: Seq<char>, r0: Seq<char>)
    requires
        split_once(name, DELIM) == Some((a, r0)),
        split_once(r0, DELIM) matches Some((p1, r1)) && split_once(r1, DELIM) matches Some((p2, r2))
            && split_once(r2, DELIM) is Some,
        a.len() > 0,
    ensures
        spec_parse_name(name).global_number == parse_i64(strip_suffix_char(a, ':')),
{
    reveal(spec_parse_name);
}

/// The layout of an encoded name: the global number and `:`, then the rest
/// after the first separator.
proof fn lemma_name_layout(m: MetaView)
    requires
        m.global_number is Some,
    ensures
        spec_create_name(m) == (int_text(m.global_number->0 as int) + seq![':']) + seq![DELIM] + (
        set_or_empty(m) + seq![DELIM] + name_part_text(m.static_name, set_or_empty(m).len() > 0)
            + seq![DELIM] + name_part_text(
            m.dynamic_name,
            set_or_empty(m).len() > 0 || filled(m.static_name),
        ) + seq![DELIM] + match m.local_number {
            Some(n) => prefixed(
                set_or_empty(m).len() > 0 || filled(m.static_name) || filled(m.dynamic_name),
                int_text(n as int),
            ),
            None => Seq::empty(),
        }),
{
    let x = spec_create_name(m);
    let y = (int_text(m.global_number->0 as int) + seq![':']) + seq![DELIM] + (
    set_or_empty(m) + seq![DELIM] + name_part_text(m.static_name, set_or_empty(m).len() > 0)
        + seq![DELIM] + name_part_text(
        m.dynamic_name,
        set_or_empty(m).len() > 0 || filled(m.static_name),
    ) + seq![DELIM] + match m.local_number {
        Some(n) => prefixed(
            set_or_empty(m).len() > 0 || filled(m.static_name) || filled(m.dynamic_name),
            int_text(n as int),
        ),
        None => Seq::empty(),
    });
    assert(x =~= y);
}

/// The global number of every encoded name reads back, whatever its other
/// components hold.
pub proof fn lemma_created_global_number(m: MetaView)
    requires
        m.global_number is Some,
    ensures
        spec_parse_name(spec_create_name(m)).global_number == m.global_number,
{
    let gn = m.global_number->0;
    let set = set_or_empty(m);
    let c = name_part_text(m.static_name, set.len() > 0);
    let e = name_part_text(m.dynamic_name, set.len() > 0 || filled(m.static_name));
    let f = match m.local_number {
        Some(n) => prefixed(
            set.len() > 0 || filled(m.static_name) || filled(m.dynamic_name),
            int_text(n as int),
        ),
        None => Seq::empty(),
    };
    let a = int_text(gn as int) + seq![':'];
    let r0 = set + seq![DELIM] + c + seq![DELIM] + e + seq![DELIM] + f;
    lemma_name_layout(m);
    lemma_int_text_shape(gn);
    assert(lacks(a, DELIM)) by {
        assert forall|i: int| 0 <= i < a.len() implies a[i] != DELIM by {
            if i < a.len() - 1 {
                assert(a[i] == int_text(gn as int)[i]);
            }
        }
    }
    lemma_split_once_concat(a, r0, DELIM);
    lemma_three_separators(set, c, e, f);
    assert(strip_suffix_char(a, ':') =~= int_text(gn as int));
    lemma_global_part(spec_create_name(m), a, r0);
}

/// The global number of local number `l` in set `s` on monitor `m` encodes
/// `s` and `l` back, for every monitor, set and local number in range.
pub proof fn lemma_global_number_roundtrip(m: int, s: int, l: int)
    requires
        0 <= m,
        0 <= s < MAX_SETS_PER_MONITOR,
        0 <= l < MAX_WORKSPACES_PER_SET,
    ensures
        spec_set_index(spec_global_number(m, s, l)) == s,
        spec_local_of_global(spec_global_number(m, s, l)) == l,
{
    let g = spec_global_number(m, s, l);
    assert(g >= 0) by (nonlinear_arith)
        requires
            g == m * 100000 + s * 100 + l,
            0 <= m,
            0 <= s,
            0 <= l,
    ;
    assert(g % 100000 == s * 100 + l) by (nonlinear_arith)
        requires
            g == m * 100000 + s * 100 + l,
            0 <= m,
            0 <= s < 1000,
            0 <= l < 100,
    ;
    assert((s * 100 + l) / 100 == s) by (nonlinear_arith)
        requires
            0 <= s < 1000,
            0 <= l < 100,
    ;
    assert(g % 100 == l) by (nonlinear_arith)
        requires
            g == m * 100000 + s * 100 + l,
            0 <= m,
            0 <= s < 1000,
            0 <= l < 100,
    ;
}

/// Global numbers order workspaces by monitor, then by set, then by local
/// number: the workspaces of a set with a lower index come first on their
/// monitor, which is what makes the first set the active one.
pub proof fn lemma_global_number_order(m1: int, s1: int, l1: int, m2: int, s2: int, l2: int)
    requires
        0 <= m1,
        0 <= m2,
        0 <= s1 < MAX_SETS_PER_MONITOR,
        0 <= s2 < MAX_SETS_PER_MONITOR,
        0 <= l1 < MAX_WORKSPACES_PER_SET,
        0 <= l2 < MAX_WORKSPACES_PER_SET,
    ensures
        spec_global_number(m1, s1, l1) < spec_global_number(m2, s2, l2) <==> (m1 < m2 || (m1 == m2
            && s1 < s2) || (m1 == m2 && s1 == s2 && l1 < l2)),
{
    let a = s1 * 100 + l1;
    let b = s2 * 100 + l2;
    assert(0 <= a < 100000 && 0 <= b < 100000);
    assert(a < b <==> (s1 < s2 || (s1 == s2 && l1 < l2))) by (nonlinear_arith)
        requires
            a == s1 * 100 + l1,
            b == s2 * 100 + l2,
            0 <= l1 < 100,
            0 <= l2 < 100,
    ;
    assert(m1 * 100000 + a < m2 * 100000 + b <==> (m1 < m2 || (m1 == m2 && a < b))) by (nonlinear_arith)
        requires
            0 <= a < 100000,
            0 <= b < 100000,
    ;
}

/// The text before the first `c` holds no `c`.
proof fn lemma_split_head_lacks(s: Seq<char>, c: char)
    requires
        split_once(s, c) is Some,
    ensures
        match split_once(s, c) {
            Some((a, b)) => lacks(a, c),
            None => true,
        },
{
    let i = choose|i: int| is_first_occurrence(s, seq![c], i);
    assert(find(s, seq![c]) == Some(i));
    assert forall|j: int| 0 <= j < s.take(i).len() implies s.take(i)[j] != c by {
        assert(!occurs_at(s, seq![c], j));
        if s[j] == c {
            assert(s.subrange(j, j + 1) =~= seq![c]);
        }
    }
}

proof fn lemma_strip_keeps_lacks(s: Seq<char>, c: char, d: char)
    requires
        lacks(s, c),
    ensures
        lacks(strip_prefix_char(s, d), c),
        lacks(strip_suffix_char(s, d), c),
{
    assert forall|i: int| 0 <= i < strip_prefix_char(s, d).len() implies strip_prefix_char(s, d)[i]
        != c by {
        if s.len() > 0 && s[0] == d {
            assert(strip_prefix_char(s, d)[i] == s[i + 1]);
        }
    }
    assert forall|i: int| 0 <= i < strip_suffix_char(s, d).len() implies strip_suffix_char(s, d)[i]
        != c by {
        assert(strip_suffix_char(s, d)[i] == s[i]);
    }
}

/// The set and the static name read from any workspace name hold no
/// separator.
pub proof fn lemma_parsed_parts_lack_delim(name: Seq<char>)
    ensures
        lacks(set_or_empty(spec_parse_name(name)), DELIM),
        filled(spec_parse_name(name).static_name) ==> lacks(spec_parse_name(name).static_name->0, DELIM),
{
    reveal(spec_parse_name);
    lemma_sanitize_lacks_delim(name);
    if let Some((p0, r0)) = split_once(name, DELIM) {
        if let Some((p1, r1)) = split_once(r0, DELIM) {
            lemma_split_head_lacks(r0, DELIM);
            lemma_strip_keeps_lacks(p1, DELIM, ':');
            if let Some((p2, r2)) = split_once(r1, DELIM) {
                lemma_split_head_lacks(r1, DELIM);
                lemma_strip_keeps_lacks(p2, DELIM, ':');
            }
        }
    }
}

/// The static name read back from an encoded name is the one written (an
/// empty one reads back as absent), whatever the other components, as long
/// as the set and the names hold no separator and a static name written
/// without a leading `:` does not start with one.
pub proof fn lemma_static_name_roundtrip(m: MetaView)
    requires
        m.global_number is Some,
        lacks(set_or_empty(m), DELIM),
        filled(m.static_name) ==> lacks(m.static_name->0, DELIM),
        filled(m.static_name) && set_or_empty(m).len() == 0 ==> !starts_with_colon(m.static_name->0),
        filled(m.dynamic_name) ==> lacks(m.dynamic_name->0, DELIM),
    ensures
        spec_parse_name(spec_create_name(m)).static_name == (if filled(m.static_name) {
            m.static_name
        } else {
            None
        }),
{
    let gn = m.global_number->0;
    let set = set_or_empty(m);
    let need0 = set.len() > 0;
    let a = int_text(gn as int) + seq![':'];
    let need1 = need0 || filled(m.static_name);
    let need2 = need1 || filled(m.dynamic_name);
    let static_part = name_part_text(m.static_name, need0);
    let dynamic_part = name_part_text(m.dynamic_name, need1);
    let local_part = match m.local_number {
        Some(n) => prefixed(need2, int_text(n as int)),
        None => Seq::empty(),
    };
    lemma_int_text_shape(gn);
    assert(lacks(a, DELIM));
    lemma_name_part(m.static_name, need0);
    if filled(m.dynamic_name) {
        lemma_prefixed_lacks(need1, m.dynamic_name->0);
    }
    assert(lacks(dynamic_part, DELIM));
    assert(spec_create_name(m) == a + seq![DELIM] + set + seq![DELIM] + static_part + seq![DELIM]
        + dynamic_part + seq![DELIM] + local_part);
    lemma_parse_joined(a, set, static_part, dynamic_part, local_part);
}

/// Sanitized text holds no separator.
pub proof fn lemma_sanitize_lacks_delim(s: Seq<char>)
    ensures
        lacks(spec_sanitize(s), DELIM),
{
    let t = s.map_values(|c: char| if c == DELIM { '%' } else { c });
    assert(lacks(t, DELIM));
    if t.len() > 0 && t[0] == ':' {
        assert forall|i: int| 0 <= i < t.drop_first().len() implies t.drop_first()[i] != DELIM by {
            assert(t.drop_first()[i] == t[i + 1]);
        }
    }
}

} // verus!
