//! The polybar module: its options and its text.
use vstd::prelude::*;
use crate::text::{chars_of, string_of, extend_chars, extend_str, sub_chars, has_suffix, ends_with};
use crate::num::{int_text, push_int, is_digit, is_ascii_digit};
use crate::meta::{spec_parse_name, parse_name, get_local_number, trunc_div};
use crate::workspace::{WsInfo, WsView, views, set_of, set_of_name, group_keys, members};
use crate::cli::strs;
use crate::nav::{first_focused, find_focused};
use crate::session::{display_name, local_or_zero};
use crate::sets::str_eq;

verus! {

/// The polybar options: colours for workspaces on other monitors and for
/// the focused workspace, and whether inactive sets are shortened.
#[derive(Debug)]
pub struct PolybarOpts {
    pub color_external_monitor: String,
    pub color_current_ws: String,
    pub shorthand: bool,
}

/// Scans the polybar arguments from index `i`: `-c COLOR`, `-e COLOR` and
/// `-s`; anything else is skipped.
pub open spec fn scan_polybar(
    args: Seq<Seq<char>>,
    i: int,
    ext: Seq<char>,
    cur: Seq<char>,
    sh: bool,
) -> (Seq<char>, Seq<char>, bool)
    decreases args.len() + 1 - i,
{
    if i < 0 || i >= args.len() {
        (ext, cur, sh)
    } else if args[i] == "-c"@ {
        if i + 1 < args.len() {
            scan_polybar(args, i + 2, ext, args[i + 1], sh)
        } else {
            scan_polybar(args, i + 2, ext, cur, sh)
        }
    } else if args[i] == "-e"@ {
        if i + 1 < args.len() {
            scan_polybar(args, i + 2, args[i + 1], cur, sh)
        } else {
            scan_polybar(args, i + 2, ext, cur, sh)
        }
    } else if args[i] == "-s"@ {
        scan_polybar(args, i + 1, ext, cur, true)
    } else {
        scan_polybar(args, i + 1, ext, cur, sh)
    }
}

/// `-e COLOR` sets the colour of other monitors and `-c COLOR` that of the
/// focused workspace, whatever the colours are, and `-s` turns shorthand
/// on; without arguments there are no colours and no shorthand.
pub proof fn lemma_polybar_opts_read(ext: Seq<char>, cur: Seq<char>)
    ensures
        scan_polybar(seq!["-e"@, ext, "-c"@, cur, "-s"@], 0, Seq::empty(), Seq::empty(), false) == (
            ext,
            cur,
            true,
        ),
        scan_polybar(Seq::empty(), 0, Seq::empty(), Seq::empty(), false) == (
            Seq::<char>::empty(),
            Seq::<char>::empty(),
            false,
        ),
{
    reveal_strlit("-c");
    reveal_strlit("-e");
    reveal_strlit("-s");
    let a = seq!["-e"@, ext, "-c"@, cur, "-s"@];
    assert("-e"@ != "-c"@) by {
        assert("-e"@[1] != "-c"@[1]);
    }
    assert("-s"@ != "-c"@ && "-s"@ != "-e"@) by {
        assert("-s"@[1] != "-c"@[1]);
        assert("-s"@[1] != "-e"@[1]);
    }
    assert(scan_polybar(a, 5, ext, cur, true) == (ext, cur, true));
    assert(scan_polybar(a, 4, ext, cur, false) == (ext, cur, true));
    assert(scan_polybar(a, 2, ext, Seq::empty(), false) == (ext, cur, true));
    assert(scan_polybar(a, 0, Seq::empty(), Seq::empty(), false) == (ext, cur, true));
}

/// Parses the polybar options: `-c COLOR` (focused workspace), `-e COLOR`
/// (other monitors), `-s` (shorthand).
pub fn parse_polybar_opts(args: &[String]) -> (r: PolybarOpts)
    ensures
        (r.color_external_monitor@, r.color_current_ws@, r.shorthand) == scan_polybar(
            strs(args@),
            0,
            Seq::empty(),
            Seq::empty(),
            false,
        ),
{
    let ghost av = strs(args@);
    let mut o = PolybarOpts {
        color_external_monitor: String::new(),
        color_current_ws: String::new(),
        shorthand: false,
    };
    let mut i: usize = 0;
    while i < args.len()
        invariant
            av == strs(args@),
            i <= args@.len(),
            scan_polybar(av, i as int, o.color_external_monitor@, o.color_current_ws@, o.shorthand)
                == scan_polybar(av, 0, Seq::empty(), Seq::empty(), false),
        decreases args.len() - i,
    {
        assert(av[i as int] == args@[i as int]@);
        let c = str_eq(args[i].as_str(), "-c");
        let e = str_eq(args[i].as_str(), "-e");
        if c || e {
            if i + 1 < args.len() {
                assert(av[i + 1] == args@[i + 1]@);
                if c {
                    o.color_current_ws = args[i + 1].clone();
                } else {
                    o.color_external_monitor = args[i + 1].clone();
                }
                i += 2;
            } else {
                let ghost oi = i as int;
                assert(scan_polybar(av, oi + 2, o.color_external_monitor@, o.color_current_ws@, o.shorthand)
                    == (o.color_external_monitor@, o.color_current_ws@, o.shorthand));
                i = args.len();
            }
        } else {
            if str_eq(args[i].as_str(), "-s") {
                o.shorthand = true;
            }
            i += 1;
        }
    }
    o
}

// ── the text ────────────────────────────────────────────────────────────────

/// A set as the polybar commands name it: the shown name `default` stands
/// for the default set.
pub open spec fn strip_default(d: Seq<char>) -> Seq<char> {
    if d == "default"@ {
        Seq::empty()
    } else {
        d
    }
}

/// The command that focuses local number `n` of set `set`.
pub open spec fn ows(n: int, set: Seq<char>) -> Seq<char> {
    "swi3-groups workspace-number "@ + int_text(n) + " --group-name \""@ + strip_default(set)
        + "\""@
}

/// The command that switches to set `set`.
pub open spec fn ch_st(set: Seq<char>) -> Seq<char> {
    "swi3-groups switch-active-group \""@ + strip_default(set) + "\""@
}

/// The index of the first ASCII digit of `d` at or after `i`, else its length.
pub open spec fn first_digit_from(d: Seq<char>, i: int) -> int
    decreases d.len() - i,
{
    if i < 0 || i >= d.len() {
        d.len() as int
    } else if is_digit(d[i]) {
        i
    } else {
        first_digit_from(d, i + 1)
    }
}

/// The end of the run of ASCII digits of `d` that starts at `i`.
pub open spec fn digit_end_from(d: Seq<char>, i: int) -> int
    decreases d.len() - i,
{
    if i < 0 || i >= d.len() {
        d.len() as int
    } else if is_digit(d[i]) {
        digit_end_from(d, i + 1)
    } else {
        i
    }
}

/// `d` with its first run of digits shown in colour `color`.
pub open spec fn colored(d: Seq<char>, color: Seq<char>) -> Seq<char> {
    let k = first_digit_from(d, 0);
    if k >= d.len() {
        d
    } else {
        let e = digit_end_from(d, k);
        d.take(k) + "%{F"@ + color + "}"@ + d.subrange(k, e) + "%{F-}"@ + d.skip(e)
    }
}

/// A clickable item showing `display` that focuses local number `n` of set
/// `set`; on a monitor other than the first, its number is coloured.
pub open spec fn txt_item(ext: Seq<char>, display: Seq<char>, set: Seq<char>, n: int, g: int) -> Seq<
    char,
> {
    let body = if trunc_div(g, 100000) == 0 || ext.len() == 0 {
        display
    } else {
        colored(display, ext)
    };
    "%{A1:"@ + ows(n, set) + ":}"@ + body + "%{A}"@
}

/// Whether `d` holds an ASCII digit.
pub open spec fn has_digit(d: Seq<char>) -> bool {
    exists|i: int| 0 <= i < d.len() && is_digit(d[i])
}

proof fn lemma_first_digit(d: Seq<char>, i: int)
    requires
        0 <= i <= d.len(),
    ensures
        i <= first_digit_from(d, i) <= d.len(),
        first_digit_from(d, i) < d.len() <==> exists|k: int| i <= k < d.len() && is_digit(d[k]),
        first_digit_from(d, i) < d.len() ==> is_digit(d[first_digit_from(d, i)]),
    decreases d.len() - i,
{
    if i < d.len() && !is_digit(d[i]) {
        lemma_first_digit(d, i + 1);
    }
}

proof fn lemma_digit_end(d: Seq<char>, i: int)
    requires
        0 <= i <= d.len(),
    ensures
        i <= digit_end_from(d, i) <= d.len(),
    decreases d.len() - i,
{
    if i < d.len() && is_digit(d[i]) {
        lemma_digit_end(d, i + 1);
    }
}

/// An item on a monitor other than the first (global number / 100000 not
/// zero) shows its number in the external-monitor colour, when that colour
/// is set and its label holds a number: the colour codes `%{F<colour>}` and
/// `%{F-}` add exactly `colour.len() + 9` characters to the uncoloured item.
/// Items on the first monitor, or without a colour, are never coloured.
pub proof fn lemma_item_colour(ext: Seq<char>, d: Seq<char>, set: Seq<char>, n: int, g: int)
    ensures
        txt_item(ext, d, set, n, g).len() == txt_item(Seq::empty(), d, set, n, g).len() + (if ext.len()
            > 0 && trunc_div(g, 100000) != 0 && has_digit(d) {
            ext.len() + 9
        } else {
            0
        }),
        (ext.len() == 0 || trunc_div(g, 100000) == 0) ==> txt_item(ext, d, set, n, g) == txt_item(
            Seq::empty(),
            d,
            set,
            n,
            g,
        ),
{
    lemma_first_digit(d, 0);
    let k = first_digit_from(d, 0);
    if k < d.len() {
        lemma_digit_end(d, k);
        let e = digit_end_from(d, k);
        reveal_strlit("%{F");
        reveal_strlit("}");
        reveal_strlit("%{F-}");
        assert(colored(d, ext).len() == k + 3 + ext.len() + 1 + (e - k) + 5 + (d.len() - e));
    }
}

/// The options as plain values.
pub struct OptsView {
    pub ext: Seq<char>,
    pub cur: Seq<char>,
    pub shorthand: bool,
}

/// The items of a set from position `j` on: the focused workspace
/// highlighted; every workspace of the active set (or of every set, without
/// shorthand) shown; otherwise runs of consecutive numbers shortened to
/// `first-last`.
pub open spec fn pb_body(
    items: Seq<(int, int)>,
    j: int,
    prev_local: int,
    prev_long: int,
    seq_count: int,
    ds: Seq<char>,
    is_current_set: bool,
    cur_local: int,
    o: OptsView,
) -> Seq<char>
    decreases items.len() - j,
{
    if j < 0 || j >= items.len() {
        Seq::empty()
    } else {
        let n = items[j].0;
        let g = items[j].1;
        let last_local = items.last().0;
        let next_seq = if n == cur_local && is_current_set {
            seq_count
        } else if is_current_set || !o.shorthand {
            seq_count
        } else if j == 0 {
            seq_count
        } else if n > prev_local + 1 {
            1
        } else if n == last_local {
            seq_count
        } else {
            seq_count + 1
        };
        let piece = if n == cur_local && is_current_set {
            "%{u#a3be8c}%{+u} %{F"@ + o.cur + "}"@ + txt_item(o.ext, int_text(n), ds, n, g)
                + "%{F-} %{-u}"@
        } else if is_current_set || !o.shorthand {
            txt_item(o.ext, " "@ + int_text(n) + " "@, ds, n, g)
        } else if j == 0 {
            txt_item(o.ext, " "@ + int_text(n), ds, n, g)
        } else if n > prev_local + 1 {
            (if seq_count > 2 {
                txt_item(o.ext, "-"@ + int_text(prev_local), ds, prev_local, prev_long)
            } else if seq_count == 2 {
                txt_item(o.ext, ", "@ + int_text(prev_local), ds, prev_local, prev_long)
            } else {
                Seq::empty()
            }) + txt_item(o.ext, ", "@ + int_text(n), ds, n, g)
        } else if n == last_local {
            if seq_count > 1 {
                txt_item(o.ext, "-"@ + int_text(n), ds, n, g)
            } else {
                txt_item(o.ext, ", "@ + int_text(n), ds, n, g)
            }
        } else {
            Seq::empty()
        };
        piece + pb_body(items, j + 1, n, g, next_seq, ds, is_current_set, cur_local, o)
    }
}

/// Every item from position `j` on, each written in full: ` n `, or, when
/// `highlight` holds, the focused one (local number `cur_local`) underlined
/// in the focused colour.
pub open spec fn every_item(
    items: Seq<(int, int)>,
    j: int,
    ds: Seq<char>,
    highlight: bool,
    cur_local: int,
    o: OptsView,
) -> Seq<char>
    decreases items.len() - j,
{
    if j < 0 || j >= items.len() {
        Seq::empty()
    } else {
        let n = items[j].0;
        let g = items[j].1;
        (if highlight && n == cur_local {
            "%{u#a3be8c}%{+u} %{F"@ + o.cur + "}"@ + txt_item(o.ext, int_text(n), ds, n, g)
                + "%{F-} %{-u}"@
        } else {
            txt_item(o.ext, " "@ + int_text(n) + " "@, ds, n, g)
        }) + every_item(items, j + 1, ds, highlight, cur_local, o)
    }
}

/// The active set, and without shorthand every set, lists all its
/// workspaces one by one, and only in the active set is the focused one
/// highlighted; nothing is shortened.
pub proof fn lemma_full_listing(
    items: Seq<(int, int)>,
    j: int,
    prev_local: int,
    prev_long: int,
    seq_count: int,
    ds: Seq<char>,
    is_current_set: bool,
    cur_local: int,
    o: OptsView,
)
    requires
        is_current_set || !o.shorthand,
    ensures
        pb_body(items, j, prev_local, prev_long, seq_count, ds, is_current_set, cur_local, o) == every_item(
            items,
            j,
            ds,
            is_current_set,
            cur_local,
            o,
        ),
    decreases items.len() - j,
{
    if 0 <= j < items.len() {
        lemma_full_listing(items, j + 1, items[j].0, items[j].1, seq_count, ds, is_current_set, cur_local, o);
    }
}

/// The global number shown for a workspace, 0 when it has none.
pub open spec fn global_or_zero(w: WsView) -> int {
    match spec_parse_name(w.name).global_number {
        Some(g) => g as int,
        None => 0,
    }
}

/// The (local number, global number) pairs of the workspaces of a set.
pub open spec fn set_items(ws: Seq<WsView>, set: Seq<char>) -> Seq<(int, int)> {
    members(ws, set).map_values(|w: WsView| (local_or_zero(w), global_or_zero(w)))
}

/// The section of one set: its clickable name, then its items.
pub open spec fn pb_section(
    ws: Seq<WsView>,
    set: Seq<char>,
    cur_set: Seq<char>,
    cur_local: int,
    o: OptsView,
) -> Seq<char> {
    pb_section_of(set, set_items(ws, set), cur_set, cur_local, o)
}

/// The section of set `set` with items `items`.
pub open spec fn pb_section_of(
    set: Seq<char>,
    items: Seq<(int, int)>,
    cur_set: Seq<char>,
    cur_local: int,
    o: OptsView,
) -> Seq<char> {
    let ds = display_name(set);
    "%{A1:"@ + ch_st(ds) + ":}"@ + ds + ":%{A}"@ + (if items.len() == 0 {
        Seq::empty()
    } else {
        pb_body(items, 0, items[0].0, items[0].1, 1, ds, set == cur_set, cur_local, o)
    }) + " | "@
}

/// The sections of the sets `keys`, in order.
pub open spec fn pb_sections(
    ws: Seq<WsView>,
    keys: Seq<Seq<char>>,
    cur_set: Seq<char>,
    cur_local: int,
    o: OptsView,
) -> Seq<char>
    decreases keys.len(),
{
    if keys.len() == 0 {
        Seq::empty()
    } else {
        pb_sections(ws, keys.drop_last(), cur_set, cur_local, o) + pb_section(
            ws,
            keys.last(),
            cur_set,
            cur_local,
            o,
        )
    }
}

/// `s` without one trailing ` | `.
pub open spec fn strip_bar(s: Seq<char>) -> Seq<char> {
    if has_suffix(s, " | "@) {
        s.take(s.len() - 3)
    } else {
        s
    }
}

/// The polybar text of workspaces `ws`.
pub open spec fn spec_polybar_text(ws: Seq<WsView>, o: OptsView) -> Seq<char> {
    let (cur_set, cur_local) = match first_focused(ws) {
        Some(i) => (set_of(ws[i]), local_or_zero(ws[i])),
        None => (Seq::empty(), 0),
    };
    strip_bar(pb_sections(ws, group_keys(ws), cur_set, cur_local, o))
}

// ── runs of consecutive numbers ─────────────────────────────────────────────

/// The index at which the run of consecutive local numbers that starts at
/// index `i` of `items` ends.
pub open spec fn run_end(items: Seq<(int, int)>, i: int) -> int
    decreases items.len() - i,
{
    if 0 <= i && i + 1 < items.len() && items[i + 1].0 == items[i].0 + 1 {
        run_end(items, i + 1)
    } else {
        i
    }
}

/// A run ends at or after its start, inside the items.
pub proof fn lemma_run_end_bounds(items: Seq<(int, int)>, i: int)
    requires
        0 <= i < items.len(),
    ensures
        i <= run_end(items, i) < items.len(),
        forall|k: int| i <= k < run_end(items, i) ==> items[k + 1].0 == #[trigger] items[k].0 + 1,
        run_end(items, i) + 1 < items.len() ==> items[run_end(items, i) + 1].0 != items[run_end(
            items,
            i,
        )].0 + 1,
    decreases items.len() - i,
{
    if i + 1 < items.len() && items[i + 1].0 == items[i].0 + 1 {
        lemma_run_end_bounds(items, i + 1);
    }
}

/// The maximal runs of consecutive local numbers in `items` from index `i`
/// on, each as its first and last index.
pub open spec fn runs_from(items: Seq<(int, int)>, i: int) -> Seq<(int, int)>
    decreases items.len() - i,
{
    if i < 0 || i >= items.len() {
        Seq::empty()
    } else {
        proof {
            lemma_run_end_bounds(items, i);
        }
        seq![(i, run_end(items, i))] + runs_from(items, run_end(items, i) + 1)
    }
}

/// The maximal runs of consecutive local numbers in `items`.
pub open spec fn runs(items: Seq<(int, int)>) -> Seq<(int, int)> {
    runs_from(items, 0)
}

/// The shorthand text of the run from index `a` to index `b`: its first
/// number (after a space for the first run, a comma for the others), then
/// `-last` for a run of three or more, `, last` for a run of two.
pub open spec fn run_text(
    items: Seq<(int, int)>,
    a: int,
    b: int,
    first: bool,
    ds: Seq<char>,
    o: OptsView,
) -> Seq<char> {
    let lead = if first {
        " "@
    } else {
        ", "@
    };
    txt_item(o.ext, lead + int_text(items[a].0), ds, items[a].0, items[a].1) + (if b - a + 1 >= 3 {
        txt_item(o.ext, "-"@ + int_text(items[b].0), ds, items[b].0, items[b].1)
    } else if b - a + 1 == 2 {
        txt_item(o.ext, ", "@ + int_text(items[b].0), ds, items[b].0, items[b].1)
    } else {
        Seq::empty()
    })
}

/// The shorthand text of the runs of `items` from index `i` on.
pub open spec fn shorthand_from(
    items: Seq<(int, int)>,
    i: int,
    first: bool,
    ds: Seq<char>,
    o: OptsView,
) -> Seq<char>
    decreases items.len() - i,
{
    if i < 0 || i >= items.len() {
        Seq::empty()
    } else {
        proof {
            lemma_run_end_bounds(items, i);
        }
        run_text(items, i, run_end(items, i), first, ds, o) + shorthand_from(
            items,
            run_end(items, i) + 1,
            false,
            ds,
            o,
        )
    }
}

/// Whether the local numbers of `items` strictly increase.
pub open spec fn increasing(items: Seq<(int, int)>) -> bool {
    forall|a: int, b: int| 0 <= a < b < items.len() ==> items[a].0 < items[b].0
}

/// What the section writes for item `j > 0` of a set other than the focused
/// one, in shorthand, given the previous item and the length of the run so
/// far.
pub open spec fn sh_piece(
    items: Seq<(int, int)>,
    j: int,
    prev_local: int,
    prev_long: int,
    seq_count: int,
    ds: Seq<char>,
    o: OptsView,
) -> Seq<char> {
    let n = items[j].0;
    let g = items[j].1;
    if n > prev_local + 1 {
        (if seq_count > 2 {
            txt_item(o.ext, "-"@ + int_text(prev_local), ds, prev_local, prev_long)
        } else if seq_count == 2 {
            txt_item(o.ext, ", "@ + int_text(prev_local), ds, prev_local, prev_long)
        } else {
            Seq::empty()
        }) + txt_item(o.ext, ", "@ + int_text(n), ds, n, g)
    } else if n == items.last().0 {
        if seq_count > 1 {
            txt_item(o.ext, "-"@ + int_text(n), ds, n, g)
        } else {
            txt_item(o.ext, ", "@ + int_text(n), ds, n, g)
        }
    } else {
        Seq::empty()
    }
}

/// The run length after item `j > 0`, as [`sh_piece`] counts it.
pub open spec fn sh_next(items: Seq<(int, int)>, j: int, prev_local: int, seq_count: int) -> int {
    let n = items[j].0;
    if n > prev_local + 1 {
        1
    } else if n == items.last().0 {
        seq_count
    } else {
        seq_count + 1
    }
}

proof fn lemma_pb_step(
    items: Seq<(int, int)>,
    j: int,
    prev_local: int,
    prev_long: int,
    seq_count: int,
    ds: Seq<char>,
    cur_local: int,
    o: OptsView,
)
    requires
        o.shorthand,
        0 < j < items.len(),
    ensures
        pb_body(items, j, prev_local, prev_long, seq_count, ds, false, cur_local, o) == sh_piece(
            items,
            j,
            prev_local,
            prev_long,
            seq_count,
            ds,
            o,
        ) + pb_body(
            items,
            j + 1,
            items[j].0,
            items[j].1,
            sh_next(items, j, prev_local, seq_count),
            ds,
            false,
            cur_local,
            o,
        ),
{
}

/// How a run from `a` to `b` ends after its first number.
pub open spec fn run_fin(items: Seq<(int, int)>, a: int, b: int, ds: Seq<char>, o: OptsView) -> Seq<char> {
    if b - a + 1 >= 3 {
        txt_item(o.ext, "-"@ + int_text(items[b].0), ds, items[b].0, items[b].1)
    } else if b - a + 1 == 2 {
        txt_item(o.ext, ", "@ + int_text(items[b].0), ds, items[b].0, items[b].1)
    } else {
        Seq::empty()
    }
}

proof fn lemma_run_text_split(items: Seq<(int, int)>, a: int, b: int, first: bool, ds: Seq<char>, o: OptsView)
    ensures
        run_text(items, a, b, first, ds, o) == txt_item(
            o.ext,
            (if first {
                " "@
            } else {
                ", "@
            }) + int_text(items[a].0),
            ds,
            items[a].0,
            items[a].1,
        ) + run_fin(items, a, b, ds, o),
{
}

/// The rest of a run that started at `s`, from index `j` on, as the section
/// writes it: the end of that run, then the later runs.
#[verifier::rlimit(100)]
proof fn lemma_body_in_run(
    items: Seq<(int, int)>,
    s: int,
    j: int,
    ds: Seq<char>,
    cur_local: int,
    o: OptsView,
)
    requires
        o.shorthand,
        increasing(items),
        0 <= s < j <= items.len(),
        j < items.len() || j == s + 1,
        run_end(items, s) == run_end(items, j - 1),
        forall|k: int| s <= k < j - 1 ==> items[k + 1].0 == #[trigger] items[k].0 + 1,
    ensures
        pb_body(items, j, items[j - 1].0, items[j - 1].1, j - s, ds, false, cur_local, o) == run_fin(
            items,
            s,
            run_end(items, s),
            ds,
            o,
        ) + shorthand_from(items, run_end(items, s) + 1, false, ds, o),
    decreases items.len() - j,
{
    lemma_run_end_bounds(items, s);
    lemma_run_end_bounds(items, j - 1);
    let e = run_end(items, s);
    let m = items.len() as int;
    if j == m {
        assert(e == s);
        assert(shorthand_from(items, e + 1, false, ds, o) == Seq::<char>::empty());
        assert(run_fin(items, s, e, ds, o) == Seq::<char>::empty());
        assert(pb_body(items, j, items[j - 1].0, items[j - 1].1, j - s, ds, false, cur_local, o)
            == Seq::<char>::empty());
    } else {
        let n = items[j].0;
        let prev = items[j - 1].0;
        assert(prev < n);
        lemma_pb_step(items, j, prev, items[j - 1].1, j - s, ds, cur_local, o);
        if n > prev + 1 {
            assert(e == j - 1);
            lemma_run_end_bounds(items, j);
            let e2 = run_end(items, j);
            lemma_run_text_split(items, j, e2, false, ds, o);
            assert(shorthand_from(items, j, false, ds, o) == run_text(items, j, e2, false, ds, o)
                + shorthand_from(items, e2 + 1, false, ds, o));
            lemma_body_in_run(items, j, j + 1, ds, cur_local, o);
            assert(sh_piece(items, j, prev, items[j - 1].1, j - s, ds, o) == run_fin(items, s, e, ds, o)
                + txt_item(o.ext, ", "@ + int_text(n), ds, n, items[j].1));
            assert(run_fin(items, s, e, ds, o) + txt_item(o.ext, ", "@ + int_text(n), ds, n, items[j].1)
                + (run_fin(items, j, e2, ds, o) + shorthand_from(items, e2 + 1, false, ds, o)) =~= run_fin(
                items,
                s,
                e,
                ds,
                o,
            ) + (run_text(items, j, e2, false, ds, o) + shorthand_from(items, e2 + 1, false, ds, o)));
        } else {
            assert(n == prev + 1);
            if j == m - 1 {
                assert(e == j);
                assert(shorthand_from(items, e + 1, false, ds, o) == Seq::<char>::empty());
                assert(pb_body(items, j + 1, n, items[j].1, j - s, ds, false, cur_local, o)
                    == Seq::<char>::empty());
                assert(sh_piece(items, j, prev, items[j - 1].1, j - s, ds, o) == run_fin(items, s, e, ds, o));
                assert(run_fin(items, s, e, ds, o) + Seq::<char>::empty() =~= run_fin(items, s, e, ds, o));
                assert(run_fin(items, s, e, ds, o) + shorthand_from(items, e + 1, false, ds, o) =~= run_fin(
                    items,
                    s,
                    e,
                    ds,
                    o,
                ));
            } else {
                assert(items[j].0 < items[m - 1].0);
                assert(run_end(items, j - 1) == run_end(items, j));
                lemma_body_in_run(items, s, j + 1, ds, cur_local, o);
                assert(sh_piece(items, j, prev, items[j - 1].1, j - s, ds, o) == Seq::<char>::empty());
                assert(Seq::<char>::empty() + (run_fin(items, s, e, ds, o) + shorthand_from(
                    items,
                    e + 1,
                    false,
                    ds,
                    o,
                )) =~= run_fin(items, s, e, ds, o) + shorthand_from(items, e + 1, false, ds, o));
            }
        }
    }
}

/// In shorthand, a set other than the focused one lists its runs of
/// consecutive local numbers (which increase, as the window manager orders
/// them): each run writes its first number, then `-last` when it holds three
/// or more numbers and `, last` when it holds two.
pub proof fn lemma_shorthand_runs(items: Seq<(int, int)>, ds: Seq<char>, cur_local: int, o: OptsView)
    requires
        o.shorthand,
        increasing(items),
        items.len() > 0,
    ensures
        pb_body(items, 0, items[0].0, items[0].1, 1, ds, false, cur_local, o) == shorthand_from(
            items,
            0,
            true,
            ds,
            o,
        ),
{
    lemma_run_end_bounds(items, 0);
    let e = run_end(items, 0);
    let head = txt_item(o.ext, " "@ + int_text(items[0].0), ds, items[0].0, items[0].1);
    lemma_run_text_split(items, 0, e, true, ds, o);
    assert(pb_body(items, 0, items[0].0, items[0].1, 1, ds, false, cur_local, o) == head + pb_body(
        items,
        1,
        items[0].0,
        items[0].1,
        1,
        ds,
        false,
        cur_local,
        o,
    ));
    lemma_body_in_run(items, 0, 1, ds, cur_local, o);
    assert(head + (run_fin(items, 0, e, ds, o) + shorthand_from(items, e + 1, false, ds, o)) =~= run_text(
        items,
        0,
        e,
        true,
        ds,
        o,
    ) + shorthand_from(items, e + 1, false, ds, o));
}

fn strip_default_exec(d: &Vec<char>) -> (r: Vec<char>)
    ensures
        r@ == strip_default(d@),
{
    let dv = chars_of("default");
    if crate::text::chars_eq(d, &dv) {
        Vec::new()
    } else {
        sub_chars(d, 0, d.len())
    }
}

fn push_ows(out: &mut Vec<char>, n: i64, set: &Vec<char>)
    ensures
        final(out)@ == old(out)@ + ows(n as int, set@),
{
    extend_str(out, "swi3-groups workspace-number ");
    push_int(out, n);
    extend_str(out, " --group-name \"");
    let s = strip_default_exec(set);
    extend_chars(out, &s);
    extend_str(out, "\"");
    assert(out@ =~= old(out)@ + ows(n as int, set@));
}

fn push_colored(out: &mut Vec<char>, d: &Vec<char>, color: &Vec<char>)
    ensures
        final(out)@ == old(out)@ + colored(d@, color@),
{
    let mut k: usize = 0;
    while k < d.len() && !is_ascii_digit(d[k])
        invariant
            k <= d@.len(),
            first_digit_from(d@, 0) == first_digit_from(d@, k as int),
        decreases d.len() - k,
    {
        k += 1;
    }
    if k >= d.len() {
        extend_chars(out, d);
        return;
    }
    let mut e: usize = k;
    while e < d.len() && is_ascii_digit(d[e])
        invariant
            k <= e <= d@.len(),
            digit_end_from(d@, k as int) == digit_end_from(d@, e as int),
        decreases d.len() - e,
    {
        e += 1;
    }
    let pre = sub_chars(d, 0, k);
    let run = sub_chars(d, k, e);
    let post = sub_chars(d, e, d.len());
    extend_chars(out, &pre);
    extend_str(out, "%{F");
    extend_chars(out, color);
    extend_str(out, "}");
    extend_chars(out, &run);
    extend_str(out, "%{F-}");
    extend_chars(out, &post);
    assert(pre@ =~= d@.take(k as int));
    assert(post@ =~= d@.skip(e as int));
    assert(out@ =~= old(out)@ + colored(d@, color@));
}

fn push_txt_item(out: &mut Vec<char>, ext: &Vec<char>, display: &Vec<char>, set: &Vec<char>, n: i64, g: i64)
    ensures
        final(out)@ == old(out)@ + txt_item(ext@, display@, set@, n as int, g as int),
{
    extend_str(out, "%{A1:");
    push_ows(out, n, set);
    extend_str(out, ":}");
    let screen = g / 100000;
    let ghost mid = out@;
    if screen == 0 || ext.len() == 0 {
        extend_chars(out, display);
    } else {
        push_colored(out, display, ext);
    }
    extend_str(out, "%{A}");
    assert(out@ =~= old(out)@ + txt_item(ext@, display@, set@, n as int, g as int));
}

fn text_with(prefix: &str, n: i64, suffix: &str) -> (r: Vec<char>)
    ensures
        r@ == prefix@ + int_text(n as int) + suffix@,
{
    let mut v: Vec<char> = Vec::new();
    extend_str(&mut v, prefix);
    push_int(&mut v, n);
    extend_str(&mut v, suffix);
    assert(v@ =~= prefix@ + int_text(n as int) + suffix@);
    v
}

proof fn lemma_empty_strs()
    ensures
        ""@ == Seq::<char>::empty(),
{
    reveal_strlit("");
}

/// Appends the items of one set (locals `locals`, globals `globals`).
fn push_body(
    out: &mut Vec<char>,
    locals: &Vec<i64>,
    globals: &Vec<i64>,
    ds: &Vec<char>,
    is_current_set: bool,
    cur_local: i64,
    o: &PolybarOpts,
)
    requires
        locals@.len() == globals@.len(),
        locals@.len() > 0,
    ensures
        final(out)@ == old(out)@ + pb_body(
            locals@.map_values(|x: i64| x as int).zip_with(globals@.map_values(|x: i64| x as int)),
            0,
            locals@[0] as int,
            globals@[0] as int,
            1,
            ds@,
            is_current_set,
            cur_local as int,
            OptsView { ext: o.color_external_monitor@, cur: o.color_current_ws@, shorthand: o.shorthand },
        ),
{
    let ghost items = locals@.map_values(|x: i64| x as int).zip_with(
        globals@.map_values(|x: i64| x as int),
    );
    let ghost ov = OptsView {
        ext: o.color_external_monitor@,
        cur: o.color_current_ws@,
        shorthand: o.shorthand,
    };
    let ext = chars_of(o.color_external_monitor.as_str());
    let count = locals.len();
    let last_local = locals[count - 1];
    let mut prev_local = locals[0];
    let mut prev_long = globals[0];
    let mut seq_count: usize = 1;
    let ghost start = old(out)@;
    let ghost total = pb_body(items, 0, locals@[0] as int, globals@[0] as int, 1, ds@, is_current_set, cur_local as int, ov);
    let mut j: usize = 0;
    while j < count
        invariant
            count == locals@.len(),
            locals@.len() == globals@.len(),
            count > 0,
            last_local == locals@[count - 1],
            j <= count,
            1 <= seq_count <= j + 1,
            items == locals@.map_values(|x: i64| x as int).zip_with(globals@.map_values(|x: i64| x as int)),
            ext@ == ov.ext,
            ov == (OptsView { ext: o.color_external_monitor@, cur: o.color_current_ws@, shorthand: o.shorthand }),
            out@ + pb_body(items, j as int, prev_local as int, prev_long as int, seq_count as int, ds@, is_current_set, cur_local as int, ov)
                == start + total,
        decreases count - j,
    {
        let n = locals[j];
        let g = globals[j];
        assert(items[j as int] == (n as int, g as int));
        assert(items.last() == (last_local as int, globals@[count - 1] as int));
        let ghost before = out@;
        let ghost rest_before = pb_body(items, j as int, prev_local as int, prev_long as int, seq_count as int, ds@, is_current_set, cur_local as int, ov);
        if n == cur_local && is_current_set {
            extend_str(out, "%{u#a3be8c}%{+u} %{F");
            extend_str(out, o.color_current_ws.as_str());
            extend_str(out, "}");
            let t = text_with("", n, "");
            proof {
                lemma_empty_strs();
            }
            assert(t@ =~= int_text(n as int));
            push_txt_item(out, &ext, &t, ds, n, g);
            extend_str(out, "%{F-} %{-u}");
        } else if is_current_set || !o.shorthand {
            let t = text_with(" ", n, " ");
            push_txt_item(out, &ext, &t, ds, n, g);
        } else if j == 0 {
            let t = text_with(" ", n, "");
            proof {
                lemma_empty_strs();
            }
            assert(t@ =~= " "@ + int_text(n as int));
            push_txt_item(out, &ext, &t, ds, n, g);
        } else if (n as i128) > (prev_local as i128) + 1 {
            if seq_count > 2 {
                let t = text_with("-", prev_local, "");
                proof {
                    lemma_empty_strs();
                }
                assert(t@ =~= "-"@ + int_text(prev_local as int));
                push_txt_item(out, &ext, &t, ds, prev_local, prev_long);
            } else if seq_count == 2 {
                let t = text_with(", ", prev_local, "");
                proof {
                    lemma_empty_strs();
                }
                assert(t@ =~= ", "@ + int_text(prev_local as int));
                push_txt_item(out, &ext, &t, ds, prev_local, prev_long);
            }
            let ghost mid = out@;
            let t = text_with(", ", n, "");
            proof {
                lemma_empty_strs();
            }
            assert(t@ =~= ", "@ + int_text(n as int));
            push_txt_item(out, &ext, &t, ds, n, g);
            seq_count = 1;
        } else if n == last_local {
            if seq_count > 1 {
                let t = text_with("-", n, "");
                proof {
                    lemma_empty_strs();
                }
                assert(t@ =~= "-"@ + int_text(n as int));
                push_txt_item(out, &ext, &t, ds, n, g);
            } else {
                let t = text_with(", ", n, "");
                proof {
                    lemma_empty_strs();
                }
                assert(t@ =~= ", "@ + int_text(n as int));
                push_txt_item(out, &ext, &t, ds, n, g);
            }
        } else {
            seq_count += 1;
        }
        assert(out@ + pb_body(items, j + 1, n as int, g as int, seq_count as int, ds@, is_current_set, cur_local as int, ov)
            =~= before + rest_before);
        prev_local = n;
        prev_long = g;
        j += 1;
    }
    assert(pb_body(items, j as int, prev_local as int, prev_long as int, seq_count as int, ds@, is_current_set, cur_local as int, ov)
        == Seq::<char>::empty());
    assert(out@ =~= start + total);
}

/// The local and global numbers (0 when missing) of the workspaces `gws`.
fn section_numbers(gws: &Vec<WsInfo>) -> (r: (Vec<i64>, Vec<i64>))
    ensures
        r.0@.len() == gws@.len(),
        r.1@.len() == gws@.len(),
        r.0@.map_values(|x: i64| x as int).zip_with(r.1@.map_values(|x: i64| x as int))
            == views(gws@).map_values(|w: WsView| (local_or_zero(w), global_or_zero(w))),
{
    let mut locals: Vec<i64> = Vec::new();
    let mut globals: Vec<i64> = Vec::new();
    let ghost gv = views(gws@);
    let mut j: usize = 0;
    while j < gws.len()
        invariant
            j <= gws@.len(),
            gv == views(gws@),
            locals@.len() == j,
            globals@.len() == j,
            locals@.map_values(|x: i64| x as int).zip_with(globals@.map_values(|x: i64| x as int))
                == gv.map_values(|w: WsView| (local_or_zero(w), global_or_zero(w))).take(j as int),
        decreases gws.len() - j,
    {
        assert(gv[j as int] == gws@[j as int]@);
        let m = parse_name(gws[j].name.as_str());
        let l: i64 = match get_local_number(&m) {
            Some(n) => n,
            None => 0,
        };
        let g: i64 = match m.global_number {
            Some(x) => x,
            None => 0,
        };
        locals.push(l);
        globals.push(g);
        assert(locals@.map_values(|x: i64| x as int).zip_with(globals@.map_values(|x: i64| x as int))
            =~= gv.map_values(|w: WsView| (local_or_zero(w), global_or_zero(w))).take(j + 1));
        j += 1;
    }
    let ghost items = gv.map_values(|w: WsView| (local_or_zero(w), global_or_zero(w)));
    assert(items.take(gws@.len() as int) =~= items);
    (locals, globals)
}

/// Appends the section of one set, whose workspaces are `gws`.
#[verifier::rlimit(60)]
fn push_section(
    out: &mut Vec<char>,
    set: &String,
    gws: &Vec<WsInfo>,
    cur_set: &String,
    cur_local: i64,
    opts: &PolybarOpts,
)
    ensures
        final(out)@ == old(out)@ + pb_section_of(
            set@,
            views(gws@).map_values(|w: WsView| (local_or_zero(w), global_or_zero(w))),
            cur_set@,
            cur_local as int,
            OptsView { ext: opts.color_external_monitor@, cur: opts.color_current_ws@, shorthand: opts.shorthand },
        ),
{
    let ghost ov = OptsView {
        ext: opts.color_external_monitor@,
        cur: opts.color_current_ws@,
        shorthand: opts.shorthand,
    };
    let sv = chars_of(set.as_str());
    let ds = if sv.len() == 0 {
        chars_of("default")
    } else {
        sv
    };
    assert(ds@ == display_name(set@));
    let ghost before = out@;
    extend_str(out, "%{A1:");
    extend_str(out, "swi3-groups switch-active-group \"");
    let sd = strip_default_exec(&ds);
    extend_chars(out, &sd);
    extend_str(out, "\"");
    extend_str(out, ":}");
    extend_chars(out, &ds);
    extend_str(out, ":%{A}");
    let ghost head = out@;
    assert(head =~= before + "%{A1:"@ + ch_st(ds@) + ":}"@ + ds@ + ":%{A}"@);
    let (locals, globals) = section_numbers(gws);
    let ghost gv = views(gws@);
    let ghost items = gv.map_values(|w: WsView| (local_or_zero(w), global_or_zero(w)));
    let is_current_set = str_eq(set.as_str(), cur_set.as_str());
    if locals.len() > 0 {
        push_body(out, &locals, &globals, &ds, is_current_set, cur_local, opts);
    }
    let ghost mid = out@;
    extend_str(out, " | ");
    assert(out@ =~= before + pb_section_of(set@, items, cur_set@, cur_local as int, ov));
}

/// The polybar text: for each set, in order of first occurrence, its
/// clickable name and its workspaces; sets separated by ` | `.
pub fn polybar_text(ws: &[WsInfo], opts: &PolybarOpts) -> (r: String)
    ensures
        r@ == spec_polybar_text(
            views(ws@),
            OptsView {
                ext: opts.color_external_monitor@,
                cur: opts.color_current_ws@,
                shorthand: opts.shorthand,
            },
        ),
{
    let ghost wv = views(ws@);
    let ghost ov = OptsView {
        ext: opts.color_external_monitor@,
        cur: opts.color_current_ws@,
        shorthand: opts.shorthand,
    };
    let (cur_set, cur_local): (String, i64) = match find_focused(ws) {
        Some(i) => {
            assert(wv[i as int] == ws@[i as int]@);
            let m = parse_name(ws[i].name.as_str());
            let l: i64 = match get_local_number(&m) {
                Some(n) => n,
                None => 0,
            };
            (set_of_name(ws[i].name.as_str()), l)
        },
        None => (String::new(), 0),
    };
    let groups = crate::workspace::set_to_workspaces_ordered(ws, crate::workspace::MemberOrder::Encounter);
    let ghost keys = group_keys(wv);
    assert(crate::workspace::groups_view(groups@).len() == keys.len());
    assert(groups@.len() == keys.len());
    let mut out: Vec<char> = Vec::new();
    let mut k: usize = 0;
    while k < groups.len()
        invariant
            k <= groups@.len(),
            wv == views(ws@),
            crate::workspace::groups_view(groups@) == crate::workspace::spec_grouped(wv, crate::workspace::MemberOrder::Encounter),
            keys == group_keys(wv),
            groups@.len() == keys.len(),
            ov == (OptsView { ext: opts.color_external_monitor@, cur: opts.color_current_ws@, shorthand: opts.shorthand }),
            out@ == pb_sections(wv, keys.take(k as int), cur_set@, cur_local as int, ov),
        decreases groups.len() - k,
    {
        let ghost gk = crate::workspace::groups_view(groups@)[k as int];
        assert(gk == crate::workspace::spec_grouped(wv, crate::workspace::MemberOrder::Encounter)[k as int]);
        assert(gk.0 == groups@[k as int].0@);
        assert(gk.0 == keys[k as int]);
        assert(gk.1 == views(groups@[k as int].1@));
        assert(gk.1 == members(wv, keys[k as int]));
        let ghost before = out@;
        push_section(&mut out, &groups[k].0, &groups[k].1, &cur_set, cur_local, opts);
        assert(set_items(wv, groups@[k as int].0@) == views(groups@[k as int].1@).map_values(
            |w: WsView| (local_or_zero(w), global_or_zero(w)),
        ));
        assert(keys.take(k + 1).drop_last() =~= keys.take(k as int));
        assert(keys.take(k + 1).last() == keys[k as int]);
        assert(out@ =~= before + pb_section(wv, keys[k as int], cur_set@, cur_local as int, ov));
        k += 1;
    }
    assert(keys.take(groups@.len() as int) =~= keys);
    let bar = chars_of(" | ");
    proof {
        reveal_strlit(" | ");
    }
    if ends_with(&out, &bar) {
        let t = sub_chars(&out, 0, out.len() - 3);
        assert(t@ =~= out@.take(out@.len() - 3));
        string_of(&t)
    } else {
        string_of(&out)
    }
}

} // verus!
