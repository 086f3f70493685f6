//! The interactive menus: the launcher command line, the menu contents, and
//! what a choice means.
use vstd::prelude::*;
use crate::text::{
    chars_of, string_of, extend_chars, extend_str, sub_chars, split_whitespace, words, trim,
    trim_chars, trim_end, trim_end_chars, join, join_chars, chars_eq, find_chars, find, occurs_at, lacks, lemma_find_is,
    is_first_occurrence,
};
use crate::num::{parse_i64, parse_i64_chars, int_to_chars, int_text, is_digit, lemma_parse_int_text};
use crate::meta::{spec_parse_name, parse_name, get_local_number, spec_local_number, set_or_empty};
use crate::workspace::{WsInfo, WsView, views, group_keys, set_to_workspaces_ordered, MemberOrder, groups_view};
use crate::cli::strs;
use crate::sets::str_eq;
use crate::session::opt_int_text;

verus! {

/// A launcher command line: the program and its arguments.
#[derive(Debug)]
pub struct MenuCmd {
    pub cmd: String,
    pub args: Vec<String>,
}

/// The arguments and program of the launcher, for menu backend `backend`.
pub open spec fn spec_build_menu(
    prompt: Seq<char>,
    mesg: Seq<char>,
    theme: Seq<char>,
    focused_output: Option<Seq<char>>,
    backend: Seq<char>,
) -> Option<(Seq<char>, Seq<Seq<char>>)> {
    let w = words(backend);
    let head = if w.len() > 0 {
        w[0]
    } else {
        Seq::empty()
    };
    if head == "rofi"@ {
        let base = seq!["-dmenu"@, "-p"@, prompt, "-kb-cancel"@, "Escape"@];
        let with_out = match focused_output {
            Some(o) => if o.len() > 0 {
                base + seq!["-monitor"@, o]
            } else {
                base
            },
            None => base,
        };
        let with_theme = if theme.len() > 0 {
            with_out + seq!["-theme-str"@, theme]
        } else {
            with_out
        };
        let with_mesg = if mesg.len() > 0 {
            with_theme + seq!["-mesg"@, mesg]
        } else {
            with_theme
        };
        Some(("rofi"@, with_mesg))
    } else if head == "wofi"@ {
        Some(("wofi"@, seq!["--dmenu"@, "--prompt"@, prompt]))
    } else if head == "fuzzel"@ {
        Some(("fuzzel"@, seq!["--dmenu"@, "--prompt"@, prompt]))
    } else if head == "dmenu"@ {
        Some(("dmenu"@, seq!["-p"@, prompt]))
    } else if w.len() == 0 {
        None
    } else {
        Some((w[0], w.skip(1)))
    }
}

fn push_str_arg(args: &mut Vec<String>, s: &str)
    ensures
        strs(final(args)@) == strs(old(args)@).push(s@),
{
    let ghost before = args@;
    args.push(string_of(&chars_of(s)));
    assert(strs(args@) =~= strs(before).push(s@));
}

/// The launcher command line for menu backend `backend` (the value of the
/// menu override, or the first launcher found): rofi, wofi, fuzzel and dmenu
/// get their dmenu-mode options; any other command runs as given, split at
/// whitespace. None when `backend` holds no word.
pub fn build_menu(
    prompt: &str,
    mesg: &str,
    theme: &str,
    focused_output: Option<&str>,
    backend: &str,
) -> (r: Option<MenuCmd>)
    ensures
        r is Some <==> spec_build_menu(prompt@, mesg@, theme@, crate::nav::opt_str(focused_output), backend@) is Some,
        r is Some ==> (r->0.cmd@, strs(r->0.args@)) == spec_build_menu(
            prompt@,
            mesg@,
            theme@,
            crate::nav::opt_str(focused_output),
            backend@,
        )->0,
{
    let bv = chars_of(backend);
    let w = split_whitespace(&bv);
    let ghost ww = words(backend@);
    let head: Vec<char> = if w.len() > 0 {
        sub_chars(&w[0], 0, w[0].len())
    } else {
        Vec::new()
    };
    assert(head@ == (if ww.len() > 0 {
        ww[0]
    } else {
        Seq::<char>::empty()
    }));
    let mut args: Vec<String> = Vec::new();
    if chars_eq(&head, &chars_of("rofi")) {
        push_str_arg(&mut args, "-dmenu");
        push_str_arg(&mut args, "-p");
        push_str_arg(&mut args, prompt);
        push_str_arg(&mut args, "-kb-cancel");
        push_str_arg(&mut args, "Escape");
        let ghost base = strs(args@);
        assert(base =~= seq!["-dmenu"@, "-p"@, prompt@, "-kb-cancel"@, "Escape"@]);
        match focused_output {
            Some(out) => {
                if out.unicode_len() > 0 {
                    push_str_arg(&mut args, "-monitor");
                    push_str_arg(&mut args, out);
                    assert(strs(args@) =~= base + seq!["-monitor"@, out@]);
                }
            },
            None => {},
        }
        let ghost with_out = strs(args@);
        if theme.unicode_len() > 0 {
            push_str_arg(&mut args, "-theme-str");
            push_str_arg(&mut args, theme);
            assert(strs(args@) =~= with_out + seq!["-theme-str"@, theme@]);
        }
        let ghost with_theme = strs(args@);
        if mesg.unicode_len() > 0 {
            push_str_arg(&mut args, "-mesg");
            push_str_arg(&mut args, mesg);
            assert(strs(args@) =~= with_theme + seq!["-mesg"@, mesg@]);
        }
        Some(MenuCmd { cmd: string_of(&chars_of("rofi")), args })
    } else if chars_eq(&head, &chars_of("wofi")) {
        push_str_arg(&mut args, "--dmenu");
        push_str_arg(&mut args, "--prompt");
        push_str_arg(&mut args, prompt);
        assert(strs(args@) =~= seq!["--dmenu"@, "--prompt"@, prompt@]);
        Some(MenuCmd { cmd: string_of(&chars_of("wofi")), args })
    } else if chars_eq(&head, &chars_of("fuzzel")) {
        push_str_arg(&mut args, "--dmenu");
        push_str_arg(&mut args, "--prompt");
        push_str_arg(&mut args, prompt);
        assert(strs(args@) =~= seq!["--dmenu"@, "--prompt"@, prompt@]);
        Some(MenuCmd { cmd: string_of(&chars_of("fuzzel")), args })
    } else if chars_eq(&head, &chars_of("dmenu")) {
        push_str_arg(&mut args, "-p");
        push_str_arg(&mut args, prompt);
        assert(strs(args@) =~= seq!["-p"@, prompt@]);
        Some(MenuCmd { cmd: string_of(&chars_of("dmenu")), args })
    } else if w.len() == 0 {
        None
    } else {
        let cmd = string_of(&w[0]);
        let mut k: usize = 1;
        while k < w.len()
            invariant
                1 <= k <= w@.len(),
                w@.len() == ww.len(),
                forall|t: int| 0 <= t < w@.len() ==> #[trigger] w@[t]@ == ww[t],
                strs(args@) == ww.skip(1).take(k - 1),
            decreases w.len() - k,
        {
            let ghost before = args@;
            args.push(string_of(&w[k]));
            assert(strs(args@) =~= strs(before).push(ww[k as int]));
            assert(ww.skip(1).take(k as int) =~= ww.skip(1).take(k - 1).push(ww[k as int]));
            k += 1;
        }
        assert(ww.skip(1).take(w@.len() - 1) =~= ww.skip(1));
        Some(MenuCmd { cmd, args })
    }
}

/// The menu launchers tried, in order, when no override is set.
pub fn menu_candidates() -> (r: Vec<&'static str>)
    ensures
        r@.len() == 4,
        r@[0]@ == "rofi"@,
        r@[1]@ == "wofi"@,
        r@[2]@ == "fuzzel"@,
        r@[3]@ == "dmenu"@,
{
    vec!["rofi", "wofi", "fuzzel", "dmenu"]
}

/// The menu override, when it holds more than whitespace.
pub fn menu_override(value: Option<&str>) -> (r: Option<String>)
    ensures
        r is Some <==> (value is Some && trim(value->0@).len() > 0),
        r is Some ==> r->0@ == value->0@,
{
    match value {
        Some(v) => {
            let t = trim_chars(&chars_of(v));
            if t.len() > 0 {
                Some(string_of(&chars_of(v)))
            } else {
                None
            }
        },
        None => None,
    }
}

/// What a launcher printed: the text without its trailing newlines; none
/// when that is empty.
pub open spec fn spec_menu_choice(out: Seq<char>) -> Option<Seq<char>> {
    let t = strip_newlines(out);
    if t.len() == 0 {
        None
    } else {
        Some(t)
    }
}

/// `s` without its trailing newlines.
pub open spec fn strip_newlines(s: Seq<char>) -> Seq<char>
    decreases s.len(),
{
    if s.len() > 0 && s.last() == '\n' {
        strip_newlines(s.drop_last())
    } else {
        s
    }
}

/// A launcher that prints a choice followed by any number of newlines gives
/// that choice, when it is not empty and does not itself end in a newline;
/// one that prints only newlines gives none.
pub proof fn lemma_menu_choice_read(choice: Seq<char>, k: nat)
    requires
        choice.len() == 0 || choice.last() != '\n',
    ensures
        spec_menu_choice(choice + Seq::new(k, |i: int| '\n')) == (if choice.len() == 0 {
            None
        } else {
            Some(choice)
        }),
    decreases k,
{
    let s = choice + Seq::new(k, |i: int| '\n');
    if k == 0 {
        assert(s =~= choice);
    } else {
        lemma_menu_choice_read(choice, (k - 1) as nat);
        assert(s.drop_last() =~= choice + Seq::new((k - 1) as nat, |i: int| '\n'));
        assert(s.last() == '\n');
    }
}

/// The choice that a launcher printed; none when it printed nothing but
/// newlines.
pub fn menu_choice(out: &str) -> (r: Option<String>)
    ensures
        r is Some <==> spec_menu_choice(out@) is Some,
        r is Some ==> r->0@ == spec_menu_choice(out@)->0,
{
    let v = chars_of(out);
    let mut n = v.len();
    assert(v@.take(n as int) =~= v@);
    while n > 0 && v[n - 1] == '\n'
        invariant
            n <= v@.len(),
            strip_newlines(v@) == strip_newlines(v@.take(n as int)),
        decreases n,
    {
        assert(v@.take(n as int).drop_last() =~= v@.take(n - 1));
        n -= 1;
    }
    let t = sub_chars(&v, 0, n);
    assert(t@ =~= v@.take(n as int));
    if t.len() == 0 {
        None
    } else {
        Some(string_of(&t))
    }
}

// ── the set menu ─────────────────────────────────────────────────────────────

/// How the default set is listed in menus.
pub open spec fn default_item() -> Seq<char> {
    "<default>"@
}

/// A set as menus list it.
pub open spec fn menu_item(set: Seq<char>) -> Seq<char> {
    if set.len() == 0 {
        default_item()
    } else {
        set
    }
}

/// The lines of the set menu for sets `keys`.
pub open spec fn menu_lines(keys: Seq<Seq<char>>) -> Seq<char>
    decreases keys.len(),
{
    if keys.len() == 0 {
        Seq::empty()
    } else {
        menu_lines(keys.drop_last()) + menu_item(keys.last()) + "\n"@
    }
}

/// The set menu: every set, one per line; the default set first when no
/// workspace is in it.
pub open spec fn spec_set_menu_input(ws: Seq<WsView>) -> Seq<char> {
    let keys = group_keys(ws);
    (if keys.contains(Seq::empty()) {
        Seq::empty()
    } else {
        default_item() + "\n"@
    }) + menu_lines(keys)
}

/// The text of the set menu for workspaces `ws`.
pub fn set_menu_input(ws: &[WsInfo]) -> (r: String)
    ensures
        r@ == spec_set_menu_input(views(ws@)),
{
    let groups = set_to_workspaces_ordered(ws, MemberOrder::Encounter);
    let ghost keys = group_keys(views(ws@));
    assert(groups_view(groups@).len() == keys.len());
    let mut has_default = false;
    let mut lines: Vec<char> = Vec::new();
    let mut i: usize = 0;
    while i < groups.len()
        invariant
            i <= groups@.len(),
            groups@.len() == keys.len(),
            groups_view(groups@) == crate::workspace::spec_grouped(views(ws@), MemberOrder::Encounter),
            keys == group_keys(views(ws@)),
            has_default == keys.take(i as int).contains(Seq::<char>::empty()),
            lines@ == menu_lines(keys.take(i as int)),
        decreases groups.len() - i,
    {
        assert(groups_view(groups@)[i as int].0 == groups@[i as int].0@);
        assert(groups_view(groups@)[i as int] == crate::workspace::spec_grouped(views(ws@), MemberOrder::Encounter)[i as int]);
        let key = &groups[i].0;
        let kv = chars_of(key.as_str());
        let empty = kv.len() == 0;
        if empty {
            has_default = true;
            extend_str(&mut lines, "<default>");
        } else {
            extend_chars(&mut lines, &kv);
        }
        lines.push('\n');
        proof {
            reveal_strlit("\n");
            let t0 = keys.take(i as int);
            let t1 = keys.take(i + 1);
            assert(t1.drop_last() =~= t0);
            assert(t1.last() == key@);
            if t0.contains(Seq::<char>::empty()) {
                let k = choose|k: int| 0 <= k < t0.len() && t0[k] == Seq::<char>::empty();
                assert(t1[k] == Seq::<char>::empty());
            }
            if empty {
                assert(key@ =~= Seq::<char>::empty());
                assert(t1[i as int] == Seq::<char>::empty());
            }
            if t1.contains(Seq::<char>::empty()) {
                let k = choose|k: int| 0 <= k < t1.len() && t1[k] == Seq::<char>::empty();
                if k < i {
                    assert(t0[k] == Seq::<char>::empty());
                }
            }
            assert(lines@ =~= menu_lines(t1));
        }
        i += 1;
    }
    assert(keys.take(groups@.len() as int) =~= keys);
    let mut out: Vec<char> = Vec::new();
    if !has_default {
        extend_str(&mut out, "<default>");
        out.push('\n');
        proof {
            reveal_strlit("\n");
        }
    }
    extend_chars(&mut out, &lines);
    assert(out@ =~= spec_set_menu_input(views(ws@)));
    string_of(&out)
}

/// The set a menu choice names: `<default>` names the default set.
pub fn chosen_set(choice: &str) -> (r: String)
    ensures
        r@ == (if choice@ == default_item() {
            Seq::<char>::empty()
        } else {
            choice@
        }),
{
    if str_eq(choice, "<default>") {
        String::new()
    } else {
        string_of(&chars_of(choice))
    }
}

// ── the workspace menu ───────────────────────────────────────────────────────

/// Width of column `i`: the most characters any row has there.
pub open spec fn col_width(rows: Seq<Seq<Seq<char>>>, i: int) -> int
    decreases rows.len(),
{
    if rows.len() == 0 {
        0
    } else {
        let w = col_width(rows.drop_last(), i);
        let r = rows.last();
        if 0 <= i < r.len() && r[i].len() > w {
            r[i].len() as int
        } else {
            w
        }
    }
}

/// `c` padded with spaces to `w` characters.
pub open spec fn pad(c: Seq<char>, w: int) -> Seq<char> {
    c + Seq::new((if w > c.len() {
        w - c.len()
    } else {
        0
    }) as nat, |k: int| ' ')
}

/// A column is as wide as its widest cell: every cell of column `i` fits,
/// padding makes each of them exactly that wide (so the columns line up),
/// and the width is that of some cell, or 0 when no row reaches the column.
pub proof fn lemma_columns_aligned(rows: Seq<Seq<Seq<char>>>, i: int)
    ensures
        forall|k: int|
            0 <= k < rows.len() && 0 <= i < rows[k].len() ==> (#[trigger] rows[k])[i].len() <= col_width(
                rows,
                i,
            ) && pad(rows[k][i], col_width(rows, i)).len() == col_width(rows, i),
        col_width(rows, i) == 0 || exists|k: int|
            0 <= k < rows.len() && 0 <= i < rows[k].len() && (#[trigger] rows[k])[i].len() == col_width(
                rows,
                i,
            ),
    decreases rows.len(),
{
    if rows.len() > 0 {
        let d = rows.drop_last();
        lemma_columns_aligned(d, i);
        assert forall|k: int| 0 <= k < rows.len() && 0 <= i < rows[k].len() implies (
        #[trigger] rows[k])[i].len() <= col_width(rows, i) by {
            if k < rows.len() - 1 {
                assert(rows[k] == d[k]);
            }
        }
        if col_width(rows, i) != 0 && col_width(rows, i) == col_width(d, i) {
            let k = choose|k: int|
                0 <= k < d.len() && 0 <= i < d[k].len() && (#[trigger] d[k])[i].len() == col_width(d, i);
            assert(rows[k] == d[k]);
        }
    }
}

/// One table line: the row's cells padded to their column widths, joined by
/// `sep`, trailing whitespace removed.
pub open spec fn table_line(rows: Seq<Seq<Seq<char>>>, row: Seq<Seq<char>>, sep: Seq<char>) -> Seq<char> {
    trim_end(join(Seq::new(row.len(), |i: int| pad(row[i], col_width(rows, i))), sep))
}

/// The rows as a left-aligned table: one line per row.
pub open spec fn spec_format_table(rows: Seq<Seq<Seq<char>>>, sep: Seq<char>) -> Seq<Seq<char>> {
    rows.map_values(|row: Seq<Seq<char>>| table_line(rows, row, sep))
}

/// The view of a list of rows.
pub open spec fn rows_view(rows: Seq<Vec<String>>) -> Seq<Seq<Seq<char>>> {
    rows.map_values(|r: Vec<String>| strs(r@))
}

/// Formats rows into a left-aligned table with columns separated by
/// `separator`.
pub fn format_table(rows: &[Vec<String>], separator: &str) -> (r: Vec<String>)
    requires
        forall|k: int| 0 <= k < rows@.len() ==> (#[trigger] rows@[k])@.len() < usize::MAX,
    ensures
        strs(r@) == spec_format_table(rows_view(rows@), separator@),
{
    let ghost rv = rows_view(rows@);
    if rows.len() == 0 {
        let r: Vec<String> = Vec::new();
        assert(strs(r@) =~= spec_format_table(rv, separator@));
        return r;
    }
    let sep = chars_of(separator);
    let mut ncols: usize = 0;
    let mut k: usize = 0;
    while k < rows.len()
        invariant
            k <= rows@.len(),
            forall|t: int| 0 <= t < k ==> (#[trigger] rows@[t])@.len() <= ncols,
        decreases rows.len() - k,
    {
        if rows[k].len() > ncols {
            ncols = rows[k].len();
        }
        k += 1;
    }
    let mut widths: Vec<usize> = Vec::new();
    let mut c: usize = 0;
    while c < ncols
        invariant
            c <= ncols,
            widths@.len() == c,
            forall|i: int| 0 <= i < c ==> #[trigger] widths@[i] == col_width(rv, i),
            rv == rows_view(rows@),
        decreases ncols - c,
    {
        let mut w: usize = 0;
        let mut k: usize = 0;
        while k < rows.len()
            invariant
                k <= rows@.len(),
                rv == rows_view(rows@),
                w == col_width(rv.take(k as int), c as int),
            decreases rows.len() - k,
        {
            assert(rv.take(k + 1).drop_last() =~= rv.take(k as int));
            assert(rv.take(k + 1).last() == strs(rows@[k as int]@));
            if c < rows[k].len() {
                let n = rows[k][c].unicode_len();
                assert(strs(rows@[k as int]@)[c as int] == rows@[k as int]@[c as int]@);
                if n > w {
                    w = n;
                }
            }
            k += 1;
        }
        assert(rv.take(rows@.len() as int) =~= rv);
        widths.push(w);
        c += 1;
    }
    let mut out: Vec<String> = Vec::new();
    let mut k: usize = 0;
    while k < rows.len()
        invariant
            k <= rows@.len(),
            rv == rows_view(rows@),
            sep@ == separator@,
            forall|t: int| 0 <= t < rows@.len() ==> (#[trigger] rows@[t])@.len() <= ncols,
            widths@.len() == ncols,
            forall|i: int| 0 <= i < ncols ==> #[trigger] widths@[i] == col_width(rv, i),
            strs(out@) == spec_format_table(rv, separator@).take(k as int),
        decreases rows.len() - k,
    {
        let row = &rows[k];
        let ghost rowv = strs(row@);
        assert(rv[k as int] == rowv);
        let mut cells: Vec<Vec<char>> = Vec::new();
        let mut i: usize = 0;
        while i < row.len()
            invariant
                i <= row@.len(),
                row@.len() <= ncols,
                rowv == strs(row@),
                widths@.len() == ncols,
                forall|i: int| 0 <= i < ncols ==> #[trigger] widths@[i] == col_width(rv, i),
                cells@.map_values(|p: Vec<char>| p@) == Seq::new(row@.len(), |j: int| pad(rowv[j], col_width(rv, j))).take(i as int),
            decreases row.len() - i,
        {
            let mut cell = chars_of(row[i].as_str());
            let len = cell.len();
            let w = widths[i];
            let padn: usize = if w > len {
                w - len
            } else {
                0
            };
            let ghost base = cell@;
            let mut p: usize = 0;
            while p < padn
                invariant
                    p <= padn,
                    cell@ == base + Seq::new(p as nat, |k: int| ' '),
                decreases padn - p,
            {
                cell.push(' ');
                p += 1;
                assert(cell@ =~= base + Seq::new(p as nat, |k: int| ' '));
            }
            assert(rowv[i as int] == row@[i as int]@);
            assert(cell@ =~= pad(rowv[i as int], col_width(rv, i as int)));
            let ghost before = cells@;
            let ghost cv = cell@;
            cells.push(cell);
            assert(cells@.map_values(|p: Vec<char>| p@) =~= before.map_values(|p: Vec<char>| p@).push(cv));
            assert(cells@.map_values(|p: Vec<char>| p@) =~= Seq::new(row@.len(), |j: int| pad(rowv[j], col_width(rv, j))).take(i + 1));
            i += 1;
        }
        assert(Seq::new(row@.len(), |j: int| pad(rowv[j], col_width(rv, j))).take(row@.len() as int)
            =~= Seq::new(rowv.len(), |j: int| pad(rowv[j], col_width(rv, j))));
        let joined = join_chars(&cells, &sep);
        let line = trim_end_chars(&joined);
        let ghost before = out@;
        out.push(string_of(&line));
        assert(strs(out@) =~= strs(before).push(table_line(rv, rowv, separator@)));
        assert(spec_format_table(rv, separator@).take(k + 1) =~= spec_format_table(rv, separator@).take(
            k as int,
        ).push(table_line(rv, rowv, separator@)));
        k += 1;
    }
    assert(spec_format_table(rv, separator@).take(rows@.len() as int) =~= spec_format_table(rv, separator@));
    out
}

/// The row of a workspace in the workspace menu: set, local number, window
/// icons (none), static name.
pub open spec fn spec_menu_row(w: WsView) -> Seq<Seq<char>> {
    let m = spec_parse_name(w.name);
    seq![
        set_or_empty(m),
        opt_int_text(spec_local_number(m)),
        Seq::empty(),
        match m.static_name {
            Some(s) => s,
            None => Seq::empty(),
        },
    ]
}

/// The rows of the workspace menu, one per workspace.
pub fn workspace_menu_rows(ws: &[WsInfo]) -> (r: Vec<Vec<String>>)
    ensures
        rows_view(r@) == views(ws@).map_values(|w: WsView| spec_menu_row(w)),
        forall|k: int| 0 <= k < r@.len() ==> (#[trigger] r@[k])@.len() == 4,
{
    let ghost target = views(ws@).map_values(|w: WsView| spec_menu_row(w));
    let mut r: Vec<Vec<String>> = Vec::new();
    let mut i: usize = 0;
    while i < ws.len()
        invariant
            i <= ws@.len(),
            target == views(ws@).map_values(|w: WsView| spec_menu_row(w)),
            rows_view(r@) == target.take(i as int),
            forall|k: int| 0 <= k < r@.len() ==> (#[trigger] r@[k])@.len() == 4,
        decreases ws.len() - i,
    {
        let m = parse_name(ws[i].name.as_str());
        let set = match &m.set {
            Some(s) => s.clone(),
            None => String::new(),
        };
        let local = match get_local_number(&m) {
            Some(n) => string_of(&int_to_chars(n)),
            None => String::new(),
        };
        let sname = match &m.static_name {
            Some(s) => s.clone(),
            None => String::new(),
        };
        let row: Vec<String> = vec![set, local, String::new(), sname];
        assert(views(ws@)[i as int] == ws@[i as int]@);
        assert(strs(row@) =~= spec_menu_row(ws@[i as int]@));
        let ghost before = r@;
        r.push(row);
        assert(rows_view(r@) =~= rows_view(before).push(target[i as int]));
        assert(target.take(i + 1) =~= target.take(i as int).push(target[i as int]));
        i += 1;
    }
    assert(target.take(ws@.len() as int) =~= target);
    r
}

/// The index of the first line equal to `selected`.
pub open spec fn line_index(lines: Seq<Seq<char>>, selected: Seq<char>) -> Option<int>
    decreases lines.len(),
{
    if lines.len() == 0 {
        None
    } else if lines[0] == selected {
        Some(0)
    } else {
        match line_index(lines.drop_first(), selected) {
            Some(i) => Some(i + 1),
            None => None,
        }
    }
}

/// The index of the first displayed line equal to the selection.
pub fn selected_line(displayed: &[String], selected: &str) -> (r: Option<usize>)
    ensures
        match r {
            Some(i) => line_index(strs(displayed@), selected@) == Some(i as int) && i < displayed@.len(),
            None => line_index(strs(displayed@), selected@) is None,
        },
{
    let ghost dv = strs(displayed@);
    let mut i: usize = 0;
    assert(dv.skip(0) =~= dv);
    while i < displayed.len()
        invariant
            i <= displayed@.len(),
            dv == strs(displayed@),
            line_index(dv, selected@) == match line_index(dv.skip(i as int), selected@) {
                Some(k) => Some(k + i),
                None => None::<int>,
            },
        decreases displayed.len() - i,
    {
        assert(dv.skip(i as int)[0] == displayed@[i as int]@);
        if str_eq(displayed[i].as_str(), selected) {
            return Some(i);
        }
        assert(dv.skip(i as int).drop_first() =~= dv.skip(i + 1));
        i += 1;
    }
    assert(dv.skip(i as int).len() == 0);
    None
}

// ── the rename pattern ───────────────────────────────────────────────────────

/// `s` split at every `c` (`str::split`).
pub open spec fn split_all(s: Seq<char>, c: char) -> Seq<Seq<char>>
    decreases s.len(),
{
    match find(s, seq![c]) {
        Some(i) => if 0 <= i < s.len() {
            seq![s.take(i)] + split_all(s.skip(i + 1), c)
        } else {
            seq![s]
        },
        None => seq![s],
    }
}

/// The changes a rename pattern asks for.
#[derive(Debug)]
pub struct RenameRequest {
    pub name: Option<String>,
    pub number: Option<i64>,
    pub set: Option<String>,
}

/// Errors of a rename pattern.
#[derive(Debug, PartialEq, Eq)]
pub enum RenamePatternError {
    /// A number part is neither empty, `-`, nor an `i64`.
    BadNumber,
    /// The pattern has more than three parts.
    TooManyColons,
}

/// A name part: `-` resets to empty, an empty part keeps the current value.
pub open spec fn resolve_part(s: Seq<char>) -> Option<Seq<char>> {
    if s == "-"@ {
        Some(Seq::empty())
    } else if s.len() == 0 {
        None
    } else {
        Some(s)
    }
}

/// A number part: `-` or empty keeps the current number.
pub open spec fn resolve_num(s: Seq<char>) -> Result<Option<i64>, RenamePatternError> {
    if s == "-"@ || s.len() == 0 {
        Ok(None)
    } else {
        match parse_i64(s) {
            Some(n) => Ok(Some(n)),
            None => Err(RenamePatternError::BadNumber),
        }
    }
}

/// What a rename pattern asks for: `name`, `name:number` or
/// `set:name:number`, as (name, number, set).
pub open spec fn spec_rename_pattern(p: Seq<char>) -> Result<
    (Option<Seq<char>>, Option<i64>, Option<Seq<char>>),
    RenamePatternError,
> {
    let parts = split_all(p, ':');
    if parts.len() == 1 {
        Ok((resolve_part(parts[0]), None, None))
    } else if parts.len() == 2 {
        match resolve_num(parts[1]) {
            Ok(n) => Ok((resolve_part(parts[0]), n, None)),
            Err(e) => Err(e),
        }
    } else if parts.len() == 3 {
        match resolve_num(parts[2]) {
            Ok(n) => Ok((resolve_part(parts[1]), n, resolve_part(parts[0]))),
            Err(e) => Err(e),
        }
    } else {
        Err(RenamePatternError::TooManyColons)
    }
}

/// Text without `c` is one part.
proof fn lemma_split_all_single(a: Seq<char>, c: char)
    requires
        lacks(a, c),
    ensures
        split_all(a, c) == seq![a],
{
    assert forall|i: int| !is_first_occurrence(a, seq![c], i) by {
        if occurs_at(a, seq![c], i) {
            assert(a.subrange(i, i + 1)[0] == a[i]);
        }
    }
    assert(find(a, seq![c]) is None);
}

/// Text without `c`, then `c`, then `rest`: its first part, then the parts
/// of `rest`.
proof fn lemma_split_all_cons(a: Seq<char>, rest: Seq<char>, c: char)
    requires
        lacks(a, c),
    ensures
        split_all(a + seq![c] + rest, c) == seq![a] + split_all(rest, c),
{
    let s = a + seq![c] + rest;
    let i = a.len() as int;
    assert(s.subrange(i, i + 1) =~= seq![c]);
    assert forall|j: int| 0 <= j < i implies !occurs_at(s, seq![c], j) by {
        assert(s.subrange(j, j + 1)[0] == a[j]);
    }
    lemma_find_is(s, seq![c], i);
    assert(s.take(i) =~= a);
    assert(s.skip(i + 1) =~= rest);
}

/// The decimal text of an `i64` holds no `:` and is not `-`.
proof fn lemma_number_part(x: i64)
    ensures
        lacks(int_text(x as int), ':'),
        int_text(x as int) != "-"@,
        int_text(x as int).len() > 0,
        parse_i64(int_text(x as int)) == Some(x),
{
    lemma_parse_int_text(x);
    let t = int_text(x as int);
    assert forall|i: int| 0 <= i < t.len() implies t[i] != ':' by {
        assert(is_digit(t[i]) || t[i] == '-');
    }
    reveal_strlit("-");
    if t == "-"@ {
        assert(t.drop_first().len() == 0);
        assert(!is_digit('-'));
        assert(parse_i64(t) is None);
    }
}

/// The rename pattern reads its parts by position: `set:name:number` gives
/// the set from the first part, the name from the second and the number
/// from the third; `name:number` the name and the number; `name` the name
/// alone. A name or set part `-` asks for an empty value, an empty part
/// keeps the current one.
pub proof fn lemma_rename_pattern_parts(st: Seq<char>, nm: Seq<char>, x: i64)
    requires
        lacks(st, ':'),
        lacks(nm, ':'),
    ensures
        ({
            let part = |t: Seq<char>|
                if t == "-"@ {
                    Some(Seq::<char>::empty())
                } else if t.len() == 0 {
                    None
                } else {
                    Some(t)
                };
            &&& spec_rename_pattern(st + seq![':'] + nm + seq![':'] + int_text(x as int)) == Ok::<
                (Option<Seq<char>>, Option<i64>, Option<Seq<char>>),
                RenamePatternError,
            >((part(nm), Some(x), part(st)))
            &&& spec_rename_pattern(nm + seq![':'] + int_text(x as int)) == Ok::<
                (Option<Seq<char>>, Option<i64>, Option<Seq<char>>),
                RenamePatternError,
            >((part(nm), Some(x), None))
            &&& spec_rename_pattern(nm) == Ok::<
                (Option<Seq<char>>, Option<i64>, Option<Seq<char>>),
                RenamePatternError,
            >((part(nm), None, None))
        }),
{
    lemma_number_part(x);
    let t = int_text(x as int);
    lemma_split_all_single(t, ':');
    lemma_split_all_single(nm, ':');
    lemma_split_all_cons(nm, t, ':');
    assert(split_all(nm + seq![':'] + t, ':') =~= seq![nm, t]);
    assert(st + seq![':'] + nm + seq![':'] + t =~= st + seq![':'] + (nm + seq![':'] + t));
    lemma_split_all_cons(st, nm + seq![':'] + t, ':');
    assert(split_all(st + seq![':'] + nm + seq![':'] + t, ':') =~= seq![st, nm, t]);
}

/// The parts of `v` between the occurrences of `c` (`str::split`).
pub fn split_on(v: &[char], c: char) -> (r: Vec<Vec<char>>)
    ensures
        r@.map_values(|p: Vec<char>| p@) == split_all(v@, c),
{
    let colon: Vec<char> = vec![c];
    assert(colon@ =~= seq![c]);
    let mut parts: Vec<Vec<char>> = Vec::new();
    let mut rest = sub_chars(v, 0, v.len());
    assert(rest@ =~= v@);
    loop
        invariant
            colon@ == seq![c],
            parts@.map_values(|p: Vec<char>| p@) + split_all(rest@, c) == split_all(v@, c),
        decreases rest@.len(),
    {
        match find_chars(&rest, &colon) {
            Some(i) => {
                assert(occurs_at(rest@, colon@, i as int));
                assert(i + 1 <= rest@.len());
                assert(rest@.len() == rest.len());
                let head = sub_chars(&rest, 0, i);
                let tail = sub_chars(&rest, i + 1, rest.len());
                assert(head@ =~= rest@.take(i as int));
                assert(tail@ =~= rest@.skip(i + 1));
                let ghost before = parts@;
                parts.push(head);
                assert(parts@.map_values(|p: Vec<char>| p@) =~= before.map_values(|p: Vec<char>| p@).push(head@));
                rest = tail;
            },
            None => {
                let ghost before = parts@;
                let ghost rv = rest@;
                assert(split_all(rv, c) == seq![rv]);
                parts.push(rest);
                assert(parts@.map_values(|p: Vec<char>| p@) =~= before.map_values(|p: Vec<char>| p@) + seq![rv]);
                return parts;
            },
        }
    }
}

fn resolve_part_exec(v: &Vec<char>) -> (r: Option<String>)
    ensures
        crate::meta::opt_view(r) == resolve_part(v@),
{
    if chars_eq(v, &chars_of("-")) {
        Some(String::new())
    } else if v.len() == 0 {
        None
    } else {
        Some(string_of(v))
    }
}

fn resolve_num_exec(v: &Vec<char>) -> (r: Result<Option<i64>, RenamePatternError>)
    ensures
        r == resolve_num(v@),
{
    if chars_eq(v, &chars_of("-")) || v.len() == 0 {
        Ok(None)
    } else {
        match parse_i64_chars(v) {
            Some(n) => Ok(Some(n)),
            None => Err(RenamePatternError::BadNumber),
        }
    }
}

/// What a rename pattern asks for: `name`, `name:number` or
/// `set:name:number`; in each part `-` resets the property and an empty
/// part keeps it.
pub fn parse_rename_pattern(pattern: &str) -> (r: Result<RenameRequest, RenamePatternError>)
    ensures
        match r {
            Ok(q) => spec_rename_pattern(pattern@) == Ok::<(Option<Seq<char>>, Option<i64>, Option<Seq<char>>), RenamePatternError>(
                (crate::meta::opt_view(q.name), q.number, crate::meta::opt_view(q.set)),
            ),
            Err(e) => spec_rename_pattern(pattern@) == Err::<(Option<Seq<char>>, Option<i64>, Option<Seq<char>>), RenamePatternError>(e),
        },
{
    let v = chars_of(pattern);
    let parts = split_on(&v, ':');
    let ghost pv = parts@.map_values(|p: Vec<char>| p@);
    if parts.len() == 1 {
        assert(pv[0] == parts@[0]@);
        Ok(RenameRequest { name: resolve_part_exec(&parts[0]), number: None, set: None })
    } else if parts.len() == 2 {
        assert(pv[0] == parts@[0]@ && pv[1] == parts@[1]@);
        match resolve_num_exec(&parts[1]) {
            Ok(n) => Ok(RenameRequest { name: resolve_part_exec(&parts[0]), number: n, set: None }),
            Err(e) => Err(e),
        }
    } else if parts.len() == 3 {
        assert(pv[0] == parts@[0]@ && pv[1] == parts@[1]@ && pv[2] == parts@[2]@);
        match resolve_num_exec(&parts[2]) {
            Ok(n) => Ok(
                RenameRequest {
                    name: resolve_part_exec(&parts[1]),
                    number: n,
                    set: resolve_part_exec(&parts[0]),
                },
            ),
            Err(e) => Err(e),
        }
    } else {
        Err(RenamePatternError::TooManyColons)
    }
}

/// The message printed for a rename pattern error; for a bad number it
/// names the number part, the last part of `pattern`.
pub fn rename_pattern_error_message(e: &RenamePatternError, pattern: &str) -> (r: String)
    ensures
        r@ == match e {
            RenamePatternError::BadNumber => "invalid number in rename pattern: "@ + bad_number_part(pattern@),
            RenamePatternError::TooManyColons => "name pattern cannot contain more than 3 colons"@,
        },
{
    let mut out: Vec<char> = Vec::new();
    match e {
        RenamePatternError::BadNumber => {
            extend_str(&mut out, "invalid number in rename pattern: ");
            let parts = split_on(&chars_of(pattern), ':');
            let ghost pv = parts@.map_values(|p: Vec<char>| p@);
            if parts.len() > 0 {
                assert(pv[pv.len() - 1] == parts@[parts@.len() - 1]@);
                extend_chars(&mut out, &parts[parts.len() - 1]);
            }
        },
        RenamePatternError::TooManyColons => {
            extend_str(&mut out, "name pattern cannot contain more than 3 colons");
        },
    }
    string_of(&out)
}

/// The number part of a rename pattern: its last part.
pub open spec fn bad_number_part(p: Seq<char>) -> Seq<char> {
    let parts = split_all(p, ':');
    if parts.len() > 0 {
        parts.last()
    } else {
        Seq::empty()
    }
}

/// The prompt of the rename menu for a workspace whose static name is
/// `current_name`.
pub fn rename_message(current_name: &str) -> (r: String)
    ensures
        r@ == "<span alpha=\"50%\" size=\"smaller\"><b>Enter a new name for workspace \""@ + current_name@
            + rename_message_tail(),
{
    let mut out: Vec<char> = Vec::new();
    extend_str(&mut out, "<span alpha=\"50%\" size=\"smaller\"><b>Enter a new name for workspace \"");
    extend_str(&mut out, current_name);
    extend_str(&mut out, RENAME_TAIL);
    string_of(&out)
}

/// The fixed end of the rename prompt.
pub const RENAME_TAIL: &'static str = "\"</b>\n<i>By default only the name is changed, but you can also use colons to change the number or set, In addition, you can use an hyphen (\"-\") to reset a property.\nExamples:  foo  |  foo:2  |  -:2  |  :2  |  bar:foo:2  |  bar::2</i></span>";

/// The fixed end of the rename prompt.
pub open spec fn rename_message_tail() -> Seq<char> {
    RENAME_TAIL@
}

} // verus!
