//! The `doctor` command: its report lines and counters, and the checks of a
//! window manager configuration.
use vstd::prelude::*;
use crate::text::{chars_of, string_of, extend_str, sub_chars, split_whitespace, words, trim, trim_start, trim_chars, trim_start_chars, has_prefix, starts_with, find_chars, find, is_ws, is_whitespace, chars_eq, is_first_occurrence};
use crate::num::{int_text, push_usize};
use crate::cli::strs;

verus! {

// ── the report ───────────────────────────────────────────────────────────────

/// The report's counters and whether it is coloured.
#[derive(Debug)]
pub struct Dr {
    pub pass: usize,
    pub warn: usize,
    pub fail: usize,
    pub color: bool,
}

/// The text of a colour code when colour is on, else nothing.
pub open spec fn spec_esc(color: bool, code: Seq<char>) -> Seq<char> {
    if color {
        code
    } else {
        Seq::empty()
    }
}

/// The escape codes of the report.
pub const GREEN: &'static str = "\x1b[0;32m";

/// The escape codes of the report.
pub const YELLOW: &'static str = "\x1b[0;33m";

/// The escape codes of the report.
pub const RED: &'static str = "\x1b[0;31m";

/// The escape codes of the report.
pub const BOLD: &'static str = "\x1b[1m";

/// The escape codes of the report.
pub const RESET: &'static str = "\x1b[0m";

/// Whether the report is coloured: `NO_COLOR` unset and `TERM` unset or
/// not `dumb`.
pub fn report_color(no_color_set: bool, term: Option<&str>) -> (r: bool)
    ensures
        r == (!no_color_set && match term {
            Some(t) => t@ != "dumb"@,
            None => true,
        }),
{
    !no_color_set && match term {
        Some(t) => !crate::sets::str_eq(t, "dumb"),
        None => true,
    }
}

impl Dr {
    /// A report with no results yet.
    pub fn new(color: bool) -> (r: Dr)
        ensures
            r.pass == 0 && r.warn == 0 && r.fail == 0 && r.color == color,
    {
        Dr { pass: 0, warn: 0, fail: 0, color }
    }

    /// `code` when the report is coloured, else the empty string.
    pub fn esc<'a>(&self, code: &'a str) -> (r: &'a str)
        ensures
            r@ == spec_esc(self.color, code@),
    {
        if self.color {
            code
        } else {
            proof {
                reveal_strlit("");
            }
            ""
        }
    }

    /// The exit status: 2 with failures, 1 with warnings only, else 0.
    pub fn exit_code(&self) -> (r: i32)
        ensures
            r == (if self.fail > 0 {
                2i32
            } else if self.warn > 0 {
                1i32
            } else {
                0i32
            }),
    {
        if self.fail > 0 {
            2
        } else if self.warn > 0 {
            1
        } else {
            0
        }
    }

    /// Records a passed check and gives its line.
    pub fn ok(&mut self, msg: &str) -> (r: String)
        requires
            old(self).pass < usize::MAX,
        ensures
            final(self).pass == old(self).pass + 1,
            final(self).warn == old(self).warn,
            final(self).fail == old(self).fail,
            final(self).color == old(self).color,
            r@ == "  "@ + spec_esc(old(self).color, GREEN@) + "[OK]"@ + spec_esc(old(self).color, RESET@)
                + "   "@ + msg@,
    {
        let mut out: Vec<char> = Vec::new();
        extend_str(&mut out, "  ");
        extend_str(&mut out, self.esc(GREEN));
        extend_str(&mut out, "[OK]");
        extend_str(&mut out, self.esc(RESET));
        extend_str(&mut out, "   ");
        extend_str(&mut out, msg);
        self.pass = self.pass + 1;
        string_of(&out)
    }

    /// Records a warning and gives its line.
    pub fn warn(&mut self, msg: &str) -> (r: String)
        requires
            old(self).warn < usize::MAX,
        ensures
            final(self).warn == old(self).warn + 1,
            final(self).pass == old(self).pass,
            final(self).fail == old(self).fail,
            final(self).color == old(self).color,
            r@ == "  "@ + spec_esc(old(self).color, YELLOW@) + "[WARN]"@ + spec_esc(old(self).color, RESET@)
                + " "@ + msg@,
    {
        let mut out: Vec<char> = Vec::new();
        extend_str(&mut out, "  ");
        extend_str(&mut out, self.esc(YELLOW));
        extend_str(&mut out, "[WARN]");
        extend_str(&mut out, self.esc(RESET));
        extend_str(&mut out, " ");
        extend_str(&mut out, msg);
        self.warn = self.warn + 1;
        string_of(&out)
    }

    /// Records a failure and gives its line.
    pub fn fail(&mut self, msg: &str) -> (r: String)
        requires
            old(self).fail < usize::MAX,
        ensures
            final(self).fail == old(self).fail + 1,
            final(self).pass == old(self).pass,
            final(self).warn == old(self).warn,
            final(self).color == old(self).color,
            r@ == "  "@ + spec_esc(old(self).color, RED@) + "[FAIL]"@ + spec_esc(old(self).color, RESET@)
                + " "@ + msg@,
    {
        let mut out: Vec<char> = Vec::new();
        extend_str(&mut out, "  ");
        extend_str(&mut out, self.esc(RED));
        extend_str(&mut out, "[FAIL]");
        extend_str(&mut out, self.esc(RESET));
        extend_str(&mut out, " ");
        extend_str(&mut out, msg);
        self.fail = self.fail + 1;
        string_of(&out)
    }

    /// The line of a note.
    pub fn info(&self, msg: &str) -> (r: String)
        ensures
            r@ == "       "@ + msg@,
    {
        let mut out: Vec<char> = Vec::new();
        extend_str(&mut out, "       ");
        extend_str(&mut out, msg);
        string_of(&out)
    }

    /// The lines of a section heading: a blank line, the title, and a rule
    /// as wide as the title.
    pub fn section(&self, title: &str) -> (r: String)
        ensures
            r@ == "\n"@ + spec_esc(self.color, BOLD@) + title@ + spec_esc(self.color, RESET@) + "\n"@
                + Seq::new(title@.len(), |i: int| '─'),
    {
        let mut out: Vec<char> = Vec::new();
        extend_str(&mut out, "\n");
        extend_str(&mut out, self.esc(BOLD));
        extend_str(&mut out, title);
        extend_str(&mut out, self.esc(RESET));
        extend_str(&mut out, "\n");
        let n = title.unicode_len();
        let ghost base = out@;
        let mut i: usize = 0;
        while i < n
            invariant
                i <= n,
                out@ == base + Seq::new(i as nat, |k: int| '─'),
            decreases n - i,
        {
            out.push('─');
            i += 1;
            assert(out@ =~= base + Seq::new(i as nat, |k: int| '─'));
        }
        string_of(&out)
    }

    /// The summary line: the failures, warnings and passes there were.
    pub fn summary(&self) -> (r: String)
        ensures
            r@ == "\n"@ + spec_esc(self.color, BOLD@) + "Summary"@ + spec_esc(self.color, RESET@) + ": "@
                + count_part(self.color, RED@, self.fail as int, " failed"@, "  "@)
                + count_part(self.color, YELLOW@, self.warn as int, " warnings"@, "  "@)
                + count_part(self.color, GREEN@, self.pass as int, " passed"@, ""@),
    {
        let mut out: Vec<char> = Vec::new();
        extend_str(&mut out, "\n");
        extend_str(&mut out, self.esc(BOLD));
        extend_str(&mut out, "Summary");
        extend_str(&mut out, self.esc(RESET));
        extend_str(&mut out, ": ");
        self.push_count(&mut out, RED, self.fail, " failed", "  ");
        self.push_count(&mut out, YELLOW, self.warn, " warnings", "  ");
        self.push_count(&mut out, GREEN, self.pass, " passed", "");
        string_of(&out)
    }

    /// Appends the part of the summary for one counter.
    fn push_count(&self, out: &mut Vec<char>, code: &str, n: usize, label: &str, tail: &str)
        ensures
            final(out)@ == old(out)@ + count_part(self.color, code@, n as int, label@, tail@),
    {
        if n > 0 {
            extend_str(out, self.esc(code));
            push_usize(out, n);
            extend_str(out, label);
            extend_str(out, self.esc(RESET));
            extend_str(out, tail);
        }
    }
}

/// One counter's part of the summary: nothing when it is zero.
pub open spec fn count_part(color: bool, code: Seq<char>, n: int, label: Seq<char>, tail: Seq<char>) -> Seq<char> {
    if n > 0 {
        spec_esc(color, code) + int_text(n) + label + spec_esc(color, RESET@) + tail
    } else {
        Seq::empty()
    }
}

// ── reading the configuration ────────────────────────────────────────────────

/// Whether `c` is alphanumeric in Unicode's sense (`char::is_alphanumeric`).
pub uninterp spec fn alnum(c: char) -> bool;

/// Whether `c` is an ASCII letter or digit.
pub open spec fn ascii_alnum(c: char) -> bool {
    let u = c as u32;
    (48 <= u <= 57) || (65 <= u <= 90) || (97 <= u <= 122)
}

/// Whether `c` is alphanumeric (`char::is_alphanumeric`): an ASCII letter or
/// digit for an ASCII character, and [`alnum`] beyond ASCII.
pub open spec fn is_alnum(c: char) -> bool {
    if (c as u32) < 128 {
        ascii_alnum(c)
    } else {
        alnum(c)
    }
}

/// `char::is_alphanumeric`: whether `c` has the Unicode `Alphabetic` or
/// `Numeric` property. The contract names the result [`alnum`] and states
/// only its value on ASCII characters (the ASCII letters and digits); the
/// Unicode tables beyond ASCII are left unsaid.
#[verifier::external_body]
fn char_is_alphanumeric(c: char) -> (r: bool)
    ensures
        r == alnum(c),
        (c as u32) < 128 ==> (r == ascii_alnum(c)),
{
    c.is_alphanumeric()
}

/// The variables that a configuration defines as commands of the tool: in
/// a line `set $name exec [--no-startup-id] swi3-groups [args]`.
pub open spec fn alias_of(line: Seq<char>) -> Option<Seq<char>> {
    let t = trim(line);
    let tokens = words(t);
    if !has_prefix(t, "set "@) || tokens.len() < 3 || !has_prefix(tokens[1], "$"@) {
        None
    } else {
        let varname = tokens[1];
        match find(t, varname) {
            Some(var_pos) => {
                let after_var = trim(t.skip(var_pos + varname.len()));
                if after_var == "exec swi3-groups"@ || after_var == "exec --no-startup-id swi3-groups"@
                    || has_prefix(after_var, "exec swi3-groups "@) || has_prefix(
                    after_var,
                    "exec --no-startup-id swi3-groups "@,
                ) {
                    Some(varname)
                } else {
                    None
                }
            },
            // the variable is a word of the line, so it is always found
            None => None,
        }
    }
}

/// The aliases that `lines` define, in order.
pub open spec fn spec_aliases(lines: Seq<Seq<char>>) -> Seq<Seq<char>>
    decreases lines.len(),
{
    if lines.len() == 0 {
        Seq::empty()
    } else {
        let prev = spec_aliases(lines.drop_last());
        match alias_of(lines.last()) {
            Some(a) => prev.push(a),
            None => prev,
        }
    }
}

/// Every alias is a `$` variable, and a configuration defines at most one
/// alias per line.
pub proof fn lemma_aliases_are_variables(lines: Seq<Seq<char>>)
    ensures
        forall|k: int| 0 <= k < spec_aliases(lines).len() ==> has_prefix(#[trigger] spec_aliases(lines)[k], "$"@),
        spec_aliases(lines).len() <= lines.len(),
    decreases lines.len(),
{
    if lines.len() > 0 {
        let d = lines.drop_last();
        lemma_aliases_are_variables(d);
        let p = spec_aliases(d);
        let a = spec_aliases(lines);
        assert forall|k: int| 0 <= k < a.len() implies has_prefix(#[trigger] a[k], "$"@) by {
            if k < p.len() {
                assert(a[k] == p[k]);
            }
        }
    }
}

fn alias_of_exec(line: &str) -> (r: Option<Vec<char>>)
    ensures
        match r {
            Some(a) => alias_of(line@) == Some(a@),
            None => alias_of(line@) is None,
        },
{
    let t = trim_chars(&chars_of(line));
    let tokens = split_whitespace(&t);
    let ghost tw = words(t@);
    if !starts_with(&t, &chars_of("set ")) || tokens.len() < 3 {
        return None;
    }
    assert(tokens@[1]@ == tw[1]);
    let varname = sub_chars(&tokens[1], 0, tokens[1].len());
    assert(varname@ =~= tw[1]);
    if !starts_with(&varname, &chars_of("$")) {
        return None;
    }
    let var_pos: usize = match find_chars(&t, &varname) {
        Some(p) => p,
        None => {
            return None;
        },
    };
    assert(is_first_occurrence(t@, varname@, var_pos as int));
    let tl = t.len();
    assert(var_pos + varname@.len() <= tl);
    let rest = sub_chars(&t, var_pos + varname.len(), tl);
    assert(rest@ =~= t@.skip(var_pos + varname@.len()));
    let after = trim_chars(&rest);
    if chars_eq(&after, &chars_of("exec swi3-groups")) || chars_eq(
        &after,
        &chars_of("exec --no-startup-id swi3-groups"),
    ) || starts_with(&after, &chars_of("exec swi3-groups ")) || starts_with(
        &after,
        &chars_of("exec --no-startup-id swi3-groups "),
    ) {
        Some(varname)
    } else {
        None
    }
}

/// The variables that the configuration lines define as commands of the
/// tool, in order.
pub fn dr_collect_aliases(lines: &[String]) -> (r: Vec<String>)
    ensures
        strs(r@) == spec_aliases(strs(lines@)),
{
    let ghost lv = strs(lines@);
    let mut r: Vec<String> = Vec::new();
    let mut i: usize = 0;
    while i < lines.len()
        invariant
            i <= lines@.len(),
            lv == strs(lines@),
            strs(r@) == spec_aliases(lv.take(i as int)),
        decreases lines.len() - i,
    {
        assert(lv.take(i + 1).drop_last() =~= lv.take(i as int));
        assert(lv.take(i + 1).last() == lines@[i as int]@);
        match alias_of_exec(lines[i].as_str()) {
            Some(a) => {
                let ghost before = r@;
                r.push(string_of(&a));
                assert(strs(r@) =~= strs(before).push(a@));
            },
            None => {},
        }
        i += 1;
    }
    assert(lv.take(lines@.len() as int) =~= lv);
    r
}

/// The first word of `s`, if it has one.
pub open spec fn first_word(s: Seq<char>) -> Option<Seq<char>> {
    let w = words(s);
    if w.len() > 0 {
        Some(w[0])
    } else {
        None
    }
}

/// The command named after the separator `sep` in `t`, when `sep` occurs
/// with no letter, digit or `_` right before it and a word not starting with
/// `-` follows.
pub open spec fn cmd_after_sep(t: Seq<char>, sep: Seq<char>) -> Option<Seq<char>> {
    match find(t, sep) {
        Some(pos) => {
            let before = t.take(pos);
            if before.len() > 0 && (is_alnum(before.last()) || before.last() == '_') {
                None
            } else {
                match first_word(trim_start(t.skip(pos + sep.len()))) {
                    Some(cmd) => if has_prefix(cmd, "-"@) {
                        None
                    } else {
                        Some(cmd)
                    },
                    None => None,
                }
            }
        },
        None => None,
    }
}

/// The command named after alias `alias` in `t`, when the alias occurs at
/// the start or after whitespace and a word not starting with `-` or `$`
/// follows.
pub open spec fn cmd_after_alias(t: Seq<char>, alias: Seq<char>) -> Option<Seq<char>> {
    match find(t, alias) {
        Some(pos) => {
            let before = t.take(pos);
            if before.len() == 0 || is_ws(before.last()) {
                match first_word(trim_start(t.skip(pos + alias.len()))) {
                    Some(cmd) => if has_prefix(cmd, "-"@) || has_prefix(cmd, "$"@) {
                        None
                    } else {
                        Some(cmd)
                    },
                    None => None,
                }
            } else {
                None
            }
        },
        None => None,
    }
}

/// The command of the first alias, from `k` on, that names one.
pub open spec fn cmd_from_aliases(t: Seq<char>, aliases: Seq<Seq<char>>, k: int) -> Option<Seq<char>>
    decreases aliases.len() - k,
{
    if k < 0 || k >= aliases.len() {
        None
    } else {
        match cmd_after_alias(t, aliases[k]) {
            Some(c) => Some(c),
            None => cmd_from_aliases(t, aliases, k + 1),
        }
    }
}

/// The tool command that a configuration line runs: after
/// `exec --no-startup-id swi3-groups ` or `exec swi3-groups `, else after
/// one of the aliases; none for comments, blank lines and `set` lines.
pub open spec fn spec_extract_cmd(line: Seq<char>, aliases: Seq<Seq<char>>) -> Option<Seq<char>> {
    let t = trim(line);
    if has_prefix(t, "#"@) || t.len() == 0 || has_prefix(t, "set "@) {
        None
    } else {
        match cmd_after_sep(t, "exec --no-startup-id swi3-groups "@) {
            Some(c) => Some(c),
            None => match cmd_after_sep(t, "exec swi3-groups "@) {
                Some(c) => Some(c),
                None => cmd_from_aliases(t, aliases, 0),
            },
        }
    }
}

/// The first word of `v` after its leading whitespace, from index `from`.
fn first_word_after(v: &Vec<char>, from: usize) -> (r: Option<Vec<char>>)
    requires
        from <= v@.len(),
    ensures
        match r {
            Some(w) => first_word(trim_start(v@.skip(from as int))) == Some(w@),
            None => first_word(trim_start(v@.skip(from as int))) is None,
        },
{
    let rest = sub_chars(v, from, v.len());
    assert(rest@ =~= v@.skip(from as int));
    let t = trim_start_chars(&rest);
    let w = split_whitespace(&t);
    proof {
        crate::text::lemma_ws_prefix_len_bound(t@);
        lemma_words_trim_start(t@);
    }
    if w.len() > 0 {
        Some(sub_chars(&w[0], 0, w[0].len()))
    } else {
        None
    }
}

/// Trimming leading whitespace does not change the words.
pub proof fn lemma_words_trim_start(s: Seq<char>)
    ensures
        words(trim_start(s)) == words(s),
{
    crate::text::lemma_ws_prefix_len_bound(s);
    let t = trim_start(s);
    crate::text::lemma_ws_prefix_len_bound(t);
    if t.len() > 0 {
        assert(!is_ws(t[0]));
    }
    assert(crate::text::ws_prefix_len(t) == 0);
    assert(trim_start(t) =~= t);
}

fn cmd_after_sep_exec(t: &Vec<char>, sep: &str) -> (r: Option<Vec<char>>)
    ensures
        match r {
            Some(c) => cmd_after_sep(t@, sep@) == Some(c@),
            None => cmd_after_sep(t@, sep@) is None,
        },
{
    let sv = chars_of(sep);
    match find_chars(t, &sv) {
        Some(pos) => {
            assert(is_first_occurrence(t@, sv@, pos as int));
            if pos > 0 {
                let c = t[pos - 1];
                assert(t@.take(pos as int).last() == c);
                if char_is_alphanumeric(c) || c == '_' {
                    return None;
                }
            }
            let tl = t.len();
            assert(pos + sv@.len() <= tl);
            let from = pos + sv.len();
            match first_word_after(t, from) {
                Some(cmd) => {
                    if starts_with(&cmd, &chars_of("-")) {
                        None
                    } else {
                        Some(cmd)
                    }
                },
                None => None,
            }
        },
        None => None,
    }
}

fn cmd_after_alias_exec(t: &Vec<char>, alias: &str) -> (r: Option<Vec<char>>)
    ensures
        match r {
            Some(c) => cmd_after_alias(t@, alias@) == Some(c@),
            None => cmd_after_alias(t@, alias@) is None,
        },
{
    let av = chars_of(alias);
    match find_chars(t, &av) {
        Some(pos) => {
            assert(is_first_occurrence(t@, av@, pos as int));
            if pos > 0 {
                let c = t[pos - 1];
                assert(t@.take(pos as int).last() == c);
                if !is_whitespace(c) {
                    return None;
                }
            }
            let tl = t.len();
            assert(pos + av@.len() <= tl);
            let from = pos + av.len();
            match first_word_after(t, from) {
                Some(cmd) => {
                    if starts_with(&cmd, &chars_of("-")) || starts_with(&cmd, &chars_of("$")) {
                        None
                    } else {
                        Some(cmd)
                    }
                },
                None => None,
            }
        },
        None => None,
    }
}

/// The tool command that a configuration line runs, directly or through one
/// of the aliases.
pub fn dr_extract_cmd(line: &str, aliases: &[String]) -> (r: Option<String>)
    ensures
        r is Some <==> spec_extract_cmd(line@, strs(aliases@)) is Some,
        r is Some ==> r->0@ == spec_extract_cmd(line@, strs(aliases@))->0,
{
    let t = trim_chars(&chars_of(line));
    if starts_with(&t, &chars_of("#")) || t.len() == 0 || starts_with(&t, &chars_of("set ")) {
        return None;
    }
    match cmd_after_sep_exec(&t, "exec --no-startup-id swi3-groups ") {
        Some(c) => {
            return Some(string_of(&c));
        },
        None => {},
    }
    match cmd_after_sep_exec(&t, "exec swi3-groups ") {
        Some(c) => {
            return Some(string_of(&c));
        },
        None => {},
    }
    let ghost av = strs(aliases@);
    let mut k: usize = 0;
    while k < aliases.len()
        invariant
            k <= aliases@.len(),
            av == strs(aliases@),
            t@ == trim(line@),
            !(has_prefix(t@, "#"@) || t@.len() == 0 || has_prefix(t@, "set "@)),
            cmd_after_sep(t@, "exec --no-startup-id swi3-groups "@) is None,
            cmd_after_sep(t@, "exec swi3-groups "@) is None,
            cmd_from_aliases(t@, av, 0) == cmd_from_aliases(t@, av, k as int),
        decreases aliases.len() - k,
    {
        assert(av[k as int] == aliases@[k as int]@);
        match cmd_after_alias_exec(&t, aliases[k].as_str()) {
            Some(c) => {
                return Some(string_of(&c));
            },
            None => {},
        }
        k += 1;
    }
    None
}

} // verus!
