//! What `doctor` finds in a window manager configuration: commands of the
//! tool that are invalid or unknown, deprecated program names, the session
//! start-up, raw workspace navigation and the bar set-up.
use vstd::prelude::*;
use crate::text::{chars_of, string_of, trim, has_prefix, find, find_chars, trim_chars, starts_with};
use crate::cli::strs;
use crate::sets::str_eq;
use crate::doctor::{spec_extract_cmd, dr_extract_cmd};

verus! {

/// Whether `p` occurs in `s` (`str::contains`).
pub open spec fn contains_seq(s: Seq<char>, p: Seq<char>) -> bool {
    find(s, p) is Some
}

/// Whether `p` occurs in `v`.
pub fn contains_chars(v: &[char], p: &str) -> (r: bool)
    ensures
        r == contains_seq(v@, p@),
{
    find_chars(v, &chars_of(p)).is_some()
}

// ── the commands of the tool ────────────────────────────────────────────────

/// The commands that the tool accepts.
pub open spec fn valid_cmd(c: Seq<char>) -> bool {
    ||| c == "detect-wm"@
    ||| c == "wm-msg"@
    ||| c == "bar-updater"@
    ||| c == "doctor"@
    ||| c == "switch-rewind"@
    ||| c == "list-groups"@
    ||| c == "list-workspaces"@
    ||| c == "workspace-number"@
    ||| c == "workspace-next"@
    ||| c == "workspace-prev"@
    ||| c == "next"@
    ||| c == "prev"@
    ||| c == "workspace-next-global"@
    ||| c == "workspace-prev-global"@
    ||| c == "workspace-new"@
    ||| c == "move-to-number"@
    ||| c == "move-to-next"@
    ||| c == "move-to-prev"@
    ||| c == "move-to-new"@
    ||| c == "switch-active-group"@
    ||| c == "rename-workspace"@
    ||| c == "assign-workspace-to-group"@
    ||| c == "waybar"@
    ||| c == "init-session"@
    ||| c == "polybar"@
    ||| c == "select-group"@
    ||| c == "switch-group"@
    ||| c == "assign"@
    ||| c == "assign-switch"@
    ||| c == "focus"@
    ||| c == "move"@
    ||| c == "rename"@
}

/// Whether the tool accepts the command `c`.
pub fn is_valid_cmd(c: &str) -> (r: bool)
    ensures
        r == valid_cmd(c@),
{
    str_eq(c, "detect-wm") || str_eq(c, "wm-msg") || str_eq(c, "bar-updater") || str_eq(
        c,
        "doctor",
    ) || str_eq(c, "switch-rewind") || str_eq(c, "list-groups") || str_eq(c, "list-workspaces")
        || str_eq(c, "workspace-number") || str_eq(c, "workspace-next") || str_eq(
        c,
        "workspace-prev",
    ) || str_eq(c, "next") || str_eq(c, "prev") || str_eq(c, "workspace-next-global") || str_eq(
        c,
        "workspace-prev-global",
    ) || str_eq(c, "workspace-new") || str_eq(c, "move-to-number") || str_eq(c, "move-to-next")
        || str_eq(c, "move-to-prev") || str_eq(c, "move-to-new") || str_eq(
        c,
        "switch-active-group",
    ) || str_eq(c, "rename-workspace") || str_eq(c, "assign-workspace-to-group") || str_eq(
        c,
        "waybar",
    ) || str_eq(c, "init-session") || str_eq(c, "polybar") || str_eq(c, "select-group") || str_eq(
        c,
        "switch-group",
    ) || str_eq(c, "assign") || str_eq(c, "assign-switch") || str_eq(c, "focus") || str_eq(
        c,
        "move",
    ) || str_eq(c, "rename")
}

/// The replacement of a command that was renamed.
pub open spec fn renamed_to(c: Seq<char>) -> Option<Seq<char>> {
    if c == "list-sets"@ {
        Some("list-groups"@)
    } else if c == "list-workspace-groups"@ {
        Some("list-groups"@)
    } else if c == "switch-active-set"@ {
        Some("switch-active-group"@)
    } else if c == "assign-workspace-to-set"@ {
        Some("assign-workspace-to-group"@)
    } else if c == "select-set"@ {
        Some("select-group"@)
    } else if c == "switch-set"@ {
        Some("switch-group"@)
    } else if c == "switch-to-last-workspace"@ {
        Some("switch-rewind"@)
    } else if c == "workspace-number-focused-group"@ {
        Some("workspace-number --group-focused <N>"@)
    } else if c == "move-to-number-focused-group"@ {
        Some("move-to-number --group-focused <N>"@)
    } else {
        None
    }
}

/// What to write in place of a renamed command.
pub fn renamed_cmd(c: &str) -> (r: Option<&'static str>)
    ensures
        match r {
            Some(s) => renamed_to(c@) == Some(s@),
            None => renamed_to(c@) is None,
        },
{
    if str_eq(c, "list-sets") {
        Some("list-groups")
    } else if str_eq(c, "list-workspace-groups") {
        Some("list-groups")
    } else if str_eq(c, "switch-active-set") {
        Some("switch-active-group")
    } else if str_eq(c, "assign-workspace-to-set") {
        Some("assign-workspace-to-group")
    } else if str_eq(c, "select-set") {
        Some("select-group")
    } else if str_eq(c, "switch-set") {
        Some("switch-group")
    } else if str_eq(c, "switch-to-last-workspace") {
        Some("switch-rewind")
    } else if str_eq(c, "workspace-number-focused-group") {
        Some("workspace-number --group-focused <N>")
    } else if str_eq(c, "move-to-number-focused-group") {
        Some("move-to-number --group-focused <N>")
    } else {
        None
    }
}

/// A command of the tool in the configuration that will not work: renamed
/// (with its replacement) or unknown.
pub struct CmdFinding {
    /// The index of the line that names it.
    pub line: usize,
    pub cmd: String,
    /// The replacement of a renamed command; none for an unknown one.
    pub replacement: Option<&'static str>,
}

/// A finding as plain values: line, command, replacement.
pub open spec fn finding_view(f: CmdFinding) -> (int, Seq<char>, Option<Seq<char>>) {
    (
        f.line as int,
        f.cmd@,
        match f.replacement {
            Some(s) => Some(s@),
            None => None,
        },
    )
}

/// The views of a list of findings.
pub open spec fn findings_view(fs: Seq<CmdFinding>) -> Seq<(int, Seq<char>, Option<Seq<char>>)> {
    fs.map_values(|f: CmdFinding| finding_view(f))
}

/// Whether `cmd` was reported already.
pub open spec fn reported(fs: Seq<(int, Seq<char>, Option<Seq<char>>)>, cmd: Seq<char>) -> bool {
    exists|i: int| 0 <= i < fs.len() && fs[i].1 == cmd
}

/// The findings in the first `n` lines: each renamed or unknown command,
/// reported at the first line that names it.
pub open spec fn findings_upto(lines: Seq<Seq<char>>, aliases: Seq<Seq<char>>, n: int) -> Seq<
    (int, Seq<char>, Option<Seq<char>>),
>
    decreases n,
{
    if n <= 0 || n > lines.len() {
        Seq::empty()
    } else {
        let prev = findings_upto(lines, aliases, n - 1);
        match spec_extract_cmd(lines[n - 1], aliases) {
            Some(cmd) => if (renamed_to(cmd) is Some || !valid_cmd(cmd)) && !reported(prev, cmd) {
                prev.push((n - 1, cmd, renamed_to(cmd)))
            } else {
                prev
            },
            None => prev,
        }
    }
}

/// Every finding is a command that will not work (renamed or unknown),
/// carries the replacement of a renamed command, names a line that names
/// it, and no command is reported twice.
pub proof fn lemma_findings_once(lines: Seq<Seq<char>>, aliases: Seq<Seq<char>>, n: int)
    ensures
        ({
            let f = findings_upto(lines, aliases, n);
            &&& forall|i: int|
                0 <= i < f.len() ==> (renamed_to((#[trigger] f[i]).1) is Some || !valid_cmd(f[i].1))
                    && f[i].2 == renamed_to(f[i].1) && 0 <= f[i].0 < lines.len() && spec_extract_cmd(
                    lines[f[i].0],
                    aliases,
                ) == Some(f[i].1)
            &&& forall|i: int, j: int| 0 <= i < j < f.len() ==> (#[trigger] f[i]).1 != (#[trigger] f[j]).1
        }),
    decreases n,
{
    if 0 < n <= lines.len() {
        lemma_findings_once(lines, aliases, n - 1);
        let prev = findings_upto(lines, aliases, n - 1);
        let f = findings_upto(lines, aliases, n);
        if f.len() > prev.len() {
            assert forall|i: int| 0 <= i < f.len() implies (renamed_to((#[trigger] f[i]).1) is Some || !valid_cmd(f[i].1))
                && f[i].2 == renamed_to(f[i].1) && 0 <= f[i].0 < lines.len() && spec_extract_cmd(
                lines[f[i].0],
                aliases,
            ) == Some(f[i].1) by {
                if i < prev.len() {
                    assert(f[i] == prev[i]);
                }
            }
            assert forall|i: int, j: int| 0 <= i < j < f.len() implies (#[trigger] f[i]).1 != (#[trigger] f[j]).1 by {
                if j < prev.len() {
                    assert(f[i] == prev[i] && f[j] == prev[j]);
                } else {
                    assert(f[i] == prev[i]);
                    assert(!reported(prev, f[j].1));
                }
            }
        }
    }
}

/// The commands of the tool in `lines` that will not work, each once, in
/// the order of their first line.
pub fn command_findings(lines: &[String], aliases: &[String]) -> (r: Vec<CmdFinding>)
    ensures
        findings_view(r@) == findings_upto(strs(lines@), strs(aliases@), lines@.len() as int),
{
    let ghost lv = strs(lines@);
    let ghost av = strs(aliases@);
    let mut r: Vec<CmdFinding> = Vec::new();
    let mut i: usize = 0;
    while i < lines.len()
        invariant
            i <= lines@.len(),
            lv == strs(lines@),
            av == strs(aliases@),
            findings_view(r@) == findings_upto(lv, av, i as int),
        decreases lines.len() - i,
    {
        let ghost prev = findings_view(r@);
        assert(lv[i as int] == lines@[i as int]@);
        match dr_extract_cmd(lines[i].as_str(), aliases) {
            Some(cmd) => {
                let replacement = renamed_cmd(cmd.as_str());
                let bad = match replacement {
                    Some(_) => true,
                    None => !is_valid_cmd(cmd.as_str()),
                };
                if bad {
                    let mut seen = false;
                    let mut k: usize = 0;
                    while k < r.len()
                        invariant
                            k <= r@.len(),
                            prev == findings_view(r@),
                            seen <==> exists|j: int| 0 <= j < k && prev[j].1 == cmd@,
                        decreases r.len() - k,
                    {
                        assert(prev[k as int] == finding_view(r@[k as int]));
                        if str_eq(r[k].cmd.as_str(), cmd.as_str()) {
                            seen = true;
                        }
                        k += 1;
                    }
                    if !seen {
                        r.push(CmdFinding { line: i, cmd, replacement });
                        assert(findings_view(r@) =~= prev.push(
                            (i as int, spec_extract_cmd(lv[i as int], av)->0, renamed_to(
                                spec_extract_cmd(lv[i as int], av)->0,
                            )),
                        ));
                    }
                }
            },
            None => {},
        }
        i += 1;
    }
    r
}

// ── deprecated program names ────────────────────────────────────────────────

/// The names that earlier versions of the tool were installed under.
pub open spec fn old_bins() -> Seq<Seq<char>> {
    seq![
        "i3-workspace-sets"@,
        "i3wsgroups"@,
        "i3-switch-active-workspace-set"@,
        "i3-assign-workspace-to-set"@,
        "i3-focus-on-workspace"@,
        "i3-move-to-workspace"@,
        "i3-rename-workspace"@,
        "i3-sets-waybar-module"@,
        "i3-sets-bar-module-updater"@,
        "i3-sets-polybar-module-updater"@,
    ]
}

/// The old names, in the order of [`old_bins`].
pub fn old_bin_names() -> (r: Vec<&'static str>)
    ensures
        r@.map_values(|s: &'static str| s@) == old_bins(),
{
    let mut r: Vec<&'static str> = Vec::new();
    r.push("i3-workspace-sets");
    r.push("i3wsgroups");
    r.push("i3-switch-active-workspace-set");
    r.push("i3-assign-workspace-to-set");
    r.push("i3-focus-on-workspace");
    r.push("i3-move-to-workspace");
    r.push("i3-rename-workspace");
    r.push("i3-sets-waybar-module");
    r.push("i3-sets-bar-module-updater");
    r.push("i3-sets-polybar-module-updater");
    assert(r@.map_values(|s: &'static str| s@) =~= old_bins());
    r
}

/// Whether a line that is not a comment names `name`.
pub open spec fn names_in_code(lines: Seq<Seq<char>>, name: Seq<char>) -> bool {
    exists|i: int|
        0 <= i < lines.len() && !has_prefix(trim(#[trigger] lines[i]), "#"@) && contains_seq(
            lines[i],
            name,
        )
}

/// The old names of [`old_bins`] that `lines` use outside comments, in order.
pub open spec fn old_bins_used(lines: Seq<Seq<char>>) -> Seq<Seq<char>> {
    old_bins().filter(|b: Seq<char>| names_in_code(lines, b))
}

fn names_in_code_exec(lines: &[String], name: &str) -> (r: bool)
    ensures
        r == names_in_code(strs(lines@), name@),
{
    let ghost lv = strs(lines@);
    let mut i: usize = 0;
    while i < lines.len()
        invariant
            i <= lines@.len(),
            lv == strs(lines@),
            forall|j: int|
                0 <= j < i ==> !(!has_prefix(trim(#[trigger] lv[j]), "#"@) && contains_seq(
                    lv[j],
                    name@,
                )),
        decreases lines.len() - i,
    {
        let l = chars_of(lines[i].as_str());
        assert(lv[i as int] == l@);
        let t = trim_chars(&l);
        if !starts_with(&t, &chars_of("#")) && contains_chars(&l, name) {
            return true;
        }
        i += 1;
    }
    false
}

/// The deprecated program names that the configuration still uses.
pub fn deprecated_bins(lines: &[String]) -> (r: Vec<&'static str>)
    ensures
        r@.map_values(|s: &'static str| s@) == old_bins_used(strs(lines@)),
{
    let names = old_bin_names();
    let ghost lv = strs(lines@);
    let ghost nv = names@.map_values(|s: &'static str| s@);
    let mut r: Vec<&'static str> = Vec::new();
    let mut i: usize = 0;
    while i < names.len()
        invariant
            i <= names@.len(),
            lv == strs(lines@),
            nv == names@.map_values(|s: &'static str| s@),
            nv == old_bins(),
            r@.map_values(|s: &'static str| s@) == nv.take(i as int).filter(
                |b: Seq<char>| names_in_code(lv, b),
            ),
        decreases names.len() - i,
    {
        let name = names[i];
        let ghost before = r@.map_values(|s: &'static str| s@);
        assert(nv.take(i + 1).drop_last() =~= nv.take(i as int));
        assert(nv.take(i + 1).last() == name@);
        reveal(Seq::filter);
        if names_in_code_exec(lines, name) {
            r.push(name);
            assert(r@.map_values(|s: &'static str| s@) =~= before.push(name@));
        }
        i += 1;
    }
    assert(nv.take(names@.len() as int) =~= nv);
    r
}

// ── whole-configuration tests ───────────────────────────────────────────────

/// The tests that `doctor` makes of the lines of the configuration, each
/// on a line after trimming.
pub enum LineTest {
    /// The line opens a `bar` block.
    SwayBar,
    /// The line starts waybar.
    Waybar,
    /// The line sets `strip_workspace_numbers yes`.
    StripNumbers,
    /// The line starts the bar updater of the tool.
    BarUpdater,
    /// The line starts the session set-up of the tool.
    InitSession,
}

/// Whether the trimmed line `t` passes `test`.
pub open spec fn passes(test: LineTest, t: Seq<char>, line: Seq<char>, aliases: Seq<Seq<char>>) -> bool {
    let code = !has_prefix(t, "#"@);
    match test {
        LineTest::SwayBar => t == "bar {"@ || t == "bar{"@,
        LineTest::Waybar => code && contains_seq(t, "exec"@) && contains_seq(t, "waybar"@),
        LineTest::StripNumbers => code && contains_seq(t, "strip_workspace_numbers"@)
            && contains_seq(t, "yes"@),
        LineTest::BarUpdater => code && contains_seq(t, "exec"@) && contains_seq(t, "bar-updater"@)
            && (contains_seq(t, "swi3-groups"@) || contains_seq(t, "i3-sets-bar-module-updater"@)),
        LineTest::InitSession => spec_extract_cmd(line, aliases) == Some("init-session"@),
    }
}

/// Whether some line passes `test`.
pub open spec fn some_line(test: LineTest, lines: Seq<Seq<char>>, aliases: Seq<Seq<char>>) -> bool {
    exists|i: int| 0 <= i < lines.len() && passes(test, trim(#[trigger] lines[i]), lines[i], aliases)
}

fn passes_exec(test: &LineTest, line: &str, aliases: &[String]) -> (r: bool)
    ensures
        r == passes(*test, trim(line@), line@, strs(aliases@)),
{
    let t = trim_chars(&chars_of(line));
    let code = !starts_with(&t, &chars_of("#"));
    match test {
        LineTest::SwayBar => crate::text::chars_eq(&t, &chars_of("bar {")) || crate::text::chars_eq(
            &t,
            &chars_of("bar{"),
        ),
        LineTest::Waybar => code && contains_chars(&t, "exec") && contains_chars(&t, "waybar"),
        LineTest::StripNumbers => code && contains_chars(&t, "strip_workspace_numbers")
            && contains_chars(&t, "yes"),
        LineTest::BarUpdater => code && contains_chars(&t, "exec") && contains_chars(
            &t,
            "bar-updater",
        ) && (contains_chars(&t, "swi3-groups") || contains_chars(&t, "i3-sets-bar-module-updater")),
        LineTest::InitSession => match dr_extract_cmd(line, aliases) {
            Some(c) => str_eq(c.as_str(), "init-session"),
            None => false,
        },
    }
}

/// Whether some line of the configuration passes `test`.
pub fn any_line(test: LineTest, lines: &[String], aliases: &[String]) -> (r: bool)
    ensures
        r == some_line(test, strs(lines@), strs(aliases@)),
{
    let ghost lv = strs(lines@);
    let mut i: usize = 0;
    while i < lines.len()
        invariant
            i <= lines@.len(),
            lv == strs(lines@),
            forall|j: int|
                0 <= j < i ==> !passes(test, trim(#[trigger] lv[j]), lv[j], strs(aliases@)),
        decreases lines.len() - i,
    {
        assert(lv[i as int] == lines@[i as int]@);
        if passes_exec(&test, lines[i].as_str(), aliases) {
            return true;
        }
        i += 1;
    }
    false
}

// ── raw workspace navigation ────────────────────────────────────────────────

/// Whether the trimmed line `t` binds a key to the window manager's own
/// `workspace next` or `workspace prev`, which skip the tool's groups.
pub open spec fn raw_nav(t: Seq<char>) -> bool {
    &&& !has_prefix(t, "#"@)
    &&& contains_seq(t, "bindsym"@)
    &&& !contains_seq(t, "swi3-groups"@)
    &&& (contains_seq(t, "workspace next"@) || contains_seq(t, "workspace prev"@))
    &&& !contains_seq(t, "next_on_output"@)
    &&& !contains_seq(t, "prev_on_output"@)
}

/// The trimmed lines of `lines` that bind raw workspace navigation, in order.
pub open spec fn raw_nav_upto(lines: Seq<Seq<char>>, n: int) -> Seq<Seq<char>>
    decreases n,
{
    if n <= 0 || n > lines.len() {
        Seq::empty()
    } else {
        let prev = raw_nav_upto(lines, n - 1);
        if raw_nav(trim(lines[n - 1])) {
            prev.push(trim(lines[n - 1]))
        } else {
            prev
        }
    }
}

/// The bindings of raw workspace navigation, trimmed, in order.
pub fn raw_nav_bindings(lines: &[String]) -> (r: Vec<String>)
    ensures
        strs(r@) == raw_nav_upto(strs(lines@), lines@.len() as int),
{
    let ghost lv = strs(lines@);
    let mut r: Vec<String> = Vec::new();
    let mut i: usize = 0;
    while i < lines.len()
        invariant
            i <= lines@.len(),
            lv == strs(lines@),
            strs(r@) == raw_nav_upto(lv, i as int),
        decreases lines.len() - i,
    {
        assert(lv[i as int] == lines@[i as int]@);
        let t = trim_chars(&chars_of(lines[i].as_str()));
        if !starts_with(&t, &chars_of("#")) && contains_chars(&t, "bindsym") && !contains_chars(
            &t,
            "swi3-groups",
        ) && (contains_chars(&t, "workspace next") || contains_chars(&t, "workspace prev"))
            && !contains_chars(&t, "next_on_output") && !contains_chars(&t, "prev_on_output") {
            let ghost before = strs(r@);
            r.push(string_of(&t));
            assert(strs(r@) =~= before.push(t@));
        }
        i += 1;
    }
    r
}

} // verus!
