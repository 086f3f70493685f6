//! The text of the commands sent to the window manager.
use vstd::prelude::*;
use crate::text::{chars_of, string_of, extend_str, chars_eq};

verus! {

/// `s` with every `"` preceded by a backslash.
pub open spec fn escape_quotes(s: Seq<char>) -> Seq<char>
    decreases s.len(),
{
    if s.len() == 0 {
        Seq::empty()
    } else if s.last() == '"' {
        escape_quotes(s.drop_last()) + seq!['\\', '"']
    } else {
        escape_quotes(s.drop_last()).push(s.last())
    }
}

/// Escaping works character by character: text without `"` is unchanged,
/// each `"` becomes `\"`, and escaping two pieces one after the other is
/// escaping them joined.
pub proof fn lemma_escape_quotes(a: Seq<char>, b: Seq<char>)
    ensures
        escape_quotes(a + b) == escape_quotes(a) + escape_quotes(b),
        (forall|i: int| 0 <= i < a.len() ==> a[i] != '"') ==> escape_quotes(a) == a,
        escape_quotes(seq!['"']) == seq!['\\', '"'],
    decreases b.len(),
{
    if b.len() > 0 {
        lemma_escape_quotes(a, b.drop_last());
        assert((a + b).drop_last() =~= a + b.drop_last());
        assert((a + b).last() == b.last());
        if b.last() == '"' {
            assert(escape_quotes(a) + escape_quotes(b.drop_last()) + seq!['\\', '"'] =~= escape_quotes(a)
                + (escape_quotes(b.drop_last()) + seq!['\\', '"']));
        } else {
            assert((escape_quotes(a) + escape_quotes(b.drop_last())).push(b.last()) =~= escape_quotes(a)
                + escape_quotes(b.drop_last()).push(b.last()));
        }
    } else {
        assert(a + b =~= a);
        assert(escape_quotes(a) + escape_quotes(b) =~= escape_quotes(a));
    }
    lemma_escape_plain(a);
    let q = seq!['"'];
    assert(q.drop_last() =~= Seq::<char>::empty());
    assert(q.last() == '"');
    assert(escape_quotes(Seq::<char>::empty()) == Seq::<char>::empty());
    assert(Seq::<char>::empty() + seq!['\\', '"'] =~= seq!['\\', '"']);
}

proof fn lemma_escape_plain(a: Seq<char>)
    ensures
        (forall|i: int| 0 <= i < a.len() ==> a[i] != '"') ==> escape_quotes(a) == a,
    decreases a.len(),
{
    if a.len() > 0 {
        lemma_escape_plain(a.drop_last());
        if forall|i: int| 0 <= i < a.len() ==> a[i] != '"' {
            assert(a.last() != '"');
            assert forall|i: int| 0 <= i < a.drop_last().len() implies a.drop_last()[i] != '"' by {
                assert(a.drop_last()[i] == a[i]);
            }
            assert(a.drop_last().push(a.last()) =~= a);
        }
    }
}

/// Appends `s` with every `"` preceded by a backslash.
pub fn push_escaped(out: &mut Vec<char>, s: &str)
    ensures
        final(out)@ == old(out)@ + escape_quotes(s@),
{
    let v = chars_of(s);
    push_escaped_chars(out, &v);
}

/// Appends `v` with every `"` preceded by a backslash.
pub fn push_escaped_chars(out: &mut Vec<char>, v: &[char])
    ensures
        final(out)@ == old(out)@ + escape_quotes(v@),
{
    let mut i: usize = 0;
    while i < v.len()
        invariant
            i <= v@.len(),
            out@ == old(out)@ + escape_quotes(v@.take(i as int)),
        decreases v.len() - i,
    {
        assert(v@.take(i + 1).drop_last() =~= v@.take(i as int));
        assert(v@.take(i + 1).last() == v@[i as int]);
        if v[i] == '"' {
            out.push('\\');
            out.push('"');
            assert(out@ =~= old(out)@ + escape_quotes(v@.take(i + 1)));
        } else {
            out.push(v[i]);
            assert(out@ =~= old(out)@ + escape_quotes(v@.take(i + 1)));
        }
        i += 1;
    }
    assert(v@.take(v@.len() as int) =~= v@);
}

/// `"name"` with the quotes inside `name` escaped.
pub open spec fn quoted(name: Seq<char>) -> Seq<char> {
    seq!['"'] + escape_quotes(name) + seq!['"']
}

fn push_quoted(out: &mut Vec<char>, name: &str)
    ensures
        final(out)@ == old(out)@ + quoted(name@),
{
    out.push('"');
    push_escaped(out, name);
    out.push('"');
    assert(out@ =~= old(out)@ + quoted(name@));
}

/// The option that turns off automatic back-and-forth.
pub open spec fn no_back_and_forth_opt(on: bool) -> Seq<char> {
    if on {
        "--no-auto-back-and-forth "@
    } else {
        Seq::empty()
    }
}

fn push_no_back_and_forth(out: &mut Vec<char>, on: bool)
    ensures
        final(out)@ == old(out)@ + no_back_and_forth_opt(on),
{
    if on {
        extend_str(out, "--no-auto-back-and-forth ");
    } else {
        assert(old(out)@ + Seq::<char>::empty() =~= old(out)@);
    }
}

/// The command that focuses the workspace `name`.
pub open spec fn spec_focus_command(name: Seq<char>, auto_back_and_forth: bool) -> Seq<char> {
    "workspace "@ + no_back_and_forth_opt(!auto_back_and_forth) + quoted(name)
}

/// The command that focuses the workspace `name`, with automatic
/// back-and-forth turned off unless `auto_back_and_forth` holds.
pub fn focus_command(name: &str, auto_back_and_forth: bool) -> (r: String)
    ensures
        r@ == spec_focus_command(name@, auto_back_and_forth),
{
    let mut out: Vec<char> = Vec::new();
    extend_str(&mut out, "workspace ");
    push_no_back_and_forth(&mut out, !auto_back_and_forth);
    push_quoted(&mut out, name);
    assert(out@ =~= spec_focus_command(name@, auto_back_and_forth));
    string_of(&out)
}

/// The command that renames workspace `old` to `new`.
pub open spec fn spec_rename_command(old: Seq<char>, new: Seq<char>) -> Seq<char> {
    "rename workspace "@ + quoted(old) + " to "@ + quoted(new)
}

/// The command that renames workspace `old` to `new`; none when the names
/// are equal.
pub fn rename_command(old: &str, new: &str) -> (r: Option<String>)
    ensures
        match r {
            Some(c) => old@ != new@ && c@ == spec_rename_command(old@, new@),
            None => old@ == new@,
        },
{
    let ov = chars_of(old);
    let nv = chars_of(new);
    if chars_eq(&ov, &nv) {
        return None;
    }
    let mut out: Vec<char> = Vec::new();
    extend_str(&mut out, "rename workspace ");
    push_quoted(&mut out, old);
    extend_str(&mut out, " to ");
    push_quoted(&mut out, new);
    assert(out@ =~= spec_rename_command(old@, new@));
    Some(string_of(&out))
}

/// The command that moves the focused container to workspace `name`.
pub open spec fn spec_move_command(name: Seq<char>, no_auto_back_and_forth: bool) -> Seq<char> {
    "move "@ + no_back_and_forth_opt(no_auto_back_and_forth) + "container to workspace "@ + quoted(
        name,
    )
}

/// The command that moves the focused container to workspace `name`.
pub fn move_command(name: &str, no_auto_back_and_forth: bool) -> (r: String)
    ensures
        r@ == spec_move_command(name@, no_auto_back_and_forth),
{
    let mut out: Vec<char> = Vec::new();
    extend_str(&mut out, "move ");
    push_no_back_and_forth(&mut out, no_auto_back_and_forth);
    extend_str(&mut out, "container to workspace ");
    push_quoted(&mut out, name);
    assert(out@ =~= spec_move_command(name@, no_auto_back_and_forth));
    string_of(&out)
}

/// The command that focuses the output `name` (the name is not escaped).
pub open spec fn spec_focus_output_command(name: Seq<char>) -> Seq<char> {
    "focus output \""@ + name + "\""@
}

/// The command that focuses the output `name`.
pub fn focus_output_command(name: &str) -> (r: String)
    ensures
        r@ == spec_focus_output_command(name@),
{
    let mut out: Vec<char> = Vec::new();
    extend_str(&mut out, "focus output \"");
    extend_str(&mut out, name);
    extend_str(&mut out, "\"");
    assert(out@ =~= spec_focus_output_command(name@));
    string_of(&out)
}

/// The command that focuses (creating it if needed) workspace number `n`.
pub open spec fn spec_workspace_number_command(n: int) -> Seq<char> {
    "workspace number "@ + crate::num::int_text(n)
}

/// The command that focuses (creating it if needed) workspace number `n`.
pub fn workspace_number_command(n: i64) -> (r: String)
    ensures
        r@ == spec_workspace_number_command(n as int),
{
    let mut out: Vec<char> = Vec::new();
    extend_str(&mut out, "workspace number ");
    crate::num::push_int(&mut out, n);
    string_of(&out)
}

/// Which window manager runs the session.
#[derive(Clone, Copy, Debug, PartialEq, Eq)]
pub enum Wm {
    Sway,
    I3,
}

/// The window manager in use: sway when `SWAYSOCK` is set, i3 when `I3SOCK`
/// is, else sway when probing `swaymsg` succeeded (`probe` is only consulted
/// then), else i3.
pub fn detect_wm(swaysock_set: bool, i3sock_set: bool, probe: Option<bool>) -> (r: Wm)
    ensures
        r == (if swaysock_set {
            Wm::Sway
        } else if i3sock_set {
            Wm::I3
        } else if probe == Some(true) {
            Wm::Sway
        } else {
            Wm::I3
        }),
{
    if swaysock_set {
        return Wm::Sway;
    }
    if i3sock_set {
        return Wm::I3;
    }
    match probe {
        Some(true) => Wm::Sway,
        _ => Wm::I3,
    }
}

/// Whether detecting the window manager needs the `swaymsg` probe.
pub fn needs_probe(swaysock_set: bool, i3sock_set: bool) -> (r: bool)
    ensures
        r == (!swaysock_set && !i3sock_set),
{
    !swaysock_set && !i3sock_set
}

/// The name of the window manager, as `detect-wm` prints it.
pub fn wm_name(wm: Wm) -> (r: &'static str)
    ensures
        r@ == (if wm == Wm::Sway {
            "sway"@
        } else {
            "i3"@
        }),
{
    match wm {
        Wm::Sway => "sway",
        Wm::I3 => "i3",
    }
}

/// The messaging tool of the window manager.
pub fn wm_msg_cmd(wm: Wm) -> (r: &'static str)
    ensures
        r@ == (if wm == Wm::Sway {
            "swaymsg"@
        } else {
            "i3-msg"@
        }),
{
    match wm {
        Wm::Sway => "swaymsg",
        Wm::I3 => "i3-msg",
    }
}

} // verus!
