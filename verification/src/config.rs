//! Where `doctor` looks for the window manager configuration, and how it
//! follows `include` lines.
use vstd::prelude::*;
use crate::text::{
    chars_of, string_of, extend_chars, extend_str, sub_chars, trim, trim_chars, has_prefix,
    has_suffix, starts_with, ends_with, find, find_chars, occurs_at, lacks, lemma_find_is,
    is_first_occurrence,
};

verus! {

/// The views of a list of strings.
pub open spec fn string_views(v: Seq<String>) -> Seq<Seq<char>> {
    v.map_values(|s: String| s@)
}

/// The configuration directory: `XDG_CONFIG_HOME` when it is set (even to
/// nothing), else `.config` in the home directory.
pub open spec fn spec_xdg_dir(xdg_env: Option<Seq<char>>, home: Seq<char>) -> Seq<char> {
    match xdg_env {
        Some(x) => x,
        None => home + "/.config"@,
    }
}

/// The configuration directory, from the value of `XDG_CONFIG_HOME` (none
/// when unset) and the home directory.
pub fn xdg_dir(xdg_env: Option<&str>, home: &str) -> (r: String)
    ensures
        r@ == spec_xdg_dir(
            match xdg_env {
                Some(x) => Some(x@),
                None => None,
            },
            home@,
        ),
{
    match xdg_env {
        Some(x) => string_of(&chars_of(x)),
        None => {
            let mut out: Vec<char> = Vec::new();
            extend_str(&mut out, home);
            extend_str(&mut out, "/.config");
            string_of(&out)
        },
    }
}

/// The configuration files looked for, in order: sway's when `SWAYSOCK` is
/// set and i3's when `I3SOCK` is, then both under the configuration
/// directory, then `~/.sway/config` and `~/.i3/config` when the home
/// directory is known.
pub open spec fn spec_config_candidates(
    swaysock: bool,
    i3sock: bool,
    xdg: Seq<char>,
    home: Seq<char>,
) -> Seq<Seq<char>> {
    (if swaysock {
        seq![xdg + "/sway/config"@]
    } else {
        Seq::empty()
    }) + (if i3sock {
        seq![xdg + "/i3/config"@]
    } else {
        Seq::empty()
    }) + seq![xdg + "/sway/config"@, xdg + "/i3/config"@] + (if home.len() > 0 {
        seq![home + "/.sway/config"@, home + "/.i3/config"@]
    } else {
        Seq::empty()
    })
}

/// The running window manager's own configuration is looked for first
/// (sway's when both sockets are set), and both configurations under the
/// configuration directory are always looked for.
pub proof fn lemma_running_wm_first(swaysock: bool, i3sock: bool, xdg: Seq<char>, home: Seq<char>)
    ensures
        ({
            let c = spec_config_candidates(swaysock, i3sock, xdg, home);
            &&& swaysock ==> c[0] == xdg + "/sway/config"@
            &&& !swaysock && i3sock ==> c[0] == xdg + "/i3/config"@
            &&& c.contains(xdg + "/sway/config"@)
            &&& c.contains(xdg + "/i3/config"@)
            &&& (home.len() > 0 ==> c.contains(home + "/.sway/config"@) && c.contains(home + "/.i3/config"@))
        }),
{
    let a = if swaysock {
        seq![xdg + "/sway/config"@]
    } else {
        Seq::empty()
    };
    let b = if i3sock {
        seq![xdg + "/i3/config"@]
    } else {
        Seq::empty()
    };
    let m = seq![xdg + "/sway/config"@, xdg + "/i3/config"@];
    let h = if home.len() > 0 {
        seq![home + "/.sway/config"@, home + "/.i3/config"@]
    } else {
        Seq::empty()
    };
    let c = spec_config_candidates(swaysock, i3sock, xdg, home);
    assert(c == a + b + m + h);
    let k: int = (a.len() + b.len()) as int;
    assert(c[k] == m[0]);
    assert(c[k + 1] == m[1]);
    if home.len() > 0 {
        assert(c[k + 2] == h[0]);
        assert(c[k + 3] == h[1]);
    }
}

fn joined(a: &str, b: &str) -> (r: String)
    ensures
        r@ == a@ + b@,
{
    let mut out: Vec<char> = Vec::new();
    extend_str(&mut out, a);
    extend_str(&mut out, b);
    string_of(&out)
}

/// The configuration files to look for, in order.
pub fn config_candidates(swaysock: bool, i3sock: bool, xdg: &str, home: &str) -> (r: Vec<String>)
    ensures
        string_views(r@) == spec_config_candidates(swaysock, i3sock, xdg@, home@),
{
    let mut r: Vec<String> = Vec::new();
    if swaysock {
        r.push(joined(xdg, "/sway/config"));
    }
    let ghost a = string_views(r@);
    if i3sock {
        r.push(joined(xdg, "/i3/config"));
    }
    let ghost b = string_views(r@);
    r.push(joined(xdg, "/sway/config"));
    r.push(joined(xdg, "/i3/config"));
    let ghost c = string_views(r@);
    if home.unicode_len() > 0 {
        r.push(joined(home, "/.sway/config"));
        r.push(joined(home, "/.i3/config"));
    }
    assert(string_views(r@) =~= spec_config_candidates(swaysock, i3sock, xdg@, home@));
    r
}

// ── include lines ───────────────────────────────────────────────────────────

/// `s` without all its leading `c`s (`str::trim_start_matches`).
pub open spec fn strip_leading(s: Seq<char>, c: char) -> Seq<char>
    decreases s.len(),
{
    if s.len() > 0 && s[0] == c {
        strip_leading(s.drop_first(), c)
    } else {
        s
    }
}

/// `s` without all its trailing `c`s (`str::trim_end_matches`).
pub open spec fn strip_trailing(s: Seq<char>, c: char) -> Seq<char>
    decreases s.len(),
{
    if s.len() > 0 && s.last() == c {
        strip_trailing(s.drop_last(), c)
    } else {
        s
    }
}

fn strip_leading_chars(v: &[char], c: char) -> (r: Vec<char>)
    ensures
        r@ == strip_leading(v@, c),
{
    let mut i: usize = 0;
    assert(v@.skip(0) =~= v@);
    while i < v.len() && v[i] == c
        invariant
            i <= v@.len(),
            strip_leading(v@, c) == strip_leading(v@.skip(i as int), c),
        decreases v.len() - i,
    {
        assert(v@.skip(i as int).drop_first() =~= v@.skip(i + 1));
        i += 1;
    }
    sub_chars(v, i, v.len())
}

fn strip_trailing_chars(v: &[char], c: char) -> (r: Vec<char>)
    ensures
        r@ == strip_trailing(v@, c),
{
    let mut n: usize = v.len();
    assert(v@.take(n as int) =~= v@);
    while n > 0 && v[n - 1] == c
        invariant
            n <= v@.len(),
            strip_trailing(v@, c) == strip_trailing(v@.take(n as int), c),
        decreases n,
    {
        assert(v@.take(n as int).drop_last() =~= v@.take(n - 1));
        n -= 1;
    }
    sub_chars(v, 0, n)
}

/// The file pattern that a configuration line includes: for a line that,
/// trimmed, starts with `include `, the rest trimmed and stripped of quotes,
/// with `~/` taken from the home directory `home` and a relative pattern
/// taken from the configuration's directory `dir`.
pub open spec fn spec_include_target(line: Seq<char>, home: Seq<char>, dir: Seq<char>) -> Option<Seq<char>> {
    let t = trim(line);
    if !has_prefix(t, "include "@) {
        None
    } else {
        let p = strip_trailing(strip_leading(trim(t.skip(8)), '"'), '"');
        Some(
            if has_prefix(p, "~/"@) {
                home + p.skip(1)
            } else if has_prefix(p, "/"@) {
                p
            } else {
                dir + "/"@ + p
            },
        )
    }
}

/// The file pattern that a configuration line includes, if it is an
/// `include` line.
pub fn include_target(line: &str, home: &str, dir: &str) -> (r: Option<String>)
    ensures
        match r {
            Some(s) => spec_include_target(line@, home@, dir@) == Some(s@),
            None => spec_include_target(line@, home@, dir@) is None,
        },
{
    let t = trim_chars(&chars_of(line));
    let kw = chars_of("include ");
    if !starts_with(&t, &kw) {
        return None;
    }
    proof {
        reveal_strlit("include ");
    }
    assert(kw@.len() == 8);
    let rest = sub_chars(&t, 8, t.len());
    assert(rest@ =~= t@.skip(8));
    let p = strip_trailing_chars(&strip_leading_chars(&trim_chars(&rest), '"'), '"');
    let mut out: Vec<char> = Vec::new();
    if starts_with(&p, &chars_of("~/")) {
        proof {
            reveal_strlit("~/");
        }
        extend_str(&mut out, home);
        let tail = sub_chars(&p, 1, p.len());
        assert(tail@ =~= p@.skip(1));
        extend_chars(&mut out, &tail);
    } else if starts_with(&p, &chars_of("/")) {
        extend_chars(&mut out, &p);
    } else {
        extend_str(&mut out, dir);
        extend_str(&mut out, "/");
        extend_chars(&mut out, &p);
    }
    Some(string_of(&out))
}

/// A glob pattern split at its first `*`: the part before it, and the part
/// after it without leading `/`s; none without a `*`.
pub open spec fn spec_glob_split(pattern: Seq<char>) -> Option<(Seq<char>, Seq<char>)> {
    match find(pattern, seq!['*']) {
        Some(i) => Some((pattern.take(i), strip_leading(pattern.skip(i + 1), '/'))),
        None => None,
    }
}

/// A glob pattern split at its first `*`.
pub fn glob_split(pattern: &str) -> (r: Option<(String, String)>)
    ensures
        match r {
            Some((a, b)) => spec_glob_split(pattern@) == Some((a@, b@)),
            None => spec_glob_split(pattern@) is None,
        },
{
    let v = chars_of(pattern);
    let star: Vec<char> = vec!['*'];
    assert(star@ =~= seq!['*']);
    match find_chars(&v, &star) {
        Some(i) => {
            assert(occurs_at(v@, star@, i as int));
            let n = v.len();
            assert(i + 1 <= n);
            let before = sub_chars(&v, 0, i);
            let after = sub_chars(&v, i + 1, n);
            assert(before@ =~= v@.take(i as int));
            assert(after@ =~= v@.skip(i + 1));
            let suffix = strip_leading_chars(&after, '/');
            Some((string_of(&before), string_of(&suffix)))
        },
        None => None,
    }
}

/// Whether a file named `name` matches the part of a glob after its `*`:
/// hidden files never do; an empty suffix takes every other file.
pub open spec fn spec_glob_accepts(name: Seq<char>, suffix: Seq<char>) -> bool {
    !has_prefix(name, "."@) && (suffix.len() == 0 || has_suffix(name, suffix))
}

/// A glob `before*after` splits at its `*` when `before` holds none: the
/// directory part is `before` and the suffix is `after` without its
/// leading `/`s; a pattern without `*` does not split.
pub proof fn lemma_glob_split_at_star(before: Seq<char>, after: Seq<char>)
    requires
        lacks(before, '*'),
    ensures
        spec_glob_split(before + seq!['*'] + after) == Some((before, strip_leading(after, '/'))),
        spec_glob_split(before) is None,
{
    let s = before + seq!['*'] + after;
    let i = before.len() as int;
    assert(s.subrange(i, i + 1) =~= seq!['*']);
    assert forall|j: int| 0 <= j < i implies !occurs_at(s, seq!['*'], j) by {
        assert(s.subrange(j, j + 1)[0] == before[j]);
    }
    lemma_find_is(s, seq!['*'], i);
    assert(s.take(i) =~= before);
    assert(s.skip(i + 1) =~= after);
    assert forall|j: int| !is_first_occurrence(before, seq!['*'], j) by {
        if occurs_at(before, seq!['*'], j) {
            assert(before.subrange(j, j + 1)[0] == before[j]);
        }
    }
}

/// Hidden files never match a glob; any other file whose name ends in the
/// suffix does.
pub proof fn lemma_glob_accepts(stem: Seq<char>, suffix: Seq<char>)
    ensures
        !spec_glob_accepts(seq!['.'] + stem, suffix),
        stem.len() > 0 && stem[0] != '.' ==> spec_glob_accepts(stem + suffix, suffix),
{
    reveal_strlit(".");
    assert((seq!['.'] + stem).take(1) =~= "."@);
    if stem.len() > 0 && stem[0] != '.' {
        let n = stem + suffix;
        assert(n.take(1)[0] == stem[0]);
        assert(n.skip(n.len() - suffix.len()) =~= suffix);
    }
}

/// Whether a file named `name` matches the part of a glob after its `*`.
pub fn glob_accepts(name: &str, suffix: &str) -> (r: bool)
    ensures
        r == spec_glob_accepts(name@, suffix@),
{
    let v = chars_of(name);
    let s = chars_of(suffix);
    !starts_with(&v, &chars_of(".")) && (s.len() == 0 || ends_with(&v, &s))
}

} // verus!
