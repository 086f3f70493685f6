//! Command-line argument helpers shared by the commands.
use vstd::prelude::*;
use crate::text::{chars_of, string_of, sub_chars, find_chars, find, extend_str, occurs_at};
use crate::num::{parse_i64, parse_i64_chars};
use crate::nav::SetContext;
use crate::sets::str_eq;

verus! {

/// The views of a list of strings.
pub open spec fn strs(v: Seq<String>) -> Seq<Seq<char>> {
    v.map_values(|s: String| s@)
}

/// Whether `flag` is one of the arguments.
pub fn has_flag(args: &[String], flag: &str) -> (r: bool)
    ensures
        r == strs(args@).contains(flag@),
{
    let ghost av = strs(args@);
    let mut i: usize = 0;
    while i < args.len()
        invariant
            i <= args@.len(),
            av == strs(args@),
            forall|j: int| 0 <= j < i ==> av[j] != flag@,
        decreases args.len() - i,
    {
        if str_eq(args[i].as_str(), flag) {
            assert(av[i as int] == flag@);
            return true;
        }
        i += 1;
    }
    false
}

/// The index of the first argument equal to `flag`.
pub open spec fn flag_position(args: Seq<Seq<char>>, flag: Seq<char>) -> Option<int>
    decreases args.len(),
{
    if args.len() == 0 {
        None
    } else if args[0] == flag {
        Some(0)
    } else {
        match flag_position(args.drop_first(), flag) {
            Some(i) => Some(i + 1),
            None => None,
        }
    }
}

/// The argument after the first `flag`, if there is one.
pub open spec fn spec_flag_value(args: Seq<Seq<char>>, flag: Seq<char>) -> Option<Seq<char>> {
    match flag_position(args, flag) {
        Some(p) => if p + 1 < args.len() {
            Some(args[p + 1])
        } else {
            None
        },
        None => None,
    }
}

proof fn lemma_flag_position_bound(args: Seq<Seq<char>>, flag: Seq<char>)
    ensures
        flag_position(args, flag) matches Some(p) ==> 0 <= p < args.len(),
    decreases args.len(),
{
    if args.len() > 0 && args[0] != flag {
        lemma_flag_position_bound(args.drop_first(), flag);
    }
}

/// The value of a flag is the argument right after its first occurrence:
/// `pre + [flag, v] + post` gives `v` when `pre` does not hold the flag,
/// and arguments without the flag give none.
pub proof fn lemma_flag_value_read(pre: Seq<Seq<char>>, flag: Seq<char>, v: Seq<char>, post: Seq<Seq<char>>)
    ensures
        !pre.contains(flag) ==> spec_flag_value(pre + seq![flag, v] + post, flag) == Some(v),
        !pre.contains(flag) ==> spec_flag_value(pre, flag) is None,
    decreases pre.len(),
{
    if !pre.contains(flag) {
        let args = pre + seq![flag, v] + post;
        if pre.len() == 0 {
            assert(args[0] == flag);
            assert(args[1] == v);
        } else {
            assert(args[0] == pre[0]);
            assert(!pre.drop_first().contains(flag)) by {
                if pre.drop_first().contains(flag) {
                    let k = choose|k: int| 0 <= k < pre.drop_first().len() && pre.drop_first()[k] == flag;
                    assert(pre[k + 1] == flag);
                }
            }
            lemma_flag_value_read(pre.drop_first(), flag, v, post);
            assert(args.drop_first() =~= pre.drop_first() + seq![flag, v] + post);
            lemma_flag_position_bound(args.drop_first(), flag);
            assert(args[pre.len() as int + 1] == v);
            lemma_flag_position_bound(pre.drop_first(), flag);
        }
    }
}

/// The argument after the first `flag`, if there is one.
pub fn get_flag_value<'a>(args: &'a [String], flag: &str) -> (r: Option<&'a str>)
    ensures
        r is Some <==> spec_flag_value(strs(args@), flag@) is Some,
        r is Some ==> r->0@ == spec_flag_value(strs(args@), flag@)->0,
{
    let ghost av = strs(args@);
    let mut i: usize = 0;
    assert(av.skip(0) =~= av);
    while i < args.len()
        invariant
            i <= args@.len(),
            av == strs(args@),
            flag_position(av, flag@) == match flag_position(av.skip(i as int), flag@) {
                Some(k) => Some(k + i),
                None => None::<int>,
            },
        decreases args.len() - i,
    {
        assert(av.skip(i as int)[0] == args@[i as int]@);
        if str_eq(args[i].as_str(), flag) {
            if i + 1 < args.len() {
                assert(av[i + 1] == args@[i + 1]@);
                return Some(args[i + 1].as_str());
            } else {
                return None;
            }
        }
        assert(av.skip(i as int).drop_first() =~= av.skip(i + 1));
        i += 1;
    }
    assert(av.skip(i as int).len() == 0);
    None
}

/// The model of a [`SetContext`].
pub enum CtxView {
    Active,
    Focused,
    Named(Seq<char>),
    Unset,
}

/// The view of a [`SetContext`].
pub open spec fn ctx_view(c: SetContext) -> CtxView {
    match c {
        SetContext::Active => CtxView::Active,
        SetContext::Focused => CtxView::Focused,
        SetContext::Named(s) => CtxView::Named(s@),
        SetContext::Unset => CtxView::Unset,
    }
}

/// The flags that choose a set: the active set, the focused set, a named set.
pub struct ContextFlags {
    pub active: &'static str,
    pub focused: &'static str,
    pub named: &'static str,
}

/// Scans `args` from index `i`: the three set flags choose the context (the
/// last one wins; the name flag takes the next argument, when there is one),
/// every other argument is kept, in order.
pub open spec fn scan_context(
    args: Seq<Seq<char>>,
    i: int,
    ctx: CtxView,
    rest: Seq<Seq<char>>,
    active: Seq<char>,
    focused: Seq<char>,
    named: Seq<char>,
) -> (CtxView, Seq<Seq<char>>)
    decreases args.len() + 1 - i,
{
    if i < 0 || i >= args.len() {
        (ctx, rest)
    } else if args[i] == active {
        scan_context(args, i + 1, CtxView::Active, rest, active, focused, named)
    } else if args[i] == focused {
        scan_context(args, i + 1, CtxView::Focused, rest, active, focused, named)
    } else if args[i] == named {
        if i + 1 < args.len() {
            scan_context(args, i + 2, CtxView::Named(args[i + 1]), rest, active, focused, named)
        } else {
            scan_context(args, i + 2, ctx, rest, active, focused, named)
        }
    } else {
        scan_context(args, i + 1, ctx, rest.push(args[i]), active, focused, named)
    }
}

/// The set context that the flags `flags` give in `args`, and the other
/// arguments in order.
pub fn parse_context_with(args: &[String], flags: &ContextFlags) -> (r: (SetContext, Vec<String>))
    ensures
        (ctx_view(r.0), strs(r.1@)) == scan_context(
            strs(args@),
            0,
            CtxView::Unset,
            Seq::empty(),
            flags.active@,
            flags.focused@,
            flags.named@,
        ),
{
    let ghost av = strs(args@);
    let mut ctx = SetContext::Unset;
    let mut rest: Vec<String> = Vec::new();
    let mut i: usize = 0;
    assert(strs(rest@) =~= Seq::<Seq<char>>::empty());
    while i < args.len()
        invariant
            av == strs(args@),
            i <= args@.len(),
            scan_context(av, i as int, ctx_view(ctx), strs(rest@), flags.active@, flags.focused@, flags.named@)
                == scan_context(av, 0, CtxView::Unset, Seq::empty(), flags.active@, flags.focused@, flags.named@),
        decreases args.len() - i,
    {
        assert(av[i as int] == args@[i as int]@);
        if str_eq(args[i].as_str(), flags.active) {
            ctx = SetContext::Active;
        } else if str_eq(args[i].as_str(), flags.focused) {
            ctx = SetContext::Focused;
        } else if str_eq(args[i].as_str(), flags.named) {
            if i + 1 < args.len() {
                assert(av[i + 1] == args@[i + 1]@);
                ctx = SetContext::Named(args[i + 1].clone());
                i += 1;
            } else {
                let ghost oi = i as int;
                assert(scan_context(av, oi + 2, ctx_view(ctx), strs(rest@), flags.active@, flags.focused@, flags.named@)
                    == (ctx_view(ctx), strs(rest@)));
                i = args.len();
                assert(scan_context(av, i as int, ctx_view(ctx), strs(rest@), flags.active@, flags.focused@, flags.named@)
                    == (ctx_view(ctx), strs(rest@)));
                continue;
            }
        } else {
            let ghost before = rest@;
            rest.push(args[i].clone());
            assert(strs(rest@) =~= strs(before).push(av[i as int]));
        }
        i += 1;
    }
    (ctx, rest)
}

// ── `set:number` ─────────────────────────────────────────────────────────────

/// Errors of parsing `set:number`.
#[derive(Debug, PartialEq, Eq)]
pub enum SetLocalError {
    /// There is no `:`.
    MissingColon,
    /// The part after the first `:` is not an `i64`.
    BadNumber,
}

/// The set and number of `set:number`, split at the first `:`.
pub open spec fn spec_parse_set_local(s: Seq<char>) -> Result<(Seq<char>, i64), SetLocalError> {
    match find(s, seq![':']) {
        None => Err(SetLocalError::MissingColon),
        Some(i) => match parse_i64(s.skip(i + 1)) {
            Some(n) => Ok((s.take(i), n)),
            None => Err(SetLocalError::BadNumber),
        },
    }
}

/// Splits `set:number` at its first `:` and parses the number.
pub fn parse_set_local(s: &str) -> (r: Result<(String, i64), SetLocalError>)
    ensures
        match r {
            Ok((set, n)) => spec_parse_set_local(s@) == Ok::<(Seq<char>, i64), SetLocalError>((set@, n)),
            Err(e) => spec_parse_set_local(s@) == Err::<(Seq<char>, i64), SetLocalError>(e),
        },
{
    let v = chars_of(s);
    let colon: Vec<char> = vec![':'];
    assert(colon@ =~= seq![':']);
    match find_chars(&v, &colon) {
        None => Err(SetLocalError::MissingColon),
        Some(i) => {
            assert(occurs_at(v@, colon@, i as int));
            assert(i + 1 <= v@.len());
            assert(v@.len() == v.len());
            let num = sub_chars(&v, i + 1, v.len());
            assert(num@ =~= v@.skip(i + 1));
            match parse_i64_chars(&num) {
                Some(n) => {
                    let set = sub_chars(&v, 0, i);
                    assert(set@ =~= v@.take(i as int));
                    Ok((string_of(&set), n))
                },
                None => Err(SetLocalError::BadNumber),
            }
        },
    }
}

/// Writing a set (without `:`) and a number as `set:number` and parsing it
/// gives both back.
pub proof fn lemma_set_local_roundtrip(set: Seq<char>, n: i64)
    requires
        crate::text::lacks(set, ':'),
    ensures
        spec_parse_set_local(set + seq![':'] + crate::num::int_text(n as int)) == Ok::<
            (Seq<char>, i64),
            SetLocalError,
        >((set, n)),
{
    let t = crate::num::int_text(n as int);
    let s = set + seq![':'] + t;
    let i = set.len() as int;
    assert(s.subrange(i, i + 1) =~= seq![':']);
    assert forall|j: int| 0 <= j < i implies !occurs_at(s, seq![':'], j) by {
        assert(s.subrange(j, j + 1)[0] == set[j]);
    }
    crate::text::lemma_find_is(s, seq![':'], i);
    assert(s.skip(i + 1) =~= t);
    assert(s.take(i) =~= set);
    crate::num::lemma_parse_int_text(n);
}

/// The message printed for a `set:number` error.
pub fn set_local_error_message(e: &SetLocalError, input: &str) -> (r: String)
    ensures
        r@ == match e {
            SetLocalError::MissingColon => "invalid 'set:number' input: "@ + input@,
            SetLocalError::BadNumber => "invalid number in '"@ + input@ + "'"@,
        },
{
    let mut out: Vec<char> = Vec::new();
    match e {
        SetLocalError::MissingColon => {
            extend_str(&mut out, "invalid 'set:number' input: ");
            extend_str(&mut out, input);
        },
        SetLocalError::BadNumber => {
            extend_str(&mut out, "invalid number in '");
            extend_str(&mut out, input);
            extend_str(&mut out, "'");
        },
    }
    string_of(&out)
}

// ── the two command-line flavors ─────────────────────────────────────────────

/// The two command-line tools: `i3sets-client` (workspace sets) and
/// `swi3-groups` (workspace groups).
#[derive(Clone, Copy, Debug, PartialEq, Eq)]
pub enum Flavor {
    Sets,
    Groups,
}

/// The set flag names of a flavor: `--set-*` for sets, `--group-*` for groups.
pub open spec fn flavor_flags(f: Flavor) -> (Seq<char>, Seq<char>, Seq<char>) {
    match f {
        Flavor::Sets => ("--set-active"@, "--set-focused"@, "--set-name"@),
        Flavor::Groups => ("--group-active"@, "--group-focused"@, "--group-name"@),
    }
}

/// The set context that the flags of `flavor` give in `args`, and the other
/// arguments in order.
pub fn parse_set_context(args: &[String], flavor: Flavor) -> (r: (SetContext, Vec<String>))
    ensures
        (ctx_view(r.0), strs(r.1@)) == scan_context(
            strs(args@),
            0,
            CtxView::Unset,
            Seq::empty(),
            flavor_flags(flavor).0,
            flavor_flags(flavor).1,
            flavor_flags(flavor).2,
        ),
{
    let flags = match flavor {
        Flavor::Sets => ContextFlags {
            active: "--set-active",
            focused: "--set-focused",
            named: "--set-name",
        },
        Flavor::Groups => ContextFlags {
            active: "--group-active",
            focused: "--group-focused",
            named: "--group-name",
        },
    };
    parse_context_with(args, &flags)
}

} // verus!
