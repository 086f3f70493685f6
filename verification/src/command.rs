//! The command line of the two tools: which command it names and with what
//! arguments.
use vstd::prelude::*;
use crate::text::{chars_of, string_of, has_prefix, starts_with};
use crate::num::{parse_int, parse_i64, parse_i64_chars, int_text, is_digit, lemma_parse_int_text};
use crate::nav::SetContext;
use crate::cli::{
    strs, has_flag, get_flag_value, spec_flag_value, parse_set_context, scan_context, flavor_flags,
    ctx_view, CtxView, Flavor,
};
use crate::polybar::{PolybarOpts, parse_polybar_opts, scan_polybar};
use crate::menu::{split_all, split_on};
use crate::sets::str_eq;

verus! {

/// A command of the tools, with its arguments.
#[derive(Debug)]
pub enum Command {
    /// Print the window manager: `sway` or `i3`.
    DetectWm,
    /// Run the window manager's message tool with these arguments.
    WmMsg(Vec<String>),
    /// Focus the workspace focused before.
    SwitchRewind,
    /// List the sets, of the focused monitor only if asked.
    ListGroups { focused_monitor_only: bool },
    /// Print the table of workspaces with these fields.
    ListWorkspaces {
        fields: Vec<String>,
        focused_only: bool,
        focused_monitor_only: bool,
        ctx: SetContext,
    },
    /// Focus the workspace with this number in a set.
    WorkspaceNumber { number: i64, ctx: SetContext, auto_back_and_forth: bool },
    /// Focus the next (1) or previous (-1) workspace of the set.
    WorkspaceRelative { offset: i64 },
    /// Focus the next (1) or previous (-1) workspace over all sets.
    WorkspaceGlobalRelative { offset: i64 },
    /// Create and focus a workspace in a set.
    WorkspaceNew { ctx: SetContext },
    /// Move the focused container to the workspace with this number.
    MoveToNumber { number: i64, ctx: SetContext, no_auto_back_and_forth: bool },
    /// Move the focused container to the next (1) or previous (-1) workspace.
    MoveRelative { offset: i64 },
    /// Move the focused container to a new workspace in a set.
    MoveToNew { ctx: SetContext },
    /// Make a set the active one.
    SwitchActiveGroup { group: String, focused_monitor_only: bool },
    /// Rename the focused workspace.
    RenameWorkspace { new_name: Option<String>, new_number: Option<i64>, new_group: Option<String> },
    /// Move the focused workspace into a set.
    AssignWorkspaceToGroup { group: String },
    /// Print the waybar module.
    Waybar,
    /// Number the workspaces of a new session.
    InitSession,
    /// Print the polybar module.
    Polybar { opts: PolybarOpts },
    /// Let the user pick a set from a menu and print it.
    SelectGroup { mesg: String },
    /// The menu commands.
    SwitchGroup,
    Assign,
    AssignSwitch,
    Focus,
    Move,
    Rename,
}

/// The model of a [`Command`].
pub enum CommandView {
    DetectWm,
    WmMsg(Seq<Seq<char>>),
    SwitchRewind,
    ListGroups(bool),
    ListWorkspaces(Seq<Seq<char>>, bool, bool, CtxView),
    WorkspaceNumber(i64, CtxView, bool),
    WorkspaceRelative(i64),
    WorkspaceGlobalRelative(i64),
    WorkspaceNew(CtxView),
    MoveToNumber(i64, CtxView, bool),
    MoveRelative(i64),
    MoveToNew(CtxView),
    SwitchActiveGroup(Seq<char>, bool),
    RenameWorkspace(Option<Seq<char>>, Option<i64>, Option<Seq<char>>),
    AssignWorkspaceToGroup(Seq<char>),
    Waybar,
    InitSession,
    Polybar(Seq<char>, Seq<char>, bool),
    SelectGroup(Seq<char>),
    SwitchGroup,
    Assign,
    AssignSwitch,
    Focus,
    Move,
    Rename,
}

/// The view of an optional string.
pub open spec fn opt_str_view(o: Option<String>) -> Option<Seq<char>> {
    match o {
        Some(s) => Some(s@),
        None => None,
    }
}

/// The view of a [`Command`].
pub open spec fn command_view(c: Command) -> CommandView {
    match c {
        Command::DetectWm => CommandView::DetectWm,
        Command::WmMsg(a) => CommandView::WmMsg(strs(a@)),
        Command::SwitchRewind => CommandView::SwitchRewind,
        Command::ListGroups { focused_monitor_only } => CommandView::ListGroups(focused_monitor_only),
        Command::ListWorkspaces { fields, focused_only, focused_monitor_only, ctx } =>
            CommandView::ListWorkspaces(strs(fields@), focused_only, focused_monitor_only, ctx_view(ctx)),
        Command::WorkspaceNumber { number, ctx, auto_back_and_forth } =>
            CommandView::WorkspaceNumber(number, ctx_view(ctx), auto_back_and_forth),
        Command::WorkspaceRelative { offset } => CommandView::WorkspaceRelative(offset),
        Command::WorkspaceGlobalRelative { offset } => CommandView::WorkspaceGlobalRelative(offset),
        Command::WorkspaceNew { ctx } => CommandView::WorkspaceNew(ctx_view(ctx)),
        Command::MoveToNumber { number, ctx, no_auto_back_and_forth } =>
            CommandView::MoveToNumber(number, ctx_view(ctx), no_auto_back_and_forth),
        Command::MoveRelative { offset } => CommandView::MoveRelative(offset),
        Command::MoveToNew { ctx } => CommandView::MoveToNew(ctx_view(ctx)),
        Command::SwitchActiveGroup { group, focused_monitor_only } =>
            CommandView::SwitchActiveGroup(group@, focused_monitor_only),
        Command::RenameWorkspace { new_name, new_number, new_group } =>
            CommandView::RenameWorkspace(opt_str_view(new_name), new_number, opt_str_view(new_group)),
        Command::AssignWorkspaceToGroup { group } => CommandView::AssignWorkspaceToGroup(group@),
        Command::Waybar => CommandView::Waybar,
        Command::InitSession => CommandView::InitSession,
        Command::Polybar { opts } => CommandView::Polybar(
            opts.color_external_monitor@,
            opts.color_current_ws@,
            opts.shorthand,
        ),
        Command::SelectGroup { mesg } => CommandView::SelectGroup(mesg@),
        Command::SwitchGroup => CommandView::SwitchGroup,
        Command::Assign => CommandView::Assign,
        Command::AssignSwitch => CommandView::AssignSwitch,
        Command::Focus => CommandView::Focus,
        Command::Move => CommandView::Move,
        Command::Rename => CommandView::Rename,
    }
}

// ── the pieces of an argument list ──────────────────────────────────────────

/// The first argument that does not start with `-`.
pub open spec fn first_positional(args: Seq<Seq<char>>) -> Option<Seq<char>>
    decreases args.len(),
{
    if args.len() == 0 {
        None
    } else if !has_prefix(args[0], "-"@) {
        Some(args[0])
    } else {
        first_positional(args.drop_first())
    }
}

/// The number that the first positional argument holds.
pub open spec fn positional_number(args: Seq<Seq<char>>) -> Option<i64> {
    match first_positional(args) {
        Some(s) => parse_i64(s),
        None => None,
    }
}

/// `o`, or `d` when there is none.
pub open spec fn or_default(o: Option<Seq<char>>, d: Seq<char>) -> Seq<char> {
    match o {
        Some(s) => s,
        None => d,
    }
}

/// The fields that `list-workspaces` prints when none are asked for.
pub open spec fn default_fields() -> Seq<char> {
    "global_number,set,static_name,dynamic_name,local_number,global_name,monitor,focused,window_icons"@
}

/// The set context and the other arguments of `rest`, with the flags of
/// `flavor`.
pub open spec fn ctx_of(rest: Seq<Seq<char>>, flavor: Flavor) -> (CtxView, Seq<Seq<char>>) {
    scan_context(
        rest,
        0,
        CtxView::Unset,
        Seq::empty(),
        flavor_flags(flavor).0,
        flavor_flags(flavor).1,
        flavor_flags(flavor).2,
    )
}

/// The error for a command that neither tool knows.
pub open spec fn unknown_command(name: Seq<char>) -> Seq<char> {
    "error: unknown command: "@ + name
}

// ── the command line ────────────────────────────────────────────────────────

/// The commands that both tools have.
pub open spec fn spec_common_command(name: Seq<char>, rest: Seq<Seq<char>>, flavor: Flavor) -> Option<
    Result<CommandView, Seq<char>>,
> {
    let ctx = ctx_of(rest, flavor).0;
    let positional = ctx_of(rest, flavor).1;
    if name == "detect-wm"@ {
        Some(Ok(CommandView::DetectWm))
    } else if name == "wm-msg"@ {
        Some(Ok(CommandView::WmMsg(rest)))
    } else if name == "list-workspaces"@ {
        Some(
            Ok(
                CommandView::ListWorkspaces(
                    split_all(or_default(spec_flag_value(rest, "--fields"@), default_fields()), ','),
                    rest.contains("--focused-only"@),
                    rest.contains("--focused-monitor-only"@),
                    ctx,
                ),
            ),
        )
    } else if name == "workspace-number"@ {
        Some(
            match positional_number(positional) {
                Some(n) => Ok(
                    CommandView::WorkspaceNumber(n, ctx, !rest.contains("--no-auto-back-and-forth"@)),
                ),
                None => Err("error: workspace-number requires a number"@),
            },
        )
    } else if name == "workspace-next"@ {
        Some(Ok(CommandView::WorkspaceRelative(1)))
    } else if name == "workspace-prev"@ {
        Some(Ok(CommandView::WorkspaceRelative(-1i64)))
    } else if name == "workspace-new"@ {
        Some(Ok(CommandView::WorkspaceNew(ctx)))
    } else if name == "move-to-number"@ {
        Some(
            match positional_number(positional) {
                Some(n) => Ok(
                    CommandView::MoveToNumber(n, ctx, rest.contains("--no-auto-back-and-forth"@)),
                ),
                None => Err("error: move-to-number requires a number"@),
            },
        )
    } else if name == "move-to-next"@ {
        Some(Ok(CommandView::MoveRelative(1)))
    } else if name == "move-to-prev"@ {
        Some(Ok(CommandView::MoveRelative(-1i64)))
    } else if name == "move-to-new"@ {
        Some(Ok(CommandView::MoveToNew(ctx)))
    } else if name == "rename-workspace"@ {
        Some(
            Ok(
                CommandView::RenameWorkspace(
                    spec_flag_value(rest, "--name"@),
                    match spec_flag_value(rest, "--number"@) {
                        Some(s) => parse_i64(s),
                        None => None,
                    },
                    spec_flag_value(
                        rest,
                        if flavor == Flavor::Groups {
                            "--group"@
                        } else {
                            "--set"@
                        },
                    ),
                ),
            ),
        )
    } else if name == "waybar"@ {
        Some(Ok(CommandView::Waybar))
    } else if name == "init-session"@ {
        Some(Ok(CommandView::InitSession))
    } else {
        None
    }
}

/// The commands that only the sets tool has.
pub open spec fn spec_set_command(name: Seq<char>, rest: Seq<Seq<char>>) -> Result<CommandView, Seq<char>> {
    if name == "list-sets"@ {
        Ok(CommandView::ListGroups(rest.contains("--focused-monitor-only"@)))
    } else if name == "switch-active-set"@ {
        match first_positional(rest) {
            Some(s) => Ok(CommandView::SwitchActiveGroup(s, rest.contains("--focused-monitor-only"@))),
            None => Err("error: switch-active-set requires a set name"@),
        }
    } else if name == "assign-workspace-to-set"@ {
        match first_positional(rest) {
            Some(s) => Ok(CommandView::AssignWorkspaceToGroup(s)),
            None => Err("error: assign-workspace-to-set requires a set name"@),
        }
    } else {
        Err(unknown_command(name))
    }
}

/// The commands that only the groups tool has.
pub open spec fn spec_group_command(name: Seq<char>, rest: Seq<Seq<char>>) -> Result<CommandView, Seq<char>> {
    if name == "switch-rewind"@ {
        Ok(CommandView::SwitchRewind)
    } else if name == "list-groups"@ {
        Ok(CommandView::ListGroups(rest.contains("--focused-monitor-only"@)))
    } else if name == "next"@ || name == "workspace-next-global"@ {
        Ok(CommandView::WorkspaceGlobalRelative(1))
    } else if name == "prev"@ || name == "workspace-prev-global"@ {
        Ok(CommandView::WorkspaceGlobalRelative(-1i64))
    } else if name == "switch-active-group"@ {
        Ok(
            CommandView::SwitchActiveGroup(
                or_default(first_positional(rest), Seq::empty()),
                rest.contains("--focused-monitor-only"@),
            ),
        )
    } else if name == "assign-workspace-to-group"@ {
        Ok(CommandView::AssignWorkspaceToGroup(or_default(first_positional(rest), Seq::empty())))
    } else if name == "polybar"@ {
        let o = scan_polybar(rest, 0, Seq::empty(), Seq::empty(), false);
        Ok(CommandView::Polybar(o.0, o.1, o.2))
    } else if name == "select-group"@ {
        Ok(CommandView::SelectGroup(or_default(spec_flag_value(rest, "-mesg"@), Seq::empty())))
    } else if name == "switch-group"@ {
        Ok(CommandView::SwitchGroup)
    } else if name == "assign"@ {
        Ok(CommandView::Assign)
    } else if name == "assign-switch"@ {
        Ok(CommandView::AssignSwitch)
    } else if name == "focus"@ {
        Ok(CommandView::Focus)
    } else if name == "move"@ {
        Ok(CommandView::Move)
    } else if name == "rename"@ {
        Ok(CommandView::Rename)
    } else {
        Err(unknown_command(name))
    }
}

/// The command that `argv` (without the program name) gives to the tool of
/// `flavor`, or the error that the tool prints.
pub open spec fn spec_parse_command(argv: Seq<Seq<char>>, flavor: Flavor) -> Result<CommandView, Seq<char>> {
    if argv.len() == 0 {
        Err("error: no command provided"@)
    } else {
        let name = argv[0];
        let rest = argv.drop_first();
        match spec_common_command(name, rest, flavor) {
            Some(r) => r,
            None => if flavor == Flavor::Groups {
                spec_group_command(name, rest)
            } else {
                spec_set_command(name, rest)
            },
        }
    }
}

/// The first argument that does not start with `-`.
pub fn first_positional_arg(args: &[String]) -> (r: Option<String>)
    ensures
        opt_str_view(r) == first_positional(strs(args@)),
{
    let ghost av = strs(args@);
    let mut i: usize = 0;
    assert(av.skip(0) =~= av);
    while i < args.len()
        invariant
            i <= args@.len(),
            av == strs(args@),
            first_positional(av) == first_positional(av.skip(i as int)),
        decreases args.len() - i,
    {
        assert(av.skip(i as int)[0] == args@[i as int]@);
        if !starts_with(&chars_of(args[i].as_str()), &chars_of("-")) {
            return Some(args[i].clone());
        }
        assert(av.skip(i as int).drop_first() =~= av.skip(i + 1));
        i += 1;
    }
    assert(av.skip(i as int).len() == 0);
    None
}

fn positional_number_exec(args: &[String]) -> (r: Option<i64>)
    ensures
        r == positional_number(strs(args@)),
{
    match first_positional_arg(args) {
        Some(s) => parse_i64_chars(&chars_of(s.as_str())),
        None => None,
    }
}

fn owned(s: Option<&str>) -> (r: Option<String>)
    ensures
        opt_str_view(r) == match s {
            Some(t) => Some(t@),
            None => None::<Seq<char>>,
        },
{
    match s {
        Some(t) => Some(string_of(&chars_of(t))),
        None => None,
    }
}

fn str_list(parts: &Vec<Vec<char>>) -> (r: Vec<String>)
    ensures
        strs(r@) == parts@.map_values(|p: Vec<char>| p@),
{
    let mut r: Vec<String> = Vec::new();
    let mut i: usize = 0;
    while i < parts.len()
        invariant
            i <= parts@.len(),
            strs(r@) == parts@.take(i as int).map_values(|p: Vec<char>| p@),
        decreases parts.len() - i,
    {
        let ghost before = strs(r@);
        r.push(string_of(&parts[i]));
        assert(strs(r@) =~= before.push(parts@[i as int]@));
        assert(parts@.take(i + 1).map_values(|p: Vec<char>| p@) =~= parts@.take(i as int).map_values(
            |p: Vec<char>| p@,
        ).push(parts@[i as int]@));
        i += 1;
    }
    assert(parts@.take(parts@.len() as int) =~= parts@);
    r
}

/// The arguments of `args` from index `from` on.
pub fn args_from(args: &[String], from: usize) -> (r: Vec<String>)
    requires
        from <= args@.len(),
    ensures
        strs(r@) == strs(args@).skip(from as int),
{
    let mut a: Vec<String> = Vec::new();
    let mut i: usize = from;
    while i < args.len()
        invariant
            from <= i <= args@.len(),
            strs(a@) == strs(args@).subrange(from as int, i as int),
        decreases args.len() - i,
    {
        let ghost before = strs(a@);
        a.push(args[i].clone());
        assert(strs(a@) =~= before.push(args@[i as int]@));
        assert(strs(args@).subrange(from as int, i + 1) =~= strs(args@).subrange(from as int, i as int).push(
            args@[i as int]@,
        ));
        i += 1;
    }
    assert(strs(args@).subrange(from as int, args@.len() as int) =~= strs(args@).skip(from as int));
    a
}

fn common_command(name: &str, rest: &[String], flavor: Flavor) -> (r: Option<Result<Command, String>>)
    ensures
        match r {
            Some(Ok(c)) => spec_common_command(name@, strs(rest@), flavor) == Some(
                Ok::<CommandView, Seq<char>>(command_view(c)),
            ),
            Some(Err(e)) => spec_common_command(name@, strs(rest@), flavor) == Some(
                Err::<CommandView, Seq<char>>(e@),
            ),
            None => spec_common_command(name@, strs(rest@), flavor) is None,
        },
{
    if str_eq(name, "detect-wm") {
        return Some(Ok(Command::DetectWm));
    }
    if str_eq(name, "wm-msg") {
        let a = args_from(rest, 0);
        assert(strs(rest@).skip(0) =~= strs(rest@));
        return Some(Ok(Command::WmMsg(a)));
    }
    if str_eq(name, "list-workspaces") {
        let fields_str = match get_flag_value(rest, "--fields") {
            Some(f) => f,
            None => "global_number,set,static_name,dynamic_name,local_number,global_name,monitor,focused,window_icons",
        };
        let fields = str_list(&split_on(&chars_of(fields_str), ','));
        let focused_only = has_flag(rest, "--focused-only");
        let focused_monitor_only = has_flag(rest, "--focused-monitor-only");
        let (ctx, _) = parse_set_context(rest, flavor);
        return Some(Ok(Command::ListWorkspaces { fields, focused_only, focused_monitor_only, ctx }));
    }
    if str_eq(name, "workspace-number") {
        let (ctx, positional) = parse_set_context(rest, flavor);
        let no_back_forth = has_flag(rest, "--no-auto-back-and-forth");
        return Some(
            match positional_number_exec(&positional) {
                Some(number) => Ok(
                    Command::WorkspaceNumber { number, ctx, auto_back_and_forth: !no_back_forth },
                ),
                None => Err(string_of(&chars_of("error: workspace-number requires a number"))),
            },
        );
    }
    if str_eq(name, "workspace-next") {
        return Some(Ok(Command::WorkspaceRelative { offset: 1 }));
    }
    if str_eq(name, "workspace-prev") {
        return Some(Ok(Command::WorkspaceRelative { offset: -1 }));
    }
    if str_eq(name, "workspace-new") {
        let (ctx, _) = parse_set_context(rest, flavor);
        return Some(Ok(Command::WorkspaceNew { ctx }));
    }
    if str_eq(name, "move-to-number") {
        let (ctx, positional) = parse_set_context(rest, flavor);
        let no_auto_back_and_forth = has_flag(rest, "--no-auto-back-and-forth");
        return Some(
            match positional_number_exec(&positional) {
                Some(number) => Ok(Command::MoveToNumber { number, ctx, no_auto_back_and_forth }),
                None => Err(string_of(&chars_of("error: move-to-number requires a number"))),
            },
        );
    }
    if str_eq(name, "move-to-next") {
        return Some(Ok(Command::MoveRelative { offset: 1 }));
    }
    if str_eq(name, "move-to-prev") {
        return Some(Ok(Command::MoveRelative { offset: -1 }));
    }
    if str_eq(name, "move-to-new") {
        let (ctx, _) = parse_set_context(rest, flavor);
        return Some(Ok(Command::MoveToNew { ctx }));
    }
    if str_eq(name, "rename-workspace") {
        let group_flag = match flavor {
            Flavor::Groups => "--group",
            Flavor::Sets => "--set",
        };
        let new_number = match get_flag_value(rest, "--number") {
            Some(s) => parse_i64_chars(&chars_of(s)),
            None => None,
        };
        return Some(
            Ok(
                Command::RenameWorkspace {
                    new_name: owned(get_flag_value(rest, "--name")),
                    new_number,
                    new_group: owned(get_flag_value(rest, group_flag)),
                },
            ),
        );
    }
    if str_eq(name, "waybar") {
        return Some(Ok(Command::Waybar));
    }
    if str_eq(name, "init-session") {
        return Some(Ok(Command::InitSession));
    }
    None
}

fn unknown_command_exec(name: &str) -> (r: String)
    ensures
        r@ == unknown_command(name@),
{
    let mut out: Vec<char> = Vec::new();
    crate::text::extend_str(&mut out, "error: unknown command: ");
    crate::text::extend_str(&mut out, name);
    string_of(&out)
}

fn set_command(name: &str, rest: &[String]) -> (r: Result<Command, String>)
    ensures
        match r {
            Ok(c) => spec_set_command(name@, strs(rest@)) == Ok::<CommandView, Seq<char>>(
                command_view(c),
            ),
            Err(e) => spec_set_command(name@, strs(rest@)) == Err::<CommandView, Seq<char>>(e@),
        },
{
    if str_eq(name, "list-sets") {
        Ok(Command::ListGroups { focused_monitor_only: has_flag(rest, "--focused-monitor-only") })
    } else if str_eq(name, "switch-active-set") {
        match first_positional_arg(rest) {
            Some(group) => Ok(
                Command::SwitchActiveGroup {
                    group,
                    focused_monitor_only: has_flag(rest, "--focused-monitor-only"),
                },
            ),
            None => Err(string_of(&chars_of("error: switch-active-set requires a set name"))),
        }
    } else if str_eq(name, "assign-workspace-to-set") {
        match first_positional_arg(rest) {
            Some(group) => Ok(Command::AssignWorkspaceToGroup { group }),
            None => Err(string_of(&chars_of("error: assign-workspace-to-set requires a set name"))),
        }
    } else {
        Err(unknown_command_exec(name))
    }
}

fn or_empty(o: Option<String>) -> (r: String)
    ensures
        r@ == or_default(opt_str_view(o), Seq::empty()),
{
    match o {
        Some(s) => s,
        None => String::new(),
    }
}

fn group_command(name: &str, rest: &[String]) -> (r: Result<Command, String>)
    ensures
        match r {
            Ok(c) => spec_group_command(name@, strs(rest@)) == Ok::<CommandView, Seq<char>>(
                command_view(c),
            ),
            Err(e) => spec_group_command(name@, strs(rest@)) == Err::<CommandView, Seq<char>>(e@),
        },
{
    if str_eq(name, "switch-rewind") {
        Ok(Command::SwitchRewind)
    } else if str_eq(name, "list-groups") {
        Ok(Command::ListGroups { focused_monitor_only: has_flag(rest, "--focused-monitor-only") })
    } else if str_eq(name, "next") || str_eq(name, "workspace-next-global") {
        Ok(Command::WorkspaceGlobalRelative { offset: 1 })
    } else if str_eq(name, "prev") || str_eq(name, "workspace-prev-global") {
        Ok(Command::WorkspaceGlobalRelative { offset: -1 })
    } else if str_eq(name, "switch-active-group") {
        let focused_monitor_only = has_flag(rest, "--focused-monitor-only");
        Ok(
            Command::SwitchActiveGroup {
                group: or_empty(first_positional_arg(rest)),
                focused_monitor_only,
            },
        )
    } else if str_eq(name, "assign-workspace-to-group") {
        Ok(Command::AssignWorkspaceToGroup { group: or_empty(first_positional_arg(rest)) })
    } else if str_eq(name, "polybar") {
        Ok(Command::Polybar { opts: parse_polybar_opts(rest) })
    } else if str_eq(name, "select-group") {
        Ok(Command::SelectGroup { mesg: or_empty(owned(get_flag_value(rest, "-mesg"))) })
    } else if str_eq(name, "switch-group") {
        Ok(Command::SwitchGroup)
    } else if str_eq(name, "assign") {
        Ok(Command::Assign)
    } else if str_eq(name, "assign-switch") {
        Ok(Command::AssignSwitch)
    } else if str_eq(name, "focus") {
        Ok(Command::Focus)
    } else if str_eq(name, "move") {
        Ok(Command::Move)
    } else if str_eq(name, "rename") {
        Ok(Command::Rename)
    } else {
        Err(unknown_command_exec(name))
    }
}

/// The command that `argv` (the arguments after the program name) gives to
/// the tool of `flavor`, or the error that the tool prints for it.
pub fn parse_command(argv: &[String], flavor: Flavor) -> (r: Result<Command, String>)
    ensures
        match r {
            Ok(c) => spec_parse_command(strs(argv@), flavor) == Ok::<CommandView, Seq<char>>(
                command_view(c),
            ),
            Err(e) => spec_parse_command(strs(argv@), flavor) == Err::<CommandView, Seq<char>>(e@),
        },
{
    if argv.len() == 0 {
        return Err(string_of(&chars_of("error: no command provided")));
    }
    let name = argv[0].as_str();
    let rest = args_from(argv, 1);
    assert(strs(rest@) =~= strs(argv@).drop_first());
    match common_command(name, &rest, flavor) {
        Some(r) => r,
        None => match flavor {
            Flavor::Groups => group_command(name, &rest),
            Flavor::Sets => set_command(name, &rest),
        },
    }
}

/// Every command that `doctor` accepts as valid is one the groups tool runs
/// (`doctor` and `bar-updater` are run before the command line is parsed):
/// it is never reported as unknown, whatever arguments follow.
pub proof fn lemma_valid_commands_known(name: Seq<char>, rest: Seq<Seq<char>>)
    requires
        crate::checks::valid_cmd(name),
        name != "doctor"@,
        name != "bar-updater"@,
    ensures
        spec_common_command(name, rest, Flavor::Groups) is Some || spec_group_command(name, rest) is Ok,
{
}

// ── arguments read before a command runs ────────────────────────────────────

/// `workspace-number N` asks for local number `N` of the active set (or of
/// the set named with `--group-name`), with automatic back-and-forth unless
/// `--no-auto-back-and-forth` is given; `move-to-number N` moves there,
/// turning automatic back-and-forth off only when that flag is given.
pub proof fn lemma_number_commands(n: i64, set: Seq<char>)
    requires
        n >= 0,
        set != "--no-auto-back-and-forth"@,
    ensures
        spec_parse_command(seq!["workspace-number"@, int_text(n as int)], Flavor::Groups) == Ok::<
            CommandView,
            Seq<char>,
        >(CommandView::WorkspaceNumber(n, CtxView::Unset, true)),
        spec_parse_command(
            seq!["workspace-number"@, int_text(n as int), "--group-name"@, set],
            Flavor::Groups,
        ) == Ok::<CommandView, Seq<char>>(CommandView::WorkspaceNumber(n, CtxView::Named(set), true)),
        spec_parse_command(
            seq!["workspace-number"@, int_text(n as int), "--no-auto-back-and-forth"@],
            Flavor::Groups,
        ) == Ok::<CommandView, Seq<char>>(CommandView::WorkspaceNumber(n, CtxView::Unset, false)),
        spec_parse_command(seq!["move-to-number"@, int_text(n as int)], Flavor::Groups) == Ok::<
            CommandView,
            Seq<char>,
        >(CommandView::MoveToNumber(n, CtxView::Unset, false)),
        spec_parse_command(
            seq!["move-to-number"@, int_text(n as int), "--no-auto-back-and-forth"@],
            Flavor::Groups,
        ) == Ok::<CommandView, Seq<char>>(CommandView::MoveToNumber(n, CtxView::Unset, true)),
{
    lemma_parse_int_text(n);
    let t = int_text(n as int);
    reveal_strlit("detect-wm");
    reveal_strlit("wm-msg");
    reveal_strlit("list-workspaces");
    reveal_strlit("workspace-number");
    reveal_strlit("workspace-next");
    reveal_strlit("workspace-prev");
    reveal_strlit("workspace-new");
    reveal_strlit("move-to-number");
    reveal_strlit("-");
    reveal_strlit("--group-active");
    reveal_strlit("--group-focused");
    reveal_strlit("--group-name");
    reveal_strlit("--no-auto-back-and-forth");
    assert(is_digit(t[0]));
    assert(!is_digit('-'));
    assert(!has_prefix(t, "-"@)) by {
        assert(t.take(1)[0] == t[0]);
    }
    assert(t != "--group-active"@ && t != "--group-focused"@ && t != "--group-name"@
        && t != "--no-auto-back-and-forth"@) by {
        assert("--group-active"@[0] == '-');
        assert("--group-focused"@[0] == '-');
        assert("--group-name"@[0] == '-');
        assert("--no-auto-back-and-forth"@[0] == '-');
    }
    assert("--no-auto-back-and-forth"@ != "--group-active"@ && "--no-auto-back-and-forth"@
        != "--group-focused"@ && "--no-auto-back-and-forth"@ != "--group-name"@) by {
        assert("--no-auto-back-and-forth"@.len() != "--group-active"@.len());
        assert("--no-auto-back-and-forth"@.len() != "--group-focused"@.len());
        assert("--no-auto-back-and-forth"@.len() != "--group-name"@.len());
    }
    assert("--group-name"@ != "--group-active"@ && "--group-name"@ != "--group-focused"@) by {
        assert("--group-name"@.len() != "--group-active"@.len());
        assert("--group-name"@.len() != "--group-focused"@.len());
    }
    assert("workspace-number"@ != "detect-wm"@ && "workspace-number"@ != "wm-msg"@
        && "workspace-number"@ != "list-workspaces"@) by {
        assert("workspace-number"@.len() != "detect-wm"@.len());
        assert("workspace-number"@.len() != "wm-msg"@.len());
        assert("workspace-number"@.len() != "list-workspaces"@.len());
    }
    assert("move-to-number"@ != "detect-wm"@ && "move-to-number"@ != "wm-msg"@
        && "move-to-number"@ != "list-workspaces"@ && "move-to-number"@ != "workspace-number"@
        && "move-to-number"@ != "workspace-next"@ && "move-to-number"@ != "workspace-prev"@
        && "move-to-number"@ != "workspace-new"@) by {
        assert("move-to-number"@.len() != "detect-wm"@.len());
        assert("move-to-number"@.len() != "wm-msg"@.len());
        assert("move-to-number"@.len() != "list-workspaces"@.len());
        assert("move-to-number"@.len() != "workspace-number"@.len());
        assert("move-to-number"@[0] != "workspace-next"@[0]);
        assert("move-to-number"@[0] != "workspace-prev"@[0]);
        assert("move-to-number"@.len() != "workspace-new"@.len());
    }
    let a1 = seq![t];
    let a2 = seq![t, "--group-name"@, set];
    let a3 = seq![t, "--no-auto-back-and-forth"@];
    assert(seq!["workspace-number"@, t].drop_first() =~= a1);
    assert(seq!["workspace-number"@, t, "--group-name"@, set].drop_first() =~= a2);
    assert(seq!["workspace-number"@, t, "--no-auto-back-and-forth"@].drop_first() =~= a3);
    assert(seq!["move-to-number"@, t].drop_first() =~= a1);
    assert(seq!["move-to-number"@, t, "--no-auto-back-and-forth"@].drop_first() =~= a3);
    let fl = flavor_flags(Flavor::Groups);
    assert(fl == ("--group-active"@, "--group-focused"@, "--group-name"@));
    let e = Seq::<Seq<char>>::empty();
    assert(e.push(t) =~= a1);
    assert(a1.push("--no-auto-back-and-forth"@) =~= a3);
    assert(scan_context(a1, 1, CtxView::Unset, a1, fl.0, fl.1, fl.2) == (CtxView::Unset, a1));
    assert(scan_context(a1, 0, CtxView::Unset, e, fl.0, fl.1, fl.2) == (CtxView::Unset, a1));
    assert(scan_context(a2, 3, CtxView::Named(set), a1, fl.0, fl.1, fl.2) == (CtxView::Named(set), a1));
    assert(a2[1] == fl.2 && a2[1] != fl.0 && a2[1] != fl.1);
    assert(scan_context(a2, 1, CtxView::Unset, a1, fl.0, fl.1, fl.2) == (CtxView::Named(set), a1));
    assert(scan_context(a2, 0, CtxView::Unset, e, fl.0, fl.1, fl.2) == (CtxView::Named(set), a1));
    assert(scan_context(a3, 2, CtxView::Unset, a3, fl.0, fl.1, fl.2) == (CtxView::Unset, a3));
    assert(scan_context(a3, 1, CtxView::Unset, a1, fl.0, fl.1, fl.2) == (CtxView::Unset, a3));
    assert(scan_context(a3, 0, CtxView::Unset, e, fl.0, fl.1, fl.2) == (CtxView::Unset, a3));
    assert(first_positional(a1) == Some(t));
    assert(first_positional(a3) == Some(t));
    assert(!a1.contains("--no-auto-back-and-forth"@));
    assert(!a2.contains("--no-auto-back-and-forth"@)) by {
        if a2.contains("--no-auto-back-and-forth"@) {
            let k = choose|k: int| 0 <= k < a2.len() && a2[k] == "--no-auto-back-and-forth"@;
        }
    }
    assert(a3[1] == "--no-auto-back-and-forth"@);
}

/// What `str::parse::<u32>` gives for `s`: like `i64` but with no `-` sign.
pub open spec fn parse_u32(s: Seq<char>) -> Option<u32> {
    if s.len() > 0 && s[0] == '-' {
        None
    } else {
        match parse_int(s) {
            Some(v) => if 0 <= v <= u32::MAX {
                Some(v as u32)
            } else {
                None
            },
            None => None,
        }
    }
}

/// Parses `s` as `str::parse::<u32>` does.
pub fn parse_u32_chars(s: &[char]) -> (r: Option<u32>)
    ensures
        r == parse_u32(s@),
{
    if s.len() > 0 && s[0] == '-' {
        return None;
    }
    match parse_i64_chars(s) {
        Some(v) => if 0 <= v && v <= 0xffff_ffffi64 {
            Some(v as u32)
        } else {
            None
        },
        None => None,
    }
}

/// The signal that the bar updater sends waybar: the value after
/// `--waybar-signal`, 8 when it is missing or not a `u32`.
pub open spec fn spec_waybar_signal(args: Seq<Seq<char>>) -> u32 {
    match spec_flag_value(args, "--waybar-signal"@) {
        Some(s) => match parse_u32(s) {
            Some(n) => n,
            None => 8,
        },
        None => 8,
    }
}

/// `--waybar-signal N` sets the signal to `N`, for every `u32`; without the
/// flag the signal is 8.
pub proof fn lemma_waybar_signal_read(pre: Seq<Seq<char>>, n: u32, post: Seq<Seq<char>>)
    requires
        !pre.contains("--waybar-signal"@),
    ensures
        spec_waybar_signal(pre + seq!["--waybar-signal"@, int_text(n as int)] + post) == n,
        spec_waybar_signal(pre) == 8,
{
    crate::cli::lemma_flag_value_read(pre, "--waybar-signal"@, int_text(n as int), post);
    lemma_parse_int_text(n as i64);
    let t = int_text(n as int);
    assert(is_digit(t[0]));
    assert(!is_digit('-'));
}

/// The signal that the bar updater sends waybar.
pub fn waybar_signal(args: &[String]) -> (r: u32)
    ensures
        r == spec_waybar_signal(strs(args@)),
{
    match get_flag_value(args, "--waybar-signal") {
        Some(s) => match parse_u32_chars(&chars_of(s)) {
            Some(n) => n,
            None => 8,
        },
        None => 8,
    }
}

/// The index of the first `--config` or `-c`.
pub open spec fn config_flag_position(args: Seq<Seq<char>>) -> Option<int>
    decreases args.len(),
{
    if args.len() == 0 {
        None
    } else if args[0] == "--config"@ || args[0] == "-c"@ {
        Some(0)
    } else {
        match config_flag_position(args.drop_first()) {
            Some(i) => Some(i + 1),
            None => None,
        }
    }
}

/// The configuration file that `doctor` is asked to check: the argument
/// after the first `--config` or `-c`.
pub open spec fn spec_doctor_config(args: Seq<Seq<char>>) -> Option<Seq<char>> {
    match config_flag_position(args) {
        Some(p) => if 0 <= p && p + 1 < args.len() {
            Some(args[p + 1])
        } else {
            None
        },
        None => None,
    }
}

/// The configuration file that `doctor` is asked to check.
pub fn doctor_config(args: &[String]) -> (r: Option<String>)
    ensures
        opt_str_view(r) == spec_doctor_config(strs(args@)),
{
    let ghost av = strs(args@);
    let mut i: usize = 0;
    assert(av.skip(0) =~= av);
    while i < args.len()
        invariant
            i <= args@.len(),
            av == strs(args@),
            config_flag_position(av) == match config_flag_position(av.skip(i as int)) {
                Some(k) => Some(k + i),
                None => None::<int>,
            },
        decreases args.len() - i,
    {
        assert(av.skip(i as int)[0] == args@[i as int]@);
        if str_eq(args[i].as_str(), "--config") || str_eq(args[i].as_str(), "-c") {
            if i + 1 < args.len() {
                assert(av[i + 1] == args@[i + 1]@);
                return Some(args[i + 1].clone());
            } else {
                return None;
            }
        }
        assert(av.skip(i as int).drop_first() =~= av.skip(i + 1));
        i += 1;
    }
    assert(av.skip(i as int).len() == 0);
    None
}

} // verus!
