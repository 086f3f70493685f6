# swi3_groups

Workspace groups (sets) for i3 and sway, as a verified library and two thin
command-line programs.

A workspace's set, names and numbers live in its name:
`global_number:␟set␟:static_name␟:dynamic_name␟:local_number`, where `␟` is a
zero-width space. The global number orders workspaces by monitor, then by
set, then by local number, so the first set of a monitor is its active set.

## Layout

- `src/` — the library, verified with Verus:
  - `text`, `num`: characters and decimal numbers, with specifications.
  - `meta`: parsing and building workspace names, global numbers.
  - `workspace`, `outputs`, `numbers`, `sets`: grouping workspaces into sets,
    outputs, free local numbers, set indices, renumbering a monitor.
  - `nav`, `stepping`: which set a command means, workspaces by number,
    relative steps, switching the active set, renaming.
  - `session`: session start-up and the listings, table and waybar module.
  - `polybar`, `menu`, `wmcmd`: bar text, menus, window manager commands.
  - `cli`, `command`: the command line of both programs.
  - `doctor`, `checks`: the configuration report.
- `app/` — `main`: window manager IPC (swayipc), processes, files and the
  environment; every decision is a call into the library.
- `tests/` — tests of the library on concrete values.
