# lazyrsync

A terminal companion for rsync: reusable profiles of Source → Destination
tasks, dynamic destination paths (`{now:%Y-%m-%d}`, `{hostname}`, `$VAR`,
`~`), numbered snapshots chained with `--link-dest`, and headless runs for
cron and systemd (`lazyrsync list`, `lazyrsync run PROFILE[/TASK] [-n] [--yes]`).

The library under `src/` is written in Verus and verified: every public
function carries a contract over mathematical models, and the properties
that span several calls are stated and proved as laws.

- `env` — the outside facts that expansion reads (variables, hostname files,
  one clock reading taken by the program), and date formatting through
  chrono.
- `paths` — placeholder, `~` and variable expansion; `path_laws` proves that
  escapes, unknown names and unclosed braces are left as typed.
- `completion` — path completion against a directory listing, with smart case;
  the completion is the longest common prefix of the sorted offers.
- `rsync` — snapshot numbering, endpoint resolution and the rsync argument
  list; `rsync_laws` proves that paths close the list behind `--`, that
  `--delete` appears only when asked for, that hand-written arguments stand
  just before `--` and the filter options form one block, that headless runs
  pass the TUI's arguments less the progress feed, and that snapshots chain.
- `headless` — target selection, the `--delete` gate, the step that runs
  every task in turn whatever the earlier ones returned, exit codes and the
  lines `list` and `run` print.
- `fields`, `popups` — what the editor's path fields and the confirmation
  popups show, and how the popups answer keys.
- `text` — character-level helpers (trimming, searching, decimal digits,
  `u32` parsing, string order).

`app/main.rs` is the command-line program around the library: argument
parsing, reading the environment, the clock and directories, creating
destination parents, spawning rsync and printing.
