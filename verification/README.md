# luvus

The session model of a terminal multiplexer for coding agents: workspaces, tabs
and tiled panes, the sidebars with their docks, the context menus and dialogs,
restoring a saved session, and the terminal engine that each pane reads from.

`src/` is verified with Verus. Every function states what it returns or changes;
proof functions whose names begin with `law_` state what holds of several
functions together.

| module | what it holds |
| --- | --- |
| `app` | the state of a session and what can be done with it |
| `workspace`, `layout`, `ids` | workspaces, tabs, tiles, and what is kept for each pane |
| `docks`, `config` | the sidebars and their settings |
| `grouping` | how workspaces are listed: worktrees below their checkout, pins first |
| `menus`, `popup`, `geometry` | rows and labels of menus, and where they are drawn |
| `selection` | what a mouse or keyboard selection covers |
| `paths`, `text`, `ring` | paths, texts and positions that go round |
| `terminal` | cells, rows, captures, snapshots, and the engine on `alacritty_terminal` |

What only the surroundings can do is asked for in the session's outbox
(`app::Effect`), and what they found out comes in as plain values: whether a
directory exists, the shell that was started, the processes that run.

The calls into other crates stand behind small functions marked
`external_body`, each with a comment on what is taken for granted: the grid and
parser of `alacritty_terminal` in `terminal/engine.rs`, the border of a
`ratatui` block in `geometry.rs`, the width of a `ratatui` span in `popup.rs`.

`app/` is the code around the library: reading the files of a repository,
handing on what the outbox asks for, events as JSON, and painting with
`ratatui`. `tests/` runs the library.
