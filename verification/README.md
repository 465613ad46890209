# gg

A terminal browser for git history: a commit list with its lane graph, a
details panel with syntax-highlighted diffs, search, branch prompts, and a
staging view that stages and unstages single hunks.

The library in `src/` is verified with Verus. Every key press goes through
`Action::execute`, which states exactly how the state changes and which
outside work (git, the editor, the clipboard, the browser) it asks for; the
program in `app/` performs that work and hands the outcome back to the
`report_*` functions of the library.

- `commit_graph`: the lanes of the commit graph, one row per commit.
- `repo`, `sha`, `hunk`, `worktree`: the repository as plain values, commit
  search, remote URLs, applying and reversing hunks, the working tree's
  status.
- `action`, `normal`, `prompt`, `search`, `staging`, `state`, `viewport`,
  `ui_state`: the key-driven state machine and the scrolling arithmetic.
- `layout`, `list_view`, `details`, `details_panel`, `file_tree`,
  `staging_panels`, `search_bar`, `highlight`: what the panels show, as rows
  of styled text.
- `complete`, `args`, `license`, `text`, `utils`: branch-name completion,
  the command line, the trial and the license, text helpers, dates.

`app/` holds `main`, the git2 calls, the drawing with ratatui, the file
watcher, and the license file on disk. `tests/` runs the library on
concrete values.
