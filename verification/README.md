# herdr source panel

The source panel of a terminal workspace manager, written in Verus. For each workspace the panel shows
either its repository (the changed files over the commit graph) or its file tree (the Explorer), and opens
diffs in a pane of the active tab.

`src/` is the library. Its functions are verified against their contracts, but for the calls out of it, whose
contracts are believed: the wrappers `to_lower_case` (`text`) and `to_text_lossy` (`path`) around
`str::to_lowercase` and `String::from_utf8_lossy`, the wrappers `no_space_code`, `too_many_open_files_code`
and `file_table_overflow_code` (`watcher`) around three constants of `libc`, and the contract of std's
`String::push` (`text`).

- `text`, `order`, `path`, `path_map`, `ids`: characters, stable sorting, paths that are compared by their
  components, and maps that are keyed by paths and by pane identities
- `source_control`: what git prints, read into changes and commits, and the commands that show them
- `file_tree`: directory entries, their order, the rows of an expanded tree, and the git status on them
- `numbering`, `tab`, `workspace`, `explorer`: panes and their numbers, tabs, workspaces, and the Explorer
  of a workspace
- `geometry`, `panel`, `app_state`, `render`: where things lie, which rows are visible, and what is drawn
- `input`, `diff_pane`: what the mouse does, and the pane in which diffs are shown
- `watcher`: which directories are watched for changes

Functions whose name starts with `law_` state what holds of several functions together.

`app/` is ordinary Rust around the library: it runs git, reads directories, watches them, keeps the split
ratio, and draws on the terminal. What the library needs from outside comes in as plain values or as
closures.

`tests/` run the library.
