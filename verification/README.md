# gdiff

A native git diff viewer: side-by-side or inline diffs with syntax
highlighting, staging, unstaging and discarding from the file list, commits
and pushes, a file explorer, and a theme picker.

The program is split in two:

- `src/` is the library, verified with Verus: what the window decides and
  computes. It parses `git status --porcelain` output and the upstream
  counts, builds the argument lists of the git commands, lays out the line
  diff as rows with their highlighted spans, finds the hunks, sorts the file
  tree, reads hex colour codes and bundled colour schemes, keeps the window's
  state (selection, refreshes, commits, dialogs), and decides which file
  events the watcher reports. Each public function states what it returns in
  its contract; the laws that span several functions are proof functions
  named `law_*`.
- `app/` is the program around it: the egui window and its painting, the
  threads that run git, read files and watch the worktree, and the settings
  file. It performs the jobs that the library's session hands out and passes
  back what came of them.

Modules of the library:

| module      | what it holds                                                        |
|-------------|----------------------------------------------------------------------|
| `text`      | string operations over character sequences, with their specifications |
| `git`       | porcelain status, changed files, git arguments, languages, editor command lines, the file tree |
| `diff_view` | lines, diff rows, hunks, the diff document                           |
| `highlight` | token classes and the spans of highlighted lines                     |
| `parse`     | which syntect syntax a path gets, and the line parser kept with the state made from it |
| `theme`     | colours, hex codes, the scheme catalogue, built-in and bundled themes |
| `config`    | the user's settings                                                  |
| `session`   | the window's state machine, its start, and the texts it shows        |
| `explorer`  | the file explorer: open or closed, its tree, the expanded directories |
| `watcher`   | which file events matter, and the watcher's state and passes         |
| `icon`      | the window icon                                                      |

The bundled schemes are read at start from `themes.json` beside the
program, and the icon from `favicon.png`; without them the catalogue holds
the two built-in themes only and the window has no icon.
