# devlaunch

The core of DevLaunch, a tray launcher that opens a project's terminals,
runs per-task git worktree environments and shows a repository's git state.
The library holds the rules; each public function states what it does in a
contract that Verus proves.

## Layout

- `src/` — the verified library.
  - `config`, `format`, `migrate`, `ids`, `loading`: the configuration model,
    telling file formats apart, carrying old formats forward, id repair, and
    loading with recovery from a damaged file.
  - `launcher`, `platform`, `locate`: from a project to terminal panes, and how
    Windows Terminal or plain consoles are started for them.
  - `worktree`, `copying`: environments per branch — slugs, paths, port leases,
    environment variables, the copy allow-list and the copy itself.
  - `git`, `git_read`, `git_write`, `diff`, `log`, `image`, `preview`: what git
    is asked, and how its answers become statuses, diffs, histories and
    previews.
  - `detect`, `scan`: start items suggested by a project's files, and
    repositories found under a workspace.
  - `commands`, `hotkey`, `tray`, `diag`, `ready`, `runner`, `text`, `paths`:
    checks behind the window's commands, shortcut parsing, labels, log lines,
    and the string and path helpers the rest is built on.
- `tests/` — tests of the library on concrete values.
- `app/` — the desktop side: reading and writing files, running git and
  terminals, the log file. It decides nothing the library does not.

Work that touches the outside world reaches the library as functions passed in
(run git, list a directory, read a file); contracts speak of what those
answered, so they hold whatever the disk or git said.
