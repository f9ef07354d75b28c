# cokacdir

The logic of a terminal file manager with several panels and a screen that
compares two directory trees, written in Rust and proved with Verus.

- `src/` is the library. Every function states in its contract what it returns
  and what it changes; the proof functions named `law_...` state what holds across
  functions.
- `tests/` runs the library on concrete values.
- `app/` is the program around the library: it reads the file system, runs
  archivers, handlers and workers, talks to remote machines and draws the
  comparison screen.

Local paths are text, read as Unix systems read them.

The library never touches the file system. A function that depends on what is out
there takes it as an argument, and says what is to be done next in its result:
work that alternates with the outside, such as making an archive, comparing two
trees or deleting from both sides, is a value (`TarRun`, `BuildRun`,
`DiffDeleteRun`, ...) that is stepped through until it ends.

| Modules | What they hold |
| --- | --- |
| `text`, `names`, `paths`, `ranking`, `sorting`, `fuzzy` | texts, sets of names, paths, orders |
| `remote_path`, `remote_cache`, `remote_connect`, `remote_ops`, `spinner` | remote paths, profiles and sessions |
| `panel`, `selection`, `navigation`, `goto`, `opening`, `screens` | panels, cursors and screens |
| `authorization`, `clipboard`, `paste`, `paste_resolved`, `dup_run`, `creation`, `deletion` | operations on files |
| `archive`, `archive_*`, `untar_run` | archives |
| `settings`, `settings_flow`, `handler`, `outside_programs`, `dialogs`, `progress`, `app_state` | settings, dialogs and the state of the program |
| `diff_*` | the comparison of two directories |
