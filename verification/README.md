# unfold

Flattens the files found under a directory tree into one destination
directory, by copying or moving them, with a choice of what to do when a
name is already taken (overwrite, skip, or rename to `name_N.ext`), a dry
run, an undo of the last run's moves, a log of those moves, and the removal
of the directories a run leaves empty.

- `src/` is the library, verified with Verus. It holds the decisions:
  `naming` (final path component, joining, the `name_N.ext` candidates),
  `flatten` (a run, as a state machine that asks the caller what exists and
  how each copy or move went), `undo` (reversing the logged moves, last
  first), `cleanup` (which directories to remove, deepest first), `config`,
  `log` and `cli` (the data of options, log and command line).
- `app/` is the command-line program: argument parsing, directory walking,
  the file operations, the JSON log file, progress display and colours.
- `tests/` drives the state machines against simulated directories.
