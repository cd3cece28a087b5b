# otto

A task runner: it reads a Makefile, turns each target into a task, and runs
the tasks in dependency order, several at once, streaming their output with a
per-task coloured prefix, a heartbeat for quiet tasks and a live region of
running tasks on stderr. It can also draw the task graph.

The library (`src/`) is written in Verus: every function carries its
contract and is proved. `app/` is the program around it: argument handling,
processes, files, the terminal and the run history database.

## Library modules

- `text`, `fmt`, `paths`: characters, strings, numbers and paths, with the
  specifications the rest is stated in.
- `makefile`: the Makefile parser (variables, `.PHONY`, default goal,
  targets and recipes).
- `task`, `order`, `colors`: tasks and their hashes, the stable name order,
  and each task's colour pair and labels.
- `scheduler`: the run as a state machine: which task to check or start
  next, what a finished or failed task changes, when a rebuild is needed.
- `workspace`, `schema`, `prune`: where a run's files live, the stored
  status words, and when pruning is due.
- `duration`, `heartbeat`, `output`, `progress`, `mode`: durations, task
  clocks and heartbeat lines, output formatting, the idle spinner and the
  progress mode.
- `facade`, `hold`, `rows`, `region`: otto's terminal writer as state:
  where each write goes, what is held while a `tty:` task owns the terminal,
  which tasks have a row in the live region, and what a row says.
- `graph`, `dag`, `visualizer`, `tui`: the task graph (DOT, ASCII, the
  `daggy` graph), the output visualizer and the full-screen view's logic.
- `http`: release fetching as data: release and asset records and the
  download plan.

Each module's laws are public proof functions or clauses of the functions
they are about.

## Running

The crate is checked with Verus and tested with the tests under `tests/`.
