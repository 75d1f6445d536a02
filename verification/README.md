# clings

A trainer for C systems programming: exercises are compiled with `gcc`,
their output or unit tests are checked, and mastery per subject drives a
spaced-repetition schedule.

## Layout

- `src/` — the library, verified with Verus: exercise models, curriculum
  ordering, gating and review queues, spaced-repetition scheduling and decay
  periods, compiler-output reading and hints, output validation, Unity test
  summaries, the configuration file edit, practice streaks from dates,
  text layout (wrapping, boxes, progress bars, sparklines, the
  memory visualiser), search ranking, checkpoints, configuration keys and
  values, synchronisation helpers and the portfolio of exported functions.
- `app/` — the command-line program: argument parsing, the SQLite progress
  store, files, processes (`gcc`, `git`, `tmux`), terminal colours, and the
  floating-point mastery score.
- `tests/` — tests of the library.
