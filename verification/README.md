# mlm

A command-line time tracker: `start`/`stop` punches, work-log notes, a
per-date `status` view and a per-week `week` view with a signed carry of
surplus and deficit from week to week, all stored in a local SQLite file.

## Layout

- `src/` is the verified library (Verus). Contracts state what each
  function returns; where a result shows a local wall-clock time, which
  depends on the machine's time zone, an exact `*_at` function takes the
  local readings as arguments and the caller only gathers them. The laws
  the tracker relies on are proof functions named `law_*`:
  - `text`, `calendar`: decimal text, zero padding, proleptic-Gregorian
    day numbers and ISO weeks, and the small trusted wrappers over
    `chrono` whose claims the rest is proved against;
  - `time`, `date`: parsing of `TIME`, `DURATION`, `DATE` (`YYYY-MM-DD`
    or `-N`) and `WEEK_ID`, the `WeekId` type and week iteration;
  - `stint`: pairing one date's punches into completed stints, open
    stints and orphaned ends, and joining a stint across midnight;
  - `week`: the week-by-week carry walk and the in-memory ledger;
  - `render`, `status`, `week_view`: the exact text of both views, and
    the decisions that turn stored data into them;
  - `storage`, `commands`, `week_target`, `cli`: stored column texts,
    the checks of the write path, the recreate lines of `delete`, and
    the command-line shapes.
- `app/` is the program around it: argument parsing with `clap`, the
  database (`rusqlite`, located with `directories`), and the commands
  that read, call the library and print.
- `tests/` exercises the library on concrete values.
