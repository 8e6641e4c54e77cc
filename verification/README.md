# spectre_automation

A performance harness for a desktop application: it launches the current
build (and optionally an old one), samples CPU, GPU and RAM use of all the
application's processes once a second, terminates them afterwards, and writes
console tables, charts and a run history.

- `src/` — the verified library (Verus): settings parsing and defaults, the
  path model (Unix and Windows syntax, chosen by the target system), the step
  machines that read the single-instance lock and the database schema, the
  measurement plan and the course of a run (what to measure next, when to
  abort, which report closes it), the choice of the GPU backend, process
  selection for accounting and termination, and the text layout of reports.
- `tests/` — tests of the library on concrete values.
- `app/` — the program around it: reading the environment, the sampling loop,
  the GPU readings themselves, SQLite and lock-file access, statistics and charts (floating
  point), printing and files.
