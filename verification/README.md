# tempus

Tempus is a small productivity tool: a prompt where you keep tasks and
timers, with each timer's note given a category by a text classifier, and a
daily summary of the time spent per category.

- `src/` is the library, verified with Verus: command parsing and argument
  checks (`repl`), the lines the tool prints (task and timer lists, the daily
  summary), reading stored rows back into tasks and timers (`storage`), the
  numbering of classifier labels (`ml_training`, `ml`), and the text and
  arithmetic helpers these rest on (`text`, `arith`). Dates and times are
  parsed, written and subtracted by `chrono`, through the few trusted
  wrappers in `time`.
- `app/` is the program around it: the prompt loop, the SQLite queries
  (`sqlx`), the terminal size (`crossterm`), the local time zone, and the
  classifier itself (`linfa`), whose floating-point work stays outside the
  library.
- `tests/` runs the library on concrete values.
