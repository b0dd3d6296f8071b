# attendance_cli

A command-line log of office attendance: each working day is logged as spent
in the office, at home, or on leave (whole or half days), and monthly
summaries report how many working days were spent in the office.

- `src/` is the library, verified with Verus: the calendar (weekends and the
  England & Wales bank holidays), the rules for creating, appending and
  deleting records, the latest state of each day, the monthly summaries, the
  line framing of the log file, and the table cells that the commands print.
  Contracts are stated over `Seq`, `int` and the views of the library's types;
  the laws that span several functions stand as public proof functions.
- `app/` is the program around it: argument parsing, the log file on disk,
  JSON, and drawing the tables on the terminal.
- `tests/` runs the library on concrete values.
