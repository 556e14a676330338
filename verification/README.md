# IPlan

IPlan is a planner for personal work: projects hold sections (and lists) of
tasks, tasks hold subtasks, time records and reminders, and a timer records
the time spent on a task.

This crate is IPlan's logic as a library whose behaviour is proved with Verus:

- `src/db`: the rows of the application's tables (`models`), an in-memory
  store of them whose ids rise like SQLite's `AUTOINCREMENT` ids (`store`),
  the queries and updates that the application runs (`operations`), the
  search patterns (`pattern`), the order of results (`sorting`), the tree of
  subtasks (`tree`), what to do with the database file at start (`manager`),
  reading the data of older schemas (`migrate`), and the properties that the
  operations keep from one call to the next (`laws`).
- `src/views`: the decisions of the windows that do not depend on how they are
  drawn: statistics of a project, where a dragged section, list or task lands
  (a task dropped inside another becomes its subtask), the calendar's strip of
  days, the global search, the timer, the steps of a deletion that can be
  undone, the text of a task's row, and more.
- `src/application.rs`: when reminders are sent.
- `src/text.rs`: the text of numbers and durations.

`app/` is the program around the library: it sets up translations, creates or
migrates the SQLite file with `rusqlite`, and loads it into the store.
`tests/` runs the library on examples.
