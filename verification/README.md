# task_assistant

A to-do list kept in an in-memory cache (tasks by UUID, with undo and redo of
status changes), and an SQLite table that a worker thread keeps in step with
the cache.

- `src/` is the verified library: the task model and its row codec
  (`task`), task ids through the `uuid` crate (`ids`), the messages to the
  database worker and their SQL (`db_message`), the cache with its histories
  (`task_manager`), the `tasks` table as a whole following the cache
  (`table`), the database-only manager with snapshot undo (`db`),
  character-level text search and order (`text`), and the menu decisions
  (`menu`).
- `app/` is the program around it: standard input and output, the SQLite
  connection (through `rusqlite`), the worker thread and its channel.
- `tests/` runs the library on concrete values.
