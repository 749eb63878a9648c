# todo_list

A command-line todo application whose core is a verified library.

- `src/` — the library, verified with Verus:
  - `task.rs`: `Status`, `Task` and the text a task is shown as;
  - `todo_list.rs`: `TodoList`, one list of tasks keyed by `u32` ids, and `TodoError`;
  - `board.rs`: `Board`, named lists sharing one registry of tasks by id;
  - `command.rs`: `Command` and `parse_command`, how a line of input reads;
  - `session.rs`: `execute`, one command applied to the list and the board,
    with the `Reply` to show, and `import_to_board`;
  - `table.rs`: the parts, widths, cells and borders of the printed task table;
  - `words.rs`, `text.rs`, `ids.rs`: text splitting, trimming and number
    reading; building strings; ids in ascending order;
  - `laws.rs`: properties that span several operations.
- `app/` — the program around it: the loop that reads a line, calls
  `execute` and shows the reply in colour, and the JSON files in
  `~/.todo_cli/` (serde).
- `tests/` — tests of the library.
