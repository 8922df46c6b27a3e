# todo_cli

A terminal todo list. Active todos live in `~/.local/share/todo-cli/todos.txt`,
completed ones in `completed.txt` next to it, one `ID|text` line per todo; an
optional gist keeps a copy that `todo sync` reconciles with the local files.

Layout:

- `src/` — the library, verified with Verus:
  - `text.rs`: whitespace, trimming, decimal numbers, searching characters;
  - `todo.rs`: todos, the lowest free identifier, the todo file format
    (writing, reading, and the proof that reading gives back what was written),
    adding and completing todos;
  - `config.rs`: flags, paths under the home directory, the archive file and
    the completion sound;
  - `cli.rs`: which command the command line asks for;
  - `sync.rs`: which way a sync goes and what it records, and the gist
    settings.
- `app/` — the program around it: files, environment, processes, HTTP and JSON.
- `tests/` — tests of the library.
