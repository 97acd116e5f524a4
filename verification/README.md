# recall

A library for keeping a searchable history of shell commands in SQLite, and the
command-line program built on it.

- `src/` is the library, written in Verus. Its core is the editing of shell
  config files (`shell.rs`): installing and removing the logging hook block is
  specified over character sequences, and the laws that relate the two
  (installing marks the file as hooked, removing undoes installing, removing
  from a file without a hook only tidies its end) are proved there. `text.rs`
  holds the character-level operations those specifications are built from.
  `db.rs` builds every SQL statement and its parameters and maps rows to
  commands; `commands.rs` holds the decisions and messages of each subcommand;
  `models.rs` the records and their timestamps; `format.rs` the computed parts
  of tables and charts and the CSV text of a list of commands.
- `app/` is the program: argument parsing, file and terminal I/O, colours,
  tables and JSON output.
- `tests/` runs the library against real SQLite databases and concrete texts.
