# Elu ETL

Moves rows from spreadsheets, CSV files and databases into databases: by field
mappings, or by a small script language with lookups, filters and merges.

`src/` is the library. Everything in it is verified with Verus: what a function
returns or changes is stated in its contract, over plain sequences of
characters, cells and rows.

- `text`, `double`: text, decimal numbers, and doubles by their bit pattern.
- `paths`: file names and extensions, as far as all platforms agree on them.
- `models`: cells and their conversion, dates, errors, connections, columns.
- `db`: table names and statements for each database, values from drivers.
- `excel`: file kinds, CSV decoding and cells, sheet cells, column types,
  previews, and how a result is laid out in a sheet.
- `etl`: mappings, row by row and batch by batch. A job (`executor`) is a state
  machine: it says what is to be done next (read, write, record, judge a rate)
  and is told how that went; `resumption` looks at whole runs, and proves that
  an interrupted one and the one that takes it up again write together what one
  run writes.
- `etl::script`: the language. `lexer`, `grammar`, `jobs` say what a script
  means, `parser` and `job_parser` read it, `plan`, `bind`, `lookup`, `prepare`
  get a job ready, `rows` goes over the rows, `run` is the state machine of a
  whole script, `readback` proves that expressions and conditions written as
  text read back as they were, by themselves and inside a whole script.
- `security`: secrets that do not show themselves.

Public functions whose names begin with `law_` state what holds of several
functions together.

What the library has from other crates (digests, dates, UUIDs, encodings, CSV,
parallel mapping) stands behind small functions marked
`#[verifier::external_body]`; their contracts are not proved, and each says in
its comment what it claims.

`app/` is the desktop side, in ordinary Rust: files, database drivers, the
keychain, the local state and the commands that the window calls.

`tests/` runs the library, some of it on a SQLite database in memory.
