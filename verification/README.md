# surrealdb_migrate

Migrations for SurrealDB databases: scripts in a migrations folder, named by
a key (`YYYYMMDD_HHMMSS`), a title and a direction, are applied to a database
in the order of their keys and recorded in a migrations table, can be
reverted by backward scripts, listed and verified against what was applied.

## Layout

- `src/` is the library, written in Verus. Each public function states what
  it returns in its contract, and the laws of the library (what a file name
  reads back as, what migrating applies and in which order, what verifying
  finds, what texts read back as) are proof functions named `law_*`.
  - `key`, `text`, `checksum`, `pattern`: migration keys, text helpers,
    checksums of scripts and patterns of excluded files;
  - `definition`, `round_trip`: file names of migrations, read and written;
  - `action`, `keyed`, `runner`: what verifying, migrating and reverting
    decide from the defined migrations and the recorded executions;
  - `config`, `settings`, `args`, `commands`, `listing`, `files`, `db`:
    configuration, settings, command line arguments and what the commands
    decide and write.
- `app/` is the command line tool `surmig`: argument parsing, reading the
  settings and the migrations folder, the database connection, and the
  output. It hands plain values to the library and prints what comes back.
- `tests/` are the tests of the library.
