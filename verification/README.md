# backuper

A backup tool for PostgreSQL databases: it dumps every table to JSON, in an
order where referenced tables come first, compresses the dump with zstd and
uploads it to Google Drive.

- `src/` is the library, verified with Verus: the order of the tables
  (`db`), the dependency chains between tables (`db::get_deps`,
  `db::table_deps_graph`), the insertion-ordered map that holds a dump
  (`ordered_map`), a stable sort (`sort`), the settings and the env file
  (`settings`, `text`, `numbers`), the time stamp of a dump file
  (`stamp`), compression (`compression`) and the
  choices made on the answers of Google Drive (`drive`).
- `app/` is the program around it: the database and Google Drive clients,
  the environment, the log and `main`.
- `tests/` holds the tests of the library.
