# mysql_executor

Runs every `.sql` file under a scan directory against a MySQL server and
writes the results next to each file as JSON (`query.sql` → `query.json`),
with execution metadata. Files with a configured interval are skipped while
their JSON output is younger than the interval; a failed run leaves the
existing output untouched.

## Layout

- `src/` — the library, verified with Verus:
  - `database.rs` — conversion of MySQL values into JSON cells by column type
    (numbers, dates, times, ENUM/SET/JSON/GEOMETRY columns, WKB points), row collection under the
    streaming threshold, classification of driver errors;
  - `json_doc.rs` — the JSON documents produced, and objects as maps;
  - `json_writer.rs` — the output document: result sets, rows as objects,
    metadata and its totals;
  - `executor.rs` — the skip decision, per-file results, run summaries, and
    the per-file processing steps as a state machine;
  - `config.rs` — configuration, defaults and interval lookup;
  - `scanner.rs` — which files are SQL files and where their output goes;
  - `text_values.rs` — reading the text forms of integers, decimals, dates
    and times, as the server sends them over the text protocol;
  - `text.rs` — decimal rendering, substring search, splitting;
  - `trusted.rs` — the calls into std and outside crates whose contracts are
    taken on trust, each documented.
- `app/` — the program around the library: configuration file I/O, the MySQL
  connection pool and query loop, directory walking, locked atomic file
  writes, threads, logging.
- `tests/` — tests of the library.

## Running

`mysql-executor [config.toml]`; the configuration path may also come from
`MYSQL_EXECUTOR_CONFIG` and defaults to `config/config.toml`. A default
configuration is created when none exists.
