# rusthydrus

A media-tagging database: files, tags, namespaces, relationships between
files and tags, parent relations between tags, settings and scraping jobs.
The tables live in memory; every change that must reach the sqlite file is
queued as a statement (`SqlOp`) that the program runs in order.

## Layout

- `src/` is the verified library (Verus).
  - `database.rs`: the in-memory tables, their invariant, and every operation
    on them with its statement queue; `db_laws.rs` states what holds across
    operations (adding twice is adding once, condensing numbers the tags
    without gaps, deleting a namespace leaves none of its tags, ...).
  - `loading.rs`, `migrate.rs`, `maintenance.rs`, `table_info.rs`: loading
    tables from rows, carrying an older layout over, version checks, backup
    paths, and reading a table's columns from its statement.
  - `e6ai.rs`, `jsondoc.rs`: the e6ai scraper (urls, parsing pages into files
    and tags).
  - `worker.rs`, `jobs.rs`, `download.rs`, `tasks.rs`: what a job runner
    decides: which jobs are due, how scraped tags enter the database, how a
    download is checked.
  - `intcoms/`: the requests plugins send and the server's answers, with the
    laws a plugin can count on (a write reads back).
  - `file_info.rs`, `sleepy_dev.rs`: the built-in plugins.
- `app/` is the program around it: the sqlite file, the command line, the
  plugin socket, the network and the job threads.
- `tests/` runs the library on concrete values.
