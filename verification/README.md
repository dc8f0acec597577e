# benchy

Benchmark result documents (schema v1), their validation and storage in
SQLite, benchmark selection for the command-line tool, run recording, and the
state of the results viewer, verified with Verus.

- `src/` is the library. Every function there is verified against its
  `requires`/`ensures`:
  - `text`: character access, string building, the code-point order of
    strings, Unicode whitespace, trimming, decimal rendering.
  - `sorted`: `SortedMap`, a map kept in strictly increasing key order.
  - `model`: the result document, measurement IDs, units, statuses and the
    schema version.
  - `store`: the database schema, document validation, and the statements
    that store a document (a retried CI workflow attempt updates its run).
  - `cli`: selection parsing, package selection, failure reports, result
    files and printed lines.
  - `runner`: the `Recorder` that builds the document of one run.
  - `serve`: the server's routes, default paths and error answers.
  - `gui`: grouping of fetched results, table and plot contents, and the
    request state of the viewer.
- `app/` is the program around it: the command line, SQLite, HTTP, the file
  system, JSON (serde) and the egui drawing. It runs the plans the library
  makes.
- `tests/` exercise the library, with a real in-memory SQLite database for
  the storage plans.
