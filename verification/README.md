# Symlinkarr

Symlinkarr keeps a library of symlinks to media on debrid-backed mounts. The
library crate holds its rules, written in Verus: each function states what it
returns, and the proofs are checked with the code.

- `src/config`: settings, defaults, secrets and the validation of a
  configuration.
- `src/library_scanner.rs`, `src/discovery.rs`: folders tagged `{tvdb-…}` or
  `{tmdb-…}`, and what can be placed in them.
- `src/linker`: names of links, readiness of sources, writing links, and the
  sweep for dead ones.
- `src/db`: rows and statements of the database, its migrations, and the life of
  acquisition jobs.
- `src/commands`: the decisions of scan, status, report and restore.
- `src/handoff.rs`, `src/import_report.rs`: markers handed over between tools,
  and what an import writes.
- `app`: the program around the library, with files, SQLite and the network.

What is believed without proof is marked `external_body` or
`assume_specification`, with a comment that says what is claimed. These are
calls into `regex`, `chrono`, `serde_json`, `serde_yml` and, of the standard
library, two functions and the `Debug` text of a path.
