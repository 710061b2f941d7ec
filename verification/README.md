# dactyl_db

A small datastore driver over SQLite files and a Neon-compatible HTTP data
service. An application selects a datastore and a route once, and reads and
writes through one adapter contract.

The library under `src/` is verified with Verus: every function states what it
returns in `requires` / `ensures`, and the properties that hold of the driver
as a whole are public proof functions beside the code they are about.

## Layout

| Path | What it holds |
| --- | --- |
| `src/query/` | the SQL scanner, dialect constructs, bounded rewrites, the analyzer, and what holds of them together |
| `src/literal.rs`, `src/arguments.rs` | what the `query!` macro decides about its arguments and its literal |
| `src/value.rs`, `src/parameter.rs`, `src/rows.rs`, `src/json.rs` | cells, parameters, rows and their typed access |
| `src/route.rs`, `src/config.rs`, `src/contract.rs`, `src/adapter.rs`, `src/error.rs`, `src/schema.rs` | routes, options, operations, the adapter contract, typed errors, schema reports |
| `src/neon.rs` | requests to the data service and the reading of its replies |
| `src/sqlite/` | statements, cells and batches; opening; integrity, backup and recovery; the file reader, the import and its publication; schema inspection |
| `src/text.rs` | text primitives that the rest is stated over |
| `app/` | the parts that touch the outside: the SQLite C interface, files, HTTP, wire formats, the macros |
| `tests/` | tests of the library |

Reals are held by the bits of their double-precision form, so that nothing in
the library computes with floating point.

A few items are trusted rather than proved: the text conversions of the
standard library that have no specification yet, and the JSON parser of
`serde_json`. Each says so in its doc comment.
