# pg_relay

SQL calls are relayed from Postgres to a compute daemon, which owns the table
functions and all their logic. This crate holds the decisions on both sides of
that relay, proved with Verus.

- `src/` is the library: its functions with their contracts. `outside.rs`
  lists what is taken on trust about other crates.
- `tests/` runs the library.
- `app/` is the daemon and the Postgres extension around it: sockets, files,
  HTTP, JSON, and the handlers that table functions are written as.

| module | what it decides |
|---|---|
| `read_cache` | which call of a read runs the computation, which waits, and what is kept |
| `write_coordinator` | which write may run, which conflicts, which was done before |
| `registry` | which handler a table function has |
| `ipc` | what becomes of each request, what is answered and what is audited |
| `frame` | the length before each payload |
| `storage`, `storage_memory` | objects with etags and conditional writes |
| `storage_local` | the same in a directory, between the accesses to the file system: how a write goes on and how it is undone |
| `storage_walk` | which directories are read and which files are listed |
| `relay` | what the SQL functions send, lock and raise |
| `row`, `schema`, `keys`, `error`, `audit`, `protocol`, `table_function` | the values that go to and fro |
| `app` | what a daemon is put together from |
| `kv_store` | a key-value store in two table functions |
| `name_table`, `sorting`, `text` | tables by name, stable sorting, text |

Proof functions whose names begin with `law_` state what holds of the library
as a whole: one computation per key, one writer per lock key, no second run of
a recorded write, no lost update under a stale etag, the old object after a
failed write, one audit event per read or write, and more.
