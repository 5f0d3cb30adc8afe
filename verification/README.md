# cells

The logic of a node that runs cells: isolates with a SQLite database each,
HTTP bodies that stream through them, WebSockets that outlive them, queues,
an object store and a replicated write-ahead log. The library decides and
computes; every function of it is verified with [Verus](https://github.com/verus-lang/verus).

## Layout

- `src/` is the verified library.
  - `engine_api`, `generation`, `cell_runtime`, `host_channels`: identities,
    deployments and their graphs, the running cells of a node.
  - `storage`, `storage_plans`, `sql_policy`, `statement_cache`, `kv_blob`:
    the database of a cell: what may run on it, in which statements, and what
    a failure means.
  - `http_streams`, `facet_streams`: the registry of streaming bodies.
  - `ws_frames`, `ws_flush`, `ws_registry`, `websocket`: sockets, their frames
    and what holds them back.
  - `queue_policy`: message queues.
  - `r2_store`, `r2_record`, `r2_ops`: objects, the records kept with them,
    streaming writes and multipart uploads.
  - `ltx_repl`: replication of the databases.
  - `http_proxy`, `headers`: the course of a proxied request, and its headers.
  - `json`, `text`, `maps`, `digests`: what the others are built from.
- `tests/` runs the library on concrete values.
- `app/` is ordinary Rust around it: SQLite, the network, and the documents
  that other programs send.

State that lives behind a lock or in a table of the process is a plain value
here, with a view (`...View`) and transitions on it; an executable function
says in its contract which transition it makes. Values that only the
surroundings can give, such as the time, what a bucket answered or what SQLite
returned, are arguments.

Public proof functions state what holds across calls. What is not proved is
stated in the functions marked `external_body`, each of which calls one
function of another crate.
