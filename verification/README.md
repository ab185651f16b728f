# ashina

An HTTP/1.x message library verified with Verus, and the async server and file-benchmark
plumbing around it.

- `src/` — the verified library:
  - `http.rs`: requests and responses, their models, the wire format as spec functions,
    `from_bytes` / `as_bytes`, defaults;
  - `header.rs`: header fields as a map that keeps each name once (a type invariant);
  - `reader.rs`, `writer.rs`, `wire.rs`, `decimal.rs`: the byte-level reading and writing;
  - `laws.rs`: what holds between reading and writing (round trips, well-formedness of
    what is read);
  - `server.rs`, `service.rs`: the listening address, what the server makes of a
    connection's bytes and what it answers, the greeting service;
  - `xtask.rs`, `fio.rs`: the `cargo` run of the build tool (program, package, arguments),
    the rounds of the benchmark.
- `app/` — the async traits, the server loop, the benchmark loop, their tokio
  implementations and entry points, and the process runner; ordinary Rust.
- `tests/` — tests of the library on concrete messages.
