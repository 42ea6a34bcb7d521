# rumwebs_http

A small HTTP/1.1 server whose request parsing, response rendering, routing and
connection bookkeeping are written in Verus and proved against their contracts.

Layout:

- `src/` — the verified library.
  - `bytes.rs`: searching and splitting byte sequences, decimal rendering, UTF-8 helpers.
  - `headers.rs`: `StrMap`, an insertion-ordered map with distinct string keys.
  - `request.rs`: request methods and the parsing of a request from raw bytes.
  - `response.rs`: building a response and rendering it as bytes.
  - `status_codes.rs`, `errors.rs`: status codes and error types.
  - `server.rs`: canned responses, routes, access policies, HTTPS redirection and the
    server builder.
  - `basic.rs`: the simpler parser and route table of the plain server.
  - `tcp_pool.rs`: the decisions of the mio-based connection pool (tokens, jobs, workers,
    the read/write cycle of a connection).
- `app/` — the program around it: configuration, logging, sockets, TLS and threads.
- `tests/` — tests of the library.
