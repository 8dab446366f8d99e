# serverless

A small function-as-a-service runtime: clients upload WebAssembly modules
(`POST /functions/<name>`) and invoke them (`POST /invoke/<name>` with a JSON
body whose `input` member the function receives). A scheduler spreads
invocations over a pool of workers, grows and shrinks the pool with the load,
drops workers that stop reporting, and tells the workers which compiled
modules to keep cached.

The library under `src/` is verified with Verus:

- `http`: request parsing (header section, body length, request line, input)
  and JSON responses.
- `routes`: request routing, the chunked transfer coding (with a proof that
  decoding gives back what a sender encoded), module validation and the
  deployment and invocation endpoints.
- `scheduler`: the worker pool and its load map, the load and heartbeat
  monitors, job dispatch, worker reports, module usage statistics, the
  cache controller's rules and its pass over all modules.
- `workers`: running a module's `main` on its input (every call into the
  instance is recorded, and the run is stated call by call), and the
  per-worker module cache.
- `wasm_host`, `wasm_sections`: the calls into wasmtime and wasmparser, with
  the contracts the library relies on.

`app/` holds the server itself: sockets, the database, timers and tasks.
