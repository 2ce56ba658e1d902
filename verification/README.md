# llamamanager

Control logic for managing local llama.cpp servers and routers, verified
with Verus: launch-command planning with secret redaction, the decisions of starting
a managed server (start guard, launch form checks, readiness outcome), bounded server
logs, readiness probing, router discovery and model operations, router
observability and switch benchmarks, streaming-probe parsing, telemetry
history, chart layout, alert state machines and overhead accounting.

## Layout

- `src/` — the verified library. Its functions carry `requires` /
  `ensures` contracts, with one exception: the operation cancellation flag
  (`RouterOperationCancellation`) is a shared atomic whose value no contract
  describes, so its four methods have none. Laws that span several calls are
  public `law_*` proof functions next to the code they speak of. Calls into
  `serde_json` sit behind a few trusted wrappers in `src/json.rs`; std
  lossy UTF-8 decoding, debug quoting, string collection and the system
  clock are wrapped in `src/strings.rs`.
- `app/` — the runtime around the library: sockets, child processes,
  threads and timers, SQLite persistence, and floating-point telemetry
  (readings are ranked by integers before the library sees them).
- `tests/` — tests of the library through its public API.
