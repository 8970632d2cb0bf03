# lb

A Maglev-style layer-4 load balancer, written as a Verus library with a thin
application around it. Functions under `src/` state in their contracts what they
return or change, and Verus proves the code against the contracts. What lies
outside of a contract is what other threads decide: what a shared ring of the
mock devices holds at the moment, and what a metric counts.

## Layout

- `src/base/` — addresses, time, text, checksums, ordered address sets, maps.
- `src/types/` — VIPs, backends, packets, MTU and node configuration.
- `src/hashing/` — Maglev permutations and lookup tables.
- `src/forwarder/` — the data plane: packet arena, steering, connection and
  fragment tracking, MSS clamping, ICMP, GRE, the rewriter, the stages of the
  multi-threaded pipeline, and the read-only tracer.
- `src/io/` — packet buffers and packet I/O backends.
- `src/health/` — probes, the per-backend state machine, the health map.
- `src/config_manager/` — validation of configurations and the way from
  configuration and health to lookup tables.
- `src/controller.rs` — the orchestrator: debounced rebuilds and the set of
  announced VIPs.
- `src/bgp/` — BGP messages, framing of the byte stream, sessions.
- `src/metrics/` — the metrics that are exposed to Prometheus.
- `src/node/` — start-up, readiness, the trace client's arguments.
- `tests/` — tests of the library.
- `app/` — sockets, threads, files, clocks, HTTP: everything that is not plain
  computation.

## What is believed, not proved

A few functions call other crates: `xxhash-rust` (flow and backend hashes),
`crossbeam` (frame queues), `dashmap` (the health map), `bytes` (message
buffers), `prometheus-client` (the metrics registry), and
`String::from_utf8_lossy`. Each such call sits in a small function marked
`external_body` whose comment says what its contract claims.

## What holds of the whole

Laws that relate several operations are public proof functions next to the
code they speak of, for instance `maglev_shares`, `nodes_agree`,
`flow_affinity`, `insertion_is_found`, `clamping_keeps_checksum`,
`tables_stay_in_step`, `announcements_follow_health` and `framing_round_trip`.
