# dial9-tokio-telemetry

Low-overhead telemetry for Tokio runtimes, with its logic verified in Verus.

Threads record events into buffers of their own. A flush loop drains the
buffers into batches and hands them to a segment writer, which rotates segments
by size and by time and keeps their total size within a budget. Offline, traces
are read back and analysed for long polls, scheduling delays and wake delays.

## Layout

- `src/` is the library. Its functions carry contracts and are verified, but for
  the trusted ones below.
  - recording: `buffer`, `shared_state`, `event_writer`, `flush_loop`, `outbox`,
    `segment_metadata`, `writer`, `discovery`
  - sources: `custom_events`, `custom_metrics`, `system_metrics`, `sock_diag`,
    `socket_accept_queues`, `source`
  - sessions: `builder`, `pipeline`, `guard`, `handle`, `runtime_hooks`,
    `tokio_hooks`, `traced`
  - events and analysis: `format`, `events`, `unwind`, `analysis_events`,
    `trace_reader`, `analysis`, `text`
- `app/` is ordinary Rust around the library: clocks, files, netlink, threads,
  and the Tokio hooks.
- `tests/` exercises the library on concrete values.

Proof functions whose names start with `law_` state properties of the library
as a whole.

## Trusted code

Calls into other crates (`dial9-trace-format`, `flate2`, `smallvec` and the
netlink crates) stand behind small functions marked
`#[verifier::external_body]`, and so do two calls into the standard library:
`u16::to_ne_bytes` and `sort_unstable`. The doc comment of each says what is
taken on trust.
