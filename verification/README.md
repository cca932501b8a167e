# zephyr_rust_metrics

Metrics module for small boards: it collects raw system metrics from the host,
computes the derived quantities, decides when a measurement is worth sending
(the PADRE engine: critical alarms, heartbeat, adaptive deadband and energy
budget), and frames each record as length-prefixed CBOR for an abstract
transport.

- `src/` is the library, verified with Verus: every public function states
  what it returns, and the laws of the format and of the decision engine are
  proved there (what a reader decodes from a frame, the heartbeat bound, the
  rate limit of critical alerts, the ranges of the derived values).
- `app/` is the entry point: the host calls (printing, raw readings,
  identity queries, transport, sleep) around the library's decisions.
- `tests/` runs the library on concrete values.
