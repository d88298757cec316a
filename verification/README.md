# metco-client

A client library for MetCo, a metric collection server, written in Verus.

A client turns metrics (counters, gauges, histograms, timings) into lines of the MetCo text
protocol, `name;tag=value|kind|value`, and hands each line to a transport.

- `src/` is the verified library. `types.rs` holds the tag list; `utils.rs` the escaping, tag and
  number encoding; `metrics/` the metrics and the `Metric` trait; `client.rs` the client and its
  builder; `transport.rs` the `Transport` trait; `protocol.rs` a reader of the line format and
  the proofs that every line reads back as the metric that was written, provided no tag name
  holds `|` or `;` (tag names are written with only `\` and `=` escaped).
- `app/` holds the UDP transport.
- `tests/` runs the library on concrete values.
