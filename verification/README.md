# armature-metrics

Prometheus metrics for the Armature framework, written in Verus.

- `src/` is the verified library: metric builders, the naming rules that
  `prometheus` enforces, the sliding sample window behind summaries, the
  path-labelling rules of the HTTP request instrumentation (with the laws that
  bound its label cardinality), the updates recorded for each request, and the
  text exposition of a registry. `src/outside.rs` holds the trusted contracts
  of the `prometheus` and std functions the library calls.
- `app/` is ordinary Rust around it: the process-wide default registry and
  the helpers that register into it, histogram builders and summaries (which
  work on floating-point values), and the instrumentation loop that times a
  request, awaits the rest of the chain and performs the updates the library
  decides on.
- `tests/` exercises the library.
