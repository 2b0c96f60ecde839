# infr

Host-side logic of an inference engine, verified with Verus.

- `src/exec.rs`: what a graph executor does with each tensor before and after it runs the ops, and
  which ops it runs, in which order. `src/graph.rs` and `src/tensor.rs` hold the graph it works on.
- `src/dsv4_plan.rs`: the plan of one ubatch of the DeepSeek V4 compressor. `src/dsv4_spec.rs`
  defines what a plan holds.
- `src/dsv4_tiers.rs`: which compression tiers of DeepSeek V4 generate.
- `src/chat.rs`: the SYCL chat model.
- `src/exec_laws.rs`, `src/dsv4_laws.rs`, `src/dsv4_ring.rs`: what holds across functions and
  across calls, as public proof functions.

`app/` puts the chat behind the common chat interface. It is ordinary Rust and is not verified.
