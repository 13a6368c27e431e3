# neural_swarm_ai

A swarm of machines that run a large language model together, each node
holding a contiguous slice of the model's layers and passing the hidden state
to the next node (pipeline parallelism).

`src/` is the verified core, proved with Verus:

- `node::state` — the node lifecycle (Joining, Ready, Active, Degraded,
  Draining, Left) and its transition rules.
- `node::registry` — the registry of nodes: registration, readiness,
  status updates with degradation hysteresis, layer assignment, and the
  capacity ordering used for layer distribution.
- `compute` — hardware profiles, device classification, thermal penalties,
  resource reservations, and IEEE-754 binary32 comparisons on bit patterns.
- `pipeline` — routing of inference sequences through the ordered stages.
- `orchestrator` — the coordinator's workers and the distribution of the
  model's layers among them in proportion to compute power.
- `session` — the authenticated join handshake, as state machines for both
  ends of a connection; it hands each node the cluster key.
- `executor` — how a stage opens the hidden state it receives and seals the
  one it forwards (zstd, then AES-256-GCM bound to the task id).
- `crypto` — HMAC authentication, X25519 + HKDF session keys, AES-GCM and
  zstd, behind small trusted wrappers over the RustCrypto and zstd crates.
- `layer_slice` — which layers a node loads and runs.
- `remote` — range planning and buffering for streaming a model file over
  HTTP.

`app/` is the runtime around it: hardware sampling, capacity scoring in
floating point, the WebSocket transport, HTTP requests, and the candle
inference backend.

`tests/` exercises the library through its public interface.
