# gaze_hermes_sidecar

The local privacy sidecar of Gaze Hermes: it tokenizes PII before a request
leaves the machine and restores the tokens in responses, including streamed
ones. This crate is its verified core; `app/` is the HTTP server around it.

Layout of `src/`:

- `streaming/`: per-lane restoration of tokens split across chunks, the
  manager of open streams, and the decisions of a streaming WebSocket.
- `policies/`: policy documents (global and per-profile overlays), the
  overlay merge, visual-editor edits, and the hash-checked edit/apply flow.
- `sessions/`: session keys and namespaces, snapshot names, and the
  registry's bookkeeping (live handles, persisted index, blocked recovery).
- `crypto.rs`: the ChaCha20-Poly1305 snapshot envelope, sealed under a
  per-session key derived from the master key with HKDF-SHA-256.
- `api/`: request counters, the field loops of the clean endpoint and of the
  policy test lab, and their detection summaries.
- `auth.rs`, `config.rs`, `protocol.rs`, `model.rs`: bearer tokens,
  configuration decisions, wire types, model provisioning.

Building an effective policy into a Gaze pipeline, file and network I/O,
and JSON handling live in `app/`.
