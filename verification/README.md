# common_http_server_rs

Verified core of an HTTP service toolkit: request-path normalisation,
path scopes and prioritised authentication rules for a global middleware
orchestrator, the HTTP panel page, uniform API responses, and the WebSocket
protocol, client handshake settings and hub (connections, groups, event
fan-out, client message handling, the per-frame session decision,
the bounded outgoing queues with all-or-nothing delivery, and inspection
snapshots and the panel's inspection reply).

- `src/` — the library, verified with Verus.
- `tests/` — tests of the library.
- `app/` — the server around it: axum routes and middleware, the
  WebSocket session loop (which carries out what the library decides for
  each frame) and client connection, serialisation.
