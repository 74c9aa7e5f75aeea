# desire

A minimal web framework on hyper, with its logic verified by Verus.

- `src/` is the verified core: routing (method routers, route trees,
  the compiled route table and the per-request decision, `405` with
  `Allow`, `HEAD` served by `GET`), percent-encoding, the response
  envelope and the error model, static-file decisions (path safety,
  ranges, conditional requests, listings), CORS and compression
  decisions, request extraction (parameters, body budget, content types,
  cookies, WebSocket handshakes), server-sent events and OpenAPI
  documents. Calls into `matchit`, `mime_guess`, `httpdate`,
  `serde_json`, `cookie` and `tungstenite` sit behind small trusted
  wrappers in `src/ext.rs` and `src/text.rs`.
- `app/` is the server around it: hyper and tokio plumbing, the erased
  handler and middleware chains, contexts with shared state, TLS, and
  the in-memory test client.
- `tests/` exercises the core on concrete values.
