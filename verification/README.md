# opensourcellmrouter

An LLM request router: clients speak the OpenAI Chat Completions, Anthropic
Messages or OpenAI Responses API; each request is classified, run through
per-request plugins, routed by a chain of rules to one of the configured
upstream providers (OpenAI-compatible, Anthropic or Ollama), and answered in
the client's own wire format. A live feed of every request is available to
a browser dashboard, a `watch` printer and a terminal UI.

## Layout

- `src/` — the library, verified with Verus: the canonical request and
  response model, the wire-format conversions and stream renderers
  (`formats/`), the routing rules (`router.rs`), classifiers, plugins
  (including JSON repair), the request pipeline (`server.rs`), line
  splitting of event streams (`stream.rs`), and the state and text of the
  `watch` and `tui` clients. Calls into `serde_json`, `rand` and `http` stand
  behind small trusted wrappers whose contracts say what the library relies
  on.
- `app/` — the program around it: configuration file reading, HTTP serving
  (`axum`), calls to providers (`reqwest`), the terminal UI drawing
  (`ratatui`), and the JSON shapes of the library's types (`serde`).
- `tests/` — tests of the library.
