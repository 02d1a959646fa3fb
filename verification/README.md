# gpt2cursor

A local bridge that lets Cursor talk to a signed-in Codex CLI through an
OpenAI-compatible endpoint (`GET /v1/models`, `GET /healthz`,
`POST /v1/chat/completions`), with optional streaming and an ngrok tunnel.

## Layout

- `src/` — the verified library (Verus). It holds what the bridge decides:
  reading and routing HTTP requests, bearer-token checks, parsing chat
  requests, trimming the history and building the Codex prompt, reading
  Codex's JSON-lines output (also while it streams), usage accounting and the
  activity log, the JSON and SSE bodies it answers with, the settings rules,
  the ngrok config and tunnel decisions, and the macOS launch agent.
  Each public function states its result in its contract; the `law_*` proof
  functions state properties that span calls (what trimming keeps, that
  streamed deltas add up to the answer, that the log stays bounded, ...).
- `tests/` — tests that run the library on concrete values.
- `app/` — the menu-bar app around the library: sockets and threads, the
  pseudo-terminal that runs Codex, the ngrok process, files, the tray icon
  and the Tauri commands.
