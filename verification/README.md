# ait

An LLM API gateway: clients reach many model providers (OpenAI-compatible
services, DeepSeek, Zhipu, Ollama, llama.cpp) through one OpenAI-style
endpoint and one API key, while requests, token usage and console actions
are logged for audit.

## Layout

- `src/` — the verified library (Verus). Every rule the gateway applies is
  here with its contract: request checks and sensitive-data blocking,
  provider request and response reshaping, Server-Sent Events relaying,
  usage accounting, SSRF address checks, client-address resolution behind
  trusted proxies, the login rate limiter, API-key handling, console input
  validation, partial updates of stored records, settings validation, cache
  policy, log-query building and Loki stream batching.
- `app/` — the server around it: configuration loading, SQLite storage,
  HTTP routing, upstream calls, caches shared between requests, the log
  store behind the console's proxy-log listing and statistics (with
  retention cleanup), log shipping to Loki, and a SIGUSR1 thread-stack dump.
- `tests/` — tests of the library.

## Design notes

- The login rate limiter keeps its per-address table in a vector with each
  address once and is changed through `&mut self`; a concurrent map that
  mutates through shared references would leave its contents unstated.
  Sharing a limiter between tasks means putting it behind a lock.
- Request ids are given out per request by the server; error bodies carry
  the id once the server stamps it (`AitError::with_request_id`).
- The log store is an SQLite file at `log.path` (times as Unix seconds);
  its listing query, paging and token split are built by `analytics` in
  `src/`. The `log.duckdb_*` settings are validated and otherwise unused.
- Stored API keys are built by `keys::new_api_key`; the SQL row and the
  lookup by hash live in `app/store.rs`.
