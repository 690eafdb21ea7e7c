# iceberg

A Cloudflare Worker that reports a GitHub user's recent commits, languages
and contribution streaks, with its core written in Verus and proved against
its specifications.

- `src/` is the verified library: query-parameter validation,
  authentication decisions, the steps of a request before its handler
  runs, error reporting, request timeouts, the decisions around GitHub
  GraphQL requests (retries with back-off, status handling, reading the
  answer), assembling the commits answer (stable newest-first order, totals,
  merged and redistributed languages), contribution streaks, cache keys and
  freshness, response headers, and the integer and text routines they use.
  Calls into `chrono`, `regex`, `url`, `serde_json` and a few standard
  library functions go through small trusted wrappers whose contracts are
  stated next to them.
- `app/` is the Worker around it: routing, the request pipeline, the HTTP
  client, the R2 and edge caches, and the JSON shapes (serde) with their
  conversions to the library's types.
- `tests/` exercises the library on concrete values.
