# leech-core

A download engine whose decisions are verified with Verus.

`src/` is the verified library:

- `config` — strategies, engine settings and their defaults, strategy names.
- `engine` — the engine state (buffer pool, metrics, per-domain strategy
  cache), strategy selection from a HEAD probe, and the retry schedule with
  fallback from parallel to streamed downloads.
- `strategies` — HEAD-response checks, the partition of a file into byte
  ranges, and in-memory bodies through the buffer pool.
- `buffer` — the buffer pool.
- `metrics` — download totals.
- `bypass` — browser-like request headers.
- `extractor` — the extraction plan for a URL, the rule that decides which
  step's outcome ends the search, and the readers of YouTube pages,
  rule-based platforms and generic pages.
- `static_analysis` — links by CSS selector, texts by regular expression,
  JavaScript variables and the URL rebuilt from them.
- `text`, `urls`, `patterns`, `random` — string helpers and the calls into
  `url`, `regex` and `rand`.

`app/` is the HTTP server and the transfers: requests, files, tasks, timing.
