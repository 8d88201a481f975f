# clip_pop

The logic of Clip Pop, a clipboard manager for the COSMIC desktop, as a
Verus-verified library, with the window and the system plumbing around it.

- `src/` — the verified library:
  - `text` — white space, previews, decimal and hexadecimal digits;
  - `time` — the clock, entry ages and the "how long ago" buckets;
  - `history` — the JSON-backed history list: pinned entries first, at most
    `max` unpinned ones, deduplicated text;
  - `db` — the cache of the SQLite history, the choice of rows that each
    database operation touches, content hashes and fuzzy search;
  - `config` — settings, defaults and bounds;
  - `clipboard` — clipboard events, MIME choice, the polling decisions;
  - `clipboard_watcher` — data-offer bookkeeping of the Wayland watcher;
  - `app` — how each message changes the window state and what outside work
    it asks for.
  The calls into std and outside crates that the logic makes are gathered in
  `sys` (and `clipboard::fx_hash`), each with the contract relied on.
- `tests/` — tests of the library on concrete values.
- `app/` — the COSMIC application: window and widgets, the SQLite store,
  the Wayland watcher and poller, settings persistence, strings.
