# ucodex_core

The core of the Codex manager: what it computes about launching Codex, the
helper's HTTP handling, the proxy's response cache and statistics, the daily
statistics' dates, and the editing of `~/.codex/config.toml`, written as a
verified library.

- `src/` — the library, with its contracts and proofs:
  - `config` — the TOML document model, TOML ↔ JSON, the edits of each save
    and the proofs, over the document model, that a load gives back what a
    save wrote;
  - `toml_text` — the text of `config.toml`: `toml_edit` reads it into the
    document model and carries a save's edits out on it, keeping comments
    and layout; the snapshot, the saves, the version and the migration of a
    text;
  - `migration` — configuration versions and migration runs;
  - `calendar`, `clock` — UTC+8 dates, day numbers and the system clock;
  - `proxy` — the decisions of the two proxy endpoints for one request, as a
    step function from phase and event to next phase and actions;
  - `cache`, `stats`, `usage`, `pricing` — the proxy's cache, statistics,
    token usage and price lists;
  - `helper_reply` — the helper's `/config` answer and its fixed answers;
  - `http`, `launch`, `assets` — the helper server's requests and routes,
    the launch sequence and command lines, the injected script prelude;
  - `json`, `text` — JSON values and text helpers.
- `tests/` — tests of the library.
- `app/` — the I/O around it: files, the SQLite statistics database, shared
  state behind async locks, the helper's connections and server, serde
  forms, and the floating-point values (costs, and the floats written into
  `config.toml`).
