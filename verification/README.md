# gsdui

A daemon that watches the `.planning/` directories of GSD projects, parses
their planning files (STATE.md, ROADMAP.md, PLAN/SUMMARY/VERIFICATION
documents, config.json, agent-history.json) into a SQLite database, and
serves the state over a REST API and a WebSocket stream.

## Layout

- `src/` — the verified library (Verus). Every parser is a function on
  characters with a contract that states its result exactly:
  - `parser/` — frontmatter splitting, the ROADMAP, STATE, PLAN, SUMMARY and
    VERIFICATION readers, config.json and agent-history.json, and the phase
    stage derived from a directory's files;
  - `json.rs` — the JSON/YAML document model the readers work on;
  - `text.rs`, `classes.rs` — the character-level text model and the regex
    character classes the file formats are written in;
  - `watcher/` — file classification, phase-number normalization, phase
    directories, the rows written for parsed files, notify event kinds and
    the per-file debouncing record;
  - `db/` — status enums, rows, the filtered history queries;
  - `ws/`, `api.rs`, `broadcast.rs`, `config.rs` — the WebSocket handshake
    and snapshot order, REST helper decisions, client counting and daemon
    configuration.
- `tests/` — tests of the library.
- `app/` — the daemon itself: axum server, sqlx queries, notify watchers,
  debouncing timers, the parse pipeline and the WebSocket loop, all calling
  the library for their decisions. Database migrations are read from
  `./migrations` at start-up.
