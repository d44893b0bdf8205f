# codex_trace

The logic of a viewer for Codex session traces, verified with Verus: every executable function
has a contract over mathematical views of the data, and what holds of the library as a whole is
stated in public proof functions next to the code.

## Layout

- `src/parser/` — what Codex records: `entry` (lines of a session file), `diff` and `patch`
  (line and word diffs, `apply_patch` bodies), `titles` (thread titles), `cache` (cached session
  metadata), and the plain data of sessions (`discover`, `session`, `turn`, `toolcall`). The laws
  of diffs and patches are in `diff_laws` and `patch_laws`.
- `src/state.rs` — discovery and background enrichment of the session list; its laws are in
  `state_laws`.
- `src/commands/` — what the interface asks for: loading and watching a session.
- `src/tui/` — the terminal interface as a state machine (`app`, `open_session`, `picker`,
  `rows`) and what it shows (`ui`, `item`, `show`, `styled`), with laws in `app_laws`,
  `picker_laws` and `ui_laws`.
- `src/text.rs`, `text_map.rs`, `pair_set.rs`, `order.rs`, `decimal.rs`, `json.rs` — texts,
  collections, sorting, numbers and JSON values.
- `app/` — the application around the library: files, databases, threads, event channels and
  drawing.
- `tests/` — what the library does on concrete inputs.

## What is trusted

Calls into `serde_json`, `chrono` and parts of the standard library that Verus has no
specification for stand behind small declarations in `src/json.rs`, `src/parser/entry.rs`,
`src/tui/show.rs` and `src/text.rs`; each says in its doc comment what is claimed of the call.
Numbers with decimals are left as quotients (`tui::styled::Piece`) and written out by the
application.
