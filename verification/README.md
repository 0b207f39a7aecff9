# lazyswamp

A terminal browser for [Swamp](https://swamp.club) repositories: search models,
inspect their definitions, types and output specifications, run their methods
through schema-derived forms, and browse and compare the versioned data they
produce.

The decisions of the browser are a verified library; the terminal program
around it only performs input and output.

## Keys

In normal mode `1` opens the Overview tab, `2` the Overview with the
method list in focus, `3` the Data tab and `4` the Workflows tab.

## Layout

- `src/` — the verified library.
  - `json.rs`, `json_text.rs` — JSON values, their model, and their text.
  - `schema.rs` — method input forms from JSON Schemas, payload building,
    validation, redaction of secrets, destructive-method detection.
  - `diff.rs` — structural JSON diffs and line diffs of text;
    `diff_entries.rs` — the structural diff as findings, and what
    exchanging the compared values does to them.
  - `redaction.rs` — positions in a payload, and what redaction keeps.
  - `state.rs`, `keys.rs`, `startup.rs` — the browser's state machine: each key press or
    reply changes the state and returns the outside work to start.
  - `guard.rs` — what a key press can start: runs only after review,
    large content only after confirmation.
  - `swamp/` — what the `swamp` command line replies, and the commands sent
    to it.
  - `ui.rs`, `panels.rs`, `content.rs`, `dag.rs`, `grid.rs` — the text of
    every panel and dialog, and the layout of workflow graphs.
- `tests/` — tests of the library.
- `app/` — the terminal program: command line, process execution, event loop
  and drawing.

Every public function of the library states in its contract what it returns,
and the laws the browser keeps are proof functions.
