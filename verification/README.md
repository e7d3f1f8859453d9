# localtex

The logic behind LocalTeX, a screenshot-to-Markdown/LaTeX tool, as a library
verified with Verus, with a small command-line front end.

- `src/` — the verified library: table parsing and conversion (HTML,
  `tabular`, Markdown, TSV, LaTeX, with the LaTeX round trip of plain
  tables proved in `src/roundtrip.rs`), the cell and text helpers they rest on,
  capture / intake / toast session state and list selection, the
  per-document runtime flags, the intake reel's layout, the handwriting
  pad's undo history, the sidebar's fold hysteresis, preview text selection,
  export file names, store rules (search literals, schema planning, write
  coalescing, the failure ledger, what a write's outcome asks of the app),
  date ranges, `/proc` parsing and size formatting for the system panel,
  and line wrapping.
- `tests/` — the library's tests, run against the compiled crate.
- `app/` — the command-line program: file and system I/O, floating-point
  tilts, and the store writer loop around the library's decisions.

Calls into `regex`, `chrono` and a few standard-library string functions go
through small trusted functions whose contracts are stated next to them in
`src/html.rs`, `src/dates.rs`, `src/search.rs`, `src/wrap.rs` and
`src/text.rs`.
