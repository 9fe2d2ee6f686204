# feature-manifest

Document, validate, and render Cargo feature metadata, with the library
verified by Verus.

- `src/` is the verified library: the manifest model and its reading from
  TOML text (parsed by `toml`, behind a trusted wrapper), validation and lint levels, cycle detection, the
  Markdown, Mermaid, explain, JSON, SARIF, and GitHub renderings, marker
  injection, sync planning and the rewrite of the metadata table (decided
  over the document's tables in `metadata_edit`, each table operation a
  one-call trusted wrapper of `toml_edit`), diffs, and the doctor findings. Each public
  function states its result in its contract; the `law_*` proof functions
  state the properties that hold across calls.
- `app/` is the `cargo fm` command: argument parsing, `cargo metadata`, file
  reads and writes, and JSON printing.
- `tests/` runs the library on concrete manifests.
