# portpeek

A lightweight TCP port scanner whose decision logic is a verified Verus
library.

- `src/` — the library, verified with Verus: port-list parsing (`ports`,
  `cli`), service hints (`services`), classification and stable ordering of
  scan results (`scanner`), every output format (`output`), terminal styling
  through `colored` (`style`), character-level helpers (`text`), error
  messages (`error`) and properties of the library as a whole (`laws`).
- `app/` — the program around it: command-line parsing with `clap`, name
  resolution, concurrent TCP connects and timing with `tokio`, JSON with
  `serde_json`, and printing.
- `tests/` — tests of the library on concrete values.
