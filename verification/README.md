# hephaestus

A self-repair framework for Rust projects: failure capture, isolated patch
validation and a persistent repair memory. The library under `src/` is
written in Verus and verified; `app/` is the command line and the I/O around
it (processes, files, SQLite, the clock of background tasks).

## Layout

- `src/text.rs` — strings as character sequences: splitting, trimming,
  searching, replacing, decimal and hex rendering.
- `src/investigation/` — the investigation protocol: records per phase,
  their hard gates, and the phase transitions.
- `src/ast/` — syntax trees read from tree-sitter, structure and call graph
  extraction, error-position diagnosis, AST genomes.
- `src/sandbox/` — sandbox requests, limits and the launch plan.
- `src/telemetry/` — snapshots of a failing process and the parsing of what
  `/proc` reports.
- `src/memory/` — the repair genome, its storage checks and enrichment
  (clusters, wings, compression).
- `src/tribunal/` — the judge, the master and the narrator of a repair.
- `src/orchestration/` — project repair, patch generation, the bifurcated
  agent's decisions.
- `src/interceptor/` — skill interception.
- `src/digest.rs` — BLAKE3 and SHA-256 digests.
- `tests/` — tests of the library.
