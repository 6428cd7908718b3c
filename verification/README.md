# contribai (verified core)

The decision-making and text-handling core of the ContribAI contribution
agent, written in Verus and proved against its contracts.

Layout:

- `src/analysis/caveman.rs` — the caveman compression setting and the system
  prompt fragment it requests.
- `src/orchestrator/keywords.rs` — keyword sets of titles and the
  keyword-overlap similarity test.
- `src/orchestrator/paths.rs` — which file paths findings may touch
  (protected files, skipped extensions and directories).
- `src/orchestrator/pipeline.rs` — findings, run counts, the pipeline's run
  and per-repository decisions, and title similarity.
- `src/orchestrator/self_mode.rs` — self mode's identity, remote URLs, date
  branch names and commit messages.
- `src/cli/commands/` — what the `clone`, `solve`, `target` and `update`
  commands compute.
- `src/text.rs` — whitespace, trimming, suffix stripping, decimal rendering
  and string building.
- `app/` — the command-line program and the drivers that do the git, GitHub,
  LLM and terminal work around the library.
- `tests/` — tests of the library on concrete values.
