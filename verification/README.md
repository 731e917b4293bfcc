# codexctl (Shape Up tooling)

A verified library for shaping bets: it turns bet names into slugs, renders
the scaffold of a new bet spec, finds the bet specs of a repository and lints
them, with every public function's behaviour stated in a Verus contract.

- `src/text.rs` — character-level helpers (ASCII case, trimming, search, joining).
- `src/slug.rs` — bet name slugs, with the laws that a slug is well formed and a fixed point.
- `src/shapeup.rs` — lint issues, reports, statuses and summaries; the bet scaffold.
- `src/paths.rs` — task directory, spec paths (joined by `std::path`), task-directory listings in byte order.
- `src/lint.rs` — the lint rules over a loaded bet spec and the report of a task file.
- `src/commands.rs` — the decisions of `shapeup init-bet` and `shapeup lint`, and the passphrase rule of profile saving.
- `app/` — the `shapeup` command line: files, YAML, JSON and terminal output.
