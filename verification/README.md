# wezel

Build-regression detection for Rust projects: pheromones observe builds on
developer machines, foragers measure experiments, and the burrow server
collects the results.

- `src/` — the verified core (Verus): cargo argument and log parsing, the
  crate graph walk, experiment assembly and lint rules, the data-branch tree
  plumbing and bisection, configuration layering, the daemons' state, the
  server's row-to-response assembly, and the contracts and laws about them.
- `app/` — the programs around it: the `wezel` CLI, `pheromone-cargo`, the
  `forager` scenario runner and the bundled forager plugins (file, process
  and network I/O, serde formats, terminal handling).
- `tests/` — tests of the library's public functions.
