# ayni

Ayni runs a repository's quality signals (tests, coverage, size,
complexity, dependency rules and mutation testing) for the roots that its
`.ayni.toml` contract names, reconciles what the signals report against what
was planned, and explains which checks a change affects and runs them.

The library in `src/` is written in Verus: its planning, reconciliation,
impact analysis, dependency rules, size and mutation findings, text
renderers, toolchain and environment planning carry contracts that Verus
proves, together with laws such as the reconciliation keeping exactly the
first expected row per key, the reverse dependency closure being
reachability, and the agent guidance block being refreshed idempotently.
Calls into `toml`, `glob`, `semver`, `sha2` and a few parts of `std` stand
behind small trusted wrappers whose doc comments say what they assume.

`app/` is the `ayni` command line around the library: argument handling,
file, process and git I/O, and the float metrics of coverage and
complexity. `tests/` exercises the library from outside.
