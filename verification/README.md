# oxis

OXIS (Open eXtensible Instruments & Statistics) is a quantitative-finance
toolkit. This crate is its verified core, written in Verus: the functions in
`src/` carry contracts that Verus proves, except two small trusted wrappers
(`core::str::from_utf8` in `money`, `shlex::split` in `repl`) whose contracts
restate what those functions document.

## Layout

- `src/` — the verified library:
  - `rng` — SplitMix64 and per-path seeding, with proofs that SplitMix64 is a
    bijection and that distinct path indices (or base seeds) never share a seed.
  - `date`, `series`, `money`, `error`, `output` — calendar dates and the ISO
    date parser, date-indexed series and date ranges, currency codes, the error
    type, result-column headers.
  - `pricing`, `curve`, `stochastic`, `stats`, `ml` — option, curve, process and
    statistics identifiers with their names and parsers (name round trips are
    proved), simulation configuration and per-pair seeding, and the integer
    plans of the neural American engines.
  - `completion`, `repl` — REPL tab completion over the command tree (sorted,
    prefix-filtered, proved to be a permutation of the offered candidates),
    line classification, and argument-vector construction.
  - `text` — Unicode whitespace, trimming, ASCII folding, splitting, and decimal
    parsing/formatting shared by the above.
- `tests/` — executable tests of the library.
- `app/` — the `oxis` program: the floating-point pricing, risk, simulation and
  ML engines, the CLI commands, and the interactive REPL wired to the library.
