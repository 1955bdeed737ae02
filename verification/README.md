# multiversion

Function multiversioning: a function is compiled once per target (an
architecture with a set of CPU features, such as `x86_64+avx2`), and a
dispatcher picks, on each call, the best version that the machine can run.

`src/` is a library verified with Verus. It holds everything that decides:

- `target`: target strings (`"x86_64+avx2"`, `"x86/i686+xsave"`), resolved
  against the `target-features` database into a sorted, implication-closed
  feature list, and the attributes and conditions a version carries.
- `legacy`: the bracketed target strings (`"[arm|aarch64]+neon"`) and the
  specialization rules of the attribute form.
- `options`, `simd`: the options of `#[multiversion(..)]` and the "simd"
  target lists.
- `dispatch`: which dispatcher a function gets, what its versions are
  called, which version a call runs, and when dispatch is skipped.
- `cache`: the choice that a run-time dispatcher keeps, so that features are
  detected on the first call only.
- `cfg`, `target_cfg`, `match_target`: `cfg` predicates rewritten for the
  selected target, `#[target_cfg]` predicates, and `match_target!` arms.
- `specialize`, `safe_inner`: the attribute forms `#[clone]`,
  `#[specialize]`, `#[static_dispatch]` and `#[safe_inner]`, and the versions
  and dispatch of a function that a bare `#[multiversion]` with
  `#[specialize]` attributes describes.
- `features`, `cpu_features`: feature sets at run time and suggested SIMD
  widths.
- `implied`: the table of implied target features that the compiler reports.
- `database`, `stdlib`: the calls into `target-features` (its feature and CPU
  database, and its targets, which collect features) and into the few std
  functions that need a stated contract.

`app/` reads Rust syntax with `syn` into the library's models, and writes the
generated code with `quote`; it also runs the compiler for the implied-feature
table. `tests/` exercises the library on concrete inputs, including the
dispatch of multiversioned functions on model machines.
