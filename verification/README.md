# ternary_cli

Command-line tools for balanced-ternary experiments: evolve populations of
ternary genomes, classify rows of values into strategies, time ternary
workloads, check the conservation laws of a ternary field, draw ASCII
pictures, and read a small TOML-like configuration.

The library in `src/` is written in Verus and verified:

- `cli`: the whole command line (global flags, subcommand dispatch);
  `--version` wins, help flags are global.
- `benchmark`, `classify`, `evolve`, `verify`, `visualize`: each
  subcommand's options, plus its computing core: the balanced-ternary
  workloads, the strategy rules, the seeded generator and the evolution of
  32-gene genomes, the closed-form totals of the ternary field with the
  conservation law over complete cycles, the ternary field pattern.
- `config`, `config_text`: the configuration reader and writer, and the
  proof that written configurations read back unchanged.
- `num`, `text`, `keyed`, `options`: decimal integers as `str::parse`
  reads them, white space and lexicographic order on characters, sorted
  key/value sequences and their maps, shared option-parsing pieces.

Floating-point work (mutation-rate and tolerance values, variances,
timings, sine curves) is done by the program in `app/`, which hands the
library plain facts about each float (where it lies, or why it does not
parse) and prints the results.
