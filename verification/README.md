# progress_ai

A verified library for the research bench of a pattern-analogue classifier:
packed binary feature vectors and their Hamming and Jaccard similarities, a
comparator that ranks labelled references against a query and explains the
best match, feature-block masks and the random operators of the evolutionary
search over them, and the integer core of the bench (command-line and
configuration settings, classification counts, train/test splits, report
text, the HTML debug page, CSV tables and the selection of debug samples). The functions in
`src/` carry contracts proved by Verus, except the few that call outside
code (`src/draws.rs`, the CSV reader in `src/tables.rs` and `push_char` in
`src/text.rs`), whose contracts are trusted; `src/laws.rs` and `src/setting_laws.rs` state
the properties that relate several operations.

Layout:

- `src/` — the library, verified with Verus.
- `tests/` — tests of the library on concrete values.
- `app/` — the bench program around it: reading files and arguments,
  floating-point training and scoring, parallel evaluation and output.
