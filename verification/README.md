# biome_registry

Verified (Verus) core of three pieces of an analyzer toolchain:

- `registry`, `keys`, `order`: the alphabetically sorted registry of (group, rule)
  names, with lookup by group and by rule, over a byte-wise string order.
  The pairs sit in a strictly sorted `Vec` rather than a `BTreeSet`: vstd
  specifies `BTreeSet` only for keys shown to obey its order laws, and it gives
  `str` no order specification, so neither inserting (group, rule) string pairs
  nor looking one up by its group name could be proved over a `BTreeSet`. The
  sorted `Vec` keeps what the set gave: each pair once, in alphabetical order
  (`lemma_keys_alphabetical`, `lemma_same_pairs_same_order`).
- `analysis`, `rule_registry`: the registry of the rules an analysis runs, kept by
  phase and by query (syntax kinds or another query type), the filter that selects
  them, and the run of the matched rules on a query match with per-rule
  suppressions and a signal queue. The hash map and hash set are `rustc_hash`'s.
- `lexer`, `json_syntax`, `token_source`: the JSON token source, which hands the
  parser the tokens that matter and keeps trivia aside.
- `control_flow`: the labelled-block step of a control flow graph builder.

Everything under `src/` is proved by Verus, except the five wrappers in
`src/fx.rs` around the `rustc_hash` map and set calls (`remove`, `insert`,
`get`, `insert`, `contains`), whose contracts are trusted as std documents
them. `tests/` holds ordinary Rust tests.
