# merlin_lang

The type checker of the Merlin language, a small ML-family language with
Hindley–Milner type inference, written in Verus and proved against its
contracts.

Layout of `src/`:

- `types.rs` — monotypes, polytypes, substitutions and typing contexts, with
  their mathematical models (`MType`, `PType`, `CtxView`).
- `unification.rs` — unification with an occurs check; `soundness.rs` proves
  that its result makes the two types equal and is most general, and that
  it fails exactly when no acyclic unifier exists.
- `inference.rs` — algorithm W, specified by `infer_spec`: `algo_w` leaves
  the tree as it is, `annotate_w` also records the types found (specified
  by `w_annot`); a statement is decided before anything is recorded in it.
- `checking.rs` — algorithm M (`algo_m`), specified by `m_spec`.
- `declarations.rs` — type aliases and enum declarations.
- `statements.rs` — checking of statements and programs.
- `passes.rs` — resolving recorded types and filling source positions.
- `display.rs` — rendering types with `'a`, `'b`, ... names.
- `literals.rs` — decoding quoted char and string literals.
- `rules.rs` — what the results of algorithm W satisfy of the typing rules
  that combine subexpressions (application, operators, cons, conditionals).
- `properties.rs` — facts about substitutions, instantiation,
  generalisation and fresh names.
- `repl.rs`, `codegen.rs`, `lowering.rs` — the decisions of the interactive
  loop and of lowering that do not depend on MLIR.
- `ast.rs`, `names.rs`, `text.rs`, `debug_text.rs`, `equality.rs` — the
  syntax tree, name maps and text helpers.

`tests/` holds the executable tests.
