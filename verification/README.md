# ridl_sem

The semantic passes of the RIDL interface-description family, as a verified
library: each pass is an executable function whose `requires`/`ensures`
contract states what it computes, proved by Verus.

Layout of `src/`:

- `syntax`, `expr`, `expr_eval` — contract expressions: lexing and parsing a
  clause, typing it against a vocabulary, its canonical text, evaluation.
- `exact`, `positional`, `text`, `chars` — exact rational values (over
  `num-bigint`/`num-rational`), their canonical decimal text, and why a
  decimal literal's value renders positionally.
- `resolve` — name resolution: declarations, imports, cycles.
- `decls`, `field_types`, `init`, `layout`, `recursion`, `fallible`,
  `interactions`, `members`, `contracts`, `exposure`, `vocabulary`, `check` —
  the checker's rules over declarations, fields, interactions and services.
- `definitions` — lowering one top-level declaration by its kind (`type`,
  `const`, `struct`, `enum`, `enumset`, `union`) with its envelope, an
  `interface` or a `service`.
- `package` — checking a whole package: which declarations, interfaces and
  services lower (first wins) and what each lowers to, and the order of the
  passes' diagnostics.
- `docs`, `lint`, `diag` — doc comments, lints, diagnostics.

Outside calls (big-number arithmetic, the `regress` regex engine, a few
`std` string operations) stand behind small trusted wrappers whose
contracts say what the call returns; everything else is proved.

`tests/` holds the scenario tests, one file per area.
