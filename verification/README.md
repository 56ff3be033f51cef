# evfmt

`evfmt` normalizes Unicode text/emoji variation selectors (U+FE0E, U+FE0F).
It scans text into structural items (plain text, stray selector runs, emoji
sequences with their modifiers, keycaps, tags and ZWJ links), analyses each
item under a policy, and rewrites non-canonical items.

The library is written in Verus: each public function carries a contract
over a mathematical model, and the laws the formatter promises are proved.

## Layout

- `src/scanner.rs` — the scanner and its model; scanning is lossless.
- `src/analysis.rs`, `src/findings.rs` — per-item analysis with counts,
  replacements and text/emoji decision slots.
- `src/formatter.rs` — whole-text formatting; formatting changes only
  selectors, is idempotent, and leaves no finding behind.
- `src/policy.rs`, `src/variation_set.rs`, `src/charset.rs`,
  `src/policy_key_set.rs`, `src/unicode.rs`, `src/presentation.rs` —
  policy sets and the Unicode tables they are indexed by.
- `src/expr.rs`, `src/expr/parser.rs` — the set expression language.
- `src/cli_args.rs`, `src/cli_run.rs` — option values and the settings the
  command builds from them, in order.
- `src/rescan.rs` — proofs about scanning formatted text.
- `app/` — the command-line program: argument parsing, file walking and
  atomic rewriting around the library.
- `tests/` — tests of the library.
