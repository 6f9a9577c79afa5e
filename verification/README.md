# residual

A toolkit for residual-architecture work: the stressor and purpose ledger,
the NKP (stressor × component) matrix with its criticality zones, the
outcome and link checks, the skill documents and their agent shims, and the
migration of the naive on-disk layout to v3.

- `src/` is the library, written in Verus: every function carries a
  contract that Verus proves. The CSV encoding and decoding go through the
  `csv` crate behind two trusted wrappers (`storage::format`), and lower-casing
  goes through `str::to_lowercase` (`text::to_lower`).
- `app/` is the command-line program around the library: argument parsing,
  file I/O, TOML parsing, table printing and the floating-point Ri figures.
- `tests/` runs the library on concrete values.

Laws of the library stand in `src/` as contracts or proof functions, for
example `nkp::totals::lemma_totals_sum_to_k` (K is the sum of the row totals
and of the column totals), the contract of
`NkpMatrix::reorder_columns_fusion_fission` (a permutation of the columns:
fission candidates, then fusion clusters kept together, then the rest by
name) and the contracts of `forces_from_csv` / `attractors_v3_from_csv`
(they read back what `forces_to_csv` / `attractors_v3_to_csv` wrote).
