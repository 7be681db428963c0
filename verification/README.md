# jpnorm_core

Japanese text normalization as a verified library: each step of the pipeline
(width, kana, numerals, symbols, spaces, protected regions, synonym
dictionaries, …) is written in Verus with a contract over sequences of
characters, and the contracts are proved.

Layout:

- `src/l1_char/` — character-level steps (clean-up of invisible characters,
  width, NFKC, symbols, quotes, spaces, repeats, case, CJK spacing).
- `src/l2_script/` — script-level steps (kana, kanji numerals, number tokens,
  eras, iteration marks, loanword spellings).
- `src/l3_lexical/` — synonym dictionaries (leftmost-longest replacement with
  daachorse) and their loaders (CSV/TSV, a small JSON reader).
- `src/l4_extra/` — emoji handling and protected regions (URL, e-mail,
  mention, hashtag).
- `src/config/` — settings, presets, settings addressed by name.
- `src/pipeline.rs` — the normalizer and its builder.
- `src/dict/` — the reader of Sudachi's `synonyms.txt`.
- `src/distance.rs` — Levenshtein distance.
- `app/` — the Python (pyo3) and WebAssembly bindings.

Calls into `unicode-normalization` (NFKC), std's case mappings and daachorse
go through small trusted wrappers whose contracts name or state what those
functions return; everything else is proved.
