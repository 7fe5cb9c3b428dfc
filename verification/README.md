# tokm

A local token measurement engine for text, files, directory trees and Git
snapshots, written as a verified library.

## Layout

- `src/` is the library, verified by Verus. Most of its functions carry a
  contract that Verus proves; the calls into outside crates go through the
  trusted wrappers described below, whose contracts are assumed. It covers
  decoding and binary detection, text policies, language
  classification, counting through the built-in encodings or a local
  `tokenizer.json`, the persistent-cache keys and index decisions, discovery
  filters and path deduplication, scan aggregation, snapshot comparison, the
  command-line decisions and the human-readable report.
- The laws of the library are public proof functions named `law_*` (and a few
  `lemma_*` ones): per-language rows add up to the totals, language deltas add
  up to the total delta, results come out in a fixed order, percentages sum to
  one hundred, racy cache entries are never trusted, and so on.
- Calls into outside crates (`tiktoken-rs`, `tokenizers`, `blake3`,
  `globset`, `path-clean`, `directories`) go through small trusted wrappers
  whose doc comments say what is assumed of them.
- `app/` is the command-line program around the library: argument parsing
  with `clap`, filesystem walking with `ignore`, parallel measurement with
  `rayon`, cache files with `serde_json` and `fs2`, and Git access with `gix`.
- `tests/` exercises the library on concrete inputs.

## Assumptions

- Counting with a local `tokenizer.json` assumes that the artifact's pipeline
  (normalizers, pre-tokenizers, model) returns its failures as errors and does
  not panic on the text it is given; the library does not prove that of the
  `tokenizers` crate. Artifacts that may name a `Precompiled` normalizer are
  refused before parsing, because that normalizer's loader panics on fields it
  cannot read.
- The library holds paths and the cache directory as text. The program keeps
  the filesystem path behind each discovered name, so files whose names are
  not UTF-8 are still read; a platform cache directory that is not UTF-8
  disables the persistent cache.
