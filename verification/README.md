# akuna_core

Knowledge tooling core: document extraction into structured parts, text
chunking, syntax-aware code parts, OCR pipelines and their token layouts,
configuration merging and graph storage descriptions. The library in `src/`
is written in Verus; its functions carry contracts that the verifier
proves, except the trusted wrappers around outside crates (`memchunk`,
`tree-sitter` and its grammars) and two std calls (`char::is_alphabetic`,
`Debug` formatting), each marked `#[verifier::external_body]`, whose
contracts are taken on trust and state only what those crates and std
documents.

## Layout

- `src/text.rs`: string primitives (trimming, splitting, joining, searching)
  specified over characters and UTF-8 bytes.
- `src/chunking/`: lossless chunking of text by delimiters and by syntax
  tree ranges.
- `src/syntax.rs`: tree-sitter grammars by file extension, syntax trees held
  as plain values, and the ranges of semantic code parts.
- `src/extraction/`: MIME handling, extractor selection, document parts for
  text, code, office and PDF sources, and part segments.
- `src/ocr/`: pipeline selection, page text, detection mask regions, GLM OCR
  configuration, prompt layout and rotary position ids, PP-OCR decoding and
  dictionaries.
- `src/config.rs`, `src/config/yaml.rs`: configuration names, file
  selection and the merge of YAML layers.
- `src/storage/`, `src/graph/`: graph storage targets, errors and labels.
- `tests/`: tests of the library.
- `app/`: file and directory access, serde forms of the configuration, and
  the floating-point geometry of OCR boxes and image sizes.

## Checking

The library is checked with Verus; the tests run with the outside crates
linked.
