# amber_lsp

The core of a language server and formatter for the Amber shell-script
language, written in Verus: each of the library's own functions carries a
contract that Verus proves. The calls into the standard library and into
`ropey`, `dashmap`, `indexmap` and `rangemap` go through 68 small wrappers
marked `#[verifier::external_body]`, beside 7 declarations of outside types:
their contracts are trusted, not proved, and the doc comment of each says
what it claims of the outside function.

## Layout

- `src/types.rs`, `src/generics.rs`: the data types of Amber and the map of
  generic type ids that the analysis narrows, with its acyclicity invariant.
- `src/files.rs`, `src/paths.rs`, `src/shared_maps.rs`: the files the server
  knows, their versions, dependencies, errors and symbol tables.
- `src/analysis.rs`, `src/name_map.rs`, `src/range_maps.rs`: symbol tables:
  definitions, scopes, references and imports.
- `src/analyze.rs`, `src/results.rs`: the analysis of the syntax tree in
  `src/grammar.rs` (expressions, statements, blocks, global statements).
- `src/queries.rs`: go to definition, hover, signature help and completion.
- `src/document.rs`: edits to open documents, positions and semantic tokens,
  over `ropey` ropes.
- `src/formatter.rs`, `src/tokens.rs`: the formatter's output buffer and the
  small token parsers.
- `src/amber_version.rs`, `src/fs.rs`: Amber versions and the in-memory file
  system.
- `app/`: the language server's entry point: logging, argument parsing, the
  detection of the installed Amber version, and the file system on disk.
- `tests/`: tests on concrete values.

## Design notes

- Symbol tables and the in-memory file system keep names in `NameMap`
  (`src/name_map.rs`), a list of entries in which the last entry for a name
  wins, viewed as a `Map` from names to values. The tables are keyed by
  `String`; with a `String` key, the `HashMap` specifications of vstd prove
  nothing about what a lookup returns, so the names are compared one by one
  in verified code instead.
- The analysis covers the Amber 0.3.4 syntax tree of `src/grammar.rs`. The
  analyzers for 0.3.5 and 0.4.0 read syntax trees whose definitions, like
  the lexer and the parsers that build them, are not part of these sources,
  so they are not here.
- Positions, ranges and semantic tokens are computed in `src/document.rs`
  and `src/queries.rs`; the language-server transport that would carry them
  is not part of this crate.
