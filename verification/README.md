# ersa_lsp_core

The core of a language server for GPC scripts, written in Verus.

- `src/` is the verified library: text and position handling, the symbol
  extraction over a syntax tree, navigation (definitions, hover, references,
  rename, folding, code lenses, signature help), completion, semantic tokens,
  inlay hints, diagnostics, the formatter, and the workspace state that
  debounces edits. Every public function states its result in its contract,
  and the laws of the library (what a rename edits, what the formatter keeps,
  what a later edit supersedes, ...) are public proof functions.
- `app/` is the program around it: argument handling, reading the data files,
  the tree-sitter parser, and the LSP transport.
- `tests/` runs the library on concrete inputs.
