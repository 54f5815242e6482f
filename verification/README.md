# piolsp

A language server and formatter for Raspberry Pi PIO assembly, built on the
tree-sitter PIO grammar, with its logic verified by Verus.

The library (`src/`) holds the verified logic:

- `tree`, `ts`: the syntax tree that tree-sitter parses, copied into plain
  values; `ts` declares the tree-sitter types and wraps its calls.
- `formatter`: the formatter, from the syntax tree to the formatted text.
- `programs`: programs, labels, defines and inlay hints of a document.
- `lsp`: documents, definitions and references of symbols.
- `hover`, `doc`: hover documentation of instructions and operands.
- `edit`: an editor's changes to a document and the matching tree edits.
- `diagnostics`: the error output of `pioasm` read into messages.
- `server`: the answers to an editor's requests.
- `cli`: the command line.

The program (`app/`) runs the language server over standard input and
output, runs `pioasm`, reads and writes files, and logs.
