# lmc

An assembler and virtual machine for the Little Man Computer, written in
Verus: every function of the library carries a contract that Verus proves.

## Layout

- `src/assembler/` — the assembler: `tokenizer` (text to tokens), `macros`
  (`%init`, `%_start`, `%push`, `%pop`, `%bsub`, `%ret`, `%label:`),
  `parser` (lines of tokens to instructions and a symbol table),
  `optimizer` (folding of `ADD #0`), `labels` (label resolution) and the
  pipeline with its source map in `mod.rs`.
- `src/compiler.rs` — a simpler whitespace-separated assembler that stops
  at the first error.
- `src/instruction.rs` — opcodes, operands, values and instructions, with
  their text forms.
- `src/memory.rs` — memories whose cells hold text, and the laws that a
  value or instruction written to a cell reads back unchanged.
- `src/interpreter.rs` — the machine; it stops at `INP` and `OUT` so that
  the caller performs the transfer.
- `src/span.rs`, `src/report.rs`, `src/error.rs` — source positions, and
  error reports as styled pieces of text.
- `src/program.rs` — whole programs: assembling, listing and loading.
- `src/pattern.rs`, `src/text.rs` — regular expressions through the `regex`
  crate, and text helpers.
- `app/main.rs` — the command line (`run` and `expand`), file and terminal
  input and output, and colouring of the styled text.
