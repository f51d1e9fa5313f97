# c4_rust

A compiler and virtual machine for a small subset of C, in the style of
C4: a tokenizer, a single-pass code generator that emits code for a stack
machine, and an interpreter for that code. The library is written in
Verus and proved against functional specifications.

## Layout

- `src/lexer.rs` — the tokenizer, with the model `LexState::advance`
  that `Lexer::next` is proved to follow.
- `src/parser.rs` — types, symbols, the code generator's state and its
  small operations.
- `src/parser_spec.rs` — the meaning of each parsing step as a function
  from generator state to generator state and result, and laws about the
  symbol table.
- `src/parser_expr.rs`, `src/parser_stmt.rs`, `src/parser_decl.rs` — the
  parser for expressions, statements and declarations, each method proved
  equal to its specification.
- `src/vm_spec.rs`, `src/vm.rs` — the machine's model (`VMState::step`,
  `VMState::run`) and the machine, with laws about memory and runs.
- `src/bytes.rs`, `src/text.rs` — little-endian encoding and decimal text.
- `app/main.rs` — the command-line program: reads a file, compiles it,
  runs it, prints what the program printed.

## Arithmetic

Where the generator's own arithmetic can overflow on odd input (a huge
array size, an enum counter at the top of the range, the negation of the
smallest literal), it wraps. The machine treats an overflowing
instruction, or an access outside its segments, as an abort: `VM::run`
requires that none happens, and `VM::run_checked` reports it as `None`.
