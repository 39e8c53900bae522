# lox

A bytecode interpreter for Lox, written in Verus. Expressions, `print`
statements, string concatenation and the short-circuit operators `and` and
`or` run; the other parts of the language are not compiled yet.

## Layout

- `src/` is the verified library:
  - `source`, `text`: the characters and byte offsets of a source text,
    and decimal notation.
  - `tokenizer`: the lexer, specified exactly by `lex_at` / `lex_from`.
  - `compiler`: the parser and the bytecode emitter. The parser builds
    each expression as an `ExprTree`, whose shape the contracts state; the
    tree is then rebuilt as a `tree_iterators_rs` tree and walked in
    postorder to emit code.
  - `chunk`: the instruction set and the disassembler.
  - `vm`: one step of the machine at a time (`VM::step`), specified by
    `machine_step`.
  - `value`, `object`, `heap`, `fixed_vec`: values, string objects, the
    interning object heap and a bounded vector.
- `app/main.rs` is the program. It reads a script or a prompt, drives the
  machine and does the floating-point arithmetic the machine asks for.
- `tests/` runs the library on concrete programs.

Numbers travel through the library as the text of their value. Their
arithmetic and their printing happen in `app/`, as the library holds no
floating-point values.
