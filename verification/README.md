# minilang

A tiny scripting language — integers, booleans, strings, vectors, functions,
`if`/`else`, `for ... in`, and Rust-like shared and mutable borrows — with two
back ends: a tree-walking interpreter and a compiler to a stack machine.

The library in `src/` is written in Verus. Each stage is specified by a
mathematical model, and the code is proved to follow it:

- `lexer`: bytes to tokens; the model is a function on the byte sequence.
- `parser`: tokens to the syntax tree of `ast`; the model is the grammar as a
  recursive function on the bytes.
- `interpreter`: a definitional semantics of programs (`eval`, `exec_stmt`,
  `run_program`) and an interpreter proved to compute it; `interpreter/env`
  holds the scopes, the borrows and their laws; `interpreter/output` proves
  that printed lines are never taken back.
- `compiler` and `bytecode`: the translation to chunks of stack-machine code,
  specified instruction by instruction, with a proof that the code it produces
  is well formed (slots within each frame, jumps within each chunk).
- `vm`: the stack machine, specified as a step function.
- `value` and `env`: a store of named variables with the same borrow rules.

`app/main.rs` reads a script file, runs it and prints its output.
