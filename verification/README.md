# lib

A small compiler for a C-like language, written in Verus:

- `src/frontend`: the lexer, the recursive-descent parser and the type checker, each
  with contracts over the characters read, the tokens met and the typing rules;
- `src/middleend`: the intermediate representation (functions of basic blocks of
  instructions), its builder, the compiler from the syntax tree, an interpreter, the
  dataflow framework with its lattices and analyses (live registers, constant and
  possible memory, Andersen's points-to analysis over a cubic constraint solver) and the
  store/load optimisation;
- `src/backend`: instruction selection to RISC-V, register allocation, the peephole
  optimiser and the assembly text.

`app/main.rs` is the command-line driver: it reads a source file, runs the stages the
arguments ask for, and prints the program, the facts of an analysis or the assembly.

`tests/` holds the tests of each part and of the whole pipeline.
