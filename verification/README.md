# snek

Compilers and runtimes for the snek teaching languages, written as a Verus
library: every function under `src/` carries a contract that Verus proves.

## Layout

- `src/boa.rs`, `src/cobra/`, `src/compiler_09.rs`, `src/caduceus/`,
  `src/green_snake/`: compilers from program text to x86-64 assembly text.
  Each parses an s-expression into an expression tree, refuses the programs
  that its rules reject, and emits instructions; the contracts state the
  emitted text exactly, and which programs are refused with which error.
- `src/cobra/runtime.rs`, `src/compiler_09/runtime.rs`,
  `src/caduceus/runtime.rs`, `src/egg_eater.rs`, `src/forest_flame.rs`: the
  runtime decisions: reading the program's input, the error messages, and
  the printing of values, vectors and tuples included.
- Where a compiler or a runtime stops on its input, a `check_*` function
  (`check_expr`, `check_defn`, `check_compile`, `check_input`, ...) gives
  the error, and the function that does the work takes only what that check
  passes. `real_content` and `try_snek_str` print a value where it prints
  at all, and say when it does not.
- `src/forest_flame/gc.rs`: the mark and compact garbage collector, phase by
  phase, with the end-to-end contract of `snek_gc`, and `snek_gc_ready`,
  which tells whether a heap and a stack are in the state it collects;
  `src/forest_flame/preserved.rs`: the proof that a collection leaves every
  root printing as before.
- `src/sexpr.rs`, `src/env.rs`, `src/decimal.rs`, `src/text.rs`,
  `src/memory.rs`: s-expressions (read by the `sexp` crate), environments
  (persistent maps of the `im` crate), decimal numbers, text helpers, and
  the model of a memory region.
- `app/`: the command line and the glue with raw memory that the compiled
  programs call into.
- `tests/`: tests of the library on concrete programs, inputs and heaps.
