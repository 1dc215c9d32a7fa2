# ce_core

Random generators of Guarded Command Language (GCL) programs for testing
compiler and interpreter environments, verified with Verus.

- `src/ast.rs` – the GCL syntax tree, and what a program may contain (`Shape`).
- `src/compiler_gen.rs` – the compiler-environment generator; each construct
  can be switched off, and a switched-off construct never appears.
- `src/interpreter_gen.rs`, `src/memory.rs`, `src/bounds.rs` – the
  interpreter-environment generator by level, the memory a test starts from,
  and the bound analysis of arithmetic expressions.
- `src/guards.rs` – what a guard evaluates to over a memory, and the laws
  that a guard built to fail never holds and one built to hold never fails.
- `src/print.rs` – concrete GCL syntax of a program.
- `src/config.rs` – per-system run and compile commands.
- `src/xml.rs`, `src/coverage.rs` – compiler inputs as JSON, the reading
  of Cobertura line-coverage reports into covered lines and running totals,
  and the order of seeds in a coverage run.
- `src/random.rs` – the trusted wrappers around `rand`.
- `app/main.rs` – measures the line coverage that generated inputs reach in a
  compiler under test, with `dotnet-coverage`.
