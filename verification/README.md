# lovm2

A small stack based virtual machine with verified semantics.

- `src/` is the library, verified with Verus: runtime values with shared
  references kept in a heap of cells, iterators, the instruction set and the
  step function that executes one instruction, module building and loading
  decisions, the optimizer of the intermediate code, the parameter handling
  of native functions and the builtin functions that compute.
- `src/laws.rs` states properties that relate several operations, such as
  reading back what was written, idempotence of the optimizer and the
  results of sorting.
- `app/` is the host: the loop that runs bytecode and performs what the step
  function hands back (calls, imports, interrupts, float arithmetic), file
  and network access, shared objects, and code generation for native
  functions.
- `tests/` runs the library on concrete programs and values.
