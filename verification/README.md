# scratch-test-interpreter

An interpreter for block-based Scratch programs, meant for testing them: it runs one
script to its end, or until a limit, a stop block or an error ends it, and hands back
what the program did through a state object. The interpreter is written and verified
with Verus.

## Layout

- `src/` — the verified library.
  - `program.rs`: the block table (`Program`) and its well-formedness: inputs of
    expression and comparison blocks refer to earlier blocks.
  - `value.rs`, `state.rs`: the operations on values and the outside world that a run
    uses (`ScratchValue`, `State`).
  - `calls.rs`: the calls a run makes on the state (`StateCall`), each with its
    arguments and result, tied to the `State` methods' contracts.
  - `semantics.rs`, `steps.rs`: what evaluating an input and executing one step
    produce for the calls they make on the state, as spec functions; `run_trace`
    describes a whole run, and the calls of its steps lead from the state it starts
    with to the state it hands back.
  - `interpreter.rs` and `interpreter/`: the running interpreter, proved against
    those descriptions.
  - `stack.rs`, `frames.rs`: the statement stack and the argument frames of calls.
  - `builder.rs`, `limits.rs`: the public entry point (`Interpreter::run`) and its
    limits.
  - `default_state.rs`: a state that keeps variables and lists in maps and records
    outputs, questions, random numbers and waits.
  - `laws.rs`: properties of whole runs and of the default state, as proof functions.
- `tests/` — tests of the library on concrete programs.
- `app/` — the connection to the `smodel` project documents, `svalue` values and
  `rand`, and error types with messages.
