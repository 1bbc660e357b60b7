# baml_expr

Expression terms of BAML expression functions (atoms, variables, lambdas, applications,
`let`, argument tuples and LLM functions) with a small-step evaluator, verified with Verus.

- `src/` is the verified library. `semantics.rs` states what substitution, a step and
  evaluation to a value mean over mathematical models of terms; `eval.rs` implements them and
  is proved to follow those statements; `laws.rs` proves properties across operations (a
  context gives back what was bound; evaluation is a sequence of at most 1000 steps;
  evaluation reads LLM replies in order; an outcome that did not stop for a missing reply
  stays the same when more replies are given, and one that did gets past that stop when a
  reply is added; outcomes do not depend on the fuel of the proof).
- Evaluation never performs an LLM call itself: it takes the replies to the calls it will
  make, in order, and stops with `EvalError::LlmCallPending` when it needs one more.
  `app/lib.rs` runs that loop with a caller-supplied function for the calls.
- `tests/` runs the library on concrete terms.
