# ruin_rs

A small scripting language — integers, strings, booleans, arrays, first-class
functions with captured scopes, `loop`/`while` with `break`/`continue`, and the
built-ins `print` and `len` — written in Verus. Every stage is an executable
function whose contract states its result exactly, over mathematical models.

## Layout

- `src/lexer.rs` — tokens and their models; `lex_spec` states tokenisation of a
  character sequence, and `lex` computes it.
- `src/parser.rs` — the grammar as spec functions over token models
  (`program_spec` and the functions it calls) and the recursive-descent parser
  that computes them.
- `src/ast.rs` — syntax trees, their models (`TypeM`, `ExprM`, `StmtM`) and views.
- `src/value.rs`, `src/scope.rs` — run-time values and scopes. A scope keeps its
  variables in a `hashbrown::HashMap`, reached only through a few trusted
  wrappers whose contracts speak of the map's contents as a `Map`.
- `src/semantics.rs` — a big-step semantics over interpreter states (`IState`),
  with the laws of scopes and evaluation proved about it.
- `src/interpreter.rs` — the interpreter; each evaluating method computes the
  semantic function that bears its meaning.
- `src/numeric.rs` — ordering comparisons compare their operands as doubles;
  this module states round-to-nearest-even over the integers and computes it.
- `src/text.rs` — small string helpers.
- `app/main.rs` — the command-line runner: reads a file or standard input and
  prints what the program prints.

## Behaviour worth knowing

- Type names: `int`/`i32`, `float`/`f64`, `string`/`String`, `bool`, `never`,
  `fn(x: T, ...) -> T` and `[T; n]` or `[T; _]`; any other name is a custom
  type that admits every value.
- `if c { a } else { b }` and `if c then a else b` are both expressions;
  arrays are written `[1, 2, 3]` and indexed `a[i]`.
- In a number, `+` and `-` belong to it only right after an exponent mark:
  `5-3` is a subtraction, `1e-3` a float literal.

- Evaluation is bounded: each top-level statement may take up to `u64::MAX`
  steps, after which evaluation stops with `Evaluation step limit exceeded`.
  A law (`lemma_program_fuel`) shows that the bound never changes an outcome it
  allows.
- Integer overflow, and indexing outside an array, are reported as errors.
- Float literals are lexed, but evaluating one is an error: the language's
  values hold no floating-point numbers.
- `print` output is collected as lines in `InterpreterConfig::output`;
  `run_program` and `eval_with_output` return them.
