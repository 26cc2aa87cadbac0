# LEXOR

An interpreter for LEXOR, a small, strongly typed teaching language, written
as a Verus library with an ordinary command-line program around it.

## Layout

- `src/` — the verified library
  - `text.rs` — strings as character sequences, integer text, `i64` parsing
  - `token.rs` — token kinds and tokens
  - `lexer.rs` — the scanner: its token grammar as the spec function
    `scan_step`, and the executable `Lexer` proved against it
  - `expr.rs`, `stmt.rs` — the syntax tree, its views, and well-formedness
  - `parser.rs` — the recursive-descent grammar as spec functions
    (`parse_expr`, `statement`, `parse_tokens`, ...) and the executable
    `Parser` proved against them
  - `parser_laws.rs` — what every parse gives: declarations first, well-formed
    scripts, and a script exactly when no syntax error is reported
  - `environment.rs` — nested scopes of variables, modelled as a sequence of
    maps, innermost first
  - `value.rs` — truth, equality, printing and conversion of values; FLOAT
    values come from a number type given through the `FloatArith` trait
  - `error.rs` — runtime errors and their text
  - `interpreter.rs` — evaluation (`eval`, exact where no FLOAT takes part,
    and `eval_may`, the outcomes whatever the number type gives) and a step
    machine (`step_spec` and `input_spec`, exact where no FLOAT takes part;
    `step_rel`, `start_rel` and `input_with`, which hold of every step
    whatever the number type gives) that the executable `Interpreter`
    follows one step at a time
  - `interpreter_laws.rs` — what every step keeps: scopes tied to the
    statements that opened them, and no internal fault in a well-formed run
- `tests/` — tests of the library on concrete scripts and values
- `app/main.rs` — the program: reads a script file or a script typed at the
  prompt, prints diagnostics, and runs the interpreter's steps, printing its
  output and reading SCAN input; it supplies 64-bit floating point for FLOAT

## What is proved

Every executable function of the library meets its contract. Beyond the
contracts, the library states and proves these properties:

- the scanner gives its tokens in line order, closed by a single `Eof`
  (`lexer::law_tokens_in_line_order`), and each of its steps moves forward
  and adds at most one token (`lexer::law_scan_step_progress`, and the
  contract of `Lexer::scan_token`);
- the parser gives a script exactly when it reports no syntax error
  (`parser_laws::law_script_exactly_without_errors`), declarations come before
  statements (`parser_laws::law_declarations_come_first`), and a parsed script is
  well formed (`parser_laws::law_parsed_scripts_well_formed`);
- reading, declaring and assigning variables behave as scopes should
  (`environment::law_*`);
- evaluation keeps every variable of the four types holding a value of its
  type, whatever values the number type gives
  (`interpreter::law_evaluation_keeps_types`, over `eval_may`);
- evaluation never changes the number of scopes, and an expression without
  an assignment leaves every scope as it was
  (`interpreter::law_evaluation_keeps_scopes`);
- equality of values is symmetric, and every value but a FLOAT equals itself
  (`value::law_equality_symmetric_reflexive`);
- each scope belongs to the block or loop that opened it, and a run that ends,
  with or without an error, leaves only the global scope, whatever values the
  number type gives
  (`interpreter_laws::law_step_keeps_scopes`, `law_input_keeps_scopes`);
- a well-formed program meets no internal fault but an overflowing integer
  division or remainder, whatever values the number type gives (`interpreter_laws::law_step_without_internal_fault`,
  `law_input_without_internal_fault`).
