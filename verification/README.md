# lox

A tree-walking interpreter for the Lox language, verified with Verus.

The library (`src/`) holds the whole pipeline, each stage proved against a
specification of what it computes:

- `scanner.rs`: source text to tokens with their lines (`scan_source` is the
  specification; `scan` and `scan_chars` implement it).
- `parser.rs` / `parser_spec.rs`: recursive descent from tokens to statements
  (`spec_parse`), with error recovery at declarations, and the notes (error
  reports and warnings) that the parser makes as it goes.
- `environment.rs`: Lox values and scoped variable bindings, with laws about
  reading back what was defined or assigned and about entering and leaving
  scopes.
- `semantics.rs`: what running expressions and statements does, as functions
  from a state (environment and printed lines) to a state and an outcome;
  `interpreter.rs` runs programs and is proved to follow it exactly.
- `display.rs`, `ast_printer.rs`: the text of values, syntax trees and
  errors.
- `number.rs`: Lox numbers are doubles, held by their IEEE-754 bits; reading,
  arithmetic, comparison and display of numbers is asked of a function that
  the caller passes in, and the contracts are stated over its answers.
- `text.rs`: the string type (a `smartstring` compact string) and the few
  string operations the library calls, as trusted wrappers.

`lib.rs` ties the stages together: `run` takes a source and gives the lines
it prints on the output and on the error stream, and how it ended
(`run_source` is the specification).

`app/` is the command-line program: it reads a script or a prompt, supplies
the `f64` number operations, runs the library and prints what it returns.
