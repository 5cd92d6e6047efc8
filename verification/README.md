# script_lang

A small scripting language: its lexer, parser and interpreter, with their behaviour stated in
contracts and checked by Verus.

- `src/lexer.rs`: source text to tokens with their line and column; `src/tokenizer.rs`: the
  first, simpler tokenizer.
- `src/parser/grammar.rs`: what the parser does, as mathematical functions of the token list;
  `src/parser/syntax.rs`: the parser, proved to do exactly that; `src/parser.rs`: the first
  parser's shell.
- `src/error.rs`: diagnostics rendered against the source, with or without terminal colours.
- `src/scope_manager.rs`: nested variable scopes.
- `src/literal.rs`: the texts the standard library reads as `i64`, float and `bool`.
- `src/traits.rs`: the size of a JSON value as the interpreter counts it.
- `src/decoder/`: the interpreter.  `values.rs` holds run-time values, `context.rs` the local,
  global and type tables with declarations, assignments and type checks, and `eval.rs` the
  evaluation of literals, array literals, ranges, variables, integer and string arithmetic,
  `++`/`--`, bit operators, comparisons, declarations, assignments, blocks, `if`/`else`,
  `while`, `loop`, `for`, `return`, function declarations and calls, and whole programs
  with their `main` entry function.  Every loop turn and every call costs one unit of a
  budget the caller gives.
- `app/`: the command-line program that reads a script, runs it and writes its syntax tree
  as JSON.

## Floating-point work

The library holds no floats.  When evaluation reaches a float literal, a float operand or a
conversion to `f32`/`f64`, it stops and hands the work back (`Outcome::Float`).  The caller
does the work and runs the program again from the start with the answers given so far
(`Decoder::set_float_answers`); each step then takes its answer in turn.  `app/` runs that
loop.

## Memory

Each declaration makes a memory cell for its value; a variable declared as a reference to
another shares that variable's cell, so an assignment to the one is seen through the other.
`++` and `--` store a raw integer in the cell, which a later read of the variable cannot
take as a value.

## Errors

An error that belongs to a node is reported as a diagnostic in the program's file, with the
node's line and a caret under its column.

## What the interpreter does not do

- `~`, `use`, module bodies, `impl`, the compound bit assignments and a lone `else`
  evaluate to `Unsupported`, not to the error that quotes the node's full debug text;
  `include` (which reads a file) too.  `&&` and `||` are refused with an error.
- A function's name read as a variable gives `Null`, not a description of the function.
- The built-in functions that do I/O (sound, message boxes, files, commands, time), the
  record of where variables are used, the documentation of comments and the timing of a run.
