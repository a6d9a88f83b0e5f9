# ka

The front end of the `ka` language, verified with Verus.

- `src/lex`: the lexer, from text to tokens with indentation turned into
  indent and dedent tokens (whose balance is a proved law).
- `src/parse`: the parser, a recursive descent over the tokens. Each
  production has a spec function over a plain-value view of the parser
  state, and the executable parser is proved to compute exactly it.
- `src/ast`: the syntax tree and its plain-value views.
- `src/ir`: the intermediate representation's data types, and the checking
  of `match` arms: merging pattern columns, opening them, usefulness and
  the patterns left unhandled, with their laws.
- `src/mir`: the mid-level form's types and expressions, and its printer
  (proved to write exactly what its spec function says).
- `src/lua.rs`: Lua code generation from a lowered program. A spec
  function gives the code of every expression and the state after it
  (locals handed out, variables bound, statements emitted), and the
  generator is proved to compute exactly it.
- `src/diagnostic`: spans, source files, diagnostics and where a label
  falls in its source line.
- `src/arena.rs`, `src/intern.rs`: an arena of values addressed by ids, and
  a string interner.
- `src/text.rs`: characters and strings: Unicode white space (stated as
  its fixed set), the alphabetic and numeric classes that `std` decides
  (named, not computed), UTF-8 widths, comparison, replacement.
- `app/`: the command line program, which reads packages from disk, runs
  the library on them and prints the diagnostics in color.

## What is not here

- Type inference and the lowering of the syntax tree into the intermediate
  representation (unification, bounds, generic instantiation, aliases and
  the order of globals). The checking of `match` arms, which that lowering
  drives, is here.
- The lowering to the mid-level form. Its real constants are carried here
  as decimal numerals.
- Running the Lua output: the interpreter computes with floating-point
  numbers and prints to standard output.
- The Lua prelude that the generated code calls is not part of this
  repository; `codegen` takes its text as an argument.
- Floating-point numbers: a number is carried as its decimal digits, with
  leading zeros dropped (`007` reads as `7`), so a numeral with more digits
  than a double holds exactly is kept in full rather than rounded.

The interner finds a string through an index from a hash of its
characters, computed by the library itself (`string_hash`), to the
positions of the entries with that hash; the index is keyed by integers so
that every lookup is proved to find the entry that holds the string when
there is one.
