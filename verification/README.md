# Regulus

Regulus is a small interpreted language with a very simple syntax: every
program is a tree of literals, variables and calls such as
`def(square, x, __builtin_int_math(2, x, x)), square(7)`.

This crate is the interpreter as a verified library:

- `token`, `span`, `positions`: splitting source code into tokens with their
  positions;
- `parser`: building the syntax tree (`argument`);
- `optimizations`: inlining trivial `_` calls before a program runs;
- `atom`, `object`, `equality`, `atom_order`: the values of the language;
- `storage`: variables with nested scopes and globals;
- `state`, `eval`, `builtins`: running programs, calling functions and the
  builtin functions;
- `semantics`: the meaning of simple programs (literals, variables and calls
  of `_`, `=`, `ifelse`, `while`, `for_in`, `||`, `&&`, comparisons with
  `__builtin_atom_eq` and `__builtin_atom_cmp`, integer math and shifts, the
  list API, `printable`, `write`, `doc`, `argc`, `type_id`, `try_except`,
  `exit`, the prelude import, `def` and `fn`, and calls of the functions they
  define, recursive ones included), which the contracts of running,
  evaluating, calling and importing are stated over;
- `host`: what a running program needs from outside (streams, files, clock);
- `holevec`, `newlang`: a vector that lets elements be moved out, and the
  exceptions and output handles of the first interpreter version.

`app/` holds the command-line program that runs a file with the process's
standard streams and file system, and the parser of the `functions!`
declaration input.
