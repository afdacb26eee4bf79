# modern_ees_core

The core of an equation solver in the manner of EES, as a Verus library.

`src/` is verified:

- `lexer`, `parser`, `ast`, `diagnostic`: equation programs, from text to
  syntax tree or diagnostics, each function against a grammar written as spec
  functions.
- `units`: dimensions, exact unit scales (prime exponents), the parser of unit
  strings, and the dimensional analysis of a program.
- `equations`: which statements are equations, constants or strings, the
  sorted unknowns of a system, its shape, and the solver's messages.
- `calls`: what a function call asks for before anything is computed: the
  math function, or the fluid, state inputs and property of a query.
- `param_table`: the rows of a parametric table and what each row records.
- `props`, `cache`: the property facade's vocabulary and errors, and the
  least-recently-used memo of property answers.
- `names`, `text`: a small name map and character utilities.

`app/` holds what computes in floating point or talks to the outside world:
Newton's method, the property providers, table runs, JSON files and the
front-end commands. `tests/` exercises the library.
