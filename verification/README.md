# ftl

Compile-time conversion of Fluent (`.ftl`) translation files into Rust
functions, with the conversion itself specified and proved in Verus.

## Layout

- `src/` — the verified library.
  - `syntax` — the FTL syntax tree as the Fluent parser produces it.
  - `parser` — the call into the Fluent parser, and the copy of its tree.
  - `convert` — from that tree to the generator's elements; text folding;
    rendering of syntax errors.
  - `resolve`, `resolved` — build-time expansion of message, term and
    attribute references, and the proof that none is left behind.
  - `params` — inference of a message's parameters and their types.
  - `fmt`, `emit` — the generated Rust source, function by function and
    module by module.
  - `generator` — loading the locale files of a project, checking every
    locale against the primary one, and resolving them.
  - `config`, `builtin` — the generation settings and the built-in functions.
  - `diag` — diagnostics and the decision to abort.
  - `plural`, `util`, `text`, `keyed` — plural rules, identifier sanitizing,
    string helpers, and ordered keyed lists.
  - `number`, `datetime` — the pattern rules of the runtime number formatter
    and the runtime date formatter.
- `app/` — file system access, floating-point number formatting, and the
  runtime values used by generated code.
- `tests/` — tests of the library.
