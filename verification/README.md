# lox

Pieces of a Lox tool chain, written in Verus and proved against their
contracts:

- `gc`: a mark and sweep heap of generation-checked handles, whose block
  headers count the borrows of their objects.
- `assembler`, `codegen`: instructions, symbolic programs with labels,
  and the per-function compiler state (scopes, locals, upvalues, loops).
- `lox_core`: interning pools and ordinals.
- `lexer`, `frontend`: tokens, spans, errors, diagnostics and the syntax
  tree of Lox.
- `lparse`: grammars, parse trees, and the FIRST and FOLLOW tables of an
  LR parser generator, each computed as the least table that the
  productions agree with; the driver that runs an LR automaton given by
  its action and goto tables, with or without a bound on its steps; the grammar of the description language with
  repetitions, and the functions that build a description from its tree.
- `parse`: the grammar of the grammar description language and the
  functions that build a grammar description from its parse tree.
- `executor`: call frames of the virtual machine.

`app/` holds what sits around the library: rendering diagnostics with
`annotate-snippets`, and the library's errors as `std::error::Error`
values.
