# lib

The front end of a small functional language, verified with Verus: a lexer, an
arena-allocated syntax tree, the expression and module parser that builds it, and a
printer that writes expressions back as text (lists of characters as strings, other
`Cons`/`Nil` lists in square brackets).

Layout:

- `src/token.rs`, `src/lexer.rs`: tokens and the lexer, specified by `sp_lex`.
- `src/types.rs`: the language's types and the table of named types.
- `src/node.rs`, `src/ast.rs`: syntax-tree nodes, the arena (`AST`) with its
  well-formedness invariant, builders, getters, structural equality and the list scan.
- `src/parsing/`: the parser; each parsing function is specified by a spec function of
  the same grammar rule (`sp_expression`, `sp_primary`, ...), and its result, error and
  final state are exactly what that spec function gives.
- `src/output.rs`: expressions as text.
- `tests/`: tests run against the compiled library.
- `app/main.rs`: a command-line program that parses a file and prints its tree.
