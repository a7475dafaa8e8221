# Monkey interpreter, verified

An interpreter for the Monkey language whose library is proved correct
with Verus.

- `src/text.rs`: building strings from characters, integers and booleans.
- `src/token.rs`: token kinds, tokens, keyword lookup.
- `src/lexer.rs`: the lexer; each token is the one `lex_token` specifies.
- `src/ast.rs`: the syntax tree, its model, how it prints, and copies.
- `src/parser.rs`: the Pratt parser; `parse_program` gives the statements
  and errors that the `parsed_*` specifications describe, or `None` where
  the parser cannot go on.
- `src/object.rs`: runtime values, their model, how they print, hash keys,
  and scopes (`Environment`) with their laws.
- `src/builtins.rs`: `len`, `first`, `last`, `push`, `removeAt`, and laws.
- `src/evaluator.rs`: evaluation of integer and boolean expressions
  (`eval_stmts`), with laws; overflow and division by zero give no value.
- `src/repl.rs`: what the prompt makes of one line.
- `app/main.rs`: the prompt itself (reading and writing).
- `tests/`: tests run against the compiled library.
