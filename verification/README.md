# testl

A front end for a small imperative language, written in Verus: the lexer, the parser that
stores the syntax tree in an arena, the visitor that walks it, the source map that turns byte
offsets into lines and columns, and the pieces of the code generator that decide things (scopes,
types, function and switch plans, string unescaping). Every function in `src/` carries a
contract that Verus proves.

Layout:

- `src/source.rs`, `src/span.rs`, `src/text.rs`: sources, spans, line and column mapping, string
  helpers.
- `src/parser/`: the lexer (`lexer.rs`), the grammar as spec functions (`grammar.rs`), the
  executable parser (`expression.rs`, `statement.rs`, `function.rs`, `mod.rs`) and the laws that
  relate them (`laws.rs`).
- `src/ast.rs`, `src/ast_store.rs`, `src/ast_visitor.rs`: the syntax tree, its arena and the
  visitor walks.
- `src/codegen/`: scopes, types, function and switch plans, node data and string unescaping.
- `src/lexer.rs`: a keyword lexer whose operators are single characters.
- `src/parser2/`: a lexer and parser for a smaller language of functions, blocks and loops.
- `src/putting_it_together/`: a parser for a language of functions with typed formals and
  expressions with operator precedence.
- `app/`: the command-line program (`lex-sample`, `lex`, `parse`, `parse-functions`, `testc`) and the LLVM code
  emission, which is ordinary Rust.
- `tests/`: tests of the library.
