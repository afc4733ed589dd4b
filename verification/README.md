# pipc

A parser for interface description files and a generator of server-side Rust
bindings for the interfaces they declare, verified with Verus.

An interface file holds declarations such as

    interface fs.file(flags: uint) @0123-4567-89ab-cdef01234567 {
        func @1 read(count: uint) -> [byte]
        func @2 name() -> string
    }

Layout:

- `src/` — the verified library.
  - `text.rs`, `numeric.rs` — characters, UTF-8 widths, decimal and
    hexadecimal numbers.
  - `token.rs`, `lexer.rs` — token kinds, the lexer (`ParseContext::new`), the
    parsing primitives (`peek`, `next`, `expect`) and error reports.
  - `lexer_laws.rs` — where every token stands in its source.
  - `ast.rs`, `parser.rs` — the syntax tree and the grammar, with the parser
    proved to follow it.
  - `backend/` — the Rust server-binding generator.
  - `laws.rs` — properties that span lexer, parser and generator.
- `tests/` — tests of the library.
- `app/` — the command-line program: argument handling, file input and
  output, and printing of error reports.
