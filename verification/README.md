# compiler

The front end of a small compiler for a Pascal-like teaching language, written in Verus.
Every function of the library is verified against its contract except two trusted wrappers
of std, whose contracts are assumed: `text::push_char` (`String::push`) and
`reporting::debug_str` (`format!("{:?}", s)`, the Debug form of a string).

- `token`, `table`, `source`, `scan_spec`, `lexer` — tokens, the symbol table with its
  reserved words, the source being read, the scanner's specification and the lexer itself
  (scanning and the second pass that joins `end` with what follows it, names with a `(`
  after them, and negative numbers).
- `ast`, `parse_spec`, `parser` — expressions, variable types and statements; the
  specification of the parser, token kind by token kind; and the parser.
- `reporting` — the report of errors and warnings.
- `numparse`, `decimal`, `text` — reading and writing decimal integers, and string helpers.
- `display` — the text that shows expressions, types and statements.
- `stats` — character, word and line counts of a text.
- `parse_laws`, `laws` — properties that hold across calls: a parse only adds errors to a
  report, tokens come out in line order, decimal text reads back as its number, and more.

`app/` holds the command line: `compiler <file>` lexes and parses a file and prints the
statements read; `compiler stats <file>...` prints the counts of each file.
