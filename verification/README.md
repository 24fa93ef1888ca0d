# numbat_fmt

A pretty-printer for numbat programs, written in Verus and verified.

- `src/node.rs` – format nodes (`FormatNode`) and their model (`Doc`):
  widths, flat rendering, bounds.
- `src/generator.rs` – the layout engine (`Generator`): the state-transformer
  `render` that says what it prints, and the exact no-overflow condition
  `render_ok`.
- `src/ast.rs` – the part of numbat's syntax tree that the formatter reads.
- `src/builder.rs` – the builder that turns a syntax tree and its source text
  (with the comments in it) into a document, specified by `spec_build`.
- `src/text.rs` – text helpers: trimming, lines, byte slices of UTF-8 text.
- `src/outside.rs` – the calls into itertools and num-traits.
- `src/engine_laws.rs` – properties of the layout engine: widths add, a list
  is laid out node by node, the engine only appends, its line width is the
  column, a fitting group prints one line, a document without groups does not
  depend on the line width.
- `src/laws.rs` – properties proved of the whole: a document that fits is
  printed flat, the layout changes only whitespace, output ends with a line
  feed, group ids are distinct and each conditional takes three of them,
  a program without conditionals ignores the line width, widths count
  printed characters.
- `src/lib.rs` – `fmt`, which builds and lays out a program.
