# swc_markdown_parser

A lexer for the block structure of CommonMark documents, written in Verus and
verified against a specification of it as a state machine.

- `src/machine.rs` states what the lexer holds between steps (`LexerView`)
  and what one step does from each of its states (`step`), together with the
  laws proved of it: how tokens are handed out and how their spans follow
  each other, that text with no block markup is a single paragraph, and what
  thematic break lines, ATX headings, setext underlines and fenced code
  blocks become.
- `src/order.rs` proves that every step keeps the spans of the tokens in
  the order of the text, so that successive tokens never overlap.
- `src/lexer.rs` is the lexer itself; each state's step is proved to do what
  `machine.rs` says, and `Lexer::next` to hand out the tokens in order.
  `Lexer::next_within` does the same within a bound on the number of steps,
  so that it can be called on any text.
- `src/input.rs` holds the source text with the byte position of each
  character; `src/span.rs` the positions and spans.
- `src/text.rs` and `src/chars.rs` hold the operations on characters and
  character sequences that the lexer uses, `src/tags.rs` the HTML tag names.
- `src/diagnostic.rs`, `src/parser.rs`, `src/ast.rs` and `src/token.rs` hold
  the diagnostics, the parser's configuration, the syntax tree and the tokens.
- `app/` reads source files held by `swc_common`, reports diagnostics
  through its handler, and runs a small example.
