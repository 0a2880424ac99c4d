# css_parser

A CSS parser after the CSS Syntax Module, verified with Verus.

- `src/token.rs`, `src/chars.rs`: tokens and code point classes.
- `src/token_spec.rs`: the model of preprocessing and tokenization, as spec functions
  over sequences of code points, with unicode ranges allowed or not, and where each
  token lies in the text; `src/tokenizer.rs`: the executable tokenizer, proved to
  compute exactly that model.
- `src/syntax.rs`: component values, declarations, rules and their models.
- `src/parse_spec.rs`: the model of parsing (component values, blocks, declarations,
  at-rules, qualified rules, a style sheet's rules) over sequences of tokens;
  `src/stream.rs`, `src/parser.rs`: the token stream, which keeps the source text and
  the span of each token, and the executable parser, proved to compute exactly that
  model.
- `src/stylesheet.rs`: style sheets, with the location, title and base URL taken from a
  `url::Url`.
- `src/laws.rs`: properties of the model (preprocessing is idempotent, blocks end at
  their closing token, a declaration value never starts with whitespace and, but for
  unicode-range, never ends with it, ...).
- `app/`: reading a style sheet from a `file:` URL.
