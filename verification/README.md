# qparse

Parsers for values written with Rust's formatting syntax, and the logic behind the
`qparse` attribute, which derives from one format string both a parser and the matching
`Display`.

The library in `src/` is verified with Verus:

- `lib.rs`: the rendering markers, the `Parseable` trait, and the `bool` and `Box` parsers.
- `integers.rs`, `digits.rs`: the integer parsers for each marker, and what they read.
- `fmt_string.rs`, `fmt_parse.rs`: the grammar of format strings and its parser.
- `ir.rs`, `order.rs`: the intermediate form of a derived parser and its passes.
- `codegen.rs`, `names.rs`: what the attribute emits, as plain values.
- `derive.rs`: what the attribute derives for a struct, an enum or another item, or the
  first error met.
- `agreement.rs`, `laws.rs`: properties that span several functions.
- `nom_calls.rs`: the calls into `nom`, `unicode-ident` and std's number parsing.

`app/` holds the token handling with `syn` and `quote`, and the float parsers.
