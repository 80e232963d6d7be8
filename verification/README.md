# erret

Support for error enums, verified with Verus.

- `src/token.rs`: the derive input as plain token trees.
- `src/parse.rs`: reads the error enum (name, variants, `#[error("...")]`
  messages, `#[from]` marks, tuple and struct-like fields) out of the tokens.
- `src/codegen.rs`: writes the `Display`, `Error` and `From` impls as source text.
- `src/message.rs`: the text that a generated `Display` arm writes.
- `src/result.rs`: `ErrRet`, an error of any type, and `ErrResult`.
- `src/text.rs`: trimming, splitting and decimal rendering on characters.
- `app/lib.rs`: the compiler-facing side: token stream conversion, the derive
  entry point, and `ErrRet` with `Display` and `Debug`.

Each public function states its result over the spec functions beside it;
`codegen::lemma_parsed_enum_renders` shows that every enum the parser reads
can be written.
