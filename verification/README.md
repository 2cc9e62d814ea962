# oraide

A verified tokenizer for MiniYaml and the message plumbing of the oraide
language-server actors.

- `src/chars.rs`: the character classes of the lexical rules.
- `src/lexer.rs`: the lexical rules as spec functions over the characters of a
  text (`lex_token`, `lex_from`, `tokens_from`).
- `src/tokenizer.rs`: `Tokenizer`, proved to produce exactly `tokens_from`.
- `src/token.rs`, `src/span.rs`: tokens and byte spans.
- `src/numbers.rs`: integer and float literal recognition.
- `src/utf8.rs`: byte offsets of characters in UTF-8.
- `src/laws.rs`: properties of every tokenization (the spans tile the text,
  what each kind of token may contain).
- `src/actor.rs`: requests, responses, the `Actor` trait, and the decision
  step of gathering pending messages.
- `app/`: threads and channels (`spawn_actor`).
