# showdown

A client library for the Pokémon Showdown chat protocol, verified with Verus.

- `src/text.rs` — text primitives over `&str` (cutting at an ASCII separator,
  stripping a leading or trailing character, equality, decimal numbers), proved
  against the character view through the UTF-8 encoding of the text.
- `src/message.rs` — the grammar of server messages: the model (`message_kind`
  and the `parse_*` spec functions), the executable parsers that meet it, the
  login steps that depend on the login server's answers, and the laws.
- `src/message/parsed_message.rs` — a raw message parsed with its room.
- `src/lib.rs` — room identifiers and the messages a client sends.
- `src/server.rs` — the websocket URL of a named server.
- `app/` — the websocket stream, the HTTP calls, the serde types that decode
  JSON payloads, and the error type.
