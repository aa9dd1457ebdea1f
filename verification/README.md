# api

Conversion between an OpenAI-compatible chat wire format and an internal
message model, and a parser for the server-sent-event stream that carries
streamed chat completions. The library is written in Verus: every function
in `src/` has a contract, and Verus proves each one except three small
trusted wrappers, whose contracts are taken as given: the calls into
`serde_json` (`reencode_json`), `String::from_utf8_lossy`
(`decode_utf8_lossy`) and `String::push` (`push_char`).

Layout:

- `src/types.rs` — the internal message model (requests, responses, stream
  events) and the mathematical model of each output type.
- `src/json.rs` — JSON values, held as their compact JSON text; reading a
  document goes through `serde_json`.
- `src/text.rs` — white space, trimming, line splitting and joining, over
  sequences of characters.
- `src/openai_compat.rs` — the wire types, request and response conversion,
  and the stateful stream converter (`OpenAiStreamConverter`).
- `src/sse.rs` — cutting a byte stream into frames, reading a frame's data
  payload, and `SseParser`, which holds the buffer and the converter.
- `src/laws.rs` — properties that span inputs, calls and states: framing,
  payloads, independence of chunking, and the shape of converted streams.
- `app/` — the serde side: copies of the wire types with serde derives and
  conversions to and from the library's types, and the byte-stream driver
  (`push` and `finish`) that reads each payload as a JSON chunk.
