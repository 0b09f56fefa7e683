# anthropic_wire

Converts a Codex conversation into an Anthropic Messages API request, and the Anthropic
event stream back into Codex response events, with every step proved against its
specification in Verus.

- `src/` — the verified library: tool-name sanitizing (`sanitize`), tool definitions and the
  name map (`tools`, `string_map`), message grouping (`messages`), request checks
  (`request`), the stream state machine and error mapping (`stream`), and string helpers
  (`text`, `json`).
- `app/` — the async plumbing: the `async-anthropic` client, the idle-timed stream loop, and
  conversions between the client's types and the library's.
- `tests/` — runtime tests of the library.
