# faithea

The protocol core of a small asynchronous HTTP framework, written in Verus:
the library's own functions in `src/` carry contracts that Verus proves.

## Layout

- `src/websocket/` — WebSocket frames (RFC 6455): header decoding, message
  reassembly, server frame encoding, the replies to control messages, and
  `laws.rs` with the properties that hold across them (masking is its own
  inverse, a client frame decodes to what was encoded, fragments reassemble).
- `src/ws_state.rs` — the byte-by-byte connection reader as a state machine.
- `src/route.rs`, `src/handler.rs` — route patterns, their precedence order
  and the routing trie that picks the handler for a request.
- `src/request.rs` — finding the end of a request head, parsing the request
  line and header lines, content types and multipart boundaries, and the
  path and query parameters handed to handlers.
- `src/response.rs` — responses, the WebSocket handshake answer and the
  modifiers handlers return (CORS, redirects, server-sent events, cookies).
- `src/convert.rs`, `src/multipart.rs`, `src/data.rs` — turning parameter
  text and multipart parts into handler arguments.
- `src/buffer.rs`, `src/text.rs`, `src/util.rs` — byte buffers of the `bytes`
  crate, character helpers and small containers.
- `app/` — a Tokio server that runs the library: sockets, tasks and channels.
- `tests/` — executable tests of the library.

Outside crates (`bytes`, `http`, `sha1`, `base64`, `urlencoding`, and a few
functions of `std`) are called through small wrappers marked
`#[verifier::external_body]`. Their contracts are not proved: Verus takes
them as given, and they state what those crates' sources and documentation
show. A few of them (the texts of I/O, JSON and UTF-8 errors) promise
nothing about their result.
