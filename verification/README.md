# something

A calling interface whose callers cannot tell whether a request was answered
in this process or by a remote function. A client always encodes a protobuf
request, hands the bytes to a transport and decodes the bytes that come back;
local mode is a transport that runs the server in-process through that same
path.

The library is written in Verus: its functions carry contracts, and the
properties the design rests on are proved, in those contracts or as lemmas.
What a transport handed in by a caller answers is that transport's own affair;
the client's contracts are stated over the record of the calls it actually
made through it.

## Layout

| Path | What it is |
| --- | --- |
| `src/wire.rs` | Varints, keys, frames and field values of the protobuf wire format |
| `src/v1.rs`, `src/v1/` | The messages of protocol version 1 and their mathematical views |
| `src/request_codec.rs`, `src/response_codec.rs` | Encoding and decoding, proved inverse to each other |
| `src/handler.rs` | The server: request bytes in, response bytes out, never a panic |
| `src/negotiate.rs` | The client's choice of version, proved to be the highest one everyone accepts |
| `src/transport.rs` | The `Transport` trait, the in-process transport, and the link that records every call |
| `src/something.rs` | The facade: handshake, cached version, one renegotiation on refusal |
| `src/mode.rs` | `local` or `remote`, from `SOMETHING_MODE` |
| `src/envelope.rs` | The JSON envelope's base64 payload |
| `src/remote.rs` | Remote settings, invocation outcomes, and the remote function's envelope handling |
| `app/` | The remote function's entry point, the remote transport, environment and JSON |
| `tests/` | Scenarios and cross-checks against prost's wire format |

## What is proved

- Decoding an encoded request or response gives it back.
- The server answers every byte string; undecodable bytes and empty requests
  are refused with `INVALID_REQUEST`; it answers `pong` exactly when the
  version lies in both of its ranges and in the ping capability's range.
- Going through the bytes gives the same answer as handling the request
  directly, so local mode is honest about the protocol.
- Negotiation picks the highest version acceptable to the client, to both
  server ranges and to every required capability, succeeds exactly when one
  exists, and requiring another capability can only lower the result.
- A ping makes at most three calls through its transport, counted by the
  transport's own record: a refusal of its version earns one renegotiation
  and one retry; against a redeployed in-process server the retry gets `pong`.
- Local mode connects at version 1, keeps its in-process server, and every
  ping gets `pong` in one call. A client connected to an in-process server
  with `connect_local` negotiates exactly what that server describes.
