# sgx-qkms

A quantum key management service (KMS) with an ETSI GS QKD 014 interface.

The library under `src/` is written in Verus; every function there carries a
contract that Verus proves:

- `key_store` — the in-memory key store: adding keys, reserving them in
  insertion order, retrieving one by identifier, counting the available ones.
  Keys only ever leave the `Available` state, so none is handed out twice.
- `framing` — where an HTTP/1.x header block ends, the `Content-Length` it
  announces, and `HttpMessageReader`, which decides what to read next from a
  stream and when a message is complete.
- `http_syntax` — what `httparse` and `http` decide about HTTP syntax, behind
  trusted wrappers.
- `http_message` — requests and responses as plain values: building them as
  `http`'s builders do, parsing them from bytes, writing them out; what is
  written is parsed back to the same message.
- `query` — percent-decoding and query-string parameters.
- `http_protocol` — the request view the handlers get, and the service's
  responses.
- `etsi014_handler`, `etsi014_poller` — the answers of the ETSI GS QKD 014
  handler, and the decisions of the poller that fetches keys from a peer KME.
- `sample_service` — the greeting of the sample server.
- `enrollment_models` — the messages of node enrollment.
- `text` — characters, decimal numbers and UTF-8 helpers.

`app/` is ordinary Rust around the library: the sample mTLS server and
client, stream reading, the poller's TLS loop, and the serde forms of the
messages.
