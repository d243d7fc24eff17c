# tideio

An Engine.IO / Socket.IO long-polling server core, verified with Verus.

- `src/packet.rs`: the Socket.IO packet codec (text packets, binary
  attachments `<Buffer <..>>`, placeholder replacement, event encoding).
- `src/socketio.rs`: session state (event queues, listeners, namespaces,
  connection flags) and the replies to decoded packets.
- `src/engineio.rs`: Engine.IO packet types, ping/pong, handshake and the
  decision taken for each long-polling request.
- `src/text.rs`, `src/json.rs`: the character-level text operations and the
  JSON values the codec is specified over.
- `app/lib.rs`: the tide handler, listener callbacks and serde forms of the
  packet types.
