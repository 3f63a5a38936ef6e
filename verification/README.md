# rust_engineio

An engine.io (protocol v4) client whose decisions are verified with Verus.

- `src/` is the verified core:
  - `packet.rs`: packet types, the wire form of a packet and of a payload
    (records separated by `0x1e`, binary bodies in base64), decoding and
    encoding with their laws.
  - `socket.rs`: the socket's state machine. Each operation returns the
    effects (callbacks, pings, transmissions) a driver is to carry out;
    `StepRun` carries them out one by one and decides what a failed
    transmission leads to.
  - `client.rs`: the client's reaction to each received packet, the end of
    a step (a disconnect closes once its close packet was sent), and the
    law of the connected flag over a client's life.
  - `builder.rs`: the client's url (protocol version, default path, session
    id), the handshake, and the choice between polling and websocket.
- `app/` drives the core: transports, callbacks on scoped threads, clocks,
  the handshake's JSON.
- `tests/` runs the core on concrete values.
