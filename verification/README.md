# udp_server

The verified core of a small UDP game server and its test client.

- `src/wire.rs`: message type bytes and the byte layout of every message
  (position, movement, follow/unfollow), with little/big-endian encoding.
- `src/float_bits.rs`: the single-precision bit pattern of small integers
  (spawn coordinates), computed with integer arithmetic.
- `src/server.rs`: the server state (clients in registration order, entities
  by id, two id counters) and its invariant.
- `src/messages/`: ping echo, position updates and forwarding, follow.
- `src/handler.rs`: dispatch of one received datagram; a follow is carried out
  in two steps around the delivery of its unfollow message.
- `src/cleaner.rs`: removal of clients silent for five seconds.
- `src/spawner.rs`: entity spawning (random positions through `rand`).
- `src/framing.rs`: the length-prefixed request framing of the stream server.
- `src/laws.rs`: properties that span the operations, proved.
- `app/`: the tokio socket loops, timers and printing around the library.

Coordinates are held as the bit patterns of their `f32` values; addresses as
plain `PeerAddr` values; time as nanoseconds on the server's monotonic clock.
All state changes happen under one lock, one message or tick at a time.
