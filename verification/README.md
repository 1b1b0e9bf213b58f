# copyrpc

Remote procedure calls over RDMA writes with an immediate value. Each side of a connection owns a send
ring and a receive ring. Calls and replies are gathered into batches in the send ring, and a batch goes
to the peer's receive ring with one work request. Every batch has a header that gives ring space and
credit back to the peer.

There are two transports:

- `rc`: one reliable connection per endpoint. A caller takes credit for the response before it sends a
  request, and the peer keeps room for the credit it granted.
- `dc`: endpoints share a dynamic connection. A message that does not fit is refused and tried again
  after the next flush. A message that is taken leaves room for one more batch header, so that ring
  space can be given back.

## Layout

- `src/` holds the protocol: wire format, rings, flow control, batching, the flush passes over the
  endpoints of a context. All of it is verified with Verus. Operations that need the device stop at each
  work request and go on when they are told what the device said, so `src/` does no I/O.
- `laws.rs`, `answers.rs`, `credit.rs`, `passes.rs` and `progress.rs` under `src/rc/`, and `laws.rs`,
  `answers.rs`, `room.rs`, `balance.rs` and `progress.rs` under `src/dc/`, state what holds of
  connections as a whole. Where the receive ring is at least as large as the peer's send ring, and
  positions and counts stay in range of their fields, batches and wraps are read as they were sent, and
  both sides go on at the same position. A call is answered at most once. What is in flight stays within
  the peer's ring; on reliable connections this takes replies that keep to the bytes set aside for them,
  for which there is then always room. Two endpoints of dynamic connections never both run out of room
  for good: a message that was refused is taken after two rounds in which each side flushes and hears
  the other. A work request that the device refuses costs neither ring space nor credit, and a refused
  wrap is tried again before any other message.
- `src/pending.rs` is the one place that relies on code which is not verified: it takes keys for calls
  in progress from a `slab::Slab`.
- `app/` drives the device through `mlx5`.
- `tests/` runs two contexts against each other through a simulated device, and checks single steps.
