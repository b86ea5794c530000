# netlink

Netlink messages and the decisions around them, verified with Verus.

- `src/endian.rs`: the byte order of the host and 16/32-bit integers in byte
  sequences.
- `src/packet/netlink.rs`: the message header, message flags, walking a
  buffer of messages, the reader that cuts a byte stream into messages (a
  state machine that asks its driver for reads), and the request builder.
- `src/packet/stream.rs`: the reader driven over a whole stream of messages
  in reads of any size hands out every message once, in order.
- `src/packet/route/`: interface address messages, their attributes, and the
  address dump request.
- `src/packet/audit/audit.rs`: the audit status message.
- `src/tokio.rs`: framing a stream into messages over a `bytes::BytesMut`,
  and the request builder that pads what it appends.
- `app/`: the netlink socket (libc), the connection and the loop that drives
  the reader, the tokio socket and codec, and printing of address messages.
