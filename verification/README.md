# quic

Values of the QUIC protocol and their wire formats, verified with Verus: the odd-sized integers
and the 16-bit float of the protocol, variable-length integers, packet numbers and their
truncated forms, packet headers of both layouts and the splitting of datagrams into packets,
transport parameters, the tag-value maps of the crypto handshake, stream ids, flow control and
the history of received packet numbers.

- `src/` is the library. Each function states what it returns in its contract, and the
  round trips between writing and reading are stated and proved as lemmas.
- `tests/` runs the library on concrete values.
- `app/` holds what the verifier does not take: sockets, clocks, the TLS session, random number
  generators passed in by the caller, floating point and formatting.
