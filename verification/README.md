# aggligator_transport

Datagram transports for link aggregation, verified with Verus.

* `src/fec` - forward error correction: Reed-Solomon blocks over datagrams, with the proof
  that any `data_shards` packets of a block give its datagrams back, once and in order.
* `src/phantun` - datagrams dressed up as TCP: packets, handshakes and the routing of packets
  to connections.
* `src/udp` - UDP links: session framing and the sessions behind a listening socket.
* `src/io.rs` - link messages over unreliable datagrams.
* `src/kcp.rs` - what a KCP link is made of.
* `src/net.rs`, `src/link.rs` - hosts, interfaces, and which links to set up.
* `app` - sockets, TUN interfaces and tasks around the library.

What the library takes on trust is in `fec/codec.rs` (Reed-Solomon), `phantun/checksum.rs`
(the Internet checksum), `phantun/stack.rs` and `udp/session.rs` (random numbers), `text.rs`
(UTF-8) and `kcp.rs` (the KCP parameters, which are passed on unread).
