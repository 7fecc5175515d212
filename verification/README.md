# hextet

The logic of an IPv6-only mesh VPN node, with its behaviour stated in contracts
and proved by Verus.

- `src/` is the verified library: candidate selection, the connection state
  machine, the endpoint cache, the relay protocol on both sides, LAN and gossip
  discovery, membership, routes, the probe responder, device configuration, and
  `daemon::node`, which turns each event into the next state and the effects to
  carry out. Proof functions named `law_…` state what holds across calls.
- `tests/` runs the library on concrete values.
- `app/` is the ordinary Rust around it: sockets, files, TUN devices, routes,
  the HTTP server and the event loop.

Trusted contracts are few: base64 keys and interface names in `wg::kernel`, and
IPv6 networks in `wg_userspace`.
