# wg_viz

A model of WireGuard's cryptokey routing, verified with Verus, and a small web front
end that lets you watch it.

- `src/` is the verified library:
  - `text.rs`: decimal and hexadecimal renderings, and reading a byte from text;
  - `addr.rs`: IPv4/IPv6 addresses and socket addresses, their standard renderings,
    and reading a dotted-decimal address;
  - `net.rs`: IPv4 CIDR blocks: membership, rendering and reading;
  - `types.rs`, `events.rs`: keys and the events reported for each packet;
  - `interface.rs`: the interface and its peers, the send and receive flows, and the
    simulated actions of the demo, each specified as a function on plain values;
  - `render.rs`: the HTML of the routing table, the event log and the pages;
  - `laws.rs`: properties that hold across operations (configuration and sessions are
    kept, nonces count the packets sent to each peer, the route is the longest-prefix
    match, only allowed sources are accepted, a repeated packet changes nothing,
    simulated packets are accepted).
- `app/` is the web server (axum, tokio): it serves the pages, runs the actions on the
  shared interface and pushes updates to the browser over server-sent events.
- `tests/` exercises the library on concrete values.
