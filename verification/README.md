# ezvpn

A VPN over QUIC datagrams: a server hands out addresses and routes packets between its TUN
device and its clients; a client keeps its own transport off the tunnel and comes back when the
connection is lost.

The decisions are a library whose functions carry contracts that Verus proves. The sockets,
devices and tasks around it are ordinary Rust.

## Layout

- `src/`: the verified library.
  - Packets: `wire`, `checksum`, `headers`, `virtio`, `packet`.
  - Offload: `segment` and `cut` turn large packets into plain ones, `gro` and `coalesce` join
    segments again. `round_trip`, `completion` and `flow_order` prove what holds of both
    together.
  - Messages: `signaling`, `stream`, `datagram`.
  - Addresses: `addr`, `underlay`, `leases`, `ip_pool`, `ip6_pool`, `identity`.
  - Server: `server`, `server_path`, `registry`, `client_gro`, `stats`, `status`. `protocol` and
    `consistency` prove how a server and its clients fit together.
  - Client: `relay`, `connect`, `session`, `reconnect`, `bypass`, `tunnel`, `ios`.
  - Texts and errors: `text`, `render`, `error`, `vpn_error`.
- `tests/`: the library's tests.
- `app/`: connections, devices, tasks and JSON.

## What is taken on trust

The library calls `bytes`, `dashmap`, `ipnet`, `iroh`, `rand` and `sha2` through small wrappers.
Each says above its body what it relies on. `src/buffer.rs`, `src/addr.rs`, `src/registry.rs`,
`src/relay.rs`, `src/identity.rs`, `src/connect.rs` and `src/reconnect.rs` hold them.
