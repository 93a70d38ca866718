//! Packet, signalling and address logic of a VPN that tunnels IP over QUIC.

pub mod addr;
pub mod buffer;
pub mod bypass;
pub mod checksum;
pub mod client_gro;
pub mod coalesce;
pub mod completion;
pub mod connect;
pub mod consistency;
pub mod cut;
pub mod datagram;
pub mod error;
pub mod flow_order;
pub mod gro;
pub mod headers;
pub mod identity;
pub mod ios;
pub mod ip6_pool;
pub mod ip_pool;
pub mod leases;
pub mod merging;
pub mod packet;
pub mod protocol;
pub mod reconnect;
pub mod registry;
pub mod relay;
pub mod render;
pub mod round_trip;
pub mod segment;
pub mod server;
pub mod server_path;
pub mod session;
pub mod signaling;
pub mod stats;
pub mod status;
pub mod stream;
pub mod tcp_packet;
pub mod text;
pub mod tunnel;
pub mod underlay;
pub mod virtio;
pub mod vpn_error;
pub mod wire;
