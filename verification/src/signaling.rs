//! The handshake that sets a tunnel up, and the messages of its data channel.

use vstd::prelude::*;
use vstd::slice::slice_subrange;
use vstd::string::*;
use crate::addr::{IpAddr, Ipv4Addr, Ipv4Net, Ipv6Addr, Ipv6Net};
use crate::text;
use crate::text::{push_dec, push_hex2};
use crate::virtio;
use crate::virtio::{VirtioNetHdr, VIRTIO_NET_HDR_LEN};
use crate::vpn_error;
use crate::vpn_error::{ErrorKind, VpnError};
use crate::wire;
use crate::wire::{append_bytes, high_nibble, read_be32};

verus! {

/// VPN protocol version.
///
/// Version 4: `network`/`network6` carry the server's host prefixes
/// (`server_ip/32`, `server_ip6/128`) instead of the full VPN subnets.
pub const VPN_PROTOCOL_VERSION: u16 = 4;

/// Fixed ALPN protocol identifier for the VPN tunnel: `ezvpn/4`.
///
/// A peer whose advertised ALPN does not match this exact value is rejected
/// during QUIC ALPN negotiation, before any application streams are opened.
pub const VPN_ALPN: [u8; 7] = [0x65, 0x7a, 0x76, 0x70, 0x6e, 0x2f, 0x34];

/// Maximum handshake message size (16 KB).
pub const MAX_HANDSHAKE_SIZE: usize = 16 * 1024;

/// MTU of the tunnel device unless configured otherwise.
pub const DEFAULT_VPN_MTU: u16 = 1280;

/// Receive window of a connection unless configured otherwise (8 MB).
pub const DEFAULT_RECEIVE_WINDOW: u32 = 8 * 1024 * 1024;

/// Congestion control of a connection.
#[derive(Debug, Clone, Copy, PartialEq, Eq, Structural)]
pub enum CongestionController {
    Cubic,
    Bbr,
    NewReno,
}

/// Transport settings as configured: what is left out takes its default.
#[derive(Debug, Clone, Copy, PartialEq, Eq, Structural)]
pub struct TransportTuning {
    pub congestion_controller: CongestionController,
    pub receive_window: Option<u32>,
    pub send_window: Option<u32>,
}

impl Default for TransportTuning {
    fn default() -> (t: Self)
        ensures
            t == default_tuning(),
    {
        TransportTuning {
            congestion_controller: CongestionController::Cubic,
            receive_window: None,
            send_window: None,
        }
    }
}

/// Transport settings with nothing configured.
pub open spec fn default_tuning() -> TransportTuning {
    TransportTuning {
        congestion_controller: CongestionController::Cubic,
        receive_window: None,
        send_window: None,
    }
}

impl TransportTuning {
    /// The windows that result: the receive window has a default of its own, and the send
    /// window defaults to the receive window.
    pub open spec fn windows(self) -> (u32, u32) {
        let receive = match self.receive_window {
            Some(w) => w,
            None => DEFAULT_RECEIVE_WINDOW,
        };
        (
            receive,
            match self.send_window {
                Some(w) => w,
                None => receive,
            },
        )
    }

    /// The receive and send windows that result.
    pub fn effective_windows(&self) -> (r: (u32, u32))
        ensures
            r == self.windows(),
    {
        let receive: u32 = match self.receive_window {
            Some(w) => w,
            None => DEFAULT_RECEIVE_WINDOW,
        };
        let send: u32 = match self.send_window {
            Some(w) => w,
            None => receive,
        };
        (receive, send)
    }
}

/// Concrete QUIC transport settings dictated by the server.
///
/// Unlike [`TransportTuning`] (config-shaped, with optional pre-default
/// values), this carries fully resolved values so the client never has to
/// replicate the server's defaulting logic.
#[derive(Debug, Clone, Copy, PartialEq, Eq, Structural)]
pub struct WireTransport {
    /// Congestion controller algorithm both sides should use.
    pub congestion_controller: CongestionController,
    /// QUIC connection/stream receive window in bytes (post-default).
    pub receive_window: u32,
    /// QUIC send window in bytes (post-default).
    pub send_window: u32,
}

/// The settings that a tuning resolves to.
pub open spec fn resolved(tuning: TransportTuning) -> WireTransport {
    let (receive_window, send_window) = tuning.windows();
    WireTransport {
        congestion_controller: tuning.congestion_controller,
        receive_window,
        send_window,
    }
}

/// A tuning that leaves nothing to its default.
pub open spec fn as_tuning(wire: WireTransport) -> TransportTuning {
    TransportTuning {
        congestion_controller: wire.congestion_controller,
        receive_window: Some(wire.receive_window),
        send_window: Some(wire.send_window),
    }
}

impl WireTransport {
    /// Resolve a config-shaped [`TransportTuning`] into concrete wire values.
    pub fn from_tuning(tuning: &TransportTuning) -> (w: Self)
        ensures
            w == resolved(*tuning),
    {
        let (receive_window, send_window): (u32, u32) = tuning.effective_windows();
        WireTransport {
            congestion_controller: tuning.congestion_controller,
            receive_window,
            send_window,
        }
    }

    /// Convert back into a [`TransportTuning`] for transport-config building.
    pub fn to_tuning(self) -> (t: TransportTuning)
        ensures
            t == as_tuning(self),
    {
        TransportTuning {
            congestion_controller: self.congestion_controller,
            receive_window: Some(self.receive_window),
            send_window: Some(self.send_window),
        }
    }
}

impl Default for WireTransport {
    /// The baseline every client connects with before learning the
    /// server-dictated settings (must match the client endpoint defaults).
    fn default() -> (w: Self)
        ensures
            w == resolved(default_tuning()),
    {
        WireTransport::from_tuning(&TransportTuning::default())
    }
}

/// Settings that a server dictates survive the way through a client's configuration.
pub proof fn law_transport_round_trip(wire: WireTransport)
    ensures
        resolved(as_tuning(wire)) == wire,
{
}

/// VPN handshake request from client to server.
///
/// Sent over the QUIC handshake bi-stream to initiate VPN setup. The
/// client advertises its data-channel GSO capability here.
#[derive(Debug)]
pub struct VpnHandshake {
    /// Protocol version.
    pub version: u16,
    /// Client's unique device ID (randomly generated per session).
    pub device_id: u64,
    /// Authentication token (optional, for token-based auth).
    pub auth_token: Option<String>,
    /// Whether the client can send/receive GSO metadata on data datagrams.
    pub gso_enabled: bool,
}

/// A handshake is taken if it is of this version of the protocol.
pub open spec fn handshake_taken(h: VpnHandshake) -> bool {
    h.version == VPN_PROTOCOL_VERSION
}

/// How a handshake of another version is refused.
pub open spec fn handshake_version_text(version: u16) -> Seq<char> {
    "Unsupported handshake protocol version: "@ + text::dec(version as nat) + " (expected 4)"@
}

impl VpnHandshake {
    /// Create a new handshake request.
    pub fn new(device_id: u64) -> (h: Self)
        ensures
            h == (VpnHandshake {
                version: VPN_PROTOCOL_VERSION,
                device_id,
                auth_token: None,
                gso_enabled: false,
            }),
    {
        VpnHandshake {
            version: VPN_PROTOCOL_VERSION,
            device_id,
            auth_token: None,
            gso_enabled: false,
        }
    }

    /// Set the authentication token.
    pub fn with_auth_token(self, token: &str) -> (h: Self)
        ensures
            h.auth_token is Some,
            h.auth_token->0@ == token@,
            h == (VpnHandshake { auth_token: h.auth_token, ..self }),
    {
        VpnHandshake {
            version: self.version,
            device_id: self.device_id,
            auth_token: Some(token.to_owned()),
            gso_enabled: self.gso_enabled,
        }
    }

    /// Advertise the client's data-channel GSO capability.
    pub fn with_gso(self, enabled: bool) -> (h: Self)
        ensures
            h == (VpnHandshake { gso_enabled: enabled, ..self }),
    {
        VpnHandshake {
            version: self.version,
            device_id: self.device_id,
            auth_token: self.auth_token,
            gso_enabled: enabled,
        }
    }

    /// Accepts a handshake that was received, unless it is of another protocol version.
    pub fn check_received(self) -> (r: Result<Self, VpnError>)
        ensures
            self.version == VPN_PROTOCOL_VERSION ==> r is Ok && r->Ok_0 == self,
            r is Ok <==> handshake_taken(self),
            self.version != VPN_PROTOCOL_VERSION ==> vpn_error::fails(
                r,
                ErrorKind::Signaling,
                handshake_version_text(self.version),
            ),
    {
        if self.version != VPN_PROTOCOL_VERSION {
            let mut m = "Unsupported handshake protocol version: ".to_owned();
            push_dec(&mut m, self.version as u64);
            m.append(" (expected 4)");
            return Err(VpnError::Signaling(m));
        }
        Ok(self)
    }
}

/// VPN handshake response from server to client.
#[derive(Debug)]
pub struct VpnHandshakeResponse {
    /// Protocol version.
    pub version: u16,
    /// Whether the handshake was accepted.
    pub accepted: bool,
    /// Server-local TUN GSO/offload status.
    pub server_gso_enabled: bool,
    /// QUIC transport settings the client must adopt.
    pub transport: WireTransport,
    /// MTU the client must use for its TUN device.
    pub mtu: u16,
    /// Assigned VPN IP address for the client (IPv4).
    pub assigned_ip: Option<Ipv4Addr>,
    /// The server's IPv4 host prefix (`server_ip/32`), the prefix the client
    /// routes through the tunnel by default.
    pub network: Option<Ipv4Net>,
    /// Server's VPN IP (gateway).
    pub server_ip: Option<Ipv4Addr>,
    /// Assigned IPv6 VPN address for the client (optional, for dual-stack).
    pub assigned_ip6: Option<Ipv6Addr>,
    /// The server's IPv6 host prefix (`server_ip6/128`); see [`Self::network`].
    pub network6: Option<Ipv6Net>,
    /// Server's IPv6 VPN address (gateway).
    pub server_ip6: Option<Ipv6Addr>,
    /// Rejection reason (if not accepted).
    pub reject_reason: Option<String>,
    /// Server's candidate underlay addresses, delivered in the handshake so the client
    /// can install bypass routes for any a VPN route would capture *at onboarding*.
    pub server_addrs: Vec<IpAddr>,
}

/// A response is taken if it is of this version of the protocol and complete.
pub open spec fn response_taken(r: VpnHandshakeResponse) -> bool {
    r.version == VPN_PROTOCOL_VERSION && r.complete()
}

/// How a response of another version is refused.
pub open spec fn response_version_text(version: u16) -> Seq<char> {
    "Unsupported handshake response protocol version: "@ + text::dec(version as nat)
        + " (expected 4)"@
}

/// How an incomplete response is refused.
pub open spec fn response_incomplete_text() -> Seq<char> {
    "Invalid handshake response: an accepted response must assign at least one address family, each with its network and gateway"@
}

impl VpnHandshakeResponse {
    /// An accepted response assigns at least one address family, and each with its network
    /// and gateway.
    pub open spec fn complete(self) -> bool {
        self.accepted ==> {
            &&& self.assigned_ip is Some || self.assigned_ip6 is Some
            &&& self.assigned_ip is Some ==> self.network is Some && self.server_ip is Some
            &&& self.assigned_ip6 is Some ==> self.network6 is Some && self.server_ip6 is Some
        }
    }

    /// Validate handshake response invariants.
    ///
    /// An accepted response must assign at least one address family, and each
    /// assigned family must carry its full triplet (assigned IP + network +
    /// gateway) so the client can configure routes and the TUN device.
    pub fn is_valid(&self) -> (r: bool)
        ensures
            r == self.complete(),
    {
        if !self.accepted {
            return true;
        }
        if self.assigned_ip.is_none() && self.assigned_ip6.is_none() {
            return false;
        }
        if self.assigned_ip.is_some() && (self.network.is_none() || self.server_ip.is_none()) {
            return false;
        }
        if self.assigned_ip6.is_some() && (self.network6.is_none() || self.server_ip6.is_none()) {
            return false;
        }
        true
    }

    /// Create an accepted response (IPv4 only).
    pub fn accepted(
        assigned_ip: Ipv4Addr,
        network: Ipv4Net,
        server_ip: Ipv4Addr,
        server_gso_enabled: bool,
        transport: WireTransport,
        mtu: u16,
    ) -> (r: Self)
        ensures
            r.version == VPN_PROTOCOL_VERSION,
            r.accepted,
            r.server_gso_enabled == server_gso_enabled,
            r.transport == transport,
            r.mtu == mtu,
            r.assigned_ip == Some(assigned_ip),
            r.network == Some(network),
            r.server_ip == Some(server_ip),
            r.assigned_ip6 is None,
            r.network6 is None,
            r.server_ip6 is None,
            r.reject_reason is None,
            r.server_addrs@ == Seq::<IpAddr>::empty(),
            r.complete(),
    {
        VpnHandshakeResponse {
            version: VPN_PROTOCOL_VERSION,
            accepted: true,
            server_gso_enabled,
            transport,
            mtu,
            assigned_ip: Some(assigned_ip),
            network: Some(network),
            server_ip: Some(server_ip),
            assigned_ip6: None,
            network6: None,
            server_ip6: None,
            reject_reason: None,
            server_addrs: Vec::new(),
        }
    }

    /// Create an accepted response with dual-stack (IPv4 + IPv6).
    pub fn accepted_dual_stack(
        assigned_ip: Ipv4Addr,
        network: Ipv4Net,
        server_ip: Ipv4Addr,
        assigned_ip6: Ipv6Addr,
        network6: Ipv6Net,
        server_ip6: Ipv6Addr,
        server_gso_enabled: bool,
        transport: WireTransport,
        mtu: u16,
    ) -> (r: Self)
        ensures
            r.version == VPN_PROTOCOL_VERSION,
            r.accepted,
            r.server_gso_enabled == server_gso_enabled,
            r.transport == transport,
            r.mtu == mtu,
            r.assigned_ip == Some(assigned_ip),
            r.network == Some(network),
            r.server_ip == Some(server_ip),
            r.assigned_ip6 == Some(assigned_ip6),
            r.network6 == Some(network6),
            r.server_ip6 == Some(server_ip6),
            r.reject_reason is None,
            r.server_addrs@ == Seq::<IpAddr>::empty(),
            r.complete(),
    {
        VpnHandshakeResponse {
            version: VPN_PROTOCOL_VERSION,
            accepted: true,
            server_gso_enabled,
            transport,
            mtu,
            assigned_ip: Some(assigned_ip),
            network: Some(network),
            server_ip: Some(server_ip),
            assigned_ip6: Some(assigned_ip6),
            network6: Some(network6),
            server_ip6: Some(server_ip6),
            reject_reason: None,
            server_addrs: Vec::new(),
        }
    }

    /// Create an accepted response with IPv6 only (no IPv4).
    ///
    /// Use this for IPv6-only VPN networks where no IPv4 address is allocated.
    pub fn accepted_ipv6_only(
        assigned_ip6: Ipv6Addr,
        network6: Ipv6Net,
        server_ip6: Ipv6Addr,
        server_gso_enabled: bool,
        transport: WireTransport,
        mtu: u16,
    ) -> (r: Self)
        ensures
            r.version == VPN_PROTOCOL_VERSION,
            r.accepted,
            r.server_gso_enabled == server_gso_enabled,
            r.transport == transport,
            r.mtu == mtu,
            r.assigned_ip is None,
            r.network is None,
            r.server_ip is None,
            r.assigned_ip6 == Some(assigned_ip6),
            r.network6 == Some(network6),
            r.server_ip6 == Some(server_ip6),
            r.reject_reason is None,
            r.server_addrs@ == Seq::<IpAddr>::empty(),
            r.complete(),
    {
        VpnHandshakeResponse {
            version: VPN_PROTOCOL_VERSION,
            accepted: true,
            server_gso_enabled,
            transport,
            mtu,
            assigned_ip: None,
            network: None,
            server_ip: None,
            assigned_ip6: Some(assigned_ip6),
            network6: Some(network6),
            server_ip6: Some(server_ip6),
            reject_reason: None,
            server_addrs: Vec::new(),
        }
    }

    /// Create a rejected response.
    ///
    /// Transport/MTU values are placeholders; clients ignore them when
    /// `accepted == false`.
    pub fn rejected(reason: &str, server_gso_enabled: bool) -> (r: Self)
        ensures
            r.version == VPN_PROTOCOL_VERSION,
            !r.accepted,
            r.server_gso_enabled == server_gso_enabled,
            r.transport == resolved(default_tuning()),
            r.mtu == DEFAULT_VPN_MTU,
            r.assigned_ip is None,
            r.network is None,
            r.server_ip is None,
            r.assigned_ip6 is None,
            r.network6 is None,
            r.server_ip6 is None,
            r.reject_reason is Some,
            r.reject_reason->0@ == reason@,
            r.server_addrs@ == Seq::<IpAddr>::empty(),
            r.complete(),
    {
        VpnHandshakeResponse {
            version: VPN_PROTOCOL_VERSION,
            accepted: false,
            server_gso_enabled,
            transport: WireTransport::default(),
            mtu: DEFAULT_VPN_MTU,
            assigned_ip: None,
            network: None,
            server_ip: None,
            assigned_ip6: None,
            network6: None,
            server_ip6: None,
            reject_reason: Some(reason.to_owned()),
            server_addrs: Vec::new(),
        }
    }

    /// Attach the server's candidate underlay addresses to an accepted response.
    ///
    /// A no-op on a rejected response (the client ignores everything but
    /// `reject_reason`).
    pub fn with_server_addrs(self, server_addrs: Vec<IpAddr>) -> (r: Self)
        ensures
            r == (if self.accepted {
                VpnHandshakeResponse { server_addrs, ..self }
            } else {
                self
            }),
    {
        let mut r = self;
        if r.accepted {
            r.server_addrs = server_addrs;
        }
        r
    }

    /// Refuses a response that is not complete: it is neither sent nor accepted.
    pub fn check_complete(&self) -> (r: Result<(), VpnError>)
        ensures
            self.complete() ==> r is Ok,
            !self.complete() ==> vpn_error::fails(
                r,
                ErrorKind::Signaling,
                response_incomplete_text(),
            ),
    {
        if !self.is_valid() {
            return Err(
                VpnError::Signaling(
                    "Invalid handshake response: an accepted response must assign at least one address family, each with its network and gateway".to_owned(),
                ),
            );
        }
        Ok(())
    }

    /// Accepts a response that was received, unless it is of another protocol version or
    /// not complete.
    pub fn check_received(self) -> (r: Result<Self, VpnError>)
        ensures
            self.version == VPN_PROTOCOL_VERSION && self.complete() ==> r is Ok && r->Ok_0 == self,
            r is Ok <==> response_taken(self),
            self.version != VPN_PROTOCOL_VERSION ==> vpn_error::fails(
                r,
                ErrorKind::Signaling,
                response_version_text(self.version),
            ),
            self.version == VPN_PROTOCOL_VERSION && !self.complete() ==> vpn_error::fails(
                r,
                ErrorKind::Signaling,
                response_incomplete_text(),
            ),
    {
        if self.version != VPN_PROTOCOL_VERSION {
            let mut m = "Unsupported handshake response protocol version: ".to_owned();
            push_dec(&mut m, self.version as u64);
            m.append(" (expected 4)");
            return Err(VpnError::Signaling(m));
        }
        match self.check_complete() {
            Ok(()) => Ok(self),
            Err(e) => Err(e),
        }
    }
}

/// A message behind its length.
pub open spec fn message_frame(data: Seq<u8>) -> Seq<u8> {
    wire::be32_bytes(data.len() as u32) + data
}

/// Puts the length of a message in front of it.
pub fn encode_message(data: &[u8]) -> (r: Result<Vec<u8>, VpnError>)
    ensures
        data@.len() <= u32::MAX ==> r is Ok && r->Ok_0@ == wire::be32_bytes(data@.len() as u32)
            + data@,
        data@.len() <= u32::MAX ==> r is Ok && r->Ok_0@ == message_frame(data@),
        data@.len() > u32::MAX ==> vpn_error::fails(
            r,
            ErrorKind::Signaling,
            "Message too large: "@ + text::dec(data@.len()) + " bytes"@,
        ),
{
    let n: usize = data.len();
    if n as u64 > u32::MAX as u64 {
        let mut m = "Message too large: ".to_owned();
        push_dec(&mut m, n as u64);
        m.append(" bytes");
        return Err(VpnError::Signaling(m));
    }
    let mut out: Vec<u8> = Vec::new();
    push_be32(&mut out, n as u32);
    append_bytes(&mut out, data);
    assert(out@ =~= wire::be32_bytes(n as u32) + data@);
    Ok(out)
}

/// Appends the four bytes of a number.
pub fn push_be32(out: &mut Vec<u8>, v: u32)
    ensures
        final(out)@ == old(out)@ + wire::be32_bytes(v),
{
    out.push((v / 0x100_0000) as u8);
    out.push((v / 0x1_0000 % 256) as u8);
    out.push((v / 0x100 % 256) as u8);
    out.push((v % 256) as u8);
    assert(out@ =~= old(out)@ + wire::be32_bytes(v));
}

/// The length that a prefix announces, if it is not more than is allowed.
pub open spec fn announced_len(prefix: Seq<u8>, max_size: usize) -> Option<nat> {
    if wire::be32_at(prefix, 0) <= max_size {
        Some(wire::be32_at(prefix, 0) as nat)
    } else {
        None
    }
}

/// Reads the length in front of a message, and refuses one beyond `max_size`.
pub fn decode_message_len(prefix: &[u8], max_size: usize) -> (r: Result<usize, VpnError>)
    requires
        prefix@.len() == 4,
    ensures
        wire::be32_at(prefix@, 0) <= max_size ==> r is Ok && r->Ok_0 == wire::be32_at(prefix@, 0),
        match announced_len(prefix@, max_size) {
            Some(n) => r is Ok && r->Ok_0 == n,
            None => r is Err,
        },
        wire::be32_at(prefix@, 0) > max_size ==> vpn_error::fails(
            r,
            ErrorKind::Signaling,
            "Message too large: "@ + text::dec(wire::be32_at(prefix@, 0) as nat) + " > "@
                + text::dec(max_size as nat),
        ),
{
    let len: u32 = read_be32(prefix, 0);
    if len as u64 > max_size as u64 {
        let mut m = "Message too large: ".to_owned();
        push_dec(&mut m, len as u64);
        m.append(" > ");
        push_dec(&mut m, max_size as u64);
        return Err(VpnError::Signaling(m));
    }
    Ok(len as usize)
}

/// The length that is put in front of a message is the length that is read.
pub proof fn law_message_length_round_trip(n: u32, rest: Seq<u8>)
    ensures
        wire::be32_at(wire::be32_bytes(n) + rest, 0) == n,
{
    let s = wire::be32_bytes(n) + rest;
    assert(s[0] == (n / 0x100_0000) as u8);
    assert(s[1] == (n / 0x1_0000 % 256) as u8);
    assert(s[2] == (n / 0x100 % 256) as u8);
    assert(s[3] == (n % 256) as u8);
    assert(n / 0x1_0000 == n / 0x100_0000 * 256 + n / 0x1_0000 % 256);
    assert(n / 0x100 == n / 0x1_0000 * 256 + n / 0x100 % 256);
    assert(n == n / 0x100 * 256 + n % 256);
}

/// Message types for the VPN data channel (one message per QUIC datagram).
///
/// The datagram boundary is the message length, so there is no length prefix:
/// the leading byte is the message type and the remainder is type-specific.
/// IP packet layout: `[0x00] [offload_len: 1] [offload: 0|10] [ip_packet]`.
/// Server-addresses layout: `[0x01] [json(ServerAddrsMsg)]`.
#[derive(Debug, Clone, Copy, PartialEq, Eq, Structural)]
pub enum DataMessageType {
    /// IP packet datagram.
    IpPacket,
    /// Server-published set of candidate underlay addresses (server to client only). The
    /// client installs bypass routes for any that a VPN route would otherwise capture.
    ServerAddrs,
}

/// The message type that a byte stands for.
pub open spec fn message_type_of(b: u8) -> Option<DataMessageType> {
    if b == 0x00 {
        Some(DataMessageType::IpPacket)
    } else if b == 0x01 {
        Some(DataMessageType::ServerAddrs)
    } else {
        None
    }
}

/// The byte that stands for a message type.
pub open spec fn message_type_byte(t: DataMessageType) -> u8 {
    match t {
        DataMessageType::IpPacket => 0x00,
        DataMessageType::ServerAddrs => 0x01,
    }
}

impl DataMessageType {
    /// Convert from byte value.
    pub fn from_byte(b: u8) -> (r: Option<Self>)
        ensures
            r == message_type_of(b),
    {
        match b {
            0x00 => Some(DataMessageType::IpPacket),
            0x01 => Some(DataMessageType::ServerAddrs),
            _ => None,
        }
    }

    /// Convert to byte value.
    pub fn as_byte(self) -> (b: u8)
        ensures
            b == message_type_byte(self),
    {
        match self {
            DataMessageType::IpPacket => 0x00,
            DataMessageType::ServerAddrs => 0x01,
        }
    }
}

/// A message type is the one that its byte stands for, and no other byte stands for it.
pub proof fn law_message_type_round_trip(t: DataMessageType, b: u8)
    ensures
        message_type_of(message_type_byte(t)) == Some(t),
        message_type_of(b) == Some(t) ==> b == message_type_byte(t),
{
}

/// Server to client publication of the candidate underlay addresses the server may be
/// reached on.
///
/// The client only ever *adds* bypass routes for those covered by a VPN route, so the
/// server can publish its full candidate set without the client pinning anything outside
/// the routed range.
#[derive(Debug, PartialEq, Eq)]
pub struct ServerAddrsMsg {
    /// Candidate underlay IP addresses (ports stripped; bypass routes are per-IP).
    pub addrs: Vec<IpAddr>,
}

impl ServerAddrsMsg {
    /// Create a new message from a set of candidate addresses.
    pub fn new(addrs: Vec<IpAddr>) -> (m: Self)
        ensures
            m.addrs == addrs,
    {
        ServerAddrsMsg { addrs }
    }
}

/// Error returned when converting an invalid byte to `DataMessageType`.
#[derive(Debug, Clone, Copy, PartialEq, Eq, Structural)]
pub struct InvalidMessageType(pub u8);

impl InvalidMessageType {
    /// The text that reports the error.
    pub fn message(&self) -> (s: String)
        ensures
            s@ == "invalid message type: 0x"@ + text::hex2(self.0),
    {
        let mut s = "invalid message type: 0x".to_owned();
        push_hex2(&mut s, self.0);
        s
    }
}

impl TryFrom<u8> for DataMessageType {
    type Error = InvalidMessageType;

    fn try_from(value: u8) -> (r: Result<Self, InvalidMessageType>) {
        match DataMessageType::from_byte(value) {
            Some(t) => Ok(t),
            None => Err(InvalidMessageType(value)),
        }
    }
}

impl vstd::std_specs::convert::TryFromSpecImpl<u8> for DataMessageType {
    open spec fn obeys_try_from_spec() -> bool {
        true
    }

    open spec fn try_from_spec(value: u8) -> Result<Self, InvalidMessageType> {
        match message_type_of(value) {
            Some(t) => Ok(t),
            None => Err(InvalidMessageType(value)),
        }
    }
}

impl From<DataMessageType> for u8 {
    fn from(value: DataMessageType) -> (b: Self) {
        value.as_byte()
    }
}

impl vstd::std_specs::convert::FromSpecImpl<DataMessageType> for u8 {
    open spec fn obeys_from_spec() -> bool {
        true
    }

    open spec fn from_spec(value: DataMessageType) -> Self {
        message_type_byte(value)
    }
}

/// Why a frame does not hold an IP packet.
pub open spec fn ip_frame_refusal(p: Seq<u8>) -> Option<Seq<char>> {
    let offload_len = p[0] as int;
    let start = 1 + offload_len;
    let version = p[start] >> 4;
    let len = (p.len() - start) as nat;
    if p.len() == 0 {
        Some("Empty IP frame payload"@)
    } else if offload_len != 0 && offload_len != VIRTIO_NET_HDR_LEN {
        Some(
            "Invalid offload metadata length "@ + text::dec(offload_len as nat)
                + " (expected 0 or 10)"@,
        )
    } else if p.len() <= start {
        Some("IP frame payload too short: "@ + text::dec(p.len()) + " bytes"@)
    } else if version == 4 && len < 20 {
        Some("IPv4 packet too short: "@ + text::dec(len) + " bytes (minimum 20)"@)
    } else if version == 6 && len < 40 {
        Some("IPv6 packet too short: "@ + text::dec(len) + " bytes (minimum 40)"@)
    } else if version != 4 && version != 6 {
        Some("Unsupported IP version: "@ + text::dec(version as nat))
    } else {
        None
    }
}

/// Parse a v2 IP packet frame payload (the datagram body after the type byte).
pub fn parse_ip_packet_v2(frame_payload: &[u8]) -> (r: Result<
    (Option<VirtioNetHdr>, &[u8]),
    VpnError,
>)
    ensures
        match ip_frame_refusal(frame_payload@) {
            Some(m) => vpn_error::fails(r, ErrorKind::Signaling, m),
            None => {
                let p = frame_payload@;
                &&& r is Ok
                &&& r->Ok_0.0 == (if p[0] == 0 {
                    None
                } else {
                    Some(virtio::header_of_bytes(p.subrange(1, 11)))
                })
                &&& r->Ok_0.1@ == p.skip(1 + p[0] as int)
            },
        },
{
    let n: usize = frame_payload.len();
    if n == 0 {
        return Err(VpnError::Signaling("Empty IP frame payload".to_owned()));
    }
    let offload_len: usize = frame_payload[0] as usize;
    if offload_len != 0 && offload_len != VIRTIO_NET_HDR_LEN {
        let mut m = "Invalid offload metadata length ".to_owned();
        push_dec(&mut m, offload_len as u64);
        m.append(" (expected 0 or 10)");
        return Err(VpnError::Signaling(m));
    }
    let offload_end: usize = 1 + offload_len;
    if n <= offload_end {
        let mut m = "IP frame payload too short: ".to_owned();
        push_dec(&mut m, n as u64);
        m.append(" bytes");
        return Err(VpnError::Signaling(m));
    }
    let version: u8 = high_nibble(frame_payload[offload_end]);
    let ip_len: usize = n - offload_end;
    if version == 4 {
        if ip_len < 20 {
            let mut m = "IPv4 packet too short: ".to_owned();
            push_dec(&mut m, ip_len as u64);
            m.append(" bytes (minimum 20)");
            return Err(VpnError::Signaling(m));
        }
    } else if version == 6 {
        if ip_len < 40 {
            let mut m = "IPv6 packet too short: ".to_owned();
            push_dec(&mut m, ip_len as u64);
            m.append(" bytes (minimum 40)");
            return Err(VpnError::Signaling(m));
        }
    } else {
        let mut m = "Unsupported IP version: ".to_owned();
        push_dec(&mut m, version as u64);
        return Err(VpnError::Signaling(m));
    }
    let packet = slice_subrange(frame_payload, offload_end, n);
    assert(packet@ =~= frame_payload@.skip(offload_end as int));
    if offload_len == 0 {
        return Ok((None, packet));
    }
    match VirtioNetHdr::from_bytes(slice_subrange(frame_payload, 1, offload_end)) {
        Ok(h) => Ok((Some(h), packet)),
        Err(e) => Err(VpnError::Signaling(e)),
    }
}

/// The windows of a connection are those that are set: the receive window is eight mebibytes
/// where it is not, and the send window follows the receive window.
pub proof fn law_windows_follow_each_other(t: TransportTuning)
    ensures
        ({
            let w = resolved(t);
            &&& w.congestion_controller == t.congestion_controller
            &&& t.receive_window is Some ==> w.receive_window == t.receive_window->0
            &&& t.receive_window is None ==> w.receive_window == 8388608
            &&& t.send_window is Some ==> w.send_window == t.send_window->0
            &&& t.send_window is None ==> w.send_window == w.receive_window
            &&& t.windows() == (w.receive_window, w.send_window)
        }),
{
}

/// An IP packet is taken out of a frame exactly if its metadata has no length or that of a
/// header, and what follows has a whole header of either IP version.
pub proof fn law_ip_frames_are_taken(p: Seq<u8>)
    ensures
        ({
            let start = 1 + p[0];
            let v = p[start] as int / 16;
            let len = p.len() - start;
            ip_frame_refusal(p) is None <==> {
                &&& p.len() >= 1
                &&& p[0] == 0 || p[0] == 10
                &&& v == 4 && len >= 20 || v == 6 && len >= 40
            }
        }),
{
    if p.len() > 1 + p[0] {
        wire::lemma_nibbles(p[1 + p[0]]);
    }
}

/// An accepted response is complete exactly if it assigns an address, and to each address that
/// it assigns a network and a gateway. A refusal needs nothing.
pub proof fn law_complete_responses(r: VpnHandshakeResponse)
    ensures
        !r.accepted ==> r.complete(),
        r.complete() && r.accepted && r.assigned_ip is None ==> r.assigned_ip6 is Some,
        r.complete() && r.accepted && r.assigned_ip is Some ==> r.network is Some && r.server_ip
            is Some,
        r.complete() && r.accepted && r.assigned_ip6 is Some ==> r.network6 is Some && r.server_ip6
            is Some,
        r.assigned_ip is Some && r.network is Some && r.server_ip is Some && (r.assigned_ip6 is None
            || r.network6 is Some && r.server_ip6 is Some) ==> r.complete(),
        r.assigned_ip6 is Some && r.network6 is Some && r.server_ip6 is Some && (r.assigned_ip
            is None || r.network is Some && r.server_ip is Some) ==> r.complete(),
{
}

/// A message of a type is told by one byte, zero for packets and one for the server's addresses;
/// no other byte names a type.
pub proof fn law_message_types_are_told_apart(b: u8)
    ensures
        message_type_of(b) is Some <==> b <= 1,
        message_type_of(b) == Some(DataMessageType::IpPacket) <==> b == 0,
        message_type_of(b) == Some(DataMessageType::ServerAddrs) <==> b == 1,
        message_type_byte(DataMessageType::IpPacket) == 0,
        message_type_byte(DataMessageType::ServerAddrs) == 1,
{
}

/// A message is framed by its length in four bytes, the most significant first, and nothing else.
pub proof fn law_messages_are_framed(data: Seq<u8>)
    requires
        data.len() <= u32::MAX,
    ensures
        ({
            let f = message_frame(data);
            &&& f.len() == 4 + data.len()
            &&& f[0] * 0x100_0000 + f[1] * 0x1_0000 + f[2] * 0x100 + f[3] == data.len()
            &&& f.skip(4) == data
            &&& wire::be32_at(f.take(4), 0) == data.len()
        }),
{
    let f = message_frame(data);
    assert(f.skip(4) =~= data);
}

/// A message that is framed is announced with its length to whoever allows as much, and refused by
/// whoever does not.
pub proof fn law_announced_messages_are_taken(data: Seq<u8>, max_size: usize)
    requires
        data.len() <= u32::MAX,
    ensures
        data.len() <= max_size ==> announced_len(message_frame(data).take(4), max_size) == Some(
            data.len(),
        ),
        data.len() > max_size ==> announced_len(message_frame(data).take(4), max_size) is None,
{
    law_messages_are_framed(data);
}

} // verus!
