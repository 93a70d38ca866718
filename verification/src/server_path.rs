//! What a server does with the packets of its clients, and with the packets for them.

use bytes::{Bytes, BytesMut};
use std::collections::HashSet;
use vstd::prelude::*;
use vstd::string::*;
use crate::addr;
use crate::addr::{Ipv4Addr, Ipv6Addr};
use crate::buffer;
use crate::buffer::bytes_as_slice;
use crate::client_gro;
use crate::client_gro::ClientGroStates;
use crate::datagram;
use crate::datagram::{open_datagram, tun_writes, Opened, TunWrite};
use crate::error::OffloadError;
use crate::flow_order;
use crate::gro;
use crate::gro::{CoalescedOutput, GroPush};
use crate::identity::ClientKey;
use crate::packet;
use crate::packet::{
    extract_dest_ip, extract_source_ip, packet_has_local_iroh_udp_port, PacketIp,
};
use crate::registry;
use crate::registry::{ClientRegistry, ClientState};
use crate::server::VpnServer;
use crate::stats;
use crate::stats::{Counter, VpnServerStats};
use crate::underlay;
use crate::underlay::is_link_local6;
use crate::virtio;
use crate::virtio::{split_tun_frame, VirtioNetHdr};
use crate::vpn_error;
use crate::vpn_error::{ErrorKind, VpnError};

verus! {

/// What becomes of a packet that a client sends.
#[derive(Debug, Clone, Copy, PartialEq, Eq, Structural)]
pub enum Verdict {
    /// It is one of the tunnel's own transport.
    OwnTransport,
    /// Its source address is not the client's to use.
    Spoofed,
    /// It is for another client, or for the sender itself.
    InterClient,
    /// It goes to the TUN device.
    Accept,
}

/// A client may use a source address that is assigned to it or to nobody. Link-local addresses
/// cannot be routed, and a packet without a readable source is not trusted.
pub open spec fn source_allowed(p: Seq<u8>, v: registry::RegistryView, key: ClientKey) -> bool {
    match packet::source_of(p) {
        None => false,
        Some(ip) => {
            &&& ip matches PacketIp::V6(a) ==> !underlay::link_local6(a)
            &&& registry::owner_of(v, ip) is None || registry::owner_of(v, ip) == Some(key)
        },
    }
}

/// The packet is for an address that is assigned to a client.
pub open spec fn for_a_client(p: Seq<u8>, v: registry::RegistryView) -> bool {
    match packet::dest_of(p) {
        Some(ip) => registry::owner_of(v, ip) is Some,
        None => false,
    }
}

/// What becomes of a packet from the client `key`.
pub open spec fn verdict_on(
    p: Seq<u8>,
    ports: Set<u16>,
    v: registry::RegistryView,
    key: ClientKey,
) -> Verdict {
    if packet::uses_port(p, ports) {
        Verdict::OwnTransport
    } else if !source_allowed(p, v, key) {
        Verdict::Spoofed
    } else if for_a_client(p, v) {
        Verdict::InterClient
    } else {
        Verdict::Accept
    }
}

/// The statistics after a verdict.
pub open spec fn stats_after(s: VpnServerStats, verdict: Verdict) -> VpnServerStats {
    match verdict {
        Verdict::Spoofed => stats::counted(s, Counter::PacketsSpoofed, 1),
        Verdict::InterClient => stats::counted(s, Counter::PacketsInterClientBlocked, 1),
        _ => s,
    }
}

/// Whether the client may use the source address of the packet.
pub fn source_valid(packet: &[u8], clients: &ClientRegistry, key: &ClientKey) -> (r: bool)
    ensures
        r == source_allowed(packet@, clients@, *key),
{
    let ip: PacketIp = match extract_source_ip(packet) {
        Some(ip) => ip,
        None => {
            return false;
        },
    };
    let local: bool = match &ip {
        PacketIp::V4(_) => false,
        PacketIp::V6(a) => is_link_local6(a),
    };
    if local {
        return false;
    }
    match clients.owner(ip) {
        Some(owner) => owner == *key,
        None => true,
    }
}

/// Whether the packet is for an address that is assigned to a client.
pub fn to_vpn_client(packet: &[u8], clients: &ClientRegistry) -> (r: bool)
    ensures
        r == for_a_client(packet@, clients@),
{
    match extract_dest_ip(packet) {
        Some(ip) => clients.is_assigned(ip),
        None => false,
    }
}

/// What a datagram from a client leads to.
#[derive(Debug)]
pub enum ClientInbound {
    /// It cannot be told, or it is no packet in good order.
    Ignore(VpnError),
    /// A message that only the server sends.
    Unexpected,
    /// The packet is held back.
    HeldBack(Verdict),
    /// The metadata of the packet cannot be turned into plain packets.
    Drop(String),
    /// Packets for the TUN device.
    Write(Vec<TunWrite>),
}

/// What a datagram from a client leads to.
pub enum ClientInboundView {
    Ignore(Seq<char>),
    Unexpected,
    HeldBack(Verdict),
    Drop(OffloadError),
    Write(Seq<(Seq<u8>, Option<VirtioNetHdr>)>),
}

/// What a datagram from the client `key` leads to, by what it holds.
pub open spec fn client_inbound(
    d: Seq<u8>,
    ports: Set<u16>,
    v: registry::RegistryView,
    key: ClientKey,
    gso: bool,
) -> ClientInboundView {
    match datagram::received(d) {
        datagram::Received::Refused(m) => ClientInboundView::Ignore(m),
        datagram::Received::ServerAddrs(_) => ClientInboundView::Unexpected,
        datagram::Received::Packet { offload, at } => {
            let p = d.skip(at);
            let verdict = verdict_on(p, ports, v, key);
            if !(verdict is Accept) {
                ClientInboundView::HeldBack(verdict)
            } else {
                match datagram::writes_of(offload, p, gso) {
                    Ok(w) => ClientInboundView::Write(w),
                    Err(e) => ClientInboundView::Drop(e),
                }
            }
        },
    }
}

/// The outcome is what it should be.
pub open spec fn leads_to(r: ClientInbound, v: ClientInboundView) -> bool {
    match (r, v) {
        (ClientInbound::Ignore(e), ClientInboundView::Ignore(m)) => e.kind()
            == ErrorKind::Signaling && e.text() == m,
        (ClientInbound::Unexpected, ClientInboundView::Unexpected) => true,
        (ClientInbound::HeldBack(a), ClientInboundView::HeldBack(b)) => a == b,
        (ClientInbound::Drop(m), ClientInboundView::Drop(e)) => m@ == e.text(),
        (ClientInbound::Write(w), ClientInboundView::Write(v)) => datagram::written(w@) == v,
        _ => false,
    }
}

/// Why the service of a client ended.
#[derive(Debug)]
pub enum ClientEnd {
    /// Its datagrams came to an end.
    InboundDone,
    /// The task that reads its datagrams panicked.
    InboundPanicked(String),
    /// The task that reads its datagrams could not be waited for.
    InboundFailed(String),
    /// Sending to it failed.
    WriterFailed(String),
    /// There is nothing to send to it any more.
    WriterClosed,
}

/// What the end of the service is reported as; `None` for an end in good order.
pub open spec fn end_text(end: ClientEnd) -> Option<Seq<char>> {
    match end {
        ClientEnd::InboundDone => None,
        ClientEnd::InboundPanicked(m) => Some("inbound task panicked: "@ + m@),
        ClientEnd::InboundFailed(m) => Some("inbound task failed: "@ + m@),
        ClientEnd::WriterFailed(m) => Some(m@),
        ClientEnd::WriterClosed => None,
    }
}

/// What the service of a client ended with.
pub fn client_ended(end: ClientEnd) -> (r: Result<(), VpnError>)
    ensures
        match end_text(end) {
            None => r is Ok,
            Some(m) => vpn_error::fails(r, ErrorKind::ConnectionLost, m),
        },
{
    match end {
        ClientEnd::InboundDone => Ok(()),
        ClientEnd::InboundPanicked(m) => {
            let mut s = "inbound task panicked: ".to_owned();
            s.append(m.as_str());
            Err(VpnError::ConnectionLost(s))
        },
        ClientEnd::InboundFailed(m) => {
            let mut s = "inbound task failed: ".to_owned();
            s.append(m.as_str());
            Err(VpnError::ConnectionLost(s))
        },
        ClientEnd::WriterFailed(m) => Err(VpnError::ConnectionLost(m)),
        ClientEnd::WriterClosed => Ok(()),
    }
}

/// What a client is called in reports: its IPv4 address, or its IPv6 address where it has no
/// other.
pub fn client_label(assigned_ip: Option<Ipv4Addr>, assigned_ip6: Option<Ipv6Addr>) -> (s: Option<
    String,
>)
    ensures
        match (assigned_ip, assigned_ip6) {
            (Some(a), _) => s is Some && s->0@ == a.text(),
            (None, Some(a)) => s is Some && s->0@ == addr::ipv6_text(a.bits),
            (None, None) => s is None,
        },
{
    match (assigned_ip, assigned_ip6) {
        (Some(a), _) => Some(a.to_text()),
        (None, Some(a)) => Some(a.to_text()),
        (None, None) => None,
    }
}

/// Where a frame of the server's TUN device goes.
#[derive(Debug)]
pub enum Routed<'a> {
    /// The frame cannot be read.
    Unreadable(String),
    /// The packet is one of the tunnel's own transport.
    OwnTransport,
    /// The packet has no destination that can be read.
    UnknownVersion,
    /// The destination is no client's.
    NoRoute,
    /// The packet is for this client.
    To {
        key: ClientKey,
        state: ClientState,
        offload: Option<VirtioNetHdr>,
        packet: &'a [u8],
    },
}

/// Where a frame goes.
pub enum RouteView {
    Unreadable(OffloadError),
    OwnTransport,
    UnknownVersion,
    NoRoute,
    To { key: ClientKey, state: ClientState, offload: Option<VirtioNetHdr>, packet: Seq<u8> },
}

/// Where a frame goes, by the destination of its packet.
pub open spec fn route_of(
    frame: Seq<u8>,
    vnet_hdr_enabled: bool,
    ports: Set<u16>,
    v: registry::RegistryView,
) -> RouteView {
    match virtio::split_frame(frame, vnet_hdr_enabled) {
        Err(e) => RouteView::Unreadable(e),
        Ok((offload, p)) => if packet::uses_port(p, ports) {
            RouteView::OwnTransport
        } else {
            match packet::dest_of(p) {
                None => RouteView::UnknownVersion,
                Some(ip) => match registry::owner_of(v, ip) {
                    None => RouteView::NoRoute,
                    Some(key) => if v.clients.contains_key(registry::ident(key)) {
                        RouteView::To {
                            key,
                            state: v.clients[registry::ident(key)],
                            offload,
                            packet: p,
                        }
                    } else {
                        RouteView::NoRoute
                    },
                },
            }
        },
    }
}

/// The route is what it should be.
pub open spec fn routes(r: Routed<'_>, v: RouteView) -> bool {
    match (r, v) {
        (Routed::Unreadable(m), RouteView::Unreadable(e)) => m@ == e.text(),
        (Routed::OwnTransport, RouteView::OwnTransport) => true,
        (Routed::UnknownVersion, RouteView::UnknownVersion) => true,
        (Routed::NoRoute, RouteView::NoRoute) => true,
        (
            Routed::To { key, state, offload, packet },
            RouteView::To { key: vk, state: vs, offload: vo, packet: vp },
        ) => key == vk && state == vs && offload == vo && packet@ == vp,
        _ => false,
    }
}

/// The statistics after a frame was routed.
pub open spec fn stats_routed(s: VpnServerStats, v: RouteView) -> VpnServerStats {
    let read = stats::counted(s, Counter::TunPacketsRead, 1);
    match v {
        RouteView::UnknownVersion => stats::counted(read, Counter::PacketsUnknownVersion, 1),
        RouteView::NoRoute => stats::counted(read, Counter::PacketsNoRoute, 1),
        _ => read,
    }
}

impl VpnServer {
    /// Judges a packet from a client, and counts it if it is held back.
    ///
    /// A source address of another client is spoofed; addresses that the VPN has not assigned are
    /// let through. Clients never reach each other, whatever the source: only addresses of
    /// clients are registered, so that the server's own stays reachable.
    pub fn judge(&mut self, packet: &[u8], own_ports: &HashSet<u16>, key: &ClientKey) -> (v: Verdict)
        ensures
            v == verdict_on(packet@, own_ports@, old(self).registry@, *key),
            *final(self) == (VpnServer {
                stats: stats_after(old(self).stats, v),
                ..*old(self)
            }),
    {
        if packet_has_local_iroh_udp_port(packet, own_ports) {
            return Verdict::OwnTransport;
        }
        if !source_valid(packet, &self.registry, key) {
            self.stats.count(Counter::PacketsSpoofed, 1);
            return Verdict::Spoofed;
        }
        if to_vpn_client(packet, &self.registry) {
            self.stats.count(Counter::PacketsInterClientBlocked, 1);
            return Verdict::InterClient;
        }
        Verdict::Accept
    }

    /// Takes up a datagram from a client. A packet that is accepted goes to the TUN device, with
    /// its metadata if both the connection and the device have offload.
    pub fn take_client_datagram(
        &mut self,
        key: &ClientKey,
        connection_gso_active: bool,
        dgram: &Bytes,
        own_ports: &HashSet<u16>,
        arena: &mut BytesMut,
    ) -> (r: ClientInbound)
        requires
            buffer::bytes_content(*dgram).len() <= isize::MAX,
            buffer::buffer_content(*old(arena)).len() == 0,
        ensures
            buffer::buffer_content(*final(arena)).len() == 0,
            match datagram::received(buffer::bytes_content(*dgram)) {
                datagram::Received::Refused(m) => {
                    &&& *final(self) == *old(self)
                    &&& r is Ignore
                    &&& r->Ignore_0.kind() == ErrorKind::Signaling
                    &&& r->Ignore_0.text() == m
                },
                datagram::Received::ServerAddrs(_) => r is Unexpected && *final(self) == *old(self),
                datagram::Received::Packet { offload, at } => {
                    let p = buffer::bytes_content(*dgram).skip(at);
                    let verdict = verdict_on(p, own_ports@, old(self).registry@, *key);
                    &&& *final(self) == (VpnServer {
                        stats: stats_after(old(self).stats, verdict),
                        ..*old(self)
                    })
                    &&& if verdict is Accept {
                        match datagram::writes_of(
                            offload,
                            p,
                            connection_gso_active && old(self).local_gso_enabled,
                        ) {
                            Ok(w) => r is Write && datagram::written(r->Write_0@) == w,
                            Err(e) => r is Drop && r->Drop_0@ == e.text(),
                        }
                    } else {
                        r == ClientInbound::HeldBack(verdict)
                    }
                },
            },
            leads_to(
                r,
                client_inbound(
                    buffer::bytes_content(*dgram),
                    own_ports@,
                    old(self).registry@,
                    *key,
                    connection_gso_active && old(self).local_gso_enabled,
                ),
            ),
    {
        let (offload, at) = match open_datagram(dgram) {
            Opened::Refused(e) => {
                return ClientInbound::Ignore(e);
            },
            Opened::ServerAddrs(_) => {
                return ClientInbound::Unexpected;
            },
            Opened::Packet { offload, at } => (offload, at),
        };
        let bytes = bytes_as_slice(dgram);
        let packet = vstd::slice::slice_subrange(bytes, at, bytes.len());
        assert(packet@ =~= bytes@.skip(at as int));
        let verdict = self.judge(packet, own_ports, key);
        if verdict != Verdict::Accept {
            return ClientInbound::HeldBack(verdict);
        }
        match tun_writes(
            dgram,
            offload,
            at,
            connection_gso_active && self.local_gso_enabled,
            arena,
        ) {
            Ok(w) => ClientInbound::Write(w),
            Err(m) => ClientInbound::Drop(m),
        }
    }

    /// Finds the client that a frame of the TUN device is for, and counts the frame.
    pub fn route_frame<'a>(
        &mut self,
        frame: &'a [u8],
        vnet_hdr_enabled: bool,
        own_ports: &HashSet<u16>,
    ) -> (r: Routed<'a>)
        ensures
            ({
                let v = route_of(frame@, vnet_hdr_enabled, own_ports@, old(self).registry@);
                &&& routes(r, v)
                &&& *final(self) == (VpnServer {
                    stats: stats_routed(old(self).stats, v),
                    ..*old(self)
                })
            }),
    {
        self.stats.count(Counter::TunPacketsRead, 1);
        let (offload, packet) = match split_tun_frame(frame, vnet_hdr_enabled) {
            Ok(parts) => parts,
            Err(m) => {
                return Routed::Unreadable(m);
            },
        };
        if packet_has_local_iroh_udp_port(packet, own_ports) {
            return Routed::OwnTransport;
        }
        let ip: PacketIp = match extract_dest_ip(packet) {
            Some(ip) => ip,
            None => {
                self.stats.count(Counter::PacketsUnknownVersion, 1);
                return Routed::UnknownVersion;
            },
        };
        let key: ClientKey = match self.registry.owner(ip) {
            Some(key) => key,
            None => {
                self.stats.count(Counter::PacketsNoRoute, 1);
                return Routed::NoRoute;
            },
        };
        match self.registry.client(&key) {
            Some(state) => Routed::To { key, state, offload, packet },
            None => {
                self.stats.count(Counter::PacketsNoRoute, 1);
                Routed::NoRoute
            },
        }
    }

    /// Counts a packet whose client takes no datagrams.
    pub fn no_datagrams(&mut self)
        ensures
            *final(self) == (VpnServer {
                stats: stats::counted(old(self).stats, Counter::PacketsNoRoute, 1),
                ..*old(self)
            }),
    {
        self.stats.count(Counter::PacketsNoRoute, 1);
    }
}

/// What pushing a packet for a client comes to: the packet itself where the device or the client
/// does not ask for merging, and otherwise what the client's table makes of it.
pub open spec fn coalesced_for(
    v: client_gro::PendingByClient,
    vnet_hdr_enabled: bool,
    key: ClientKey,
    state: ClientState,
    p: Seq<u8>,
) -> (client_gro::PendingByClient, gro::PushOutcome) {
    let table = client_gro::pending_for(v, key);
    if vnet_hdr_enabled || !state.client_gso_enabled {
        (v, gro::PushOutcome { table, outputs: Seq::empty(), pass_through: true })
    } else {
        let o = gro::pushed(table, p);
        (v.insert(key, (state.session_id, o.table)), o)
    }
}

/// What is sent for a packet to a client: outputs of earlier packets, and behind them the packet
/// itself, unless it was coalesced.
///
/// Packets are coalesced where the server's TUN device does not do it, for clients that take
/// metadata.
pub fn coalesce_for_client(
    states: &mut ClientGroStates,
    vnet_hdr_enabled: bool,
    key: ClientKey,
    state: &ClientState,
    packet: &[u8],
) -> (r: GroPush)
    requires
        old(states).wf(),
    ensures
        final(states).wf(),
        if vnet_hdr_enabled || !state.client_gso_enabled {
            &&& *final(states) == *old(states)
            &&& r.outputs@.len() == 0
            &&& r.pass_through
        } else {
            let o = gro::pushed(client_gro::pending_for(old(states)@, key), packet@);
            &&& final(states)@ == old(states)@.insert(key, (state.session_id, o.table))
            &&& gro::output_views(r.outputs@) == o.outputs
            &&& r.pass_through == o.pass_through
        },
        ({
            let (after, o) = coalesced_for(old(states)@, vnet_hdr_enabled, key, *state, packet@);
            &&& final(states)@ == after
            &&& gro::output_views(r.outputs@) == o.outputs
            &&& r.pass_through == o.pass_through
        }),
{
    if vnet_hdr_enabled || !state.client_gso_enabled {
        let outputs: Vec<CoalescedOutput> = Vec::new();
        assert(gro::output_views(outputs@) =~= Seq::<gro::OutputView>::empty());
        return GroPush { outputs, pass_through: true };
    }
    states.push(key, state.session_id, packet)
}

/// Clients are kept apart: a packet that goes through is never for an address of a client.
pub proof fn law_clients_are_isolated(
    p: Seq<u8>,
    ports: Set<u16>,
    v: registry::RegistryView,
    key: ClientKey,
    ip: PacketIp,
)
    requires
        verdict_on(p, ports, v, key) is Accept,
        packet::dest_of(p) == Some(ip),
    ensures
        registry::owner_of(v, ip) is None,
{
}

/// Clients cannot pose as each other: the source of a packet that goes through is an address of
/// the client itself or of nobody.
pub proof fn law_sources_are_not_spoofed(
    p: Seq<u8>,
    ports: Set<u16>,
    v: registry::RegistryView,
    key: ClientKey,
    other: ClientKey,
    ip: PacketIp,
)
    requires
        verdict_on(p, ports, v, key) is Accept,
        packet::source_of(p) == Some(ip),
        registry::owner_of(v, ip) == Some(other),
    ensures
        other == key,
{
}

/// A client gets what is for it: once it is entered, a readable packet for an address of its own
/// is routed to it, unless the packet is one of the tunnel's own transport.
pub proof fn law_packets_reach_their_client(
    frame: Seq<u8>,
    vnet_hdr_enabled: bool,
    ports: Set<u16>,
    v: registry::RegistryView,
    a: registry::Arrival,
    ip: PacketIp,
)
    requires
        virtio::split_frame(frame, vnet_hdr_enabled) is Ok,
        ({
            let (_, p) = virtio::split_frame(frame, vnet_hdr_enabled)->Ok_0;
            !packet::uses_port(p, ports) && packet::dest_of(p) == Some(ip)
        }),
        match ip {
            PacketIp::V4(x) => a.assigned_ip == Some(x),
            PacketIp::V6(x) => a.assigned_ip6 == Some(x),
        },
    ensures
        ({
            let (offload, p) = virtio::split_frame(frame, vnet_hdr_enabled)->Ok_0;
            let w = registry::arrived(v, a);
            route_of(frame, vnet_hdr_enabled, ports, w) == (RouteView::To {
                key: a.key,
                state: w.clients[registry::ident(a.key)],
                offload,
                packet: p,
            })
        }),
{
    registry::law_arrival_is_found(v, a, ip);
}

/// What no rule holds back is let through: a packet that does not use a port of the tunnel's own,
/// from an address that is the client's or nobody's and not link-local, to an address that no
/// client owns, goes to the TUN device, whatever the IP version of either.
pub proof fn law_other_destinations_are_let_through(
    p: Seq<u8>,
    ports: Set<u16>,
    v: registry::RegistryView,
    key: ClientKey,
    from: PacketIp,
    to: PacketIp,
)
    requires
        !packet::uses_port(p, ports),
        packet::source_of(p) == Some(from),
        from matches PacketIp::V6(a) ==> !(0xfe80 <= a.bits
            / 0x1_0000_0000_0000_0000_0000_0000_0000 <= 0xfebf),
        registry::owner_of(v, from) is None || registry::owner_of(v, from) == Some(key),
        packet::dest_of(p) == Some(to),
        registry::owner_of(v, to) is None,
    ensures
        verdict_on(p, ports, v, key) == Verdict::Accept,
{
}

/// Every verdict has its reason, and only that: a port of the tunnel's own, a source that is
/// unreadable, link-local or another client's, a destination that a client owns, or none of them.
pub proof fn law_verdicts_have_their_reasons(
    p: Seq<u8>,
    ports: Set<u16>,
    v: registry::RegistryView,
    key: ClientKey,
)
    ensures
        ({
            let verdict = verdict_on(p, ports, v, key);
            let own = packet::uses_port(p, ports);
            let foreign = match packet::source_of(p) {
                None => true,
                Some(PacketIp::V4(a)) => v.owners4.contains_key(a.bits as u128)
                    && v.owners4[a.bits as u128] != registry::ident(key),
                Some(PacketIp::V6(a)) => 0xfe80 <= a.bits
                    / 0x1_0000_0000_0000_0000_0000_0000_0000 <= 0xfebf || v.owners6.contains_key(
                    a.bits,
                ) && v.owners6[a.bits] != registry::ident(key),
            };
            let assigned = match packet::dest_of(p) {
                None => false,
                Some(PacketIp::V4(a)) => v.owners4.contains_key(a.bits as u128),
                Some(PacketIp::V6(a)) => v.owners6.contains_key(a.bits),
            };
            &&& verdict is OwnTransport <==> own
            &&& verdict is Spoofed <==> !own && foreign
            &&& verdict is InterClient <==> !own && !foreign && assigned
            &&& verdict is Accept <==> !own && !foreign && !assigned
            &&& verdict is InterClient ==> packet::dest_of(p) is Some && registry::owner_of(
                v,
                packet::dest_of(p)->0,
            ) is Some
        }),
{
    if let Some(ip) = packet::source_of(p) {
        assert(registry::client_of(registry::ident(key)) == key);
    }
}

/// A client reaches the outside from the address that it was assigned: once it has arrived, its
/// packets from that address to an address that no client owns are let through.
pub proof fn law_arrived_clients_reach_the_outside(
    p: Seq<u8>,
    ports: Set<u16>,
    v: registry::RegistryView,
    a: registry::Arrival,
    from: PacketIp,
    to: PacketIp,
)
    requires
        !packet::uses_port(p, ports),
        packet::source_of(p) == Some(from),
        packet::dest_of(p) == Some(to),
        match from {
            PacketIp::V4(x) => a.assigned_ip == Some(x),
            PacketIp::V6(x) => a.assigned_ip6 == Some(x) && !(0xfe80 <= x.bits
                / 0x1_0000_0000_0000_0000_0000_0000_0000 <= 0xfebf),
        },
        registry::owner_of(registry::arrived(v, a), to) is None,
    ensures
        verdict_on(p, ports, registry::arrived(v, a), a.key) == Verdict::Accept,
{
    registry::law_arrival_is_found(v, a, from);
}

/// A packet from the TUN device goes to the client that owns its destination, and to nobody if
/// no connected client does.
pub proof fn law_frames_follow_their_destination(
    p: Seq<u8>,
    ports: Set<u16>,
    v: registry::RegistryView,
    to: PacketIp,
)
    requires
        !packet::uses_port(p, ports),
        packet::dest_of(p) == Some(to),
    ensures
        registry::owner_of(v, to) is None ==> route_of(p, false, ports, v) is NoRoute,
        registry::owner_of(v, to) matches Some(key) ==> match route_of(p, false, ports, v) {
            RouteView::To { key: k, state, offload, packet } => {
                &&& k == key
                &&& v.clients.contains_key(registry::ident(key))
                &&& state == v.clients[registry::ident(key)]
                &&& offload is None
                &&& packet == p
            },
            RouteView::NoRoute => !v.clients.contains_key(registry::ident(key)),
            _ => false,
        },
{
}

/// Every packet that is held back from a client counts once, under the reason for it, and every
/// frame of the TUN device counts as read, and once more if it leads nowhere.
pub proof fn law_every_packet_is_counted(
    s: VpnServerStats,
    verdict: Verdict,
    route: RouteView,
    c: Counter,
)
    ensures
        ({
            let judged = stats::value(stats_after(s, verdict), c);
            let routed = stats::value(stats_routed(s, route), c);
            let one = (stats::value(s, c) + 1) % 0x1_0000_0000_0000_0000;
            &&& judged == (if c is PacketsSpoofed && verdict is Spoofed || c
                is PacketsInterClientBlocked && verdict is InterClient {
                one
            } else {
                stats::value(s, c) as int
            })
            &&& routed == (if c is TunPacketsRead || c is PacketsUnknownVersion && route
                is UnknownVersion || c is PacketsNoRoute && route is NoRoute {
                one
            } else {
                stats::value(s, c) as int
            })
        }),
{
}

/// A packet of a client that is let through goes to the TUN device: as it is if it has no
/// metadata or offload is on, and otherwise as the plain packets that it stands for. One that is
/// not let through goes nowhere, with or without metadata, and a client cannot tell the server
/// addresses.
pub proof fn law_accepted_packets_reach_the_device(
    offload: Option<VirtioNetHdr>,
    p: Seq<u8>,
    ports: Set<u16>,
    v: registry::RegistryView,
    key: ClientKey,
    gso: bool,
    message: Seq<u8>,
)
    requires
        datagram::carries(p),
    ensures
        client_inbound(datagram::server_addrs_datagram(message), ports, v, key, gso) is Unexpected,
        ({
            let r = client_inbound(datagram::ip_datagram(offload, p), ports, v, key, gso);
            let verdict = verdict_on(p, ports, v, key);
            &&& !(verdict is Accept) ==> r == ClientInboundView::HeldBack(verdict)
            &&& verdict is Accept ==> {
                &&& r is Write || r is Drop
                &&& offload is None ==> r == ClientInboundView::Write(
                    seq![(p, None::<VirtioNetHdr>)],
                )
                &&& offload is Some && gso ==> r == ClientInboundView::Write(
                    seq![(p, datagram::carried(offload))],
                )
                &&& offload is Some && !gso && r is Write ==> {
                    let plain = datagram::stands_for(datagram::carried(offload), p);
                    &&& r->Write_0.len() == plain.len()
                    &&& forall|k: int|
                        0 <= k < plain.len() ==> (#[trigger] r->Write_0[k]).0 == plain[k]
                            && r->Write_0[k].1 is None
                }
            }
        }),
{
    datagram::law_datagram_round_trip(offload, p);
    datagram::law_server_addrs_datagram_round_trip(message);
    datagram::law_writes_stand_for_the_packet(datagram::carried(offload), p, gso);
}

/// Merging for a client keeps every flow of it in order and touches no other client. Where the
/// device gives metadata or the client takes none, nothing is held back.
pub proof fn law_each_client_keeps_its_flows(
    v: client_gro::PendingByClient,
    vnet_hdr_enabled: bool,
    key: ClientKey,
    state: ClientState,
    p: Seq<u8>,
    k: gro::TcpFlowKey,
    other: ClientKey,
)
    requires
        flow_order::sorted_by_flow(client_gro::pending_for(v, key)),
        other != key,
    ensures
        ({
            let (w, o) = coalesced_for(v, vnet_hdr_enabled, key, state, p);
            let before = client_gro::pending_for(v, key);
            let after = client_gro::pending_for(w, key);
            &&& client_gro::pending_for(w, other) == client_gro::pending_for(v, other)
            &&& flow_order::sorted_by_flow(after)
            &&& vnet_hdr_enabled || !state.client_gso_enabled ==> w == v && o.pass_through
                && o.outputs.len() == 0
            &&& !vnet_hdr_enabled && state.client_gso_enabled ==> {
                &&& w.contains_key(key)
                &&& w[key] == (state.session_id, after)
                &&& flow_order::push_events(o, p, k) + flow_order::held(after, k)
                    == flow_order::held(before, k) + flow_order::packet_events(p, k)
            }
        }),
{
    flow_order::law_push_keeps_every_flow(client_gro::pending_for(v, key), p, k);
}

/// The packet of a frame goes where its destination leads, with the metadata that came with it:
/// to the client that owns the address, unless it uses a port of the tunnel's own.
pub proof fn law_frames_go_to_the_owner(
    frame: Seq<u8>,
    vnet_hdr_enabled: bool,
    ports: Set<u16>,
    v: registry::RegistryView,
)
    ensures
        ({
            let read = virtio::split_frame(frame, vnet_hdr_enabled);
            let r = route_of(frame, vnet_hdr_enabled, ports, v);
            &&& r is Unreadable <==> read is Err
            &&& read matches Ok((offload, p)) ==> {
                let to = packet::dest_of(p);
                let owner = if to is Some {
                    registry::owner_of(v, to->0)
                } else {
                    None
                };
                let known = owner is Some && v.clients.contains_key(registry::ident(owner->0));
                let own = packet::uses_port(p, ports);
                &&& r is OwnTransport <==> own
                &&& r is UnknownVersion <==> !own && to is None
                &&& r is NoRoute <==> !own && to is Some && !known
                &&& r is To <==> !own && known
                &&& r matches RouteView::To { key, state, offload: o, packet } ==> {
                    &&& owner == Some(key)
                    &&& state == v.clients[registry::ident(key)]
                    &&& o == offload
                    &&& packet == p
                }
            }
        }),
{
}

/// A client whose service ended in good order is not reported; any other end is told with its
/// cause.
pub proof fn law_ends_are_told(end: ClientEnd)
    ensures
        end_text(end) is None <==> end is InboundDone || end is WriterClosed,
        end matches ClientEnd::WriterFailed(m) ==> end_text(end) == Some(m@),
        end matches ClientEnd::InboundPanicked(m) ==> end_text(end) is Some && end_text(
            end,
        )->0.skip("inbound task panicked: "@.len() as int) == m@,
        end matches ClientEnd::InboundFailed(m) ==> end_text(end) is Some && end_text(end)->0.skip(
            "inbound task failed: "@.len() as int,
        ) == m@,
{
    if let ClientEnd::InboundPanicked(m) = end {
        let a = "inbound task panicked: "@;
        assert((a + m@).skip(a.len() as int) =~= m@);
    }
    if let ClientEnd::InboundFailed(m) = end {
        let a = "inbound task failed: "@;
        assert((a + m@).skip(a.len() as int) =~= m@);
    }
}

/// A source may be used exactly if it can be read, is not link-local, and is the client's own or
/// nobody's; a packet is for a client exactly if its destination is somebody's.
pub proof fn law_addresses_decide(p: Seq<u8>, v: registry::RegistryView, key: ClientKey)
    ensures
        source_allowed(p, v, key) <==> match packet::source_of(p) {
            None => false,
            Some(PacketIp::V4(a)) => !v.owners4.contains_key(a.bits as u128)
                || v.owners4[a.bits as u128] == registry::ident(key),
            Some(PacketIp::V6(a)) => !(0xfe80 <= a.bits / 0x1_0000_0000_0000_0000_0000_0000_0000
                <= 0xfebf) && (!v.owners6.contains_key(a.bits) || v.owners6[a.bits]
                == registry::ident(key)),
        },
        for_a_client(p, v) <==> match packet::dest_of(p) {
            None => false,
            Some(PacketIp::V4(a)) => v.owners4.contains_key(a.bits as u128),
            Some(PacketIp::V6(a)) => v.owners6.contains_key(a.bits),
        },
{
    assert(registry::client_of(registry::ident(key)) == key);
}

/// What is told of a routed frame is the route itself, with the packet and the metadata.
pub proof fn law_routes_are_told(r: Routed<'_>, v: RouteView)
    requires
        routes(r, v),
    ensures
        r is Unreadable <==> v is Unreadable,
        r is OwnTransport <==> v is OwnTransport,
        r is UnknownVersion <==> v is UnknownVersion,
        r is NoRoute <==> v is NoRoute,
        r is To <==> v is To,
        match (r, v) {
            (
                Routed::To { key, state, offload, packet },
                RouteView::To { key: k, state: s, offload: o, packet: p },
            ) => key == k && state == s && offload == o && packet@ == p,
            _ => true,
        },
{
}

/// What is told of a client's datagram is its outcome, with what is to be written.
pub proof fn law_client_outcomes_are_told(r: ClientInbound, v: ClientInboundView)
    requires
        leads_to(r, v),
    ensures
        r is Ignore <==> v is Ignore,
        r is Unexpected <==> v is Unexpected,
        r is HeldBack <==> v is HeldBack,
        r is Drop <==> v is Drop,
        r is Write <==> v is Write,
        r is HeldBack ==> r->HeldBack_0 == v->HeldBack_0,
        r is Write ==> datagram::written(r->Write_0@) == v->Write_0,
{
}

} // verus!
