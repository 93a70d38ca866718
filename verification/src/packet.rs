//! What the tunnel reads from a packet's IP and UDP headers.

use std::collections::HashSet;
use vstd::prelude::*;
use crate::addr::{Ipv4Addr, Ipv6Addr};
use crate::tcp_packet;
use crate::wire;
use crate::wire::{high_nibble, low_nibble, read_be128, read_be16, read_be32};

verus! {

broadcast use vstd::std_specs::hash::group_hash_axioms;

/// Minimum IPv4 header size (no options).
pub const IPV4_MIN_HEADER: usize = 20;

/// IPv6 header size (fixed).
pub const IPV6_MIN_HEADER: usize = 40;

/// IPv4 version nibble.
pub const IP_VERSION_4: u8 = 4;

/// IPv6 version nibble.
pub const IP_VERSION_6: u8 = 6;

/// The protocol number of UDP.
pub const PROTOCOL_UDP: u8 = 17;

/// The size of a UDP header.
pub const UDP_HEADER: usize = 8;

/// An address read from a packet (source or destination).
#[derive(Debug, Clone, Copy, PartialEq, Eq, Structural)]
pub enum PacketIp {
    V4(Ipv4Addr),
    V6(Ipv6Addr),
}

/// The address of a packet that an IPv4 header holds at `at4` and an IPv6 header at `at6`.
///
/// A packet with a truncated header, or of neither version, has none.
pub open spec fn address_at(p: Seq<u8>, at4: int, at6: int) -> Option<PacketIp> {
    if p.len() < IPV4_MIN_HEADER {
        None
    } else if p[0] >> 4 == IP_VERSION_4 {
        Some(PacketIp::V4(Ipv4Addr { bits: wire::be32_at(p, at4) }))
    } else if p[0] >> 4 == IP_VERSION_6 && p.len() >= IPV6_MIN_HEADER {
        Some(PacketIp::V6(Ipv6Addr { bits: wire::be128_at(p, at6) }))
    } else {
        None
    }
}

/// The source address of a packet.
pub open spec fn source_of(p: Seq<u8>) -> Option<PacketIp> {
    address_at(p, 12, 8)
}

/// The destination address of a packet.
pub open spec fn dest_of(p: Seq<u8>) -> Option<PacketIp> {
    address_at(p, 16, 24)
}

/// Reads an IPv4 address from a packet at the given offset.
pub fn read_ipv4_addr(packet: &[u8], offset: usize) -> (ip: Ipv4Addr)
    requires
        offset + 4 <= packet@.len(),
    ensures
        ip.bits == wire::be32_at(packet@, offset as int),
{
    Ipv4Addr { bits: read_be32(packet, offset) }
}

/// Reads an IPv6 address from a packet at the given offset.
pub fn read_ipv6_addr(packet: &[u8], offset: usize) -> (ip: Ipv6Addr)
    requires
        offset + 16 <= packet@.len(),
    ensures
        ip.bits == wire::be128_at(packet@, offset as int),
{
    Ipv6Addr { bits: read_be128(packet, offset) }
}

/// Extracts the source address of an IP packet (IPv4 or IPv6).
pub fn extract_source_ip(packet: &[u8]) -> (r: Option<PacketIp>)
    ensures
        r == source_of(packet@),
{
    let len: usize = packet.len();
    if len < IPV4_MIN_HEADER {
        return None;
    }
    let version: u8 = high_nibble(packet[0]);
    if version == IP_VERSION_4 {
        return Some(PacketIp::V4(read_ipv4_addr(packet, 12)));
    }
    if version == IP_VERSION_6 {
        if len < IPV6_MIN_HEADER {
            return None;
        }
        return Some(PacketIp::V6(read_ipv6_addr(packet, 8)));
    }
    None
}

/// Extracts the destination address of an IP packet (IPv4 or IPv6).
pub fn extract_dest_ip(packet: &[u8]) -> (r: Option<PacketIp>)
    ensures
        r == dest_of(packet@),
{
    let len: usize = packet.len();
    if len < IPV4_MIN_HEADER {
        return None;
    }
    let version: u8 = high_nibble(packet[0]);
    if version == IP_VERSION_4 {
        return Some(PacketIp::V4(read_ipv4_addr(packet, 16)));
    }
    if version == IP_VERSION_6 {
        if len < IPV6_MIN_HEADER {
            return None;
        }
        return Some(PacketIp::V6(read_ipv6_addr(packet, 24)));
    }
    None
}

/// Where the UDP header of a packet starts, if it has a whole one.
///
/// Under IPv6 only UDP as the first next-header counts.
pub open spec fn udp_header_at(p: Seq<u8>) -> Option<int> {
    let ihl = (p[0] & 0x0f) * 4;
    if p.len() < IPV4_MIN_HEADER {
        None
    } else if p[0] >> 4 == IP_VERSION_4 {
        if ihl < IPV4_MIN_HEADER || p.len() < ihl + UDP_HEADER || p[9] != PROTOCOL_UDP {
            None
        } else {
            Some(ihl)
        }
    } else if p[0] >> 4 == IP_VERSION_6 {
        if p.len() < IPV6_MIN_HEADER + UDP_HEADER || p[6] != PROTOCOL_UDP {
            None
        } else {
            Some(IPV6_MIN_HEADER as int)
        }
    } else {
        None
    }
}

/// The source and destination port of a UDP packet.
pub open spec fn udp_ports(p: Seq<u8>) -> Option<(u16, u16)> {
    match udp_header_at(p) {
        Some(at) => Some((wire::be16_at(p, at), wire::be16_at(p, at + 2))),
        None => None,
    }
}

/// Extracts the UDP source and destination ports of an IPv4 or IPv6 packet.
///
/// Under IPv6 only packets with UDP as the first next-header are parsed.
pub fn extract_udp_ports(packet: &[u8]) -> (r: Option<(u16, u16)>)
    ensures
        r == udp_ports(packet@),
{
    if packet.len() < IPV4_MIN_HEADER {
        return None;
    }
    let version: u8 = high_nibble(packet[0]);
    if version == IP_VERSION_4 {
        let ihl: usize = low_nibble(packet[0]) as usize * 4;
        if ihl < IPV4_MIN_HEADER || packet.len() < ihl + UDP_HEADER {
            return None;
        }
        if packet[9] != PROTOCOL_UDP {
            return None;
        }
        Some((read_be16(packet, ihl), read_be16(packet, ihl + 2)))
    } else if version == IP_VERSION_6 {
        if packet.len() < IPV6_MIN_HEADER + UDP_HEADER {
            return None;
        }
        if packet[6] != PROTOCOL_UDP {
            return None;
        }
        Some((read_be16(packet, 40), read_be16(packet, 42)))
    } else {
        None
    }
}

/// A UDP packet from or to one of the ports.
pub open spec fn uses_port(p: Seq<u8>, ports: Set<u16>) -> bool {
    match udp_ports(p) {
        Some((src, dst)) => ports.contains(src) || ports.contains(dst),
        None => false,
    }
}

/// Whether the packet is UDP and its source or destination port is a blocked one.
pub fn packet_has_local_iroh_udp_port(packet: &[u8], blocked_ports: &HashSet<u16>) -> (r: bool)
    ensures
        r == uses_port(packet@, blocked_ports@),
{
    match extract_udp_ports(packet) {
        Some((src_port, dst_port)) => blocked_ports.contains(&src_port) || blocked_ports.contains(
            &dst_port,
        ),
        None => false,
    }
}

/// The packets that carry the tunnel's own transport are told by their ports alone: a packet
/// that is not UDP, or whose ports are all free, is never taken for one.
pub proof fn law_only_blocked_ports_are_filtered(p: Seq<u8>, ports: Set<u16>)
    ensures
        udp_ports(p) is None ==> !uses_port(p, ports),
        ports == Set::<u16>::empty() ==> !uses_port(p, ports),
        forall|more: Set<u16>|
            #![trigger ports.subset_of(more)]
            ports.subset_of(more) && uses_port(p, ports) ==> uses_port(p, more),
{
}

/// The addresses of a packet are the bytes of its header: of an IPv4 packet the four at 12 and at
/// 16, of an IPv6 packet the sixteen at 8 and at 24. Every packet with a whole header of either
/// version has both, and no other packet has any.
pub proof fn law_addresses_are_read(p: Seq<u8>)
    ensures
        ({
            let version = tcp_packet::version(p);
            let v4 = version == 4 && p.len() >= 20;
            let v6 = version == 6 && p.len() >= 40;
            &&& source_of(p) is Some <==> v4 || v6
            &&& dest_of(p) is Some <==> v4 || v6
            &&& v4 ==> {
                &&& source_of(p) matches Some(PacketIp::V4(a)) && a.bits == tcp_packet::number(
                    p.subrange(12, 16),
                )
                &&& dest_of(p) matches Some(PacketIp::V4(a)) && a.bits == tcp_packet::number(
                    p.subrange(16, 20),
                )
            }
            &&& v6 ==> {
                &&& source_of(p) matches Some(PacketIp::V6(a)) && a.bits == tcp_packet::number(
                    p.subrange(8, 24),
                )
                &&& dest_of(p) matches Some(PacketIp::V6(a)) && a.bits == tcp_packet::number(
                    p.subrange(24, 40),
                )
            }
        }),
{
    if p.len() >= 20 {
        wire::lemma_nibbles(p[0]);
        tcp_packet::lemma_number4(p, 12);
        tcp_packet::lemma_number4(p, 16);
    }
    if p.len() >= 40 {
        tcp_packet::lemma_number16(p, 8);
        tcp_packet::lemma_number16(p, 24);
    }
}

/// A packet uses a port if it carries a whole UDP header right behind its IP header, of either
/// version and options included, that names the port as its source or as its destination.
pub proof fn law_ports_are_read(p: Seq<u8>, ports: Set<u16>)
    ensures
        ({
            let t = tcp_packet::ip_end(p);
            let udp4 = tcp_packet::version(p) == 4 && p.len() >= 20 && t >= 20 && p[9] == 17;
            let udp6 = tcp_packet::version(p) == 6 && p.len() >= 40 && p[6] == 17;
            let src = tcp_packet::number(p.subrange(t, t + 2)) as u16;
            let dst = tcp_packet::number(p.subrange(t + 2, t + 4)) as u16;
            uses_port(p, ports) <==> (udp4 || udp6) && t + 8 <= p.len() && (ports.contains(src)
                || ports.contains(dst))
        }),
{
    if p.len() >= 20 {
        let t = tcp_packet::ip_end(p);
        wire::lemma_nibbles(p[0]);
        if t + 8 <= p.len() {
            tcp_packet::lemma_number2(p, t);
            tcp_packet::lemma_number2(p, t + 2);
        }
    }
}

} // verus!
