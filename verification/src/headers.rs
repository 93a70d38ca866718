//! Length and checksum fields of IP and TCP headers.

use vstd::prelude::*;
use vstd::slice::slice_subrange;
use crate::checksum;
use crate::checksum::{add_bytes, finalize_checksum, fold_checksum};
use crate::error;
use crate::error::OffloadError;
use crate::wire;
use crate::wire::{low_nibble, write_be16};

verus! {

/// The protocol number of TCP.
pub const PROTOCOL_TCP: u8 = 6;

/// Length of the fixed IPv4 header.
pub const IPV4_HEADER_LEN: usize = 20;

/// Length of the fixed IPv6 header.
pub const IPV6_HEADER_LEN: usize = 40;

/// Length of a TCP header without options.
pub const TCP_MIN_HEADER_LEN: usize = 20;

/// Offset of the checksum field in a TCP header.
pub const TCP_CHECKSUM_OFFSET: usize = 16;

/// The IP version in the first byte of a packet.
pub open spec fn ip_version(p: Seq<u8>) -> u8 {
    p[0] >> 4
}

/// The length of an IPv4 header, options included.
pub open spec fn ipv4_header_len(p: Seq<u8>) -> int {
    (p[0] & 0x0f) * 4
}

/// The length of the TCP header that starts at `t`, options included.
pub open spec fn tcp_header_len_at(p: Seq<u8>, t: int) -> int {
    (p[t + 12] >> 4) * 4
}

/// `p` with its IPv4 total length set to `packet_len` and its header checksum at zero.
pub open spec fn ipv4_with_length(p: Seq<u8>, packet_len: u16) -> Seq<u8> {
    wire::put_be16(wire::put_be16(p, 2, packet_len), 10, 0)
}

/// The value of the IPv4 header checksum field, taken over a header whose own
/// checksum field is zero.
pub open spec fn ipv4_header_checksum(p: Seq<u8>) -> u16 {
    checksum::complement(checksum::word_sum(p.take(ipv4_header_len(p)))) as u16
}

/// `p` with its IPv4 total length set to `packet_len` and its header checksum renewed.
pub open spec fn ipv4_finished(p: Seq<u8>, packet_len: nat) -> Result<Seq<u8>, OffloadError> {
    if p.len() < IPV4_HEADER_LEN {
        Err(OffloadError::Ipv4TooShort)
    } else if p[9] != PROTOCOL_TCP {
        Err(OffloadError::Ipv4Protocol { protocol: p[9] })
    } else if ipv4_header_len(p) < IPV4_HEADER_LEN || ipv4_header_len(p) > p.len() {
        Err(OffloadError::Ipv4HeaderLen { ihl: ipv4_header_len(p) as usize })
    } else if packet_len > u16::MAX {
        Err(OffloadError::Ipv4TooLarge { len: packet_len as usize })
    } else {
        let q = ipv4_with_length(p, packet_len as u16);
        Ok(wire::put_be16(q, 10, ipv4_header_checksum(q)))
    }
}

/// `p` with its IPv6 payload length set for a packet of `packet_len` bytes.
pub open spec fn ipv6_finished(p: Seq<u8>, packet_len: nat) -> Result<Seq<u8>, OffloadError> {
    if p.len() < IPV6_HEADER_LEN {
        Err(OffloadError::Ipv6TooShort)
    } else if packet_len < IPV6_HEADER_LEN {
        Err(OffloadError::Ipv6Underflow)
    } else if packet_len - IPV6_HEADER_LEN > u16::MAX {
        Err(OffloadError::Ipv6TooLarge { len: (packet_len - IPV6_HEADER_LEN) as usize })
    } else {
        Ok(wire::put_be16(p, 4, (packet_len - IPV6_HEADER_LEN) as u16))
    }
}

/// The sum of the pseudo-header that TCP checksums cover: the addresses, the
/// protocol, and the TCP length in as many words as the IP version gives it.
pub open spec fn pseudo_header_sum(p: Seq<u8>, is_ipv6: bool, tcp_len: nat) -> nat {
    if is_ipv6 {
        checksum::word_sum(p.subrange(8, 40)) + PROTOCOL_TCP as nat + tcp_len / 0x1_0000 % 0x1_0000
            + tcp_len % 0x1_0000
    } else {
        checksum::word_sum(p.subrange(12, 20)) + PROTOCOL_TCP as nat + tcp_len % 0x1_0000
    }
}

/// The sum that the checksum of the TCP segment at `t` covers, in 32 bits.
pub open spec fn tcp_sum(p: Seq<u8>, is_ipv6: bool, t: int) -> nat {
    (pseudo_header_sum(p, is_ipv6, (p.len() - t) as nat) + checksum::word_sum(p.skip(t)))
        % checksum::SUM_MODULUS as nat
}

/// The checksum of the TCP segment at `t` in an IPv4 packet.
pub open spec fn tcp_checksum_v4(p: Seq<u8>, t: int) -> Result<u16, OffloadError> {
    if p.len() < IPV4_HEADER_LEN || t >= p.len() {
        Err(OffloadError::Ipv4TcpOffset)
    } else if p.len() - t > u16::MAX {
        Err(OffloadError::Ipv4TcpLen { len: (p.len() - t) as usize })
    } else {
        Ok(checksum::complement(tcp_sum(p, false, t)) as u16)
    }
}

/// The checksum of the TCP segment at `t` in an IPv6 packet.
pub open spec fn tcp_checksum_v6(p: Seq<u8>, t: int) -> Result<u16, OffloadError> {
    if p.len() < IPV6_HEADER_LEN || t >= p.len() {
        Err(OffloadError::Ipv6TcpOffset)
    } else if p.len() - t > u32::MAX {
        Err(OffloadError::Ipv6TcpLen { len: (p.len() - t) as usize })
    } else {
        Ok(checksum::complement(tcp_sum(p, true, t)) as u16)
    }
}

/// The folded pseudo-header sum of the TCP segment at `t`.
pub open spec fn tcp_partial_checksum(p: Seq<u8>, is_ipv6: bool, t: int) -> Result<
    u16,
    OffloadError,
> {
    if t > p.len() {
        Err(OffloadError::PseudoUnderflow)
    } else if is_ipv6 && p.len() < IPV6_HEADER_LEN {
        Err(OffloadError::PseudoIpv6TooShort)
    } else if is_ipv6 && p.len() - t > u32::MAX {
        Err(OffloadError::PseudoTcpLen { len: (p.len() - t) as usize })
    } else if !is_ipv6 && p.len() < IPV4_HEADER_LEN {
        Err(OffloadError::PseudoIpv4TooShort)
    } else if !is_ipv6 && p.len() - t > u16::MAX {
        Err(OffloadError::PseudoTcpLen { len: (p.len() - t) as usize })
    } else {
        Ok(checksum::fold(pseudo_header_sum(p, is_ipv6, (p.len() - t) as nat)) as u16)
    }
}

/// `p` with its length fields set to its length, and the IPv4 header checksum renewed.
pub open spec fn length_finished(is_ipv6: bool, p: Seq<u8>) -> Result<Seq<u8>, OffloadError> {
    if is_ipv6 {
        ipv6_finished(p, p.len())
    } else {
        ipv4_finished(p, p.len())
    }
}

/// A packet made ready for segmentation offload: its lengths set, and the partial
/// checksum of the TCP segment at `t` in that segment's checksum field.
pub open spec fn offload_finished(is_ipv6: bool, t: int, p: Seq<u8>) -> Result<
    Seq<u8>,
    OffloadError,
> {
    match length_finished(is_ipv6, p) {
        Err(e) => Err(e),
        Ok(q) => match tcp_partial_checksum(q, is_ipv6, t) {
            Err(e) => Err(e),
            Ok(c) => Ok(wire::put_be16(q, t + TCP_CHECKSUM_OFFSET, c)),
        },
    }
}

/// Sets the IPv4 total length and renews the header checksum. A refused packet
/// is left as it was.
pub fn update_ipv4_lengths_and_checksum(packet: &mut [u8], packet_len: usize) -> (r: Result<
    (),
    String,
>)
    ensures
        match ipv4_finished(old(packet)@, packet_len as nat) {
            Ok(p) => r is Ok && final(packet)@ == p,
            Err(e) => error::reports(r, e) && final(packet)@ == old(packet)@,
        },
{
    if packet.len() < IPV4_HEADER_LEN {
        return Err(OffloadError::Ipv4TooShort.message());
    }
    if packet[9] != PROTOCOL_TCP {
        return Err(OffloadError::Ipv4Protocol { protocol: packet[9] }.message());
    }
    let ihl: usize = low_nibble(packet[0]) as usize * 4;
    if ihl < IPV4_HEADER_LEN || ihl > packet.len() {
        return Err(OffloadError::Ipv4HeaderLen { ihl }.message());
    }
    if packet_len > u16::MAX as usize {
        return Err(OffloadError::Ipv4TooLarge { len: packet_len }.message());
    }
    let ghost p = packet@;
    write_be16(packet, 2, packet_len as u16);
    write_be16(packet, 10, 0);
    let ghost q = packet@;
    assert(q == ipv4_with_length(p, packet_len as u16));
    assert(q[0] == p[0]);
    let covered = slice_subrange(packet, 0, ihl);
    assert(covered@ =~= q.take(ihl as int));
    proof {
        checksum::lemma_word_sum_bound(covered@);
    }
    let value: u16 = finalize_checksum(add_bytes(0, covered));
    write_be16(packet, 10, value);
    Ok(())
}

/// Sets the IPv6 payload length. A refused packet is left as it was.
pub fn update_ipv6_payload_length(packet: &mut [u8], packet_len: usize) -> (r: Result<(), String>)
    ensures
        match ipv6_finished(old(packet)@, packet_len as nat) {
            Ok(p) => r is Ok && final(packet)@ == p,
            Err(e) => error::reports(r, e) && final(packet)@ == old(packet)@,
        },
{
    if packet.len() < IPV6_HEADER_LEN {
        return Err(OffloadError::Ipv6TooShort.message());
    }
    if packet_len < IPV6_HEADER_LEN {
        return Err(OffloadError::Ipv6Underflow.message());
    }
    let payload_len: usize = packet_len - IPV6_HEADER_LEN;
    if payload_len > u16::MAX as usize {
        return Err(OffloadError::Ipv6TooLarge { len: payload_len }.message());
    }
    write_be16(packet, 4, payload_len as u16);
    Ok(())
}

/// Sums the pseudo-header of a TCP segment of `tcp_len` bytes.
fn add_pseudo_header(packet: &[u8], is_ipv6: bool, tcp_len: usize) -> (sum: u32)
    requires
        is_ipv6 ==> packet@.len() >= IPV6_HEADER_LEN,
        !is_ipv6 ==> packet@.len() >= IPV4_HEADER_LEN,
    ensures
        sum == pseudo_header_sum(packet@, is_ipv6, tcp_len as nat),
        sum <= 65535 * 20,
{
    let low: u32 = (tcp_len % 0x1_0000) as u32;
    if is_ipv6 {
        let high: u32 = (tcp_len / 0x1_0000 % 0x1_0000) as u32;
        let addresses = slice_subrange(packet, 8, 40);
        proof {
            checksum::lemma_word_sum_bound(addresses@);
        }
        add_bytes(0, addresses) + PROTOCOL_TCP as u32 + high + low
    } else {
        let addresses = slice_subrange(packet, 12, 20);
        proof {
            checksum::lemma_word_sum_bound(addresses@);
        }
        add_bytes(0, addresses) + PROTOCOL_TCP as u32 + low
    }
}

/// Sums a TCP segment with its pseudo-header.
fn add_tcp_segment(packet: &[u8], is_ipv6: bool, tcp_offset: usize) -> (sum: u32)
    requires
        is_ipv6 ==> packet@.len() >= IPV6_HEADER_LEN,
        !is_ipv6 ==> packet@.len() >= IPV4_HEADER_LEN,
        tcp_offset <= packet@.len(),
    ensures
        sum == tcp_sum(packet@, is_ipv6, tcp_offset as int),
{
    let segment = slice_subrange(packet, tcp_offset, packet.len());
    assert(segment@ =~= packet@.skip(tcp_offset as int));
    add_bytes(add_pseudo_header(packet, is_ipv6, packet.len() - tcp_offset), segment)
}

/// Computes the TCP checksum of an IPv4 packet whose TCP header starts at `tcp_offset`.
pub fn tcp_checksum_ipv4(packet: &[u8], tcp_offset: usize) -> (r: Result<u16, String>)
    ensures
        match tcp_checksum_v4(packet@, tcp_offset as int) {
            Ok(c) => r is Ok && r->Ok_0 == c,
            Err(e) => error::reports(r, e),
        },
{
    if packet.len() < IPV4_HEADER_LEN || tcp_offset >= packet.len() {
        return Err(OffloadError::Ipv4TcpOffset.message());
    }
    let tcp_len: usize = packet.len() - tcp_offset;
    if tcp_len > u16::MAX as usize {
        return Err(OffloadError::Ipv4TcpLen { len: tcp_len }.message());
    }
    Ok(finalize_checksum(add_tcp_segment(packet, false, tcp_offset)))
}

/// Computes the TCP checksum of an IPv6 packet whose TCP header starts at `tcp_offset`.
pub fn tcp_checksum_ipv6(packet: &[u8], tcp_offset: usize) -> (r: Result<u16, String>)
    ensures
        match tcp_checksum_v6(packet@, tcp_offset as int) {
            Ok(c) => r is Ok && r->Ok_0 == c,
            Err(e) => error::reports(r, e),
        },
{
    if packet.len() < IPV6_HEADER_LEN || tcp_offset >= packet.len() {
        return Err(OffloadError::Ipv6TcpOffset.message());
    }
    let tcp_len: usize = packet.len() - tcp_offset;
    if tcp_len as u64 > u32::MAX as u64 {
        return Err(OffloadError::Ipv6TcpLen { len: tcp_len }.message());
    }
    Ok(finalize_checksum(add_tcp_segment(packet, true, tcp_offset)))
}

/// Compute the partial (folded, NOT complemented) TCP pseudo-header checksum
/// the kernel expects in the TCP checksum field of a `NEEDS_CSUM` frame.
///
/// `tcp_len` is the TCP header plus payload length covered by the frame.
pub fn tcp_pseudo_header_partial(ip_packet: &[u8], is_ipv6: bool, tcp_len: usize) -> (r: u16)
    requires
        is_ipv6 ==> ip_packet@.len() >= IPV6_HEADER_LEN,
        !is_ipv6 ==> ip_packet@.len() >= IPV4_HEADER_LEN,
    ensures
        r == checksum::fold(pseudo_header_sum(ip_packet@, is_ipv6, tcp_len as nat)),
{
    fold_checksum(add_pseudo_header(ip_packet, is_ipv6, tcp_len))
}

/// Partial pseudo-header checksum stored in the TCP checksum field of a
/// TCP GSO packet (folded but NOT complemented): the device sums the TCP header
/// and payload on top of it and complements the result per segment.
pub fn tcp_pseudo_header_partial_checksum(packet: &[u8], is_v6: bool, tcp_offset: usize) -> (r:
    Result<u16, String>)
    ensures
        match tcp_partial_checksum(packet@, is_v6, tcp_offset as int) {
            Ok(c) => r is Ok && r->Ok_0 == c,
            Err(e) => error::reports(r, e),
        },
{
    if tcp_offset > packet.len() {
        return Err(OffloadError::PseudoUnderflow.message());
    }
    let tcp_len: usize = packet.len() - tcp_offset;
    if is_v6 {
        if packet.len() < IPV6_HEADER_LEN {
            return Err(OffloadError::PseudoIpv6TooShort.message());
        }
        if tcp_len as u64 > u32::MAX as u64 {
            return Err(OffloadError::PseudoTcpLen { len: tcp_len }.message());
        }
    } else {
        if packet.len() < IPV4_HEADER_LEN {
            return Err(OffloadError::PseudoIpv4TooShort.message());
        }
        if tcp_len > u16::MAX as usize {
            return Err(OffloadError::PseudoTcpLen { len: tcp_len }.message());
        }
    }
    Ok(fold_checksum(add_pseudo_header(packet, is_v6, tcp_len)))
}

} // verus!
