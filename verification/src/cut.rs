//! TCP packets that are too long for a datagram, cut into shorter ones.
//!
//! A datagram is as long as the path allows at the time. A TCP packet that is longer is
//! segmented once more, to the size that fits; any other packet cannot be helped.

use vstd::prelude::*;
use crate::coalesce;
use crate::gro;
use crate::gro::{gro_classify, GroClass, TCP_FLAG_RST, TCP_FLAG_SYN, TCP_FLAG_URG};
use crate::headers;
use crate::headers::{IPV6_HEADER_LEN, TCP_CHECKSUM_OFFSET};
use crate::round_trip;
use crate::segment;
use crate::virtio::{
    VirtioNetHdr, VIRTIO_NET_HDR_F_NEEDS_CSUM, VIRTIO_NET_HDR_GSO_TCPV4, VIRTIO_NET_HDR_GSO_TCPV6,
};
use crate::wire;
use crate::wire::{high_nibble, low_nibble};

verus! {

/// Bytes in front of a packet that travels without metadata.
pub const PLAIN_PREFIX: usize = 2;

/// Where the parts of a TCP packet with payload lie.
#[derive(Debug, Clone, Copy, PartialEq, Eq, Structural)]
pub struct TcpData {
    pub is_ipv6: bool,
    /// Where the TCP header starts.
    pub tcp_offset: usize,
    /// Where the payload starts.
    pub header_len: usize,
}

/// Where the TCP header of a packet starts that carries TCP right behind its IP header.
pub open spec fn tcp_start(p: Seq<u8>) -> int {
    if headers::ip_version(p) == 6 {
        IPV6_HEADER_LEN as int
    } else {
        headers::ipv4_header_len(p)
    }
}

/// The parts of a whole TCP packet with payload. SYN, RST and URG give the sequence number
/// and the payload a meaning that does not survive cutting.
pub open spec fn tcp_data(p: Seq<u8>) -> Option<TcpData> {
    let t = tcp_start(p);
    let h = t + headers::tcp_header_len_at(p, t);
    if gro::gro_class(p) is PassThrough || h >= p.len() || p[t + 13] & (TCP_FLAG_SYN | TCP_FLAG_RST
        | TCP_FLAG_URG) != 0 {
        None
    } else {
        Some(
            TcpData {
                is_ipv6: headers::ip_version(p) == 6,
                tcp_offset: t as usize,
                header_len: h as usize,
            },
        )
    }
}

/// The packet is as its parts say.
proof fn lemma_tcp_data(p: Seq<u8>)
    requires
        tcp_data(p) is Some,
    ensures
        ({
            let d = tcp_data(p)->0;
            &&& d.tcp_offset == tcp_start(p)
            &&& d.header_len == tcp_start(p) + headers::tcp_header_len_at(p, tcp_start(p))
            &&& round_trip::tcp_shape(d.is_ipv6, d.tcp_offset as int, d.header_len as int, p)
            &&& d.header_len < p.len()
            &&& d.header_len <= 120
            &&& p.len() <= (if d.is_ipv6 {
                u16::MAX + 40
            } else {
                u16::MAX as int
            })
        }),
{
    let t = tcp_start(p);
    wire::lemma_nibbles(p[0]);
    wire::lemma_nibbles(p[t + 12]);
}

/// Finds the parts of a whole TCP packet with payload.
pub fn tcp_data_of(packet: &[u8]) -> (d: Option<TcpData>)
    ensures
        d == tcp_data(packet@),
{
    match gro_classify(packet) {
        GroClass::PassThrough => {
            return None;
        },
        _ => {},
    }
    let is_ipv6: bool = high_nibble(packet[0]) == 6;
    let t: usize = if is_ipv6 {
        IPV6_HEADER_LEN
    } else {
        low_nibble(packet[0]) as usize * 4
    };
    let header_len: usize = t + high_nibble(packet[t + 12]) as usize * 4;
    if header_len >= packet.len() || packet[t + 13] & (TCP_FLAG_SYN | TCP_FLAG_RST | TCP_FLAG_URG)
        != 0 {
        return None;
    }
    Some(TcpData { is_ipv6, tcp_offset: t, header_len })
}

/// How a packet has to be segmented to fit a datagram: not at all if it fits, if it is no
/// TCP packet with payload, or if its headers alone fill a datagram.
pub open spec fn cut_header(p: Seq<u8>, max_datagram_size: usize) -> Option<VirtioNetHdr> {
    match tcp_data(p) {
        Some(d) => if p.len() + PLAIN_PREFIX > max_datagram_size && d.header_len + PLAIN_PREFIX
            < max_datagram_size {
            Some(
                VirtioNetHdr {
                    flags: VIRTIO_NET_HDR_F_NEEDS_CSUM,
                    gso_type: if d.is_ipv6 {
                        VIRTIO_NET_HDR_GSO_TCPV6
                    } else {
                        VIRTIO_NET_HDR_GSO_TCPV4
                    },
                    hdr_len: d.header_len as u16,
                    gso_size: (max_datagram_size - PLAIN_PREFIX - d.header_len) as u16,
                    csum_start: d.tcp_offset as u16,
                    csum_offset: TCP_CHECKSUM_OFFSET as u16,
                    num_buffers: 0,
                },
            )
        } else {
            None
        },
        None => None,
    }
}

/// Decides how a packet has to be segmented to fit a datagram.
pub fn cut_header_of(packet: &[u8], max_datagram_size: usize) -> (h: Option<VirtioNetHdr>)
    requires
        packet@.len() + PLAIN_PREFIX <= usize::MAX,
    ensures
        h == cut_header(packet@, max_datagram_size),
{
    let d: TcpData = match tcp_data_of(packet) {
        Some(d) => d,
        None => {
            return None;
        },
    };
    proof {
        lemma_tcp_data(packet@);
    }
    if packet.len() + PLAIN_PREFIX <= max_datagram_size || d.header_len + PLAIN_PREFIX
        >= max_datagram_size {
        return None;
    }
    Some(
        VirtioNetHdr {
            flags: VIRTIO_NET_HDR_F_NEEDS_CSUM,
            gso_type: if d.is_ipv6 {
                VIRTIO_NET_HDR_GSO_TCPV6
            } else {
                VIRTIO_NET_HDR_GSO_TCPV4
            },
            hdr_len: d.header_len as u16,
            gso_size: (max_datagram_size - PLAIN_PREFIX - d.header_len) as u16,
            csum_start: d.tcp_offset as u16,
            csum_offset: TCP_CHECKSUM_OFFSET as u16,
            num_buffers: 0,
        },
    )
}

/// The packets that a plain packet goes out as.
pub open spec fn fitted(p: Seq<u8>, max_datagram_size: usize) -> Seq<Seq<u8>> {
    match cut_header(p, max_datagram_size) {
        Some(h) => segment::gso_emission(h, p).packets,
        None => seq![p],
    }
}

/// Metadata with the segment size lowered to what fits a datagram, where it has to be and
/// where the headers leave room.
pub open spec fn capped(h: VirtioNetHdr, max_datagram_size: usize) -> VirtioNetHdr {
    if h.hdr_len + PLAIN_PREFIX < max_datagram_size && max_datagram_size < h.hdr_len + h.gso_size
        + PLAIN_PREFIX {
        VirtioNetHdr { gso_size: (max_datagram_size - PLAIN_PREFIX - h.hdr_len) as u16, ..h }
    } else {
        h
    }
}

/// Lowers the segment size to what fits a datagram.
pub fn capped_of(h: &VirtioNetHdr, max_datagram_size: usize) -> (r: VirtioNetHdr)
    ensures
        r == capped(*h, max_datagram_size),
{
    let header_len: usize = h.hdr_len as usize;
    if header_len + PLAIN_PREFIX < max_datagram_size && max_datagram_size < header_len
        + h.gso_size as usize + PLAIN_PREFIX {
        VirtioNetHdr { gso_size: (max_datagram_size - PLAIN_PREFIX - header_len) as u16, ..*h }
    } else {
        *h
    }
}

/// The two TCP types carry no ECN mark.
proof fn lemma_tcp_types()
    ensures
        VIRTIO_NET_HDR_GSO_TCPV4 & !crate::virtio::VIRTIO_NET_HDR_GSO_ECN
            == VIRTIO_NET_HDR_GSO_TCPV4,
        VIRTIO_NET_HDR_GSO_TCPV6 & !crate::virtio::VIRTIO_NET_HDR_GSO_ECN
            == VIRTIO_NET_HDR_GSO_TCPV6,
{
    assert(1u8 & !0x80u8 == 1u8) by (bit_vector);
    assert(4u8 & !0x80u8 == 4u8) by (bit_vector);
}

/// A packet that has to be cut can be.
pub proof fn lemma_cut(p: Seq<u8>, max_datagram_size: usize)
    requires
        cut_header(p, max_datagram_size) is Some,
    ensures
        ({
            let h = cut_header(p, max_datagram_size)->0;
            let d = tcp_data(p)->0;
            let l = segment::gso_layout(h, p)->Ok_0;
            &&& h.tcp_gso()
            &&& round_trip::gso_packet(h, p)
            &&& l.is_ipv6 == d.is_ipv6
            &&& l.tcp_offset == d.tcp_offset
            &&& l.header_len == d.header_len
            &&& l.gso_size == max_datagram_size - PLAIN_PREFIX - d.header_len
            &&& p.len() - l.header_len > l.gso_size
            &&& segment::gso_emission(h, p).error is None
        }),
{
    lemma_tcp_data(p);
    lemma_tcp_types();
    let h = cut_header(p, max_datagram_size)->0;
    assert(round_trip::gso_packet(h, p));
    round_trip::law_segmentation_gives_burst(h, p);
}

/// A TCP packet with payload fits its datagrams, whatever their size, as long as there is room
/// for more than its headers.
pub proof fn law_cut_packets_fit(p: Seq<u8>, max_datagram_size: usize)
    requires
        tcp_data(p) is Some,
        tcp_data(p)->0.header_len + PLAIN_PREFIX < max_datagram_size,
    ensures
        forall|k: int|
            0 <= k < fitted(p, max_datagram_size).len() ==> (#[trigger] fitted(
                p,
                max_datagram_size,
            )[k]).len() + PLAIN_PREFIX <= max_datagram_size,
{
    if cut_header(p, max_datagram_size) is Some {
        let h = cut_header(p, max_datagram_size)->0;
        let d = tcp_data(p)->0;
        lemma_cut(p, max_datagram_size);
        round_trip::law_segmentation_gives_burst(h, p);
        let out = fitted(p, max_datagram_size);
        let g = max_datagram_size - PLAIN_PREFIX - d.header_len;
        assert forall|k: int| 0 <= k < out.len() implies (#[trigger] out[k]).len() + PLAIN_PREFIX
            <= max_datagram_size by {
            assert(round_trip::burst_member(
                d.is_ipv6,
                d.tcp_offset as int,
                d.header_len as int,
                g,
                out,
                k,
            ));
        }
    }
}

/// Cutting a TCP packet loses nothing: it gives one run of consecutive segments of the flow,
/// each with its lengths and checksums set, and their payloads in order are the payload.
pub proof fn law_cut_keeps_the_stream(p: Seq<u8>, max_datagram_size: usize)
    requires
        cut_header(p, max_datagram_size) is Some,
    ensures
        ({
            let d = tcp_data(p)->0;
            let t = d.tcp_offset as int;
            let h = d.header_len as int;
            let out = fitted(p, max_datagram_size);
            &&& round_trip::is_burst(
                d.is_ipv6,
                t,
                h,
                max_datagram_size - PLAIN_PREFIX - h,
                out,
            )
            &&& round_trip::stands_for(d.is_ipv6, t, h, p, out)
            &&& coalesce::payloads(out, h) == p.skip(h)
        }),
{
    lemma_cut(p, max_datagram_size);
    round_trip::law_segmentation_gives_burst(cut_header(p, max_datagram_size)->0, p);
}

/// The segments of a layout are no longer than its headers and its segment size.
pub proof fn lemma_segments_within(l: segment::GsoLayout, p: Seq<u8>, offset: int)
    requires
        l.fits(p.len()),
        0 <= offset,
    ensures
        forall|k: int|
            0 <= k < segment::segments_from(l, p, offset).packets.len() ==> (
            #[trigger] segment::segments_from(l, p, offset).packets[k]).len() <= l.header_len
                + l.gso_size,
    decreases
            (if offset < p.len() - l.header_len {
                p.len() - l.header_len - offset
            } else {
                0
            }),
{
    if offset < p.len() - l.header_len && segment::segment_at(l, p, offset) is Ok {
        reveal(segment::segment_sealed);
        let s = segment::segment_at(l, p, offset)->Ok_0;
        let rest = segment::segments_from(l, p, offset + l.gso_size);
        lemma_segments_within(l, p, offset + l.gso_size);
        assert(segment::segments_from(l, p, offset).packets == seq![s] + rest.packets);
        assert(s.len() == segment::segment_draft(l, p, offset).len());
        assert forall|k: int| 0 <= k < 1 + rest.packets.len() implies (#[trigger] (seq![s]
            + rest.packets)[k]).len() <= l.header_len + l.gso_size by {
            if k > 0 {
                assert((seq![s] + rest.packets)[k] == rest.packets[k - 1]);
            }
        }
    }
}

/// The segments of a packet with metadata fit their datagrams, whatever the segment size it
/// asks for, as long as there is room for more than its headers.
pub proof fn law_capped_segments_fit(h: VirtioNetHdr, p: Seq<u8>, max_datagram_size: usize)
    requires
        h.tcp_gso(),
        h.hdr_len + PLAIN_PREFIX < max_datagram_size,
    ensures
        forall|k: int|
            0 <= k < segment::gso_emission(capped(h, max_datagram_size), p).packets.len() ==> (
            #[trigger] segment::gso_emission(capped(h, max_datagram_size), p).packets[k]).len()
                + PLAIN_PREFIX <= max_datagram_size,
{
    let c = capped(h, max_datagram_size);
    if segment::gso_layout(c, p) is Ok {
        let l = segment::gso_layout(c, p)->Ok_0;
        assert(l.fits(p.len()));
        lemma_segments_within(l, p, 0);
    }
}

} // verus!
