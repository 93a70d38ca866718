//! Merging consecutive TCP segments of one flow into a single frame for the TUN device.

use bytes::{Bytes, BytesMut};
use vstd::prelude::*;
use vstd::slice::slice_subrange;
use crate::buffer;
use crate::buffer::{
    buffer_as_mut_slice,
    buffer_clear,
    buffer_put_slice,
    buffer_reserve,
    bytes_as_slice,
};
use crate::error;
use crate::error::OffloadError;
use crate::headers;
use crate::headers::{
    tcp_pseudo_header_partial,
    update_ipv4_lengths_and_checksum,
    update_ipv6_payload_length,
    IPV4_HEADER_LEN,
    IPV6_HEADER_LEN,
    PROTOCOL_TCP,
    TCP_CHECKSUM_OFFSET,
    TCP_MIN_HEADER_LEN,
};
use crate::virtio::{
    VirtioNetHdr,
    VIRTIO_NET_HDR_F_NEEDS_CSUM,
    VIRTIO_NET_HDR_GSO_TCPV4,
    VIRTIO_NET_HDR_GSO_TCPV6,
    VIRTIO_NET_HDR_LEN,
};
use crate::wire;
use crate::wire::{high_nibble, low_nibble, read_be16, read_be32, same_range, write_be16};

verus! {

/// TCP flag bits that disqualify a segment from coalescing (FIN/SYN/RST/URG).
pub const TCP_FLAGS_NO_COALESCE: u8 = 0x27;

/// Parsed coalescing-relevant fields of a plain (no vnet header) TCP segment.
///
/// Only produced by [`parse_coalescible_tcp`] for segments that satisfy the
/// per-packet coalescing rules.
#[derive(Debug, Clone, Copy, PartialEq, Eq, Structural)]
pub struct TcpSegmentMeta {
    pub is_ipv6: bool,
    /// IP header length: always 20 (IPv4, no options) or 40 (IPv6, no
    /// extension headers).
    pub ip_header_len: usize,
    pub tcp_header_len: usize,
    pub seq: u32,
    pub payload_len: usize,
}

impl TcpSegmentMeta {
    /// The length of the IP and TCP headers together.
    pub open spec fn headers(self) -> int {
        self.ip_header_len + self.tcp_header_len
    }

    /// The header lengths are possible, and lie inside a packet of `len` bytes.
    pub open spec fn within(self, len: nat) -> bool {
        &&& self.ip_header_len == (if self.is_ipv6 {
            IPV6_HEADER_LEN
        } else {
            IPV4_HEADER_LEN
        })
        &&& TCP_MIN_HEADER_LEN <= self.tcp_header_len <= 60
        &&& self.headers() <= len
    }

    /// The length of the IP and TCP headers together.
    pub fn header_len(&self) -> (n: usize)
        requires
            self.headers() <= usize::MAX,
        ensures
            n == self.headers(),
    {
        self.ip_header_len + self.tcp_header_len
    }
}

/// An IPv4 packet without options, fragmentation or ECN marks, that carries TCP and
/// whose total length is its length.
pub open spec fn plain_ipv4_tcp(p: Seq<u8>) -> bool {
    &&& p.len() >= IPV4_HEADER_LEN
    &&& p[0] & 0x0f == 5
    &&& p[9] == PROTOCOL_TCP
    &&& wire::be16_at(p, 6) & 0x3fff == 0
    &&& p[1] & 0x03 == 0
    &&& wire::be16_at(p, 2) == p.len()
}

/// An IPv6 packet without extension headers or ECN marks, that carries TCP and
/// whose payload length is that of what follows its header.
pub open spec fn plain_ipv6_tcp(p: Seq<u8>) -> bool {
    &&& p.len() >= IPV6_HEADER_LEN
    &&& p[6] == PROTOCOL_TCP
    &&& (p[1] >> 4) & 0x03 == 0
    &&& wire::be16_at(p, 4) == p.len() - IPV6_HEADER_LEN
}

/// The coalescing-relevant fields of a packet, if it is a TCP segment that can be merged
/// with its neighbours: a data segment without SYN, FIN, RST or URG.
pub open spec fn coalescible(p: Seq<u8>) -> Option<TcpSegmentMeta> {
    let version = headers::ip_version(p);
    let is_ipv6 = version == 6;
    let t = if is_ipv6 {
        IPV6_HEADER_LEN as int
    } else {
        IPV4_HEADER_LEN as int
    };
    let tcp_header_len = headers::tcp_header_len_at(p, t);
    if p.len() > 0 && (version == 4 && plain_ipv4_tcp(p) || version == 6 && plain_ipv6_tcp(p))
        && p.len() >= t + TCP_MIN_HEADER_LEN && tcp_header_len >= TCP_MIN_HEADER_LEN && t
        + tcp_header_len < p.len() && p[t + 13] & TCP_FLAGS_NO_COALESCE == 0 {
        Some(
            TcpSegmentMeta {
                is_ipv6,
                ip_header_len: t as usize,
                tcp_header_len: tcp_header_len as usize,
                seq: wire::be32_at(p, t + 4),
                payload_len: (p.len() - t - tcp_header_len) as usize,
            },
        )
    } else {
        None
    }
}

/// Parse a plain IP packet, returning metadata only if it is a coalescible
/// pure-data TCP segment.
///
/// Returns `None` (excluding the packet from coalescing, never an error) for:
/// non-TCP packets, IPv4 with options or fragmentation, IPv6 with extension
/// headers, ECN-marked packets, segments carrying SYN/FIN/RST/URG, empty payloads,
/// and packets whose IP length fields disagree with the buffer length.
pub fn parse_coalescible_tcp(packet: &[u8]) -> (r: Option<TcpSegmentMeta>)
    ensures
        r == coalescible(packet@),
        r is Some ==> r->0.within(packet@.len()) && r->0.headers() + r->0.payload_len
            == packet@.len() && 0 < r->0.payload_len <= 65535,
{
    if packet.is_empty() {
        return None;
    }
    let version: u8 = high_nibble(packet[0]);
    let is_ipv6: bool = version == 6;
    let t: usize = if version == 4 {
        if packet.len() < IPV4_HEADER_LEN {
            return None;
        }
        if low_nibble(packet[0]) != 5 || packet[9] != PROTOCOL_TCP {
            return None;
        }
        if read_be16(packet, 6) & 0x3fff != 0 {
            return None;
        }
        if packet[1] & 0x03 != 0 {
            return None;
        }
        if read_be16(packet, 2) as usize != packet.len() {
            return None;
        }
        IPV4_HEADER_LEN
    } else if version == 6 {
        if packet.len() < IPV6_HEADER_LEN {
            return None;
        }
        if packet[6] != PROTOCOL_TCP {
            return None;
        }
        // The low two bits of the traffic class.
        if (packet[1] >> 4) & 0x03 != 0 {
            return None;
        }
        if read_be16(packet, 4) as usize != packet.len() - IPV6_HEADER_LEN {
            return None;
        }
        IPV6_HEADER_LEN
    } else {
        return None;
    };
    if packet.len() < t + TCP_MIN_HEADER_LEN {
        return None;
    }
    let tcp_header_len: usize = high_nibble(packet[t + 12]) as usize * 4;
    if tcp_header_len < TCP_MIN_HEADER_LEN || t + tcp_header_len > packet.len() {
        return None;
    }
    if packet[t + 13] & TCP_FLAGS_NO_COALESCE != 0 {
        return None;
    }
    let payload_len: usize = packet.len() - t - tcp_header_len;
    if payload_len == 0 {
        return None;
    }
    Some(
        TcpSegmentMeta {
            is_ipv6,
            ip_header_len: t,
            tcp_header_len,
            seq: read_be32(packet, t + 4),
            payload_len,
        },
    )
}

/// Segment `b` continues the flow of segment `a`: same addresses and ports, same hop
/// limit and traffic class, same TCP options, acknowledgement and window, and the next
/// sequence number.
pub open spec fn chains(a: Seq<u8>, ma: TcpSegmentMeta, b: Seq<u8>, mb: TcpSegmentMeta) -> bool {
    let t = ma.ip_header_len as int;
    &&& ma.is_ipv6 == mb.is_ipv6
    &&& ma.tcp_header_len == mb.tcp_header_len
    &&& if ma.is_ipv6 {
        wire::agree(a, b, 0, 4) && wire::agree(a, b, 8, 40) && a[7] == b[7]
    } else {
        a[1] == b[1] && a[8] == b[8] && wire::agree(a, b, 12, 20)
    }
    &&& wire::agree(a, b, t, t + 4)
    &&& wire::agree(a, b, t + 8, t + 12)
    &&& wire::agree(a, b, t + 14, t + 16)
    &&& wire::agree(a, b, t + 20, t + ma.tcp_header_len)
    &&& mb.seq == ma.seq.wrapping_add(ma.payload_len as u32)
}

/// Return true if segment `b` can extend a coalescing group ending in `a`:
/// same flow (5-tuple, TTL/hop-limit, ToS/traffic-class), byte-identical TCP
/// header length/options/ACK/window, and contiguous sequence numbers.
pub fn can_chain(a: &[u8], ma: &TcpSegmentMeta, b: &[u8], mb: &TcpSegmentMeta) -> (r: bool)
    requires
        ma.within(a@.len()),
        mb.within(b@.len()),
    ensures
        r == chains(a@, *ma, b@, *mb),
{
    if ma.is_ipv6 != mb.is_ipv6 || ma.tcp_header_len != mb.tcp_header_len {
        return false;
    }
    if ma.is_ipv6 {
        if !same_range(a, b, 0, 4) || !same_range(a, b, 8, 40) || a[7] != b[7] {
            return false;
        }
    } else {
        if a[1] != b[1] || a[8] != b[8] || !same_range(a, b, 12, 20) {
            return false;
        }
    }
    let t: usize = ma.ip_header_len;
    if !same_range(a, b, t, t + 4) || !same_range(a, b, t + 8, t + 12) || !same_range(
        a,
        b,
        t + 14,
        t + 16,
    ) || !same_range(a, b, t + 20, t + ma.tcp_header_len) {
        return false;
    }
    mb.seq == ma.seq.wrapping_add(ma.payload_len as u32)
}

/// The payload bytes of the packets from `i` up to `j`, which are coalescible.
pub open spec fn payload_total(batch: Seq<Seq<u8>>, i: int, j: int) -> int
    decreases j - i,
{
    if j <= i {
        0
    } else {
        payload_total(batch, i, j - 1) + coalescible(batch[j - 1])->0.payload_len
    }
}

/// The IP length of the packets from `i` up to `j` merged behind one header.
pub open spec fn merged_len(batch: Seq<Seq<u8>>, i: int, j: int) -> int {
    coalescible(batch[i])->0.headers() + payload_total(batch, i, j)
}

/// Packet `k` continues the run that started at packet `i`: it chains to packet
/// `k - 1`, no payload in front of it was short, its own is no longer than the first,
/// and the merged packet still fits an IP length field.
pub open spec fn joins(batch: Seq<Seq<u8>>, i: int, k: int) -> bool {
    let first = coalescible(batch[i])->0;
    let prev = coalescible(batch[k - 1])->0;
    let next = coalescible(batch[k])->0;
    &&& coalescible(batch[k]) is Some
    &&& prev.payload_len == first.payload_len
    &&& next.payload_len <= first.payload_len
    &&& merged_len(batch, i, k) + next.payload_len <= u16::MAX
    &&& chains(batch[k - 1], prev, batch[k], next)
}

/// The packets from `i` up to `j` are a run as long as it can be: a coalescible packet
/// with all that continue it, or one packet that cannot be merged.
pub open spec fn is_group(batch: Seq<Seq<u8>>, i: int, j: int) -> bool {
    if coalescible(batch[i]) is Some {
        &&& forall|k: int| i < k < j ==> #[trigger] joins(batch, i, k)
        &&& j == batch.len() || !joins(batch, i, j)
    } else {
        j == i + 1
    }
}

/// The groups cover the first `n` packets in order, without gaps, each as long as it can
/// be; a group is to be merged when it has two or more members.
pub open spec fn plans(batch: Seq<Seq<u8>>, groups: Seq<(usize, usize, bool)>, n: int) -> bool {
    &&& forall|g: int|
        0 <= g < groups.len() ==> {
            let (start, end, merge) = #[trigger] groups[g];
            &&& start < end <= n
            &&& start == group_start(groups, g)
            &&& merge == (end - start >= 2)
            &&& is_group(batch, start as int, end as int)
        }
    &&& group_start(groups, groups.len() as int) == n
}

/// Where group `g` has to start: behind the group before it.
pub open spec fn group_start(groups: Seq<(usize, usize, bool)>, g: int) -> int {
    if g == 0 {
        0
    } else {
        groups[g - 1].1 as int
    }
}

/// The contents of a batch of packets.
pub open spec fn packets_of(batch: Seq<Bytes>) -> Seq<Seq<u8>> {
    batch.map_values(|b: Bytes| buffer::bytes_content(b))
}

/// Partition a drained TUN write batch into runs, preserving order.
///
/// Pushes `(start, end, coalesce)` tuples into `out` (cleared first).
/// `coalesce == true` marks a run of two or more same-flow contiguous TCP
/// segments with uniform payload size (only the final member may be smaller;
/// a smaller member closes the run) whose merged IP length stays within
/// `u16::MAX`. Every other packet becomes a `(i, i + 1, false)` passthrough.
pub fn plan_tun_write_groups(batch: &[Bytes], out: &mut Vec<(usize, usize, bool)>)
    ensures
        plans(packets_of(batch@), final(out)@, batch@.len() as int),
{
    let ghost packets = packets_of(batch@);
    out.clear();
    let mut i: usize = 0;
    while i < batch.len()
        invariant
            packets == packets_of(batch@),
            i <= batch@.len(),
            plans(packets, out@, i as int),
        decreases batch@.len() - i,
    {
        let ghost before = out@;
        let head = bytes_as_slice(&batch[i]);
        assert(head@ == packets[i as int]);
        let first: TcpSegmentMeta = match parse_coalescible_tcp(head) {
            Some(meta) => meta,
            None => {
                out.push((i, i + 1, false));
                proof {
                    lemma_plan_extends(packets, before, i, (i + 1) as usize, false);
                }
                i += 1;
                continue ;
            },
        };
        let seg_size: usize = first.payload_len;
        let mut merged_ip_len: usize = first.header_len() + first.payload_len;
        let mut prev: TcpSegmentMeta = first;
        let mut end: usize = i + 1;
        proof {
            reveal_with_fuel(payload_total, 2);
        }
        while end < batch.len()
            invariant_except_break
                prev.payload_len == seg_size,
            invariant
                packets == packets_of(batch@),
                i < end <= batch@.len(),
                coalescible(packets[i as int]) == Some(first),
                coalescible(packets[end - 1]) == Some(prev),
                prev.within(packets[end - 1].len()),
                seg_size == first.payload_len,
                merged_ip_len == merged_len(packets, i as int, end as int),
                merged_ip_len <= 0x2_0000,
                forall|k: int| i < k < end ==> #[trigger] joins(packets, i as int, k),
            ensures
                i < end <= batch@.len(),
                is_group(packets, i as int, end as int),
            decreases batch@.len() - end,
        {
            let tail = bytes_as_slice(&batch[end]);
            let last = bytes_as_slice(&batch[end - 1]);
            assert(tail@ == packets[end as int]);
            assert(last@ == packets[end - 1]);
            let next: TcpSegmentMeta = match parse_coalescible_tcp(tail) {
                Some(meta) => meta,
                None => {
                    break ;
                },
            };
            if next.payload_len > seg_size || merged_ip_len + next.payload_len > u16::MAX as usize
                || !can_chain(last, &prev, tail, &next) {
                break ;
            }
            assert(joins(packets, i as int, end as int));
            merged_ip_len = merged_ip_len + next.payload_len;
            prev = next;
            end = end + 1;
            if next.payload_len < seg_size {
                assert(end < batch@.len() ==> !joins(packets, i as int, end as int));
                break ;
            }
        }
        out.push((i, end, end - i >= 2));
        proof {
            lemma_plan_extends(packets, before, i, end, end - i >= 2);
        }
        i = end;
    }
}

/// A plan grows by a group that starts where it ended.
proof fn lemma_plan_extends(
    batch: Seq<Seq<u8>>,
    groups: Seq<(usize, usize, bool)>,
    start: usize,
    end: usize,
    merge: bool,
)
    requires
        plans(batch, groups, start as int),
        start < end,
        merge == (end - start >= 2),
        is_group(batch, start as int, end as int),
    ensures
        plans(batch, groups.push((start, end, merge)), end as int),
{
    let more = groups.push((start, end, merge));
    assert forall|g: int| 0 <= g < more.len() implies {
        let (s, e, m) = #[trigger] more[g];
        &&& s < e <= end
        &&& s == group_start(more, g)
        &&& m == (e - s >= 2)
        &&& is_group(batch, s as int, e as int)
    } by {
        if g < groups.len() {
            assert(more[g] == groups[g]);
            assert(g > 0 ==> more[g - 1] == groups[g - 1]);
        } else {
            assert(g > 0 ==> more[g - 1] == groups[g - 1]);
        }
    }
}

/// The bytes behind the first `header_len` of each segment, one after the other.
pub open spec fn payloads(segments: Seq<Seq<u8>>, header_len: int) -> Seq<u8>
    decreases segments.len(),
{
    if segments.len() == 0 {
        Seq::empty()
    } else {
        payloads(segments.drop_last(), header_len) + segments.last().skip(header_len)
    }
}

/// The bytes of all segments together.
pub open spec fn total_len(segments: Seq<Seq<u8>>) -> nat
    decreases segments.len(),
{
    if segments.len() == 0 {
        0
    } else {
        total_len(segments.drop_last()) + segments.last().len()
    }
}

/// The offload header of a super-frame whose first segment is described by `first`.
pub open spec fn superframe_header(first: TcpSegmentMeta) -> VirtioNetHdr {
    VirtioNetHdr {
        flags: VIRTIO_NET_HDR_F_NEEDS_CSUM,
        gso_type: if first.is_ipv6 {
            VIRTIO_NET_HDR_GSO_TCPV6
        } else {
            VIRTIO_NET_HDR_GSO_TCPV4
        },
        hdr_len: first.headers() as u16,
        gso_size: first.payload_len as u16,
        csum_start: first.ip_header_len as u16,
        csum_offset: TCP_CHECKSUM_OFFSET as u16,
        num_buffers: 0,
    }
}

/// The headers of the first segment and the payloads of all.
pub open spec fn superframe_draft(segments: Seq<Seq<u8>>, header_len: int) -> Seq<u8> {
    segments[0].take(header_len) + payloads(segments, header_len)
}

/// The offload header and the IP packet that stand for a run of segments.
pub open spec fn superframe(segments: Seq<Seq<u8>>) -> Result<
    (VirtioNetHdr, Seq<u8>),
    OffloadError,
> {
    let first = coalescible(segments[0])->0;
    let h = first.headers();
    if segments.len() < 2 {
        Err(OffloadError::TooFewSegments { got: segments.len() as usize })
    } else if coalescible(segments[0]) is None {
        Err(OffloadError::FirstSegment)
    } else if exists|k: int| 0 <= k < segments.len() && (#[trigger] segments[k]).len() <= h {
        Err(OffloadError::SegmentTooShort)
    } else if h + payloads(segments, h).len() > u16::MAX {
        Err(OffloadError::MergedTooLarge { len: (h + payloads(segments, h).len()) as usize })
    } else {
        match headers::offload_finished(
            first.is_ipv6,
            first.ip_header_len as int,
            superframe_draft(segments, h),
        ) {
            Ok(p) => Ok((superframe_header(first), p)),
            Err(e) => Err(e),
        }
    }
}

/// The payloads of some segments are shorter than the segments by a header each.
proof fn lemma_payloads_len(segments: Seq<Seq<u8>>, n: int, header_len: int)
    requires
        0 < n <= segments.len(),
        0 <= header_len,
        forall|k: int| 0 <= k < n ==> (#[trigger] segments[k]).len() > header_len,
    ensures
        payloads(segments.take(n), header_len).len() + header_len <= total_len(segments.take(n)),
        total_len(segments.take(n)) <= total_len(segments),
    decreases n,
{
    let s = segments.take(n);
    assert(s.drop_last() =~= segments.take(n - 1));
    assert(s.last() == segments[n - 1]);
    if n > 1 {
        lemma_payloads_len(segments, n - 1, header_len);
    } else {
        assert(s.drop_last() =~= Seq::<Seq<u8>>::empty());
        reveal_with_fuel(payloads, 2);
    }
    lemma_total_len_prefix(segments, n);
}

/// A prefix is no longer than the whole.
proof fn lemma_total_len_prefix(segments: Seq<Seq<u8>>, n: int)
    requires
        0 <= n <= segments.len(),
    ensures
        total_len(segments.take(n)) <= total_len(segments),
    decreases segments.len() - n,
{
    if n == segments.len() {
        assert(segments.take(n) =~= segments);
    } else {
        lemma_total_len_prefix(segments, n + 1);
        let s = segments.take(n + 1);
        assert(s.drop_last() =~= segments.take(n));
    }
}

/// The payloads of a prefix are no longer than those of the whole.
proof fn lemma_payloads_prefix(segments: Seq<Seq<u8>>, n: int, header_len: int)
    requires
        0 <= n <= segments.len(),
    ensures
        payloads(segments.take(n), header_len).len() <= payloads(segments, header_len).len(),
    decreases segments.len() - n,
{
    if n == segments.len() {
        assert(segments.take(n) =~= segments);
    } else {
        lemma_payloads_prefix(segments, n + 1, header_len);
        let s = segments.take(n + 1);
        assert(s.drop_last() =~= segments.take(n));
    }
}

/// A draft whose headers come from a coalescible segment can be finished.
pub proof fn lemma_superframe_finishes(segments: Seq<Seq<u8>>)
    requires
        segments.len() >= 1,
        coalescible(segments[0]) is Some,
        superframe_draft(segments, coalescible(segments[0])->0.headers()).len() <= u16::MAX,
    ensures
        ({
            let first = coalescible(segments[0])->0;
            let draft = superframe_draft(segments, first.headers());
            &&& headers::length_finished(first.is_ipv6, draft) is Ok
            &&& headers::offload_finished(first.is_ipv6, first.ip_header_len as int, draft) is Ok
        }),
{
    let first = coalescible(segments[0])->0;
    let h = first.headers();
    let draft = superframe_draft(segments, h);
    assert(draft.take(h) =~= segments[0].take(h));
    assert(draft[0] == draft.take(h)[0]);
    assert(draft[9] == draft.take(h)[9]);
    wire::lemma_nibbles(segments[0][first.ip_header_len + 12]);
}

/// Assemble a TCP GSO super-frame from a run of two or more same-flow
/// contiguous segments (as planned by [`plan_tun_write_groups`]) into `out`
/// (cleared first): 10-byte virtio header + IP/TCP headers copied from
/// `segments[0]` + concatenated payloads.
///
/// The copied header is rewritten for the merged frame: IP total length /
/// IPv6 payload length (and the IPv4 header checksum), plus the TCP checksum
/// field, which receives the partial pseudo-header sum. The TCP sequence number stays
/// at `segments[0]`'s; the kernel renumbers per re-segmented packet. On an error `out`
/// keeps what it held.
#[verifier::rlimit(30)]
pub fn assemble_tcp_gso_superframe(out: &mut BytesMut, segments: &[Bytes]) -> (r: Result<
    (),
    String,
>)
    requires
        total_len(packets_of(segments@)) <= usize::MAX,
    ensures
        match superframe(packets_of(segments@)) {
            Ok((hdr, packet)) => r is Ok && buffer::buffer_content(*final(out)) == hdr.wire_bytes()
                + packet,
            Err(e) => error::reports(r, e) && *final(out) == *old(out),
        },
{
    let ghost all = packets_of(segments@);
    if segments.len() < 2 {
        return Err(OffloadError::TooFewSegments { got: segments.len() }.message());
    }
    let head = bytes_as_slice(&segments[0]);
    assert(head@ == all[0]);
    let first: TcpSegmentMeta = match parse_coalescible_tcp(head) {
        Some(meta) => meta,
        None => {
            return Err(OffloadError::FirstSegment.message());
        },
    };
    let header_len: usize = first.header_len();
    let mut total_payload: usize = 0;
    let mut i: usize = 0;
    assert(all.take(0) =~= Seq::<Seq<u8>>::empty());
    while i < segments.len()
        invariant
            all == packets_of(segments@),
            all.len() >= 2,
            total_len(all) <= usize::MAX,
            coalescible(all[0]) == Some(first),
            header_len == first.headers(),
            i <= all.len(),
            forall|k: int| 0 <= k < i ==> (#[trigger] all[k]).len() > header_len,
            total_payload == payloads(all.take(i as int), header_len as int).len(),
        decreases all.len() - i,
    {
        let segment = bytes_as_slice(&segments[i]);
        assert(segment@ == all[i as int]);
        if segment.len() <= header_len {
            return Err(OffloadError::SegmentTooShort.message());
        }
        proof {
            lemma_payloads_len(all, i + 1, header_len as int);
            assert(all.take(i + 1).drop_last() =~= all.take(i as int));
        }
        total_payload = total_payload + (segment.len() - header_len);
        i = i + 1;
    }
    proof {
        lemma_payloads_len(all, all.len() as int, header_len as int);
        assert(all.take(all.len() as int) =~= all);
    }
    let merged_ip_len: usize = header_len + total_payload;
    if merged_ip_len > u16::MAX as usize {
        return Err(OffloadError::MergedTooLarge { len: merged_ip_len }.message());
    }
    let virtio = VirtioNetHdr {
        flags: VIRTIO_NET_HDR_F_NEEDS_CSUM,
        gso_type: if first.is_ipv6 {
            VIRTIO_NET_HDR_GSO_TCPV6
        } else {
            VIRTIO_NET_HDR_GSO_TCPV4
        },
        hdr_len: header_len as u16,
        gso_size: first.payload_len as u16,
        csum_start: first.ip_header_len as u16,
        csum_offset: TCP_CHECKSUM_OFFSET as u16,
        num_buffers: 0,
    };
    buffer_clear(out);
    buffer_reserve(out, VIRTIO_NET_HDR_LEN + merged_ip_len);
    buffer_put_slice(out, virtio.to_bytes().as_slice());
    buffer_put_slice(out, slice_subrange(head, 0, header_len));
    let ghost start = virtio.wire_bytes() + all[0].take(header_len as int);
    assert(buffer::buffer_content(*out) =~= start);
    let mut j: usize = 0;
    proof {
        assert(all.take(0) =~= Seq::<Seq<u8>>::empty());
        assert(start + Seq::<u8>::empty() =~= start);
    }
    while j < segments.len()
        invariant
            all == packets_of(segments@),
            total_len(all) <= usize::MAX,
            j <= all.len(),
            header_len == first.headers(),
            start.len() == VIRTIO_NET_HDR_LEN + header_len,
            forall|k: int| 0 <= k < all.len() ==> (#[trigger] all[k]).len() > header_len,
            payloads(all, header_len as int).len() + header_len <= u16::MAX,
            buffer::buffer_content(*out) == start + payloads(
                all.take(j as int),
                header_len as int,
            ),
        decreases all.len() - j,
    {
        let segment = bytes_as_slice(&segments[j]);
        assert(segment@ == all[j as int]);
        proof {
            lemma_payloads_prefix(all, j + 1, header_len as int);
            assert(all.take(j + 1).drop_last() =~= all.take(j as int));
            assert(all.take(j + 1).last() == all[j as int]);
        }
        let payload = slice_subrange(segment, header_len, segment.len());
        assert(payload@ =~= segment@.skip(header_len as int));
        buffer_put_slice(out, payload);
        assert(buffer::buffer_content(*out) =~= start + payloads(
            all.take(j + 1),
            header_len as int,
        ));
        j = j + 1;
    }
    let ghost draft = superframe_draft(all, header_len as int);
    assert(all.take(all.len() as int) =~= all);
    assert(buffer::buffer_content(*out) =~= virtio.wire_bytes() + draft);
    proof {
        lemma_superframe_finishes(all);
    }
    let whole = buffer_as_mut_slice(out);
    let (prefix, ip_frame) = whole.split_at_mut(VIRTIO_NET_HDR_LEN);
    assert(prefix@ =~= virtio.wire_bytes());
    assert(ip_frame@ =~= draft);
    if first.is_ipv6 {
        update_ipv6_payload_length(ip_frame, merged_ip_len)?;
    } else {
        update_ipv4_lengths_and_checksum(ip_frame, merged_ip_len)?;
    }
    let ghost sized = ip_frame@;
    let checksum_index: usize = first.ip_header_len + TCP_CHECKSUM_OFFSET;
    write_be16(ip_frame, checksum_index, 0);
    let tcp_len: usize = first.tcp_header_len + total_payload;
    let partial: u16 = tcp_pseudo_header_partial(ip_frame, first.is_ipv6, tcp_len);
    proof {
        assert(ip_frame@.subrange(8, 40) =~= sized.subrange(8, 40) || !first.is_ipv6);
        assert(ip_frame@.subrange(12, 20) =~= sized.subrange(12, 20));
    }
    write_be16(ip_frame, checksum_index, partial);
    assert(ip_frame@ =~= wire::put_be16(sized, checksum_index as int, partial));
    Ok(())
}

/// Group `g` of a plan starts where it has to, and is as long as it can be.
pub open spec fn in_place(
    batch: Seq<Seq<u8>>,
    groups: Seq<(usize, usize, bool)>,
    g: int,
) -> bool {
    &&& groups[g].0 == group_start(groups, g)
    &&& groups[g].0 < groups[g].1 <= batch.len()
    &&& groups[g].2 == (groups[g].1 - groups[g].0 >= 2)
    &&& is_group(batch, groups[g].0 as int, groups[g].1 as int)
}

/// A run that starts in one place and is as long as it can be ends in one place.
proof fn lemma_group_end(batch: Seq<Seq<u8>>, i: int, a: int, b: int)
    requires
        is_group(batch, i, a),
        is_group(batch, i, b),
        i < a <= batch.len(),
        i < b <= batch.len(),
    ensures
        a == b,
{
    if coalescible(batch[i]) is Some {
        if a < b {
            assert(joins(batch, i, a));
        } else if b < a {
            assert(joins(batch, i, b));
        }
    }
}

/// Each group of a plan has its place.
proof fn lemma_in_place(batch: Seq<Seq<u8>>, groups: Seq<(usize, usize, bool)>)
    requires
        plans(batch, groups, batch.len() as int),
    ensures
        forall|g: int| 0 <= g < groups.len() ==> #[trigger] in_place(batch, groups, g),
        group_start(groups, groups.len() as int) == batch.len(),
{
    assert forall|g: int| 0 <= g < groups.len() implies #[trigger] in_place(batch, groups, g) by {
        let (start, end, merge) = groups[g];
    }
}

/// The first `m` groups of two plans are the same.
proof fn lemma_plans_agree(
    batch: Seq<Seq<u8>>,
    a: Seq<(usize, usize, bool)>,
    b: Seq<(usize, usize, bool)>,
    m: nat,
)
    requires
        forall|g: int| 0 <= g < a.len() ==> #[trigger] in_place(batch, a, g),
        forall|g: int| 0 <= g < b.len() ==> #[trigger] in_place(batch, b, g),
        m <= a.len(),
        m <= b.len(),
    ensures
        forall|g: int| 0 <= g < m ==> a[g] == b[g],
    decreases m,
{
    if m > 0 {
        let g = m - 1;
        lemma_plans_agree(batch, a, b, g as nat);
        assert(in_place(batch, a, g) && in_place(batch, b, g));
        lemma_group_end(batch, a[g].0 as int, a[g].1 as int, b[g].1 as int);
    }
}

/// There is one way only to plan a batch.
pub proof fn law_plan_is_unique(
    batch: Seq<Seq<u8>>,
    a: Seq<(usize, usize, bool)>,
    b: Seq<(usize, usize, bool)>,
)
    requires
        plans(batch, a, batch.len() as int),
        plans(batch, b, batch.len() as int),
    ensures
        a == b,
{
    lemma_in_place(batch, a);
    lemma_in_place(batch, b);
    lemma_unique(batch, a, b);
}

/// Two plans with each group in its place are the same.
proof fn lemma_unique(
    batch: Seq<Seq<u8>>,
    a: Seq<(usize, usize, bool)>,
    b: Seq<(usize, usize, bool)>,
)
    requires
        forall|g: int| 0 <= g < a.len() ==> #[trigger] in_place(batch, a, g),
        forall|g: int| 0 <= g < b.len() ==> #[trigger] in_place(batch, b, g),
        group_start(a, a.len() as int) == batch.len(),
        group_start(b, b.len() as int) == batch.len(),
    ensures
        a == b,
{
    let m = if a.len() <= b.len() {
        a.len()
    } else {
        b.len()
    };
    lemma_plans_agree(batch, a, b, m);
    assert(m > 0 ==> a[m - 1] == b[m - 1]);
    if a.len() > m {
        assert(in_place(batch, a, m as int));
    }
    if b.len() > m {
        assert(in_place(batch, b, m as int));
    }
    assert(a =~= b);
}

/// The payloads of packets follow each other in the order of the packets.
pub proof fn law_payloads_keep_their_order(a: Seq<Seq<u8>>, b: Seq<Seq<u8>>, p: Seq<u8>, h: int)
    ensures
        payloads(Seq::empty(), h) == Seq::<u8>::empty(),
        payloads(seq![p], h) == p.skip(h),
        payloads(a + b, h) == payloads(a, h) + payloads(b, h),
    decreases b.len(),
{
    assert(seq![p].drop_last() =~= Seq::<Seq<u8>>::empty());
    assert(payloads(seq![p], h) =~= p.skip(h)) by {
        reveal_with_fuel(payloads, 2);
    }
    if b.len() == 0 {
        assert(a + b =~= a);
        assert(payloads(a, h) + payloads(b, h) =~= payloads(a, h));
    } else {
        assert((a + b).drop_last() =~= a + b.drop_last());
        law_payloads_keep_their_order(a, b.drop_last(), p, h);
        assert(payloads(a, h) + (payloads(b.drop_last(), h) + b.last().skip(h)) =~= (payloads(a, h)
            + payloads(b.drop_last(), h)) + b.last().skip(h));
    }
}

} // verus!
