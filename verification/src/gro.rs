//! Software receive offload: coalescing the TCP segments of a flow into one packet with
//! segmentation metadata.

use vstd::prelude::*;
use vstd::slice::{slice_subrange, slice_to_vec};
use crate::headers;
use crate::headers::{
    tcp_pseudo_header_partial_checksum,
    update_ipv4_lengths_and_checksum,
    update_ipv6_payload_length,
    IPV4_HEADER_LEN,
    IPV6_HEADER_LEN,
    PROTOCOL_TCP,
    TCP_CHECKSUM_OFFSET,
    TCP_MIN_HEADER_LEN,
};
use crate::segment::{TCP_FLAG_FIN, TCP_FLAG_PSH};
use crate::virtio::{
    VirtioNetHdr,
    VIRTIO_NET_HDR_F_NEEDS_CSUM,
    VIRTIO_NET_HDR_GSO_TCPV4,
    VIRTIO_NET_HDR_GSO_TCPV6,
};
use crate::wire;
use crate::wire::{
    append_bytes,
    copy_range,
    high_nibble,
    low_nibble,
    read_be128,
    read_be16,
    read_be32,
    same_range,
    write_be16,
};

verus! {

/// Maximum number of in-flight GRO flow groups held by a table.
pub const MAX_GRO_FLOWS: usize = 16;

/// Maximum number of TCP segments coalesced into a single group.
pub const MAX_GRO_SEGMENTS: usize = 64;

/// Maximum size of a coalesced IP packet (IPv4 total length limit).
pub const MAX_GRO_PACKET_SIZE: usize = 65535;

/// TCP flag: open a connection.
pub const TCP_FLAG_SYN: u8 = 0x02;

/// TCP flag: reset the connection.
pub const TCP_FLAG_RST: u8 = 0x04;

/// TCP flag: the urgent pointer counts.
pub const TCP_FLAG_URG: u8 = 0x20;

/// TCP flag: the congestion window was reduced.
pub const TCP_FLAG_CWR: u8 = 0x80;

/// TCP option: end of the option list.
pub const TCP_OPT_EOL: u8 = 0;

/// TCP option: padding.
pub const TCP_OPT_NOP: u8 = 1;

/// TCP option: timestamps.
pub const TCP_OPT_TIMESTAMP: u8 = 8;

/// Length of the timestamps option.
pub const TCP_OPT_TIMESTAMP_LEN: usize = 10;

/// Identity of a TCP flow for GRO grouping.
///
/// Addresses are numbers, so that both IP versions share one key type; `is_v6`
/// tells them apart.
#[derive(Debug, Clone, Copy, PartialEq, Eq, Structural)]
pub struct TcpFlowKey {
    pub src: u128,
    pub dst: u128,
    pub src_port: u16,
    pub dst_port: u16,
    pub is_v6: bool,
}

/// What coalescing needs to know about a TCP data segment.
#[derive(Debug, Clone, Copy, PartialEq, Eq, Structural)]
pub struct TcpSegmentView {
    pub key: TcpFlowKey,
    pub ip_header_len: usize,
    pub tcp_header_len: usize,
    pub is_v6: bool,
    pub seq: u32,
    pub tcp_flags: u8,
    pub payload_len: usize,
}

impl TcpSegmentView {
    /// The view describes a TCP segment of the packet `p`.
    pub open spec fn describes(self, p: Seq<u8>) -> bool {
        &&& self.is_v6 == self.key.is_v6
        &&& if self.is_v6 {
            self.ip_header_len == IPV6_HEADER_LEN
        } else {
            &&& IPV4_HEADER_LEN <= self.ip_header_len <= 60
            &&& self.ip_header_len == headers::ipv4_header_len(p)
            &&& p[9] == PROTOCOL_TCP
        }
        &&& TCP_MIN_HEADER_LEN <= self.tcp_header_len <= 60
        &&& self.ip_header_len + self.tcp_header_len + self.payload_len == p.len()
        &&& 0 < self.payload_len <= u16::MAX
    }
}

/// Classification of a packet pushed into the GRO table.
#[derive(Debug, Clone, Copy, PartialEq, Eq, Structural)]
pub enum GroClass {
    /// TCP segment eligible for coalescing.
    Coalescable(TcpSegmentView),
    /// Parseable TCP packet that must not be coalesced (pure ACK, SYN/RST/...).
    /// The flow key allows flushing a pending same-flow group first to
    /// preserve in-flow ordering.
    SameFlowPassThrough(TcpFlowKey),
    /// Anything else (non-TCP, fragments, parse failures).
    PassThrough,
}

/// An unfragmented IPv4 packet that carries TCP and whose lengths are consistent.
pub open spec fn whole_ipv4_tcp(p: Seq<u8>) -> bool {
    &&& p.len() >= IPV4_HEADER_LEN
    &&& IPV4_HEADER_LEN <= headers::ipv4_header_len(p) <= p.len()
    &&& p[9] == PROTOCOL_TCP
    &&& wire::be16_at(p, 2) == p.len()
    &&& wire::be16_at(p, 6) & 0x2000 == 0
    &&& wire::be16_at(p, 6) & 0x1fff == 0
}

/// An IPv6 packet that carries TCP right behind its header and whose lengths are
/// consistent.
pub open spec fn whole_ipv6_tcp(p: Seq<u8>) -> bool {
    &&& p.len() >= IPV6_HEADER_LEN
    &&& p[6] == PROTOCOL_TCP
    &&& wire::be16_at(p, 4) == p.len() - IPV6_HEADER_LEN
}

/// The flow of the TCP packet `p` whose TCP header starts at `t`.
pub open spec fn flow_key(p: Seq<u8>, t: int, is_v6: bool) -> TcpFlowKey {
    TcpFlowKey {
        src: if is_v6 {
            wire::be128_at(p, 8)
        } else {
            wire::be32_at(p, 12) as u128
        },
        dst: if is_v6 {
            wire::be128_at(p, 24)
        } else {
            wire::be32_at(p, 16) as u128
        },
        src_port: wire::be16_at(p, t),
        dst_port: wire::be16_at(p, t + 2),
        is_v6,
    }
}

/// How a packet takes part in coalescing.
pub open spec fn gro_class(p: Seq<u8>) -> GroClass {
    let version = headers::ip_version(p);
    let is_v6 = version == 6;
    let t = if is_v6 {
        IPV6_HEADER_LEN as int
    } else {
        headers::ipv4_header_len(p)
    };
    let tcp_header_len = headers::tcp_header_len_at(p, t);
    let payload_len = p.len() - t - tcp_header_len;
    let key = flow_key(p, t, is_v6);
    if p.len() == 0 || !(version == 4 && whole_ipv4_tcp(p) || version == 6 && whole_ipv6_tcp(p))
        || p.len() < t + TCP_MIN_HEADER_LEN || tcp_header_len < TCP_MIN_HEADER_LEN || t
        + tcp_header_len > p.len() {
        GroClass::PassThrough
    } else if p[t + 13] & (TCP_FLAG_SYN | TCP_FLAG_RST | TCP_FLAG_URG | TCP_FLAG_CWR) != 0
        || payload_len == 0 {
        GroClass::SameFlowPassThrough(key)
    } else {
        GroClass::Coalescable(
            TcpSegmentView {
                key,
                ip_header_len: t as usize,
                tcp_header_len: tcp_header_len as usize,
                is_v6,
                seq: wire::be32_at(p, t + 4),
                tcp_flags: p[t + 13],
                payload_len: payload_len as usize,
            },
        )
    }
}

/// Classify an IP packet for GRO.
pub fn gro_classify(p: &[u8]) -> (c: GroClass)
    ensures
        c == gro_class(p@),
        c is Coalescable ==> c->Coalescable_0.describes(p@),
{
    if p.is_empty() {
        return GroClass::PassThrough;
    }
    let version: u8 = high_nibble(p[0]);
    let is_v6: bool = version == 6;
    let t: usize = if version == 4 {
        if p.len() < IPV4_HEADER_LEN {
            return GroClass::PassThrough;
        }
        let ihl: usize = low_nibble(p[0]) as usize * 4;
        if ihl < IPV4_HEADER_LEN || ihl > p.len() {
            return GroClass::PassThrough;
        }
        if p[9] != PROTOCOL_TCP {
            return GroClass::PassThrough;
        }
        if read_be16(p, 2) as usize != p.len() {
            return GroClass::PassThrough;
        }
        // A fragment carries at most part of a TCP header.
        let fragment: u16 = read_be16(p, 6);
        if fragment & 0x2000 != 0 || fragment & 0x1fff != 0 {
            return GroClass::PassThrough;
        }
        ihl
    } else if version == 6 {
        if p.len() < IPV6_HEADER_LEN {
            return GroClass::PassThrough;
        }
        if p[6] != PROTOCOL_TCP {
            return GroClass::PassThrough;
        }
        if read_be16(p, 4) as usize != p.len() - IPV6_HEADER_LEN {
            return GroClass::PassThrough;
        }
        IPV6_HEADER_LEN
    } else {
        return GroClass::PassThrough;
    };
    if p.len() < t + TCP_MIN_HEADER_LEN {
        return GroClass::PassThrough;
    }
    let tcp_header_len: usize = high_nibble(p[t + 12]) as usize * 4;
    if tcp_header_len < TCP_MIN_HEADER_LEN || t + tcp_header_len > p.len() {
        return GroClass::PassThrough;
    }
    let key = TcpFlowKey {
        src: if is_v6 {
            read_be128(p, 8)
        } else {
            read_be32(p, 12) as u128
        },
        dst: if is_v6 {
            read_be128(p, 24)
        } else {
            read_be32(p, 16) as u128
        },
        src_port: read_be16(p, t),
        dst_port: read_be16(p, t + 2),
        is_v6,
    };
    let tcp_flags: u8 = p[t + 13];
    let payload_len: usize = p.len() - t - tcp_header_len;
    // SYN, RST and URG never coalesce, CWR marks a congestion response, and a packet
    // without payload passes through so that acknowledgements are never delayed.
    if tcp_flags & (TCP_FLAG_SYN | TCP_FLAG_RST | TCP_FLAG_URG | TCP_FLAG_CWR) != 0 || payload_len
        == 0 {
        return GroClass::SameFlowPassThrough(key);
    }
    GroClass::Coalescable(
        TcpSegmentView {
            key,
            ip_header_len: t,
            tcp_header_len,
            is_v6,
            seq: read_be32(p, t + 4),
            tcp_flags,
            payload_len,
        },
    )
}

/// Compares two option lists from offset `i` on. `None` if they differ in more than the
/// values of timestamps; otherwise where the values of the last timestamps option lie,
/// `found` being where those before `i` do.
pub open spec fn options_match_from(a: Seq<u8>, b: Seq<u8>, i: int, found: Option<usize>) -> Option<
    Option<usize>,
>
    decreases a.len() - i,
{
    if i < 0 || i >= a.len() {
        Some(found)
    } else if a[i] != b[i] {
        None
    } else if a[i] == TCP_OPT_EOL {
        if a.skip(i) == b.skip(i) {
            Some(found)
        } else {
            None
        }
    } else if a[i] == TCP_OPT_NOP {
        options_match_from(a, b, i + 1, found)
    } else if i + 1 >= a.len() || a[i + 1] != b[i + 1] || a[i + 1] < 2 || i + a[i + 1] > a.len() {
        None
    } else if a[i] == TCP_OPT_TIMESTAMP && a[i + 1] == TCP_OPT_TIMESTAMP_LEN {
        options_match_from(a, b, i + a[i + 1], Some((i + 2) as usize))
    } else if a.subrange(i + 2, i + a[i + 1]) == b.subrange(i + 2, i + a[i + 1]) {
        options_match_from(a, b, i + a[i + 1], found)
    } else {
        None
    }
}

/// Compares two option lists: `None` if they differ in more than the values of
/// timestamps; otherwise where those values lie, if there are any.
pub open spec fn options_match(a: Seq<u8>, b: Seq<u8>) -> Option<Option<usize>> {
    if a.len() != b.len() {
        None
    } else {
        options_match_from(a, b, 0, None)
    }
}

/// The values of timestamps lie inside the options.
pub proof fn lemma_timestamps_inside(a: Seq<u8>, b: Seq<u8>, i: int, found: Option<usize>)
    requires
        0 <= i,
        a.len() <= usize::MAX,
        found is Some ==> 2 <= found->0 && found->0 + 8 <= a.len(),
    ensures
        ({
            let r = options_match_from(a, b, i, found);
            r is Some && r->0 is Some ==> 2 <= r->0->0 && r->0->0 + 8 <= a.len()
        }),
    decreases a.len() - i,
{
    if i < a.len() && a[i] == b[i] && a[i] != TCP_OPT_EOL {
        if a[i] == TCP_OPT_NOP {
            lemma_timestamps_inside(a, b, i + 1, found);
        } else if i + 1 < a.len() && a[i + 1] >= 2 && i + a[i + 1] <= a.len() {
            lemma_timestamps_inside(a, b, i + a[i + 1], found);
            if a[i + 1] == TCP_OPT_TIMESTAMP_LEN {
                lemma_timestamps_inside(a, b, i + a[i + 1], Some((i + 2) as usize));
            }
        }
    }
}

/// Compare two TCP option regions for GRO compatibility.
///
/// Returns `None` if incompatible. Otherwise returns the offset (within the
/// options region) of the timestamp TSval/TSecr data, if present: the
/// timestamp option's values may advance between segments and the latest is
/// carried into the coalesced header (everything else must be byte-identical).
pub fn tcp_options_compatible(a: &[u8], b: &[u8]) -> (r: Option<Option<usize>>)
    ensures
        r == options_match(a@, b@),
        r is Some && r->0 is Some ==> 2 <= r->0->0 && r->0->0 + 8 <= a@.len(),
{
    if a.len() != b.len() {
        return None;
    }
    let mut ts_offset: Option<usize> = None;
    let mut i: usize = 0;
    while i < a.len()
        invariant
            a@.len() == b@.len(),
            i <= a@.len(),
            options_match(a@, b@) == options_match_from(a@, b@, i as int, ts_offset),
            ts_offset is Some ==> 2 <= ts_offset->0 && ts_offset->0 + 8 <= a@.len(),
        decreases a@.len() - i,
    {
        let kind: u8 = a[i];
        if kind != b[i] {
            return None;
        }
        if kind == TCP_OPT_EOL {
            // The padding that follows must match too.
            let same = same_range(a, b, i, a.len());
            proof {
                assert(a@.subrange(i as int, a@.len() as int) =~= a@.skip(i as int));
                assert(b@.subrange(i as int, a@.len() as int) =~= b@.skip(i as int));
            }
            return if same {
                Some(ts_offset)
            } else {
                None
            };
        }
        if kind == TCP_OPT_NOP {
            i = i + 1;
        } else {
            if i + 1 >= a.len() {
                return None;
            }
            let len: usize = a[i + 1] as usize;
            if a[i + 1] != b[i + 1] || len < 2 || len > a.len() - i {
                return None;
            }
            if kind == TCP_OPT_TIMESTAMP && len == TCP_OPT_TIMESTAMP_LEN {
                ts_offset = Some(i + 2);
            } else if !same_range(a, b, i + 2, i + len) {
                return None;
            }
            i = i + len;
        }
    }
    Some(ts_offset)
}

/// A pending group: one packet's headers, with the payloads of the segments that were
/// merged behind them.
pub struct GroupState {
    pub buf: Seq<u8>,
    pub ip_header_len: int,
    pub tcp_header_len: int,
    pub is_v6: bool,
    pub gso_size: int,
    pub segment_count: int,
    pub next_seq: u32,
}

impl GroupState {
    /// Bounds that hold of every group, which make sure that it can be finalized.
    pub open spec fn valid(self) -> bool {
        &&& if self.is_v6 {
            self.ip_header_len == IPV6_HEADER_LEN
        } else {
            &&& IPV4_HEADER_LEN <= self.ip_header_len <= 60
            &&& self.ip_header_len == headers::ipv4_header_len(self.buf)
            &&& self.buf[9] == PROTOCOL_TCP
        }
        &&& TCP_MIN_HEADER_LEN <= self.tcp_header_len <= 60
        &&& self.ip_header_len + self.tcp_header_len < self.buf.len()
        &&& 0 < self.gso_size <= u16::MAX
        &&& 1 <= self.segment_count <= MAX_GRO_SEGMENTS
        &&& self.segment_count > 1 ==> self.buf.len() <= MAX_GRO_PACKET_SIZE
    }

    /// The length of the headers in front of the payload.
    pub open spec fn headers(self) -> int {
        self.ip_header_len + self.tcp_header_len
    }
}

/// The group that the segment `p` starts.
pub open spec fn group_started(seg: TcpSegmentView, p: Seq<u8>) -> GroupState {
    GroupState {
        buf: p,
        ip_header_len: seg.ip_header_len as int,
        tcp_header_len: seg.tcp_header_len as int,
        is_v6: seg.is_v6,
        gso_size: seg.payload_len as int,
        segment_count: 1,
        next_seq: seg.seq.wrapping_add(seg.payload_len as u32),
    }
}

/// Whether the headers of `p` are those of the group, but for the fields that differ
/// between consecutive segments: IP lengths, IPv4 identification and checksum, sequence
/// number, FIN and PSH, TCP checksum, and the values of timestamps. `None` if they are
/// not; otherwise where in the options the timestamps lie.
pub open spec fn headers_match(g: GroupState, seg: TcpSegmentView, p: Seq<u8>) -> Option<
    Option<usize>,
> {
    let t = g.ip_header_len;
    let end = t + g.tcp_header_len;
    let varying = TCP_FLAG_FIN | TCP_FLAG_PSH;
    if seg.ip_header_len == g.ip_header_len && seg.tcp_header_len == g.tcp_header_len && seg.is_v6
        == g.is_v6 && (if g.is_v6 {
        wire::agree(g.buf, p, 0, 4) && wire::agree(g.buf, p, 6, 40)
    } else {
        wire::agree(g.buf, p, 0, 2) && wire::agree(g.buf, p, 6, 10) && wire::agree(g.buf, p, 12, t)
    }) && wire::agree(g.buf, p, t, t + 4) && wire::agree(g.buf, p, t + 8, t + 13) && wire::agree(
        g.buf,
        p,
        t + 14,
        t + 16,
    ) && wire::agree(g.buf, p, t + 18, t + 20) && g.buf[t + 13] & !varying == p[t + 13] & !varying {
        options_match(g.buf.subrange(t + 20, end), p.subrange(t + 20, end))
    } else {
        None
    }
}

/// The group after the segment `p` was merged into it: the latest timestamps, the
/// payload appended, and FIN and PSH taken over.
pub open spec fn group_extended(
    g: GroupState,
    seg: TcpSegmentView,
    p: Seq<u8>,
    timestamps: Option<usize>,
) -> GroupState {
    let t = g.ip_header_len;
    let at = t + 20 + timestamps->0;
    let stamped = if timestamps is Some {
        wire::patched(g.buf, p, at, at + 8)
    } else {
        g.buf
    };
    let joined = stamped + p.skip(g.headers());
    let closing = seg.tcp_flags & (TCP_FLAG_FIN | TCP_FLAG_PSH);
    GroupState {
        buf: if closing != 0 {
            joined.update(t + 13, joined[t + 13] | closing)
        } else {
            joined
        },
        segment_count: g.segment_count + 1,
        next_seq: g.next_seq.wrapping_add(seg.payload_len as u32),
        ..g
    }
}

/// What comes of offering the segment `p` to a group: nothing if it does not continue
/// the group, otherwise the extended group, and whether the segment closes it. A segment
/// with FIN or PSH closes the group, and so does a short one.
pub open spec fn group_offered(g: GroupState, seg: TcpSegmentView, p: Seq<u8>) -> Option<
    (GroupState, bool),
> {
    let matched = headers_match(g, seg, p);
    if seg.seq != g.next_seq || seg.payload_len > g.gso_size || g.segment_count + 1
        > MAX_GRO_SEGMENTS || g.buf.len() + seg.payload_len > MAX_GRO_PACKET_SIZE || matched is None {
        None
    } else {
        Some(
            (
                group_extended(g, seg, p, matched->0),
                seg.tcp_flags & (TCP_FLAG_FIN | TCP_FLAG_PSH) != 0 || seg.payload_len < g.gso_size,
            ),
        )
    }
}

/// The offload header of a coalesced packet.
pub open spec fn group_header(g: GroupState) -> VirtioNetHdr {
    VirtioNetHdr {
        flags: VIRTIO_NET_HDR_F_NEEDS_CSUM,
        gso_type: if g.is_v6 {
            VIRTIO_NET_HDR_GSO_TCPV6
        } else {
            VIRTIO_NET_HDR_GSO_TCPV4
        },
        hdr_len: g.headers() as u16,
        gso_size: g.gso_size as u16,
        csum_start: g.ip_header_len as u16,
        csum_offset: TCP_CHECKSUM_OFFSET as u16,
        num_buffers: 0,
    }
}

/// Output emitted by the GRO table.
#[derive(Debug)]
pub enum CoalescedOutput {
    /// A plain IP packet to send without offload metadata
    /// (pass-through or a group that ended up with a single segment).
    Single(Vec<u8>),
    /// A coalesced multi-segment packet plus its synthetic offload header.
    Coalesced(VirtioNetHdr, Vec<u8>),
}

/// What an output holds.
pub enum OutputView {
    Single(Seq<u8>),
    Coalesced(VirtioNetHdr, Seq<u8>),
}

impl View for CoalescedOutput {
    type V = OutputView;

    open spec fn view(&self) -> OutputView {
        match self {
            CoalescedOutput::Single(p) => OutputView::Single(p@),
            CoalescedOutput::Coalesced(h, p) => OutputView::Coalesced(*h, p@),
        }
    }
}

/// The output of a group: its one packet as it came, or the merged packet with its
/// lengths set and a partial checksum.
pub open spec fn group_output(g: GroupState) -> OutputView {
    if g.segment_count == 1 {
        OutputView::Single(g.buf)
    } else {
        OutputView::Coalesced(
            group_header(g),
            headers::offload_finished(g.is_v6, g.ip_header_len, g.buf)->Ok_0,
        )
    }
}

/// In-progress coalesced group for one TCP flow.
#[derive(Debug)]
pub struct GroGroup {
    /// `[IP header][TCP header][concatenated payloads]`, headers from the
    /// first segment (timestamps and final FIN/PSH updated on append).
    buf: Vec<u8>,
    ip_header_len: usize,
    tcp_header_len: usize,
    is_v6: bool,
    /// Uniform segment payload size (MSS), set by the first segment.
    gso_size: usize,
    segment_count: usize,
    /// Expected sequence number of the next in-order segment.
    next_seq: u32,
}

impl View for GroGroup {
    type V = GroupState;

    closed spec fn view(&self) -> GroupState {
        GroupState {
            buf: self.buf@,
            ip_header_len: self.ip_header_len as int,
            tcp_header_len: self.tcp_header_len as int,
            is_v6: self.is_v6,
            gso_size: self.gso_size as int,
            segment_count: self.segment_count as int,
            next_seq: self.next_seq,
        }
    }
}

/// Outcome of offering a segment to a group.
#[derive(Debug, Clone, Copy, PartialEq, Eq, Structural)]
pub enum AppendResult {
    /// Segment was appended; `closed` means the group must be emitted now
    /// (FIN/PSH or short final segment).
    Appended { closed: bool },
    /// Segment cannot extend this group (the group must be finalized and a
    /// new one started).
    Incompatible,
}

impl GroGroup {
    /// Starts a group with the segment `packet`.
    pub fn new(seg: &TcpSegmentView, packet: &[u8]) -> (g: Self)
        requires
            seg.describes(packet@),
        ensures
            g@ == group_started(*seg, packet@),
            g@.valid(),
    {
        GroGroup {
            buf: slice_to_vec(packet),
            ip_header_len: seg.ip_header_len,
            tcp_header_len: seg.tcp_header_len,
            is_v6: seg.is_v6,
            gso_size: seg.payload_len,
            segment_count: 1,
            next_seq: seg.seq.wrapping_add(seg.payload_len as u32),
        }
    }

    /// Check that the headers of `packet` match this group's headers byte-for-byte,
    /// modulo fields that legitimately vary between consecutive segments.
    ///
    /// Returns `None` if incompatible, otherwise the timestamp option data
    /// offset (within the options region) if a timestamp option is present.
    pub fn headers_compatible(&self, seg: &TcpSegmentView, packet: &[u8]) -> (r: Option<
        Option<usize>,
    >)
        requires
            self@.valid(),
            seg.describes(packet@),
        ensures
            r == headers_match(self@, *seg, packet@),
            r is Some && r->0 is Some ==> 2 <= r->0->0 && 20 + r->0->0 + 8
                <= self@.tcp_header_len,
    {
        if seg.ip_header_len != self.ip_header_len || seg.tcp_header_len != self.tcp_header_len
            || seg.is_v6 != self.is_v6 {
            return None;
        }
        let g = self.buf.as_slice();
        let t: usize = self.ip_header_len;
        if self.is_v6 {
            // All but the payload length.
            if !same_range(g, packet, 0, 4) || !same_range(g, packet, 6, 40) {
                return None;
            }
        } else {
            // All but the total length, the identification and the header checksum.
            if !same_range(g, packet, 0, 2) || !same_range(g, packet, 6, 10) || !same_range(
                g,
                packet,
                12,
                t,
            ) {
                return None;
            }
        }
        if !same_range(g, packet, t, t + 4) || !same_range(g, packet, t + 8, t + 13) || !same_range(
            g,
            packet,
            t + 14,
            t + 16,
        ) || !same_range(g, packet, t + 18, t + 20) {
            return None;
        }
        if g[t + 13] & !(TCP_FLAG_FIN | TCP_FLAG_PSH) != packet[t + 13] & !(TCP_FLAG_FIN
            | TCP_FLAG_PSH) {
            return None;
        }
        tcp_options_compatible(
            slice_subrange(g, t + 20, t + self.tcp_header_len),
            slice_subrange(packet, t + 20, t + self.tcp_header_len),
        )
    }

    /// Appends the segment `packet` if it continues the group.
    pub fn try_append(&mut self, seg: &TcpSegmentView, packet: &[u8]) -> (r: AppendResult)
        requires
            old(self)@.valid(),
            seg.describes(packet@),
        ensures
            final(self)@.valid(),
            match group_offered(old(self)@, *seg, packet@) {
                None => r == AppendResult::Incompatible && *final(self) == *old(self),
                Some((g, closed)) => r == (AppendResult::Appended { closed }) && final(self)@ == g,
            },
    {
        let ghost before = self@;
        if seg.seq != self.next_seq {
            return AppendResult::Incompatible;
        }
        // A longer segment can never extend a group of uniform payloads.
        if seg.payload_len > self.gso_size {
            return AppendResult::Incompatible;
        }
        if self.segment_count + 1 > MAX_GRO_SEGMENTS || self.buf.len() > MAX_GRO_PACKET_SIZE
            || self.buf.len() + seg.payload_len > MAX_GRO_PACKET_SIZE {
            return AppendResult::Incompatible;
        }
        let ts_offset: Option<usize> = match self.headers_compatible(seg, packet) {
            Some(ts) => ts,
            None => {
                return AppendResult::Incompatible;
            },
        };
        // The latest timestamps go into the common header.
        if let Some(off) = ts_offset {
            let at: usize = self.ip_header_len + 20 + off;
            copy_range(self.buf.as_mut_slice(), packet, at, at + 8);
        }
        let header_len: usize = seg.ip_header_len + seg.tcp_header_len;
        let payload = slice_subrange(packet, header_len, packet.len());
        assert(payload@ =~= packet@.skip(before.headers()));
        append_bytes(&mut self.buf, payload);
        self.next_seq = self.next_seq.wrapping_add(seg.payload_len as u32);
        self.segment_count = self.segment_count + 1;
        // FIN and PSH are valid on the final segment only, so they close the group, as
        // does a short segment.
        let fin_psh: u8 = seg.tcp_flags & (TCP_FLAG_FIN | TCP_FLAG_PSH);
        if fin_psh != 0 {
            let at: usize = self.ip_header_len + 13;
            let flags: u8 = self.buf[at] | fin_psh;
            self.buf.as_mut_slice()[at] = flags;
        }
        assert(self@.buf =~= group_extended(before, *seg, packet@, ts_offset).buf);
        AppendResult::Appended { closed: fin_psh != 0 || seg.payload_len < self.gso_size }
    }

    /// Convert the group into its output form.
    ///
    /// Single-segment groups are emitted as the original plain packet.
    /// Multi-segment groups get updated IP lengths, a partial pseudo-header
    /// TCP checksum and a synthetic TCP GSO header. No valid group is refused.
    pub fn finalize(self) -> (r: Result<CoalescedOutput, String>)
        requires
            self@.valid(),
        ensures
            r is Ok,
            r->Ok_0@ == group_output(self@),
    {
        if self.segment_count == 1 {
            return Ok(CoalescedOutput::Single(self.buf));
        }
        let ghost g = self@;
        let mut buf: Vec<u8> = self.buf;
        let total_len: usize = buf.len();
        if self.is_v6 {
            update_ipv6_payload_length(buf.as_mut_slice(), total_len)?;
        } else {
            update_ipv4_lengths_and_checksum(buf.as_mut_slice(), total_len)?;
        }
        // The folded (not complemented) pseudo-header sum: whoever segments the packet
        // completes it for each segment.
        let partial: u16 = tcp_pseudo_header_partial_checksum(
            buf.as_slice(),
            self.is_v6,
            self.ip_header_len,
        )?;
        write_be16(buf.as_mut_slice(), self.ip_header_len + TCP_CHECKSUM_OFFSET, partial);
        let hdr = VirtioNetHdr {
            flags: VIRTIO_NET_HDR_F_NEEDS_CSUM,
            // Segments marked CWR are never coalesced, so the ECN mark is never needed.
            gso_type: if self.is_v6 {
                VIRTIO_NET_HDR_GSO_TCPV6
            } else {
                VIRTIO_NET_HDR_GSO_TCPV4
            },
            hdr_len: (self.ip_header_len + self.tcp_header_len) as u16,
            gso_size: self.gso_size as u16,
            csum_start: self.ip_header_len as u16,
            csum_offset: TCP_CHECKSUM_OFFSET as u16,
            num_buffers: 0,
        };
        Ok(CoalescedOutput::Coalesced(hdr, buf))
    }
}

/// The pending groups of a table, oldest first.
pub type Pending = Seq<(TcpFlowKey, GroupState)>;

/// No two groups belong to one flow, every group can be finalized, and there are no
/// more of them than the table holds.
pub open spec fn pending_valid(table: Pending) -> bool {
    &&& table.len() <= MAX_GRO_FLOWS
    &&& forall|i: int, j: int| 0 <= i < j < table.len() ==> table[i].0 != table[j].0
    &&& forall|i: int| 0 <= i < table.len() ==> (#[trigger] table[i]).1.valid()
}

/// The flow has a pending group.
pub open spec fn has_flow(table: Pending, key: TcpFlowKey) -> bool {
    exists|i: int| 0 <= i < table.len() && (#[trigger] table[i]).0 == key
}

/// Where the pending group of a flow is.
pub open spec fn flow_index(table: Pending, key: TcpFlowKey) -> int {
    choose|i: int| 0 <= i < table.len() && (#[trigger] table[i]).0 == key
}

/// What a push leaves pending, what it puts out, and whether the pushed packet is to be
/// sent as it is.
pub struct PushOutcome {
    pub table: Pending,
    pub outputs: Seq<OutputView>,
    pub pass_through: bool,
}

/// A segment without a group to join: it passes through if it carries FIN or PSH, and
/// starts a group otherwise, for which the oldest group makes room if the table is full.
pub open spec fn segment_starts(
    table: Pending,
    outputs: Seq<OutputView>,
    seg: TcpSegmentView,
    p: Seq<u8>,
) -> PushOutcome {
    let entry = (seg.key, group_started(seg, p));
    if seg.tcp_flags & (TCP_FLAG_FIN | TCP_FLAG_PSH) != 0 {
        PushOutcome { table, outputs, pass_through: true }
    } else if table.len() >= MAX_GRO_FLOWS {
        PushOutcome {
            table: table.remove(0).push(entry),
            outputs: outputs.push(group_output(table[0].1)),
            pass_through: false,
        }
    } else {
        PushOutcome { table: table.push(entry), outputs, pass_through: false }
    }
}

/// What pushing the segment `p` does to a table: it joins the group of its flow if it
/// continues that group, which goes out if the segment closes it; otherwise the group
/// goes out first, and the segment is on its own.
pub open spec fn segment_pushed(table: Pending, seg: TcpSegmentView, p: Seq<u8>) -> PushOutcome {
    let nothing = Seq::<OutputView>::empty();
    if has_flow(table, seg.key) {
        let i = flow_index(table, seg.key);
        match group_offered(table[i].1, seg, p) {
            Some((g, closed)) => if closed {
                PushOutcome {
                    table: table.remove(i),
                    outputs: seq![group_output(g)],
                    pass_through: false,
                }
            } else {
                PushOutcome {
                    table: table.update(i, (seg.key, g)),
                    outputs: nothing,
                    pass_through: false,
                }
            },
            None => segment_starts(table.remove(i), seq![group_output(table[i].1)], seg, p),
        }
    } else {
        segment_starts(table, nothing, seg, p)
    }
}

/// What pushing the packet `p` does to a table.
pub open spec fn pushed(table: Pending, p: Seq<u8>) -> PushOutcome {
    let nothing = Seq::<OutputView>::empty();
    match gro_class(p) {
        GroClass::PassThrough => PushOutcome { table, outputs: nothing, pass_through: true },
        GroClass::SameFlowPassThrough(key) => if has_flow(table, key) {
            let i = flow_index(table, key);
            PushOutcome {
                table: table.remove(i),
                outputs: seq![group_output(table[i].1)],
                pass_through: true,
            }
        } else {
            PushOutcome { table, outputs: nothing, pass_through: true }
        },
        GroClass::Coalescable(seg) => segment_pushed(table, seg, p),
    }
}

/// The outputs of all pending groups, oldest first.
pub open spec fn flushed(table: Pending) -> Seq<OutputView> {
    table.map_values(|entry: (TcpFlowKey, GroupState)| group_output(entry.1))
}

/// What is left and what has gone out, in order, after packets were pushed one after the
/// other; a packet that passes through goes out as it is.
pub open spec fn fed(table: Pending, packets: Seq<Seq<u8>>) -> (Pending, Seq<OutputView>)
    decreases packets.len(),
{
    if packets.len() == 0 {
        (table, Seq::empty())
    } else {
        let (before, sent) = fed(table, packets.drop_last());
        let o = pushed(before, packets.last());
        (
            o.table,
            if o.pass_through {
                (sent + o.outputs).push(OutputView::Single(packets.last()))
            } else {
                sent + o.outputs
            },
        )
    }
}

/// What a list of outputs holds.
pub open spec fn output_views(outputs: Seq<CoalescedOutput>) -> Seq<OutputView> {
    outputs.map_values(|o: CoalescedOutput| o@)
}

/// Result of pushing one packet into a [`TcpGroTable`].
///
/// `outputs` are finalized groups that must be emitted now, carrying data
/// older than the pushed packet. When `pass_through` is true the pushed
/// packet was not consumed and the caller must send the original packet
/// as-is, after `outputs`, preserving in-flow ordering. Pass-through packets
/// are never copied into the table.
#[derive(Debug)]
pub struct GroPush {
    pub outputs: Vec<CoalescedOutput>,
    pub pass_through: bool,
}

/// Bounded accumulator that coalesces in-order same-flow TCP segments.
///
/// `push` returns any outputs that must be emitted immediately; groups left
/// pending must be drained via `flush_all` so they never linger beyond the
/// caller's drain point (the moment the packet source goes empty).
#[derive(Debug)]
pub struct TcpGroTable {
    /// Oldest group first.
    groups: Vec<(TcpFlowKey, GroGroup)>,
}

impl View for TcpGroTable {
    type V = Pending;

    closed spec fn view(&self) -> Pending {
        self.groups@.map_values(|entry: (TcpFlowKey, GroGroup)| (entry.0, entry.1@))
    }
}

impl Default for TcpGroTable {
    fn default() -> (t: Self)
        ensures
            t@ == Seq::<(TcpFlowKey, GroupState)>::empty(),
            t.wf(),
    {
        TcpGroTable::new()
    }
}

impl TcpGroTable {
    /// The invariant of the table.
    pub open spec fn wf(self) -> bool {
        pending_valid(self@)
    }

    /// An empty table.
    pub fn new() -> (t: Self)
        ensures
            t@ == Seq::<(TcpFlowKey, GroupState)>::empty(),
            t.wf(),
    {
        let t = TcpGroTable { groups: Vec::with_capacity(MAX_GRO_FLOWS) };
        assert(t@ =~= Seq::<(TcpFlowKey, GroupState)>::empty());
        t
    }

    /// True if no groups are pending.
    pub fn is_empty(&self) -> (r: bool)
        ensures
            r == (self@.len() == 0),
    {
        self.groups.is_empty()
    }

    /// Finds the pending group of a flow.
    fn find(&self, key: &TcpFlowKey) -> (r: Option<usize>)
        requires
            self.wf(),
        ensures
            match r {
                Some(i) => has_flow(self@, *key) && i == flow_index(self@, *key) && i < self@.len()
                    && self@[i as int].0 == *key,
                None => !has_flow(self@, *key),
            },
    {
        let mut i: usize = 0;
        while i < self.groups.len()
            invariant
                self.wf(),
                i <= self@.len(),
                forall|k: int| 0 <= k < i ==> (#[trigger] self@[k]).0 != *key,
            decreases self@.len() - i,
        {
            assert(self@[i as int].0 == self.groups@[i as int].0);
            if self.groups[i].0 == *key {
                return Some(i);
            }
            i = i + 1;
        }
        None
    }

    /// Takes the group at `i` out of the table and puts it out.
    fn close(&mut self, i: usize, out: &mut Vec<CoalescedOutput>)
        requires
            old(self).wf(),
            i < old(self)@.len(),
        ensures
            final(self)@ == old(self)@.remove(i as int),
            final(self).wf(),
            !has_flow(final(self)@, old(self)@[i as int].0),
            output_views(final(out)@) == output_views(old(out)@).push(
                group_output(old(self)@[i as int].1),
            ),
    {
        let ghost before = self@;
        assert(self.groups@[i as int].1@ == before[i as int].1);
        let (_, group) = self.groups.remove(i);
        assert(self@ =~= before.remove(i as int));
        Self::emit(group, out);
        proof {
            lemma_valid_without(before, i as int);
        }
    }

    /// Push an IP packet into the table.
    ///
    /// Finalized groups (older data) are returned in `outputs` and always
    /// precede a pass-through packet carrying later data, preserving in-flow
    /// ordering. Pass-through packets (non-TCP, pure ACKs, FIN/PSH starters)
    /// are signaled via `pass_through` instead of being copied.
    pub fn push(&mut self, ip_packet: &[u8]) -> (r: GroPush)
        requires
            old(self).wf(),
        ensures
            final(self).wf(),
            ({
                let o = pushed(old(self)@, ip_packet@);
                &&& final(self)@ == o.table
                &&& output_views(r.outputs@) == o.outputs
                &&& r.pass_through == o.pass_through
            }),
    {
        let ghost before = self@;
        let mut out: Vec<CoalescedOutput> = Vec::new();
        assert(output_views(out@) =~= Seq::<OutputView>::empty());
        let pass_through = match gro_classify(ip_packet) {
            GroClass::PassThrough => true,
            GroClass::SameFlowPassThrough(key) => {
                // Pending data of the flow goes first, so that the order is kept.
                if let Some(i) = self.find(&key) {
                    self.close(i, &mut out);
                    assert(output_views(out@) =~= seq![group_output(before[i as int].1)]);
                }
                true
            },
            GroClass::Coalescable(seg) => self.push_segment(&seg, ip_packet, &mut out),
        };
        GroPush { outputs: out, pass_through }
    }

    /// Push a TCP data segment into the table.
    fn push_segment(
        &mut self,
        seg: &TcpSegmentView,
        packet: &[u8],
        out: &mut Vec<CoalescedOutput>,
    ) -> (pass_through: bool)
        requires
            old(self).wf(),
            seg.describes(packet@),
            old(out)@.len() == 0,
        ensures
            final(self).wf(),
            ({
                let o = segment_pushed(old(self)@, *seg, packet@);
                &&& final(self)@ == o.table
                &&& output_views(final(out)@) == o.outputs
                &&& pass_through == o.pass_through
            }),
    {
        let ghost before = self@;
        assert(output_views(out@) =~= Seq::<OutputView>::empty());
        match self.find(&seg.key) {
            Some(i) => {
                let (key, mut group) = self.groups.remove(i);
                assert(group@ == before[i as int].1 && key == before[i as int].0);
                let appended = group.try_append(seg, packet);
                let ghost g = group@;
                self.groups.insert(i, (key, group));
                assert(self@ =~= before.update(i as int, (key, g)));
                proof {
                    lemma_valid_with(before, i as int, g);
                }
                match appended {
                    AppendResult::Appended { closed } => {
                        if closed {
                            self.close(i, out);
                            assert(output_views(out@) =~= seq![group_output(g)]);
                            assert(self@ =~= before.remove(i as int));
                        }
                        false
                    },
                    AppendResult::Incompatible => {
                        assert(self@ =~= before);
                        self.close(i, out);
                        assert(output_views(out@) =~= seq![group_output(before[i as int].1)]);
                        self.start_group(seg, packet, out)
                    },
                }
            },
            None => self.start_group(seg, packet, out),
        }
    }

    /// Drain all pending groups (oldest first).
    pub fn flush_all(&mut self) -> (r: Vec<CoalescedOutput>)
        requires
            old(self).wf(),
        ensures
            final(self).wf(),
            final(self)@ == Seq::<(TcpFlowKey, GroupState)>::empty(),
            output_views(r@) == flushed(old(self)@),
    {
        let ghost before = self@;
        let mut out: Vec<CoalescedOutput> = Vec::with_capacity(self.groups.len());
        assert(self@ =~= before.skip(0));
        assert(output_views(out@) =~= flushed(before.take(0)));
        let ghost mut n: int = 0;
        while self.groups.len() > 0
            invariant
                self.wf(),
                0 <= n <= before.len(),
                self@ == before.skip(n),
                output_views(out@) == flushed(before.take(n)),
            decreases self@.len(),
        {
            self.close(0, &mut out);
            proof {
                assert(self@ =~= before.skip(n + 1));
                assert(output_views(out@) =~= flushed(before.take(n + 1)));
                n = n + 1;
            }
        }
        assert(before.take(n) =~= before);
        assert(self@ =~= Seq::<(TcpFlowKey, GroupState)>::empty());
        out
    }

    /// Start a new group for `seg`, evicting the oldest group into `out` if
    /// the table is full. Returns true if the segment must instead pass
    /// through unmodified (FIN/PSH segments can never be extended).
    fn start_group(
        &mut self,
        seg: &TcpSegmentView,
        packet: &[u8],
        out: &mut Vec<CoalescedOutput>,
    ) -> (pass_through: bool)
        requires
            old(self).wf(),
            !has_flow(old(self)@, seg.key),
            seg.describes(packet@),
        ensures
            final(self).wf(),
            ({
                let o = segment_starts(old(self)@, output_views(old(out)@), *seg, packet@);
                &&& final(self)@ == o.table
                &&& output_views(final(out)@) == o.outputs
                &&& pass_through == o.pass_through
            }),
    {
        let ghost before = self@;
        if seg.tcp_flags & (TCP_FLAG_FIN | TCP_FLAG_PSH) != 0 {
            return true;
        }
        if self.groups.len() >= MAX_GRO_FLOWS {
            self.close(0, out);
            assert(forall|k: int|
                0 <= k < self@.len() ==> (#[trigger] self@[k]) == before[k + 1]);
        }
        let ghost kept = self@;
        let group = GroGroup::new(seg, packet);
        let ghost g = group@;
        self.groups.push((seg.key, group));
        assert(self@ =~= kept.push((seg.key, g)));
        assert(pending_valid(self@)) by {
            assert forall|i: int, j: int| 0 <= i < j < self@.len() implies self@[i].0
                != self@[j].0 by {
                if j == kept.len() {
                    if kept.len() == before.len() {
                        assert(self@[i] == before[i]);
                    } else {
                        assert(self@[i] == before[i + 1]);
                    }
                }
            }
        }
        false
    }

    /// Puts out a group.
    fn emit(group: GroGroup, out: &mut Vec<CoalescedOutput>)
        requires
            group@.valid(),
        ensures
            output_views(final(out)@) == output_views(old(out)@).push(group_output(group@)),
    {
        if let Ok(output) = group.finalize() {
            out.push(output);
        }
        assert(output_views(out@) =~= output_views(old(out)@).push(group_output(group@)));
    }
}

/// Removing a group keeps a table valid.
proof fn lemma_valid_without(table: Pending, i: int)
    requires
        pending_valid(table),
        0 <= i < table.len(),
    ensures
        pending_valid(table.remove(i)),
        !has_flow(table.remove(i), table[i].0),
{
    let rest = table.remove(i);
    assert forall|k: int| 0 <= k < rest.len() implies (#[trigger] rest[k]) == table[if k < i {
        k
    } else {
        k + 1
    }] by {}
}

/// Replacing a group by a valid one of the same flow keeps a table valid.
proof fn lemma_valid_with(table: Pending, i: int, g: GroupState)
    requires
        pending_valid(table),
        0 <= i < table.len(),
        g.valid(),
    ensures
        pending_valid(table.update(i, (table[i].0, g))),
{
}

} // verus!
