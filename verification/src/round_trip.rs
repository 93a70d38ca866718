//! Segmentation and coalescing undo each other.

use vstd::prelude::*;
use crate::checksum;
use crate::coalesce;
use crate::completion;
use crate::gro;
use crate::headers;
use crate::segment;
use crate::segment::{Emission, GsoLayout, TCP_FLAG_FIN, TCP_FLAG_PSH};
use crate::virtio::{
    VirtioNetHdr, VIRTIO_NET_HDR_F_NEEDS_CSUM, VIRTIO_NET_HDR_GSO_TCPV4, VIRTIO_NET_HDR_GSO_TCPV6,
};
use crate::wire;

verus! {

/// A byte of the fields that are set when a segment is sealed: the IP length, the IPv4
/// header checksum and the TCP checksum.
pub open spec fn seal_field(is_ipv6: bool, t: int, i: int) -> bool {
    ||| is_ipv6 && 4 <= i < 6
    ||| !is_ipv6 && (2 <= i < 4 || 10 <= i < 12)
    ||| t + 16 <= i < t + 18
}

/// A header byte that differs between the segments of one burst: besides the sealed
/// fields, the sequence number and the flags.
pub open spec fn segment_field(is_ipv6: bool, t: int, i: int) -> bool {
    ||| seal_field(is_ipv6, t, i)
    ||| t + 4 <= i < t + 8
    ||| i == t + 13
}

/// The packet `p` is TCP over IP with its TCP header at `t` and its payload at `h`.
pub open spec fn tcp_shape(is_ipv6: bool, t: int, h: int, p: Seq<u8>) -> bool {
    &&& h <= p.len()
    &&& if is_ipv6 {
        headers::ip_version(p) == 6 && t == 40
    } else {
        headers::ip_version(p) == 4 && 20 <= t <= 60 && headers::ipv4_header_len(p) == t && p[9]
            == headers::PROTOCOL_TCP
    }
    &&& t + 20 <= h <= t + 60
    &&& headers::tcp_header_len_at(p, t) == h - t
}

/// The lengths and checksums of `p` are those that sealing it would set.
pub open spec fn is_sealed(is_ipv6: bool, t: int, p: Seq<u8>) -> bool {
    segment::segment_sealed(is_ipv6, t, t + 16, p) == Ok::<Seq<u8>, crate::error::OffloadError>(p)
}

/// A run of consecutive segments of one flow, with headers of `h` bytes and payloads of
/// `g` bytes, of which only the last can be shorter: sealed packets whose headers agree
/// but for what differs between segments, whose sequence numbers advance by the payload,
/// and of which only the last can carry FIN and PSH.
pub open spec fn is_burst(is_ipv6: bool, t: int, h: int, g: int, segments: Seq<Seq<u8>>) -> bool {
    &&& segments.len() >= 1
    &&& 0 < g <= u16::MAX
    &&& forall|k: int|
        0 <= k < segments.len() ==> burst_member(is_ipv6, t, h, g, segments, k)
}

/// Segment `k` of a burst.
pub open spec fn burst_member(
    is_ipv6: bool,
    t: int,
    h: int,
    g: int,
    segments: Seq<Seq<u8>>,
    k: int,
) -> bool {
    let s = segments[k];
    let last = k == segments.len() - 1;
    &&& tcp_shape(is_ipv6, t, h, s)
    &&& is_sealed(is_ipv6, t, s)
    &&& if last {
        0 < s.len() - h <= g
    } else {
        s.len() - h == g
    }
    &&& forall|i: int| 0 <= i < h && !segment_field(is_ipv6, t, i) ==> s[i] == segments[0][i]
    &&& wire::be32_at(s, t + 4) == wire::be32_at(segments[0], t + 4).wrapping_add((k * g) as u32)
    &&& !last ==> s[t + 13] == segments.last()[t + 13] & !(TCP_FLAG_FIN | TCP_FLAG_PSH)
}

/// Sealing overwrites the fields that it sets, whatever they held.
#[verifier::rlimit(30)]
pub proof fn lemma_seal_ignores_fields(is_ipv6: bool, t: int, h: int, a: Seq<u8>, b: Seq<u8>)
    requires
        tcp_shape(is_ipv6, t, h, a),
        a.len() == b.len(),
        forall|i: int| 0 <= i < a.len() && !seal_field(is_ipv6, t, i) ==> a[i] == b[i],
    ensures
        segment::segment_sealed(is_ipv6, t, t + 16, a) == segment::segment_sealed(
            is_ipv6,
            t,
            t + 16,
            b,
        ),
{
    reveal(segment::segment_sealed);
    assert(a[0] == b[0]);
    if is_ipv6 {
        if a.len() - 40 <= u16::MAX {
            let qa = headers::ipv6_finished(a, a.len())->Ok_0;
            let qb = headers::ipv6_finished(b, b.len())->Ok_0;
            assert(wire::put_be16(qa, t + 16, 0) =~= wire::put_be16(qb, t + 16, 0));
        }
    } else {
        assert(a[9] == b[9]);
        if a.len() <= u16::MAX {
            let n = a.len() as u16;
            let la = headers::ipv4_with_length(a, n);
            let lb = headers::ipv4_with_length(b, n);
            assert(la[0] == a[0] && lb[0] == b[0]);
            assert(la.take(t) =~= lb.take(t));
            let qa = headers::ipv4_finished(a, a.len())->Ok_0;
            let qb = headers::ipv4_finished(b, b.len())->Ok_0;
            assert(wire::put_be16(qa, t + 16, 0) =~= wire::put_be16(qb, t + 16, 0));
        }
    }
}

/// Sealing touches nothing but the fields that it sets, and what it makes is sealed.
pub proof fn lemma_seal_result(is_ipv6: bool, t: int, h: int, draft: Seq<u8>)
    requires
        tcp_shape(is_ipv6, t, h, draft),
        segment::segment_sealed(is_ipv6, t, t + 16, draft) is Ok,
    ensures
        ({
            let s = segment::segment_sealed(is_ipv6, t, t + 16, draft)->Ok_0;
            &&& s.len() == draft.len()
            &&& forall|i: int|
                0 <= i < s.len() && !seal_field(is_ipv6, t, i) ==> s[i] == draft[i]
            &&& tcp_shape(is_ipv6, t, h, s)
            &&& is_sealed(is_ipv6, t, s)
        }),
{
    reveal(segment::segment_sealed);
    let s = segment::segment_sealed(is_ipv6, t, t + 16, draft)->Ok_0;
    assert forall|i: int| 0 <= i < s.len() && !seal_field(is_ipv6, t, i) implies s[i] == draft[i] by {}
    assert(s[0] == draft[0]);
    assert(s[t + 12] == draft[t + 12]);
    lemma_seal_ignores_fields(is_ipv6, t, h, draft, s);
}

/// A draft of proper shape can be sealed when its length fits the IP length field.
pub proof fn lemma_seal_succeeds(is_ipv6: bool, t: int, h: int, draft: Seq<u8>)
    requires
        tcp_shape(is_ipv6, t, h, draft),
        is_ipv6 ==> draft.len() - 40 <= u16::MAX,
        !is_ipv6 ==> draft.len() <= u16::MAX,
    ensures
        segment::segment_sealed(is_ipv6, t, t + 16, draft) is Ok,
{
    reveal(segment::segment_sealed);
}

/// The bytes of a 32-bit number.
proof fn lemma_be32_parts(a: u8, b: u8, c: u8, d: u8)
    ensures
        ({
            let v = (a * 0x100_0000 + b * 0x1_0000 + c * 0x100 + d) as u32;
            &&& (v / 0x100_0000) as u8 == a
            &&& (v / 0x1_0000 % 256) as u8 == b
            &&& (v / 0x100 % 256) as u8 == c
            &&& (v % 256) as u8 == d
        }),
{
    let v = (a * 0x100_0000 + b * 0x1_0000 + c * 0x100 + d) as u32;
    assert(v / 0x100_0000 == a);
    assert(v / 0x1_0000 == a * 256 + b);
    assert(v / 0x100 == a * 0x1_0000 + b * 256 + c);
}

/// Two buffers with the same 32-bit field agree on its bytes.
proof fn lemma_be32_same_bytes(a: Seq<u8>, v: u32, i: int, s: Seq<u8>)
    requires
        0 <= i,
        i + 4 <= a.len(),
        i + 4 <= s.len(),
        wire::be32_at(a, i) == v,
    ensures
        forall|j: int| i <= j < i + 4 ==> wire::put_be32(s, i, v)[j] == a[j],
{
    lemma_be32_parts(a[i], a[i + 1], a[i + 2], a[i + 3]);
    let r = wire::put_be32(s, i, v);
    assert(r[i] == a[i]);
    assert(r[i + 1] == a[i + 1]);
    assert(r[i + 2] == a[i + 2]);
    assert(r[i + 3] == a[i + 3]);
}

/// Where the payload of segment `k` lies among the payloads of a run of which only the
/// last is shorter than `g`.
proof fn lemma_payload_place(segments: Seq<Seq<u8>>, h: int, g: int, k: int)
    requires
        0 <= k < segments.len(),
        0 <= h,
        0 < g,
        forall|j: int|
            0 <= j < segments.len() - 1 ==> (#[trigger] segments[j]).len() == h + g,
        h < segments.last().len() <= h + g,
    ensures
        coalesce::payloads(segments, h).len() == (segments.len() - 1) * g + segments.last().len()
            - h,
        0 <= k * g,
        k * g + segments[k].len() - h <= coalesce::payloads(segments, h).len(),
        k < segments.len() - 1 ==> k * g + g < coalesce::payloads(segments, h).len(),
        k == segments.len() - 1 ==> k * g + segments[k].len() - h == coalesce::payloads(
            segments,
            h,
        ).len(),
        coalesce::payloads(segments, h).subrange(k * g, k * g + segments[k].len() - h)
            == segments[k].skip(h),
    decreases segments.len(),
{
    let n = segments.len() as int;
    let front = segments.drop_last();
    let all = coalesce::payloads(segments, h);
    let head = coalesce::payloads(front, h);
    assert(all == head + segments.last().skip(h));
    if n == 1 {
        assert(head =~= Seq::<u8>::empty());
        assert(0 * g == 0) by (nonlinear_arith);
        assert(all.subrange(0, segments[0].len() - h) =~= segments[0].skip(h));
    } else {
        assert(front.last() == segments[n - 2]);
        assert forall|j: int| 0 <= j < front.len() - 1 implies (#[trigger] front[j]).len() == h
            + g by {
            assert(front[j] == segments[j]);
        }
        assert((n - 1) * g == (n - 2) * g + g) by (nonlinear_arith);
        if k < n - 1 {
            lemma_payload_place(front, h, g, k);
            assert(front[k] == segments[k]);
            assert(k * g + g <= (n - 1) * g) by (nonlinear_arith)
                requires
                    k < n - 1,
                    0 < g,
            ;
            assert(head.len() == (n - 1) * g);
            assert(all.subrange(k * g, k * g + g) =~= head.subrange(k * g, k * g + g));
        } else {
            lemma_payload_place(front, h, g, n - 2);
            assert(head.len() == (n - 1) * g);
            assert(all.subrange(k * g, all.len() as int) =~= segments.last().skip(h));
        }
    }
}

/// The packet `p` stands for the burst: it has the headers of its first segment, the
/// flags of its last, and the payloads of all.
pub open spec fn stands_for(
    is_ipv6: bool,
    t: int,
    h: int,
    p: Seq<u8>,
    segments: Seq<Seq<u8>>,
) -> bool {
    &&& h <= p.len()
    &&& p.skip(h) == coalesce::payloads(segments, h)
    &&& forall|i: int| 0 <= i < h && !segment_field(is_ipv6, t, i) ==> p[i] == segments[0][i]
    &&& wire::be32_at(p, t + 4) == wire::be32_at(segments[0], t + 4)
    &&& p[t + 13] == segments.last()[t + 13]
}

/// The layout of a packet that stands for a burst.
pub open spec fn burst_layout(is_ipv6: bool, t: int, h: int, g: int) -> GsoLayout {
    GsoLayout {
        is_ipv6,
        header_len: h as usize,
        tcp_offset: t as usize,
        checksum_index: (t + 16) as usize,
        gso_size: g as usize,
    }
}

/// Segmenting a packet that stands for a burst gives segment `k` at its place.
proof fn lemma_segment_recovered(
    is_ipv6: bool,
    t: int,
    h: int,
    g: int,
    p: Seq<u8>,
    segments: Seq<Seq<u8>>,
    k: int,
)
    requires
        is_burst(is_ipv6, t, h, g, segments),
        stands_for(is_ipv6, t, h, p, segments),
        p.len() <= u32::MAX,
        0 <= k < segments.len(),
    ensures
        0 <= k * g < p.len() - h,
        segment::segment_at(burst_layout(is_ipv6, t, h, g), p, k * g) == Ok::<
            Seq<u8>,
            crate::error::OffloadError,
        >(segments[k]),
        k == segments.len() - 1 ==> k * g + g >= p.len() - h,
{
    let l = burst_layout(is_ipv6, t, h, g);
    let s = segments[k];
    assert(burst_member(is_ipv6, t, h, g, segments, k));
    assert(burst_member(is_ipv6, t, h, g, segments, 0));
    assert forall|j: int| 0 <= j < segments.len() - 1 implies (#[trigger] segments[j]).len() == h
        + g by {
        assert(burst_member(is_ipv6, t, h, g, segments, j));
    }
    assert(burst_member(is_ipv6, t, h, g, segments, segments.len() - 1));
    lemma_payload_place(segments, h, g, k);
    let offset = k * g;
    let end = segment::chunk_end(l, p, offset);
    assert(p.len() - h == coalesce::payloads(segments, h).len());
    assert(end == offset + s.len() - h);
    assert(p.subrange(h + offset, h + end) =~= p.skip(h).subrange(offset, end));
    let draft = segment::segment_draft(l, p, offset);
    assert(draft.len() == s.len());
    let joined = p.take(h) + s.skip(h);
    let number = wire::be32_at(s, t + 4);
    let numbered = wire::put_be32(joined, t + 4, number);
    assert(draft == if end < p.len() - h {
        numbered.update(t + 13, p[t + 13] & !(TCP_FLAG_FIN | TCP_FLAG_PSH))
    } else {
        numbered
    });
    lemma_be32_same_bytes(s, number, t + 4, joined);
    assert forall|i: int| 0 <= i < s.len() && !seal_field(is_ipv6, t, i) implies s[i]
        == draft[i] by {
        if i >= h {
            assert(draft[i] == joined[i]);
        } else if t + 4 <= i < t + 8 {
            assert(draft[i] == numbered[i]);
        } else if i != t + 13 {
            assert(draft[i] == joined[i] && joined[i] == p[i]);
        }
    }
    lemma_seal_ignores_fields(is_ipv6, t, h, s, draft);
}

/// The segment at `offset` comes before those behind it.
proof fn lemma_segments_unfold(l: GsoLayout, p: Seq<u8>, offset: int, s: Seq<u8>)
    requires
        l.gso_size > 0,
        offset < p.len() - l.header_len,
        segment::segment_at(l, p, offset) == Ok::<Seq<u8>, crate::error::OffloadError>(s),
    ensures
        segment::segments_from(l, p, offset).packets == seq![s] + segment::segments_from(
            l,
            p,
            offset + l.gso_size,
        ).packets,
        segment::segments_from(l, p, offset).error == segment::segments_from(
            l,
            p,
            offset + l.gso_size,
        ).error,
{
}

/// Segmenting a packet that stands for a burst gives the burst.
pub proof fn lemma_segments_recovered(
    is_ipv6: bool,
    t: int,
    h: int,
    g: int,
    p: Seq<u8>,
    segments: Seq<Seq<u8>>,
    k: int,
)
    requires
        is_burst(is_ipv6, t, h, g, segments),
        stands_for(is_ipv6, t, h, p, segments),
        p.len() <= u32::MAX,
        0 <= k <= segments.len(),
    ensures
        segment::segments_from(burst_layout(is_ipv6, t, h, g), p, k * g) == (Emission {
            packets: segments.skip(k),
            error: None,
        }),
    decreases segments.len() - k,
{
    let l = burst_layout(is_ipv6, t, h, g);
    let n = segments.len() as int;
    assert(burst_member(is_ipv6, t, h, g, segments, 0));
    if k == n {
        lemma_segment_recovered(is_ipv6, t, h, g, p, segments, n - 1);
        assert(n * g == (n - 1) * g + g) by (nonlinear_arith);
        assert(segments.skip(k) =~= Seq::<Seq<u8>>::empty());
    } else {
        lemma_segment_recovered(is_ipv6, t, h, g, p, segments, k);
        lemma_segments_recovered(is_ipv6, t, h, g, p, segments, k + 1);
        lemma_segments_unfold(l, p, k * g, segments[k]);
        assert((k + 1) * g == k * g + g) by (nonlinear_arith);
        assert(segments.skip(k) =~= seq![segments[k]] + segments.skip(k + 1));
    }
}

/// Writing the complement into the zeroed TCP checksum field makes the checksum valid.
proof fn lemma_tcp_checksum_valid(is_ipv6: bool, t: int, z: Seq<u8>, p: Seq<u8>)
    requires
        t == 40 || !is_ipv6 && 20 <= t,
        t + 20 <= z.len() <= u16::MAX + 40,
        wire::be16_at(z, t + 16) == 0,
        p == wire::put_be16(
            z,
            t + 16,
            checksum::complement(headers::tcp_sum(z, is_ipv6, t)) as u16,
        ),
    ensures
        checksum::sum_is_valid(headers::tcp_sum(p, is_ipv6, t)),
{
    let c = checksum::complement(headers::tcp_sum(z, is_ipv6, t)) as u16;
    assert(wire::put_be16(z, t + 16, 0) =~= z);
    completion::lemma_field_sum(is_ipv6, t, z, 0);
    completion::lemma_field_sum(is_ipv6, t, z, c);
    checksum::law_complement_validates(headers::tcp_sum(z, is_ipv6, t));
}

/// Setting the length of an IPv4 packet makes its header checksum valid.
proof fn lemma_ipv4_header_valid(t: int, p: Seq<u8>, q: Seq<u8>)
    requires
        headers::ip_version(p) == 4,
        headers::ipv4_header_len(p) == t,
        20 <= t <= 60,
        headers::ipv4_finished(p, p.len()) == Ok::<Seq<u8>, crate::error::OffloadError>(q),
    ensures
        wire::be16_at(q, 2) == p.len(),
        checksum::sum_is_valid(checksum::word_sum(q.take(t))),
{
    let n = p.len() as u16;
    let w = headers::ipv4_with_length(p, n);
    let d = headers::ipv4_header_checksum(w);
    assert(w[0] == p[0]);
    assert(q == wire::put_be16(w, 10, d));
    let head = w.take(t);
    assert(q.take(t) =~= wire::put_be16(head, 10, d));
    assert(wire::be16_at(head, 10) == 0);
    checksum::lemma_word_sum_put(head, 10, d);
    checksum::lemma_word_sum_first(head);
    wire::lemma_nibbles(p[0]);
    assert(wire::be16_at(head, 0) >= 0x4000);
    checksum::law_complement_validates(checksum::word_sum(head));
}

/// A sealed packet states its own length, and its checksums are valid.
pub proof fn law_sealed_is_valid(is_ipv6: bool, t: int, h: int, p: Seq<u8>)
    requires
        tcp_shape(is_ipv6, t, h, p),
        is_sealed(is_ipv6, t, p),
    ensures
        is_ipv6 ==> wire::be16_at(p, 4) == p.len() - 40,
        !is_ipv6 ==> wire::be16_at(p, 2) == p.len(),
        !is_ipv6 ==> checksum::sum_is_valid(checksum::word_sum(p.take(t))),
        checksum::sum_is_valid(headers::tcp_sum(p, is_ipv6, t)),
{
    reveal(segment::segment_sealed);
    let q = headers::length_finished(is_ipv6, p)->Ok_0;
    let z = wire::put_be16(q, t + 16, 0);
    assert(q.len() == p.len() <= u16::MAX + 40);
    wire::law_be16_read_back(q, t + 16, 0);
    lemma_tcp_checksum_valid(is_ipv6, t, z, p);
    if is_ipv6 {
        wire::law_be16_read_back(p, 4, (p.len() - 40) as u16);
        assert(p[4] == q[4] && p[5] == q[5]);
    } else {
        lemma_ipv4_header_valid(t, p, q);
        assert(p[2] == q[2] && p[3] == q[3]);
        assert(p.take(t) =~= q.take(t));
    }
}

/// A packet as segmentation offload describes it: TCP headers right where the metadata
/// says, and segments that fit the IP length field.
pub open spec fn gso_packet(offload: VirtioNetHdr, p: Seq<u8>) -> bool {
    let l = segment::gso_layout(offload, p)->Ok_0;
    &&& segment::gso_layout(offload, p) is Ok
    &&& tcp_shape(l.is_ipv6, l.tcp_offset as int, l.header_len as int, p)
    &&& l.checksum_index == l.tcp_offset + 16
    &&& p.len() <= u32::MAX
    &&& l.header_len + l.gso_size <= (if l.is_ipv6 {
        u16::MAX + 40
    } else {
        u16::MAX as int
    })
}

/// Every segment of a GSO packet can be built. It is a packet of its own: the common
/// headers in front of its share of the payload, the sequence number advanced by the
/// payload in front of it, FIN and PSH cleared unless it is the last, and its lengths
/// and checksums set.
pub proof fn law_segment_is_sound(offload: VirtioNetHdr, p: Seq<u8>, offset: int)
    requires
        gso_packet(offload, p),
        0 <= offset < p.len() - segment::gso_layout(offload, p)->Ok_0.header_len,
    ensures
        ({
            let l = segment::gso_layout(offload, p)->Ok_0;
            let t = l.tcp_offset as int;
            let h = l.header_len as int;
            let end = segment::chunk_end(l, p, offset);
            let s = segment::segment_at(l, p, offset)->Ok_0;
            &&& segment::segment_at(l, p, offset) is Ok
            &&& tcp_shape(l.is_ipv6, t, h, s)
            &&& is_sealed(l.is_ipv6, t, s)
            &&& s.len() == h + end - offset
            &&& s.skip(h) == p.subrange(h + offset, h + end)
            &&& forall|i: int|
                0 <= i < h && !segment_field(l.is_ipv6, t, i) ==> s[i] == p[i]
            &&& wire::be32_at(s, t + 4) == wire::be32_at(p, t + 4).wrapping_add(offset as u32)
            &&& s[t + 13] == if end < p.len() - h {
                p[t + 13] & !(TCP_FLAG_FIN | TCP_FLAG_PSH)
            } else {
                p[t + 13]
            }
        }),
{
    let l = segment::gso_layout(offload, p)->Ok_0;
    let t = l.tcp_offset as int;
    let h = l.header_len as int;
    let end = segment::chunk_end(l, p, offset);
    let d = segment::segment_draft(l, p, offset);
    let number = wire::be32_at(p, t + 4).wrapping_add(offset as u32);
    let joined = p.take(h) + p.subrange(h + offset, h + end);
    let numbered = wire::put_be32(joined, t + 4, number);
    assert(d == if end < p.len() - h {
        numbered.update(t + 13, p[t + 13] & !(TCP_FLAG_FIN | TCP_FLAG_PSH))
    } else {
        numbered
    });
    assert(d[0] == p[0]);
    assert(d[t + 12] == p[t + 12]);
    assert(!l.is_ipv6 ==> d[9] == p[9]);
    lemma_seal_succeeds(l.is_ipv6, t, h, d);
    lemma_seal_result(l.is_ipv6, t, h, d);
    let s = segment::segment_at(l, p, offset)->Ok_0;
    assert(s.skip(h) =~= p.subrange(h + offset, h + end));
    wire::law_be32_read_back(joined, t + 4, number);
    assert(forall|j: int| t + 4 <= j < t + 8 ==> s[j] == numbered[j]);
    assert(wire::be32_at(s, t + 4) == wire::be32_at(numbered, t + 4));
}

/// How many segments a payload of `m` bytes makes.
pub open spec fn segment_count(m: int, g: int) -> int {
    (m + g - 1) / g
}

/// The segments of a GSO packet, taken one by one.
spec fn all_segments(l: GsoLayout, p: Seq<u8>) -> Seq<Seq<u8>> {
    Seq::new(
        segment_count(p.len() - l.header_len, l.gso_size as int) as nat,
        |k: int| segment::segment_at(l, p, k * l.gso_size)->Ok_0,
    )
}

/// The segments cover the payload, and the last of them is not empty.
proof fn lemma_segment_count(m: int, g: int)
    requires
        0 < m,
        0 < g,
    ensures
        segment_count(m, g) >= 1,
        (segment_count(m, g) - 1) * g < m <= segment_count(m, g) * g,
{
    let n = segment_count(m, g);
    vstd::arithmetic::div_mod::lemma_fundamental_div_mod(m + g - 1, g);
    assert(m + g - 1 == g * n + (m + g - 1) % g);
    assert(0 <= (m + g - 1) % g < g) by (nonlinear_arith)
        requires
            0 < g,
    ;
    assert(g * n == n * g) by (nonlinear_arith);
    assert((n - 1) * g == n * g - g) by (nonlinear_arith);
    assert(n >= 1) by (nonlinear_arith)
        requires
            n * g >= m,
            m > 0,
            g > 0,
    ;
}

/// The first `k` segments hold the first part of the payload.
proof fn lemma_segment_payloads(offload: VirtioNetHdr, p: Seq<u8>, k: int)
    requires
        gso_packet(offload, p),
        ({
            let l = segment::gso_layout(offload, p)->Ok_0;
            &&& p.len() > l.header_len
            &&& 0 <= k <= all_segments(l, p).len()
        }),
    ensures
        ({
            let l = segment::gso_layout(offload, p)->Ok_0;
            let h = l.header_len as int;
            let m = p.len() - h;
            let upto = if k * l.gso_size < m {
                k * l.gso_size
            } else {
                m
            };
            &&& 0 <= k * l.gso_size
            &&& coalesce::payloads(all_segments(l, p).take(k), h) == p.subrange(h, h + upto)
        }),
    decreases k,
{
    let l = segment::gso_layout(offload, p)->Ok_0;
    let h = l.header_len as int;
    let g = l.gso_size as int;
    let m = p.len() - h;
    let segments = all_segments(l, p);
    lemma_segment_count(m, g);
    if k == 0 {
        assert(0 * g == 0) by (nonlinear_arith);
        assert(segments.take(0) =~= Seq::<Seq<u8>>::empty());
        assert(p.subrange(h, h) =~= Seq::<u8>::empty());
    } else {
        let n = segments.len() as int;
        assert((k - 1) * g <= (n - 1) * g) by (nonlinear_arith)
            requires
                k <= n,
                0 < g,
        ;
        assert(k * g == (k - 1) * g + g) by (nonlinear_arith);
        assert(0 <= (k - 1) * g) by (nonlinear_arith)
            requires
                k >= 1,
                g > 0,
        ;
        lemma_segment_payloads(offload, p, k - 1);
        law_segment_is_sound(offload, p, (k - 1) * g);
        let s = segments.take(k);
        assert(s.drop_last() =~= segments.take(k - 1));
        assert(s.last() == segments[k - 1]);
        let end = segment::chunk_end(l, p, (k - 1) * g);
        assert(p.subrange(h, h + (k - 1) * g) + p.subrange(h + (k - 1) * g, h + end)
            =~= p.subrange(h, h + end));
    }
}

/// The first segment has the sequence number of the packet, and the last its flags.
proof fn lemma_segment_ends(offload: VirtioNetHdr, p: Seq<u8>)
    requires
        gso_packet(offload, p),
        p.len() > segment::gso_layout(offload, p)->Ok_0.header_len,
    ensures
        ({
            let l = segment::gso_layout(offload, p)->Ok_0;
            let t = l.tcp_offset as int;
            let h = l.header_len as int;
            let segments = all_segments(l, p);
            &&& forall|i: int|
                0 <= i < h && !segment_field(l.is_ipv6, t, i) ==> segments[0][i] == p[i]
            &&& wire::be32_at(segments[0], t + 4) == wire::be32_at(p, t + 4)
            &&& segments.last()[t + 13] == p[t + 13]
        }),
{
    let l = segment::gso_layout(offload, p)->Ok_0;
    let g = l.gso_size as int;
    let m = p.len() - l.header_len;
    let segments = all_segments(l, p);
    let n = segments.len() as int;
    lemma_segment_count(m, g);
    assert(0 * g == 0) by (nonlinear_arith);
    assert(0 <= (n - 1) * g) by (nonlinear_arith)
        requires
            n >= 1,
            g > 0,
    ;
    assert(n * g == (n - 1) * g + g) by (nonlinear_arith);
    law_segment_is_sound(offload, p, 0);
    law_segment_is_sound(offload, p, (n - 1) * g);
    assert(segments[0] == segment::segment_at(l, p, 0)->Ok_0);
    assert(segments.last() == segment::segment_at(l, p, (n - 1) * g)->Ok_0);
}

/// Each segment of a GSO packet has its place in a burst.
proof fn lemma_segment_is_member(offload: VirtioNetHdr, p: Seq<u8>, k: int)
    requires
        gso_packet(offload, p),
        p.len() > segment::gso_layout(offload, p)->Ok_0.header_len,
        0 <= k < all_segments(segment::gso_layout(offload, p)->Ok_0, p).len(),
    ensures
        ({
            let l = segment::gso_layout(offload, p)->Ok_0;
            burst_member(
                l.is_ipv6,
                l.tcp_offset as int,
                l.header_len as int,
                l.gso_size as int,
                all_segments(l, p),
                k,
            )
        }),
{
    let l = segment::gso_layout(offload, p)->Ok_0;
    let g = l.gso_size as int;
    let m = p.len() - l.header_len;
    let segments = all_segments(l, p);
    let n = segments.len() as int;
    lemma_segment_count(m, g);
    lemma_segment_ends(offload, p);
    assert(0 <= k * g <= (n - 1) * g) by (nonlinear_arith)
        requires
            0 <= k <= n - 1,
            0 < g,
    ;
    law_segment_is_sound(offload, p, k * g);
    assert(segments[k] == segment::segment_at(l, p, k * g)->Ok_0);
    if k < n - 1 {
        assert(k * g + g <= (n - 1) * g) by (nonlinear_arith)
            requires
                k < n - 1,
                0 < g,
        ;
    } else {
        assert(n * g == (n - 1) * g + g) by (nonlinear_arith);
    }
}

/// Segmenting a GSO packet of more than one segment loses nothing and refuses nothing:
/// it gives a burst, as many segments as the payload needs, and the packet stands for
/// that burst, its payload being theirs in order.
pub proof fn law_segmentation_gives_burst(offload: VirtioNetHdr, p: Seq<u8>)
    requires
        gso_packet(offload, p),
        p.len() - segment::gso_layout(offload, p)->Ok_0.header_len > segment::gso_layout(
            offload,
            p,
        )->Ok_0.gso_size,
    ensures
        ({
            let l = segment::gso_layout(offload, p)->Ok_0;
            let t = l.tcp_offset as int;
            let h = l.header_len as int;
            let g = l.gso_size as int;
            let e = segment::gso_emission(offload, p);
            &&& e.error is None
            &&& e.packets.len() == segment_count(p.len() - h, g)
            &&& e.packets.len() >= 2
            &&& is_burst(l.is_ipv6, t, h, g, e.packets)
            &&& stands_for(l.is_ipv6, t, h, p, e.packets)
            &&& coalesce::payloads(e.packets, h) == p.skip(h)
        }),
{
    let l = segment::gso_layout(offload, p)->Ok_0;
    let t = l.tcp_offset as int;
    let h = l.header_len as int;
    let g = l.gso_size as int;
    let m = p.len() - h;
    let segments = all_segments(l, p);
    let n = segments.len() as int;
    lemma_segment_count(m, g);
    assert(n >= 2) by (nonlinear_arith)
        requires
            n * g >= m,
            m > g,
            g > 0,
    ;
    assert forall|k: int| 0 <= k < n implies burst_member(l.is_ipv6, t, h, g, segments, k) by {
        lemma_segment_is_member(offload, p, k);
    }
    lemma_segment_ends(offload, p);
    lemma_segment_payloads(offload, p, n);
    assert(segments.take(n) =~= segments);
    assert(p.subrange(h, h + m) =~= p.skip(h));
    assert(n * g == (n - 1) * g + g) by (nonlinear_arith);
    lemma_segments_recovered(l.is_ipv6, t, h, g, p, segments, 0);
    assert(segments.skip(0) =~= segments);
    assert(l == burst_layout(l.is_ipv6, t, h, g));
}

/// Making a packet ready for offload touches nothing but the fields that it sets.
proof fn lemma_offload_finish(is_ipv6: bool, t: int, h: int, draft: Seq<u8>)
    requires
        tcp_shape(is_ipv6, t, h, draft),
        draft.len() <= u16::MAX,
    ensures
        ({
            let p = headers::offload_finished(is_ipv6, t, draft)->Ok_0;
            &&& headers::offload_finished(is_ipv6, t, draft) is Ok
            &&& p.len() == draft.len()
            &&& tcp_shape(is_ipv6, t, h, p)
            &&& forall|i: int|
                0 <= i < p.len() && !seal_field(is_ipv6, t, i) ==> p[i] == draft[i]
        }),
{
    let p = headers::offload_finished(is_ipv6, t, draft)->Ok_0;
    assert forall|i: int| 0 <= i < p.len() && !seal_field(is_ipv6, t, i) implies p[i] == draft[i] by {}
    assert(p[0] == draft[0]);
    assert(p[t + 12] == draft[t + 12]);
}

/// A packet that is finished for offload and stands for a burst segments into it.
proof fn lemma_offload_recovers(
    is_ipv6: bool,
    t: int,
    h: int,
    g: int,
    hdr: VirtioNetHdr,
    p: Seq<u8>,
    segments: Seq<Seq<u8>>,
)
    requires
        is_burst(is_ipv6, t, h, g, segments),
        segments.len() >= 2,
        stands_for(is_ipv6, t, h, p, segments),
        tcp_shape(is_ipv6, t, h, p),
        p.len() <= u16::MAX,
        hdr.gso_type == (if is_ipv6 {
            crate::virtio::VIRTIO_NET_HDR_GSO_TCPV6
        } else {
            crate::virtio::VIRTIO_NET_HDR_GSO_TCPV4
        }),
        hdr.hdr_len == h,
        hdr.gso_size == g,
        hdr.csum_start == t,
        hdr.csum_offset == 16,
    ensures
        segment::gso_emission(hdr, p) == (Emission { packets: segments, error: None }),
{
    assert(1u8 & !0x80u8 == 1) by (bit_vector);
    assert(4u8 & !0x80u8 == 4) by (bit_vector);
    let l = burst_layout(is_ipv6, t, h, g);
    assert(segment::gso_layout(hdr, p) == Ok::<GsoLayout, crate::error::OffloadError>(l));
    lemma_burst_sizes(is_ipv6, t, h, g, segments);
    assert(segments.len() * g >= 2 * g) by (nonlinear_arith)
        requires
            segments.len() >= 2,
            g > 0,
    ;
    lemma_payload_place(segments, h, g, 1);
    lemma_payload_place(segments, h, g, segments.len() - 1);
    assert(1 * g == g) by (nonlinear_arith);
    assert(burst_member(is_ipv6, t, h, g, segments, 1));
    assert(p.len() - h == coalesce::payloads(segments, h).len());
    assert(0 * g == 0) by (nonlinear_arith);
    lemma_segments_recovered(is_ipv6, t, h, g, p, segments, 0);
    assert(segments.skip(0) =~= segments);
}

/// The sizes of the segments of a burst.
proof fn lemma_burst_sizes(is_ipv6: bool, t: int, h: int, g: int, segments: Seq<Seq<u8>>)
    requires
        is_burst(is_ipv6, t, h, g, segments),
    ensures
        forall|j: int| 0 <= j < segments.len() - 1 ==> (#[trigger] segments[j]).len() == h + g,
        h < segments.last().len() <= h + g,
{
    assert(burst_member(is_ipv6, t, h, g, segments, segments.len() - 1));
    assert forall|j: int| 0 <= j < segments.len() - 1 implies (#[trigger] segments[j]).len() == h
        + g by {
        assert(burst_member(is_ipv6, t, h, g, segments, j));
    }
}

/// The burst can be merged into a super-frame: its first segment is coalescible, all its
/// segments carry the same flags, and the merged packet fits an IP length field.
pub open spec fn mergeable_burst(segments: Seq<Seq<u8>>) -> bool {
    let first = coalesce::coalescible(segments[0])->0;
    let t = first.ip_header_len as int;
    let h = first.headers();
    &&& segments.len() >= 2
    &&& coalesce::coalescible(segments[0]) is Some
    &&& is_burst(first.is_ipv6, t, h, first.payload_len as int, segments)
    &&& segments[0][t + 13] == segments.last()[t + 13]
    &&& h + coalesce::payloads(segments, h).len() <= u16::MAX
}

/// Merging a burst into a super-frame and segmenting the super-frame gives the burst
/// back, byte for byte.
pub proof fn law_superframe_round_trip(segments: Seq<Seq<u8>>)
    requires
        mergeable_burst(segments),
    ensures
        coalesce::superframe(segments) is Ok,
        ({
            let (hdr, p) = coalesce::superframe(segments)->Ok_0;
            &&& hdr == coalesce::superframe_header(coalesce::coalescible(segments[0])->0)
            &&& segment::gso_emission(hdr, p) == (Emission { packets: segments, error: None })
        }),
{
    let first = coalesce::coalescible(segments[0])->0;
    let v6 = first.is_ipv6;
    let t = first.ip_header_len as int;
    let h = first.headers();
    let g = first.payload_len as int;
    assert(burst_member(v6, t, h, g, segments, 0));
    lemma_burst_sizes(v6, t, h, g, segments);
    assert forall|k: int| 0 <= k < segments.len() implies (#[trigger] segments[k]).len() > h by {}
    let draft = coalesce::superframe_draft(segments, h);
    assert(draft.take(h) =~= segments[0].take(h));
    assert(forall|i: int| 0 <= i < h ==> draft[i] == segments[0][i]);
    assert(tcp_shape(v6, t, h, draft));
    lemma_offload_finish(v6, t, h, draft);
    let p = headers::offload_finished(v6, t, draft)->Ok_0;
    assert(p.skip(h) =~= draft.skip(h));
    assert(draft.skip(h) =~= coalesce::payloads(segments, h));
    assert(wire::be32_at(p, t + 4) == wire::be32_at(segments[0], t + 4));
    lemma_offload_recovers(
        v6,
        t,
        h,
        g,
        coalesce::superframe_header(first),
        p,
        segments,
    );
}

/// Every segment of a mergeable burst is coalescible, with the header lengths of the
/// first.
proof fn lemma_member_coalescible(segments: Seq<Seq<u8>>, k: int)
    requires
        mergeable_burst(segments),
        0 <= k < segments.len(),
    ensures
        ({
            let first = coalesce::coalescible(segments[0])->0;
            let g = first.payload_len as int;
            let m = coalesce::coalescible(segments[k])->0;
            &&& coalesce::coalescible(segments[k]) is Some
            &&& m.is_ipv6 == first.is_ipv6
            &&& m.ip_header_len == first.ip_header_len
            &&& m.tcp_header_len == first.tcp_header_len
            &&& m.payload_len == segments[k].len() - first.headers()
            &&& m.seq == first.seq.wrapping_add((k * g) as u32)
        }),
{
    let first = coalesce::coalescible(segments[0])->0;
    let v6 = first.is_ipv6;
    let t = first.ip_header_len as int;
    let h = first.headers();
    let g = first.payload_len as int;
    let s = segments[k];
    let a = segments[0];
    assert(burst_member(v6, t, h, g, segments, k));
    assert(burst_member(v6, t, h, g, segments, 0));
    law_sealed_is_valid(v6, t, h, s);
    assert(s[0] == a[0] && s[1] == a[1]);
    assert(s[t + 12] == a[t + 12]);
    assert(s[t + 13] == a[t + 13]);
    if v6 {
        assert(s[6] == a[6]);
    } else {
        assert(s[6] == a[6] && s[7] == a[7] && s[9] == a[9]);
        assert(wire::be16_at(s, 6) == wire::be16_at(a, 6));
    }
}

/// The sequence number of a segment follows from that of the segment before it.
proof fn lemma_seq_advances(seq: u32, k: int, g: int)
    requires
        1 <= k,
        0 < g,
        k * g <= u16::MAX,
    ensures
        seq.wrapping_add((k * g) as u32) == seq.wrapping_add(((k - 1) * g) as u32).wrapping_add(
            g as u32,
        ),
{
    assert(k * g == (k - 1) * g + g) by (nonlinear_arith);
    assert(0 <= (k - 1) * g) by (nonlinear_arith)
        requires
            k >= 1,
            g > 0,
    ;
}

/// Each further segment of a mergeable burst continues the run.
proof fn lemma_member_joins(segments: Seq<Seq<u8>>, k: int)
    requires
        mergeable_burst(segments),
        1 <= k < segments.len(),
    ensures
        coalesce::joins(segments, 0, k),
        coalesce::payload_total(segments, 0, k) == k * coalesce::coalescible(
            segments[0],
        )->0.payload_len,
    decreases k,
{
    let first = coalesce::coalescible(segments[0])->0;
    let v6 = first.is_ipv6;
    let t = first.ip_header_len as int;
    let h = first.headers();
    let g = first.payload_len as int;
    let a = segments[k - 1];
    let b = segments[k];
    lemma_member_coalescible(segments, k - 1);
    lemma_member_coalescible(segments, k);
    assert(burst_member(v6, t, h, g, segments, k - 1));
    assert(burst_member(v6, t, h, g, segments, k));
    lemma_burst_sizes(v6, t, h, g, segments);
    lemma_payload_place(segments, h, g, k);
    lemma_seq_advances(first.seq, k, g);
    if k == 1 {
        assert(1 * g == g) by (nonlinear_arith);
        reveal_with_fuel(coalesce::payload_total, 3);
    } else {
        lemma_member_joins(segments, k - 1);
        assert(k * g == (k - 1) * g + g) by (nonlinear_arith);
    }
    lemma_headers_agree(v6, t, h, a, b, segments[0]);
}

/// Segments whose headers agree with a third agree where chaining asks it.
proof fn lemma_headers_agree(v6: bool, t: int, h: int, a: Seq<u8>, b: Seq<u8>, c: Seq<u8>)
    requires
        t + 20 <= h <= a.len(),
        h <= b.len(),
        h <= c.len(),
        v6 ==> t == 40,
        !v6 ==> 20 <= t,
        forall|i: int| 0 <= i < h && !segment_field(v6, t, i) ==> a[i] == c[i],
        forall|i: int| 0 <= i < h && !segment_field(v6, t, i) ==> b[i] == c[i],
    ensures
        v6 ==> wire::agree(a, b, 0, 4) && wire::agree(a, b, 6, 40) && wire::agree(a, b, 8, 40),
        !v6 ==> wire::agree(a, b, 0, 2) && wire::agree(a, b, 4, 10) && wire::agree(a, b, 6, 10)
            && wire::agree(a, b, 12, 20) && wire::agree(a, b, 12, t),
        v6 ==> a[7] == b[7],
        !v6 ==> a[1] == b[1] && a[8] == b[8],
        wire::agree(a, b, t, t + 4),
        wire::agree(a, b, t + 8, t + 12),
        wire::agree(a, b, t + 8, t + 13),
        wire::agree(a, b, t + 14, t + 16),
        wire::agree(a, b, t + 18, t + 20),
        wire::agree(a, b, t + 20, h),
{
    assert(forall|i: int| 0 <= i < h && !segment_field(v6, t, i) ==> a[i] == b[i]);
    if v6 {
        assert(a.subrange(0, 4) =~= b.subrange(0, 4));
        assert(a.subrange(6, 40) =~= b.subrange(6, 40));
        assert(a.subrange(8, 40) =~= b.subrange(8, 40));
    } else {
        assert(a.subrange(0, 2) =~= b.subrange(0, 2));
        assert(a.subrange(4, 10) =~= b.subrange(4, 10));
        assert(a.subrange(6, 10) =~= b.subrange(6, 10));
        assert(a.subrange(12, 20) =~= b.subrange(12, 20));
        assert(a.subrange(12, t) =~= b.subrange(12, t));
    }
    assert(a.subrange(t, t + 4) =~= b.subrange(t, t + 4));
    assert(a.subrange(t + 8, t + 12) =~= b.subrange(t + 8, t + 12));
    assert(a.subrange(t + 8, t + 13) =~= b.subrange(t + 8, t + 13));
    assert(a.subrange(t + 14, t + 16) =~= b.subrange(t + 14, t + 16));
    assert(a.subrange(t + 18, t + 20) =~= b.subrange(t + 18, t + 20));
    assert(a.subrange(t + 20, h) =~= b.subrange(t + 20, h));
}

/// A batch that is a mergeable burst is planned as one run, to be merged.
pub proof fn law_burst_is_planned_whole(
    segments: Seq<Seq<u8>>,
    groups: Seq<(usize, usize, bool)>,
)
    requires
        mergeable_burst(segments),
        segments.len() <= usize::MAX,
        coalesce::plans(segments, groups, segments.len() as int),
    ensures
        groups == seq![(0usize, segments.len() as usize, true)],
{
    let n = segments.len() as int;
    assert forall|k: int| 0 < k < n implies #[trigger] coalesce::joins(segments, 0, k) by {
        lemma_member_joins(segments, k);
    }
    assert(groups.len() > 0);
    let (start, end, merge) = groups[0];
    assert(end == n) by {
        if end < n {
            assert(coalesce::joins(segments, 0, end as int));
        }
    }
    if groups.len() > 1 {
        let second = groups[1];
        assert(second.0 == n);
    }
    assert(groups =~= seq![(0usize, n as usize, true)]);
}

/// The options of a TCP header of `h - t` bytes at `t`.
pub open spec fn options_of(t: int, h: int, p: Seq<u8>) -> Seq<u8> {
    p.subrange(t + 20, h)
}

/// The burst can be coalesced: its first segment is a data segment with well-formed
/// options, there are no more segments than a group takes, and the merged packet fits
/// the size limit.
pub open spec fn coalescable_burst(segments: Seq<Seq<u8>>) -> bool {
    let v = gro::gro_class(segments[0])->Coalescable_0;
    let t = v.ip_header_len as int;
    let h = t + v.tcp_header_len;
    let options = options_of(t, h, segments[0]);
    &&& 2 <= segments.len() <= gro::MAX_GRO_SEGMENTS
    &&& gro::gro_class(segments[0]) is Coalescable
    &&& is_burst(v.is_v6, t, h, v.payload_len as int, segments)
    &&& gro::options_match(options, options) is Some
    &&& h + coalesce::payloads(segments, h).len() <= gro::MAX_GRO_PACKET_SIZE
}

/// Flags of the segments of a burst whose last segment has the flags `last`.
proof fn lemma_burst_flags(last: u8)
    ensures
        (last & !9u8) & !9u8 == last & !9u8,
        (last & !9u8) & 9u8 == 0,
        (last & !9u8) | (last & 9u8) == last,
        last & 9u8 == 0 ==> last & !9u8 == last,
        (last & !9u8) & 0xa6u8 == last & 0xa6u8,
        0x01u8 | 0x08u8 == 9u8,
        0x02u8 | 0x04u8 | 0x20u8 | 0x80u8 == 0xa6u8,
{
    assert((last & !9u8) & !9u8 == last & !9u8) by (bit_vector);
    assert((last & !9u8) & 9u8 == 0) by (bit_vector);
    assert((last & !9u8) | (last & 9u8) == last) by (bit_vector);
    assert(last & 9u8 == 0 ==> last & !9u8 == last) by (bit_vector);
    assert((last & !9u8) & 0xa6u8 == last & 0xa6u8) by (bit_vector);
    assert(0x01u8 | 0x08u8 == 9u8) by (bit_vector);
    assert(0x02u8 | 0x04u8 | 0x20u8 | 0x80u8 == 0xa6u8) by (bit_vector);
}

/// Every segment of a coalescable burst is a data segment of the same flow.
proof fn lemma_member_class(segments: Seq<Seq<u8>>, k: int)
    requires
        coalescable_burst(segments),
        0 <= k < segments.len(),
    ensures
        ({
            let v = gro::gro_class(segments[0])->Coalescable_0;
            let t = v.ip_header_len as int;
            let h = t + v.tcp_header_len;
            gro::gro_class(segments[k]) == gro::GroClass::Coalescable(
                (gro::TcpSegmentView {
                    seq: v.seq.wrapping_add((k * v.payload_len) as u32),
                    tcp_flags: segments[k][t + 13],
                    payload_len: (segments[k].len() - h) as usize,
                    ..v
                }),
            )
        }),
{
    let v = gro::gro_class(segments[0])->Coalescable_0;
    let v6 = v.is_v6;
    let t = v.ip_header_len as int;
    let h = t + v.tcp_header_len;
    let g = v.payload_len as int;
    let s = segments[k];
    let a = segments[0];
    let last = segments.last()[t + 13];
    assert(burst_member(v6, t, h, g, segments, k));
    assert(burst_member(v6, t, h, g, segments, 0));
    law_sealed_is_valid(v6, t, h, s);
    lemma_burst_flags(last);
    assert(a[t + 13] & 0xa6u8 == 0);
    assert(s[t + 13] & 0xa6u8 == 0);
    assert(s[0] == a[0]);
    assert(s[t + 12] == a[t + 12]);
    assert(s[t] == a[t] && s[t + 1] == a[t + 1] && s[t + 2] == a[t + 2] && s[t + 3] == a[t + 3]);
    if v6 {
        assert(s[6] == a[6]);
        assert(forall|i: int| 8 <= i < 40 ==> s[i] == a[i]);
        lemma_be128_same(s, a, 8);
        lemma_be128_same(s, a, 24);
    } else {
        assert(s[6] == a[6] && s[7] == a[7] && s[9] == a[9]);
        assert(forall|i: int| 12 <= i < 20 ==> s[i] == a[i]);
        assert(wire::be16_at(s, 6) == wire::be16_at(a, 6));
        assert(wire::be32_at(s, 12) == wire::be32_at(a, 12));
        assert(wire::be32_at(s, 16) == wire::be32_at(a, 16));
    }
}

/// A 128-bit field depends on its bytes alone.
proof fn lemma_be128_same(a: Seq<u8>, b: Seq<u8>, i: int)
    requires
        0 <= i,
        i + 16 <= a.len(),
        i + 16 <= b.len(),
        forall|j: int| i <= j < i + 16 ==> a[j] == b[j],
    ensures
        wire::be128_at(a, i) == wire::be128_at(b, i),
{
    assert(wire::be32_at(a, i) == wire::be32_at(b, i));
    assert(wire::be32_at(a, i + 4) == wire::be32_at(b, i + 4));
    assert(wire::be32_at(a, i + 8) == wire::be32_at(b, i + 8));
    assert(wire::be32_at(a, i + 12) == wire::be32_at(b, i + 12));
}

/// The group that holds the first `k` segments of a burst.
spec fn burst_group(segments: Seq<Seq<u8>>, k: int) -> gro::GroupState {
    let v = gro::gro_class(segments[0])->Coalescable_0;
    let t = v.ip_header_len as int;
    let h = t + v.tcp_header_len;
    let joined = segments[0].take(h) + coalesce::payloads(segments.take(k), h);
    gro::GroupState {
        buf: if k == segments.len() {
            joined.update(t + 13, segments.last()[t + 13])
        } else {
            joined
        },
        ip_header_len: t,
        tcp_header_len: v.tcp_header_len as int,
        is_v6: v.is_v6,
        gso_size: v.payload_len as int,
        segment_count: k,
        next_seq: v.seq.wrapping_add(coalesce::payloads(segments.take(k), h).len() as u32),
    }
}

/// The payloads of the first segments of a burst.
proof fn lemma_burst_payloads(segments: Seq<Seq<u8>>, k: int)
    requires
        coalescable_burst(segments),
        0 <= k < segments.len(),
    ensures
        ({
            let v = gro::gro_class(segments[0])->Coalescable_0;
            let h = v.ip_header_len + v.tcp_header_len;
            let g = v.payload_len as int;
            &&& 0 <= k * g
            &&& coalesce::payloads(segments.take(k), h).len() == k * g
            &&& coalesce::payloads(segments.take(k + 1), h) == coalesce::payloads(
                segments.take(k),
                h,
            ) + segments[k].skip(h)
            &&& h + k * g + segments[k].len() - h <= gro::MAX_GRO_PACKET_SIZE
        }),
    decreases k,
{
    let v = gro::gro_class(segments[0])->Coalescable_0;
    let v6 = v.is_v6;
    let t = v.ip_header_len as int;
    let h = t + v.tcp_header_len;
    let g = v.payload_len as int;
    assert(burst_member(v6, t, h, g, segments, 0));
    lemma_burst_sizes(v6, t, h, g, segments);
    lemma_payload_place(segments, h, g, k);
    let s = segments.take(k + 1);
    assert(s.drop_last() =~= segments.take(k));
    assert(s.last() == segments[k]);
    if k == 0 {
        assert(segments.take(0) =~= Seq::<Seq<u8>>::empty());
        assert(0 * g == 0) by (nonlinear_arith);
    } else {
        lemma_burst_payloads(segments, k - 1);
        assert(segments[k - 1].skip(h).len() == g);
        assert(k * g == (k - 1) * g + g) by (nonlinear_arith);
    }
}

/// The headers of the next segment of a burst match those of the group.
proof fn lemma_member_matches(segments: Seq<Seq<u8>>, k: int)
    requires
        coalescable_burst(segments),
        1 <= k < segments.len(),
    ensures
        ({
            let v = gro::gro_class(segments[0])->Coalescable_0;
            let t = v.ip_header_len as int;
            let h = t + v.tcp_header_len;
            let vk = gro::gro_class(segments[k])->Coalescable_0;
            let options = options_of(t, h, segments[0]);
            gro::headers_match(burst_group(segments, k), vk, segments[k]) == gro::options_match(
                options,
                options,
            )
        }),
{
    let v = gro::gro_class(segments[0])->Coalescable_0;
    let v6 = v.is_v6;
    let t = v.ip_header_len as int;
    let h = t + v.tcp_header_len;
    let g = v.payload_len as int;
    let group = burst_group(segments, k);
    let s = segments[k];
    let last = segments.last()[t + 13];
    lemma_member_class(segments, k);
    assert(burst_member(v6, t, h, g, segments, k));
    assert(burst_member(v6, t, h, g, segments, 0));
    assert(forall|i: int| 0 <= i < h ==> group.buf[i] == segments[0][i]);
    lemma_headers_agree(v6, t, h, group.buf, s, segments[0]);
    lemma_headers_agree(v6, t, h, group.buf, segments[0], segments[0]);
    lemma_burst_flags(last);
}

/// The next segment of a burst extends the group, and does not close it unless it is the
/// last.
proof fn lemma_member_extends(segments: Seq<Seq<u8>>, k: int)
    requires
        coalescable_burst(segments),
        1 <= k < segments.len(),
    ensures
        ({
            let vk = gro::gro_class(segments[k])->Coalescable_0;
            let r = gro::group_offered(burst_group(segments, k), vk, segments[k]);
            let (next, closed) = r->0;
            &&& r is Some
            &&& next == burst_group(segments, k + 1)
            &&& k < segments.len() - 1 ==> !closed
        }),
{
    let v = gro::gro_class(segments[0])->Coalescable_0;
    let v6 = v.is_v6;
    let t = v.ip_header_len as int;
    let h = t + v.tcp_header_len;
    let g = v.payload_len as int;
    let group = burst_group(segments, k);
    let s = segments[k];
    let last = segments.last()[t + 13];
    let vk = gro::gro_class(s)->Coalescable_0;
    lemma_member_class(segments, k);
    assert(burst_member(v6, t, h, g, segments, k));
    assert(burst_member(v6, t, h, g, segments, 0));
    lemma_burst_payloads(segments, k);
    lemma_member_matches(segments, k);
    let options = options_of(t, h, segments[0]);
    let ts = gro::options_match(options, options)->0;
    gro::lemma_timestamps_inside(options, options, 0, None);
    let next = gro::group_extended(group, vk, s, ts);
    let goal = burst_group(segments, k + 1);
    let head = segments[0].take(h);
    let joined = head + coalesce::payloads(segments.take(k + 1), h);
    assert(group.buf == head + coalesce::payloads(segments.take(k), h));
    let at = t + 20 + ts->0;
    let stamped = if ts is Some {
        wire::patched(group.buf, s, at, at + 8)
    } else {
        group.buf
    };
    assert(stamped =~= group.buf);
    assert(stamped + s.skip(h) =~= joined);
    lemma_burst_flags(last);
    assert(joined[t + 13] == segments[0][t + 13]);
    if k < segments.len() - 1 {
        assert(next.buf == joined);
    } else {
        assert(joined.update(t + 13, joined[t + 13]) =~= joined);
        assert(next.buf =~= joined.update(t + 13, last));
    }
    assert(goal.buf == next.buf);
}

/// The first segment of a burst starts a group, and does not pass through.
proof fn lemma_burst_starts(segments: Seq<Seq<u8>>)
    requires
        coalescable_burst(segments),
    ensures
        ({
            let v = gro::gro_class(segments[0])->Coalescable_0;
            &&& v.tcp_flags & (TCP_FLAG_FIN | TCP_FLAG_PSH) == 0
            &&& gro::group_started(v, segments[0]) == burst_group(segments, 1)
        }),
{
    let v = gro::gro_class(segments[0])->Coalescable_0;
    let t = v.ip_header_len as int;
    let h = t + v.tcp_header_len;
    let g = v.payload_len as int;
    assert(burst_member(v.is_v6, t, h, g, segments, 0));
    lemma_burst_flags(segments.last()[t + 13]);
    lemma_burst_payloads(segments, 0);
    assert(0 * g == 0) by (nonlinear_arith);
    assert(segments.take(0) =~= Seq::<Seq<u8>>::empty());
    assert(coalesce::payloads(segments.take(1), h) =~= segments[0].skip(h));
    assert(burst_group(segments, 1).buf =~= segments[0]);
}

/// After the first `k` segments of a burst, short of all, one group is pending and nothing
/// has gone out.
proof fn lemma_burst_pending(segments: Seq<Seq<u8>>, k: int)
    requires
        coalescable_burst(segments),
        1 <= k < segments.len(),
    ensures
        ({
            let v = gro::gro_class(segments[0])->Coalescable_0;
            let (table, sent) = gro::fed(Seq::empty(), segments.take(k));
            &&& table == seq![(v.key, burst_group(segments, k))]
            &&& sent == Seq::<gro::OutputView>::empty()
        }),
    decreases k,
{
    let v = gro::gro_class(segments[0])->Coalescable_0;
    let s = segments.take(k);
    assert(s.drop_last() =~= segments.take(k - 1));
    assert(s.last() == segments[k - 1]);
    if k == 1 {
        let empty = Seq::<(gro::TcpFlowKey, gro::GroupState)>::empty();
        assert(segments.take(0) =~= Seq::<Seq<u8>>::empty());
        assert(gro::fed(empty, segments.take(0)) == (empty, Seq::<gro::OutputView>::empty()));
        assert(!gro::has_flow(empty, v.key));
        lemma_burst_starts(segments);
        let group = burst_group(segments, 1);
        assert(empty.push((v.key, group)) =~= seq![(v.key, group)]);
    } else {
        lemma_burst_pending(segments, k - 1);
        lemma_member_class(segments, k - 1);
        lemma_member_extends(segments, k - 1);
        let table = seq![(v.key, burst_group(segments, k - 1))];
        assert(table[0].0 == v.key);
        assert(gro::flow_index(table, v.key) == 0);
        assert(table.update(0, (v.key, burst_group(segments, k))) =~= seq![
            (v.key, burst_group(segments, k)),
        ]);
    }
}

/// Once all segments of a burst are in, their group goes out, at once or when flushed.
proof fn lemma_burst_output(segments: Seq<Seq<u8>>)
    requires
        coalescable_burst(segments),
    ensures
        ({
            let (table, sent) = gro::fed(Seq::empty(), segments);
            sent + gro::flushed(table) == seq![
                gro::group_output(burst_group(segments, segments.len() as int)),
            ]
        }),
{
    let v = gro::gro_class(segments[0])->Coalescable_0;
    let n = segments.len() as int;
    let before = seq![(v.key, burst_group(segments, n - 1))];
    let group = burst_group(segments, n);
    assert(segments.take(n) =~= segments);
    assert(segments.drop_last() =~= segments.take(n - 1));
    lemma_burst_pending(segments, n - 1);
    lemma_member_class(segments, n - 1);
    lemma_member_extends(segments, n - 1);
    assert(before[0].0 == v.key);
    assert(gro::flow_index(before, v.key) == 0);
    assert(before.remove(0) =~= Seq::<(gro::TcpFlowKey, gro::GroupState)>::empty());
    assert(before.update(0, (v.key, group)) =~= seq![(v.key, group)]);
    let (table, sent) = gro::fed(Seq::empty(), segments);
    assert(sent + gro::flushed(table) =~= seq![gro::group_output(group)]);
}

/// The packet of a whole burst segments into the burst.
#[verifier::spinoff_prover]
#[verifier::rlimit(60)]
proof fn lemma_burst_group_recovers(segments: Seq<Seq<u8>>)
    requires
        coalescable_burst(segments),
    ensures
        ({
            let group = burst_group(segments, segments.len() as int);
            let p = headers::offload_finished(group.is_v6, group.ip_header_len, group.buf)->Ok_0;
            segment::gso_emission(gro::group_header(group), p) == (Emission {
                packets: segments,
                error: None,
            })
        }),
{
    let v = gro::gro_class(segments[0])->Coalescable_0;
    let v6 = v.is_v6;
    let t = v.ip_header_len as int;
    let h = t + v.tcp_header_len;
    let g = v.payload_len as int;
    let n = segments.len() as int;
    let group = burst_group(segments, n);
    assert(segments.take(n) =~= segments);
    assert(burst_member(v6, t, h, g, segments, 0));
    assert(burst_member(v6, t, h, g, segments, n - 1));
    let joined = segments[0].take(h) + coalesce::payloads(segments, h);
    assert(group.buf == joined.update(t + 13, segments.last()[t + 13]));
    assert(forall|i: int|
        0 <= i < h && i != t + 13 ==> group.buf[i] == segments[0][i]);
    assert(tcp_shape(v6, t, h, group.buf));
    lemma_offload_finish(v6, t, h, group.buf);
    let p = headers::offload_finished(v6, t, group.buf)->Ok_0;
    assert(p.skip(h) =~= coalesce::payloads(segments, h));
    assert(wire::be32_at(p, t + 4) == wire::be32_at(segments[0], t + 4));
    lemma_offload_recovers(v6, t, h, g, gro::group_header(group), p, segments);
}

/// The offload header of a coalesced burst: a request for a checksum, the segment size of the
/// burst, and where its first segment has its headers.
pub open spec fn burst_header(first: gro::TcpSegmentView) -> VirtioNetHdr {
    VirtioNetHdr {
        flags: VIRTIO_NET_HDR_F_NEEDS_CSUM,
        gso_type: if first.is_v6 {
            VIRTIO_NET_HDR_GSO_TCPV6
        } else {
            VIRTIO_NET_HDR_GSO_TCPV4
        },
        hdr_len: (first.ip_header_len + first.tcp_header_len) as u16,
        gso_size: first.payload_len as u16,
        csum_start: first.ip_header_len as u16,
        csum_offset: headers::TCP_CHECKSUM_OFFSET as u16,
        num_buffers: 0,
    }
}

/// Feeding a burst into an empty table and flushing it puts out one coalesced packet under the
/// offload header of the burst, and segmenting that packet gives the burst back, byte for byte.
pub proof fn law_gro_round_trip(segments: Seq<Seq<u8>>)
    requires
        coalescable_burst(segments),
    ensures
        ({
            let (table, sent) = gro::fed(Seq::empty(), segments);
            let outputs = sent + gro::flushed(table);
            &&& outputs.len() == 1
            &&& outputs[0] is Coalesced
            &&& outputs[0]->Coalesced_0 == burst_header(
                gro::gro_class(segments[0])->Coalescable_0,
            )
            &&& segment::gso_emission(outputs[0]->Coalesced_0, outputs[0]->Coalesced_1) == (
            Emission { packets: segments, error: None })
        }),
{
    lemma_burst_output(segments);
    lemma_burst_group_recovers(segments);
}

} // verus!
