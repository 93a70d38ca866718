//! Which packets are merged, cut and segmented, told by the bytes of their headers: those of one
//! connection that follow each other and say the same but for what a segment says of itself.

use vstd::prelude::*;
use crate::checksum;
use crate::coalesce;
use crate::cut;
use crate::gro;
use crate::gro::GroupState;
use crate::headers;
use crate::round_trip;
use crate::segment;
use crate::tcp_packet;
use crate::virtio::VirtioNetHdr;
use crate::wire;

verus! {

/// The bytes of the IP header that packets of one super-frame share: all but lengths,
/// identification, flags, protocol and checksum.
pub open spec fn is_shared_ip(is_ipv6: bool, i: int) -> bool {
    if is_ipv6 {
        0 <= i < 4 || 7 <= i < 40
    } else {
        i == 1 || i == 8 || 12 <= i < 20
    }
}

/// The bytes of the TCP header that packets of one super-frame share: ports, acknowledgement,
/// window and options.
pub open spec fn is_shared_tcp(t: int, h: int, i: int) -> bool {
    ||| t <= i < t + 4
    ||| t + 8 <= i < t + 12
    ||| t + 14 <= i < t + 16
    ||| t + 20 <= i < h
}

/// A TCP packet that a super-frame can hold: whole, with a plain IP header that marks no
/// congestion, with payload, and with none of FIN, SYN, RST and URG set.
pub open spec fn is_plain_data(p: Seq<u8>) -> bool {
    let f = tcp_packet::flags(p);
    &&& tcp_packet::whole(p)
    &&& tcp_packet::payload(p).len() > 0
    &&& if tcp_packet::version(p) == 6 {
        p[1] as int / 16 % 4 == 0
    } else {
        tcp_packet::ip_end(p) == 20 && p[1] as int % 4 == 0
    }
    &&& f % 8 == 0
    &&& f / 32 % 2 == 0
}

/// `b` continues `a`: it is of the same connection, its header says the same, and its payload
/// follows that of `a`.
pub open spec fn continues(a: Seq<u8>, b: Seq<u8>) -> bool {
    let t = tcp_packet::ip_end(a);
    let h = tcp_packet::tcp_end(a);
    let from = tcp_packet::number(a.subrange(t + 4, t + 8));
    let next = tcp_packet::number(b.subrange(t + 4, t + 8));
    &&& tcp_packet::version(a) == tcp_packet::version(b)
    &&& tcp_packet::tcp_end(b) == h
    &&& forall|i: int|
        is_shared_ip(tcp_packet::version(a) == 6, i) || is_shared_tcp(t, h, i) ==> a[i] == b[i]
    &&& next == (from + tcp_packet::payload(a).len()) % 0x1_0000_0000
}

/// The bits that keep a packet out of a super-frame.
proof fn lemma_plain_bits(f: u8, ecn: u8, x: u16)
    ensures
        (f & coalesce::TCP_FLAGS_NO_COALESCE == 0) == (f as int % 8 == 0 && f as int / 32 % 2
            == 0),
        (ecn & 0x03 == 0) == (ecn as int % 4 == 0),
        ((ecn >> 4) & 0x03 == 0) == (ecn as int / 16 % 4 == 0),
        (x & 0x3fff == 0) == (x as int % 0x4000 == 0),
{
    assert((f & 0x27u8 == 0) == (f % 8 == 0 && f / 32 % 2 == 0)) by (bit_vector);
    assert((ecn & 0x03 == 0) == (ecn % 4 == 0)) by (bit_vector);
    assert(((ecn >> 4) & 0x03 == 0) == (ecn / 16 % 4 == 0)) by (bit_vector);
    assert((x & 0x3fff == 0) == (x % 0x4000 == 0)) by (bit_vector);
}

/// A packet can be put into a super-frame exactly if it is plain TCP data, and what is told of it
/// is what its header says.
#[verifier::spinoff_prover]
#[verifier::rlimit(50)]
pub proof fn law_plain_data_is_coalescible(p: Seq<u8>)
    ensures
        coalesce::coalescible(p) is Some <==> is_plain_data(p),
        coalesce::coalescible(p) matches Some(m) ==> {
            &&& m.is_ipv6 == (tcp_packet::version(p) == 6)
            &&& m.ip_header_len == tcp_packet::ip_end(p)
            &&& m.ip_header_len + m.tcp_header_len == tcp_packet::tcp_end(p)
            &&& m.payload_len == tcp_packet::payload(p).len()
            &&& m.seq == tcp_packet::number(
                p.subrange(tcp_packet::ip_end(p) + 4, tcp_packet::ip_end(p) + 8),
            )
        },
{
    if p.len() >= 20 {
        let t = tcp_packet::ip_end(p);
        wire::lemma_nibbles(p[0]);
        lemma_plain_bits(0, p[1], wire::be16_at(p, 6));
        assert(wire::be16_at(p, 6) == p[6] * 256 + p[7]);
        tcp_packet::lemma_number2(p, 2);
        tcp_packet::lemma_number2(p, 4);
        if t + 20 <= p.len() {
            wire::lemma_nibbles(p[t + 12]);
            lemma_plain_bits(p[t + 13], 0, 0);
            tcp_packet::lemma_number4(p, t + 4);
        }
    }
}

/// Two packets can be neighbours in a super-frame exactly if the second continues the first.
#[verifier::spinoff_prover]
#[verifier::rlimit(60)]
pub proof fn law_neighbours_continue_each_other(a: Seq<u8>, b: Seq<u8>)
    requires
        coalesce::coalescible(a) is Some,
        coalesce::coalescible(b) is Some,
    ensures
        coalesce::chains(a, coalesce::coalescible(a)->0, b, coalesce::coalescible(b)->0)
            <==> continues(a, b),
{
    let ma = coalesce::coalescible(a)->0;
    let mb = coalesce::coalescible(b)->0;
    let t = tcp_packet::ip_end(a);
    let h = tcp_packet::tcp_end(a);
    law_plain_data_is_coalescible(a);
    law_plain_data_is_coalescible(b);
    if ma.is_ipv6 == mb.is_ipv6 && ma.tcp_header_len == mb.tcp_header_len {
        assert(t == tcp_packet::ip_end(b));
        if ma.is_ipv6 {
            wire::law_ranges_are_their_bytes(a, b, 0, 4);
            wire::law_ranges_are_their_bytes(a, b, 8, 40);
        } else {
            wire::law_ranges_are_their_bytes(a, b, 12, 20);
        }
        wire::law_ranges_are_their_bytes(a, b, t, t + 4);
        wire::law_ranges_are_their_bytes(a, b, t + 8, t + 12);
        wire::law_ranges_are_their_bytes(a, b, t + 14, t + 16);
        wire::law_ranges_are_their_bytes(a, b, t + 20, h);
    }
}

/// Packets that continue each other are of one connection.
pub proof fn law_continuing_packets_are_of_one_flow(a: Seq<u8>, b: Seq<u8>)
    requires
        is_plain_data(a),
        is_plain_data(b),
        continues(a, b),
    ensures
        tcp_packet::flow(a) == tcp_packet::flow(b),
{
    let t = tcp_packet::ip_end(a);
    assert(a.subrange(t, t + 2) =~= b.subrange(t, t + 2));
    assert(a.subrange(t + 2, t + 4) =~= b.subrange(t + 2, t + 4));
    if tcp_packet::version(a) == 6 {
        assert(a.subrange(8, 24) =~= b.subrange(8, 24));
        assert(a.subrange(24, 40) =~= b.subrange(24, 40));
    } else {
        assert(a.subrange(12, 16) =~= b.subrange(12, 16));
        assert(a.subrange(16, 20) =~= b.subrange(16, 20));
    }
}

/// The packet `k` of a batch can extend the run that starts at `i` and holds full payloads so
/// far: it continues its predecessor, is no longer than the others, and the run still fits an IP
/// packet.
pub open spec fn extends_run(batch: Seq<Seq<u8>>, i: int, k: int) -> bool {
    let m = tcp_packet::payload(batch[i]).len();
    let last = tcp_packet::payload(batch[k]).len();
    &&& is_plain_data(batch[k])
    &&& continues(batch[k - 1], batch[k])
    &&& tcp_packet::payload(batch[k - 1]).len() == m
    &&& last <= m
    &&& tcp_packet::tcp_end(batch[i]) + (k - i) * m + last <= 65535
}

/// The payloads of a run of equal packets.
#[verifier::spinoff_prover]
#[verifier::rlimit(40)]
proof fn lemma_run_total(batch: Seq<Seq<u8>>, i: int, k: int)
    requires
        0 <= i < k <= batch.len(),
        forall|j: int|
            i <= j < k ==> coalesce::coalescible(#[trigger] batch[j]) is Some
                && coalesce::coalescible(batch[j])->0.payload_len == coalesce::coalescible(
                batch[i],
            )->0.payload_len,
    ensures
        coalesce::payload_total(batch, i, k) == (k - i) * coalesce::coalescible(
            batch[i],
        )->0.payload_len,
    decreases k - i,
{
    let m = coalesce::coalescible(batch[i])->0.payload_len as int;
    let n = k - i;
    assert(coalesce::coalescible(batch[k - 1])->0.payload_len == m);
    assert(coalesce::payload_total(batch, i, k) == coalesce::payload_total(batch, i, k - 1) + m);
    if k > i + 1 {
        lemma_run_total(batch, i, k - 1);
        assert(coalesce::payload_total(batch, i, k - 1) == (n - 1) * m);
        assert((n - 1) * m + m == n * m) by (nonlinear_arith);
    } else {
        assert(coalesce::payload_total(batch, i, k - 1) == 0);
        assert(n * m == m) by (nonlinear_arith)
            requires
                n == 1,
        ;
    }
}

/// Within a group, extending it is what is said of its packets.
#[verifier::spinoff_prover]
#[verifier::rlimit(40)]
proof fn lemma_joins(batch: Seq<Seq<u8>>, i: int, k: int)
    requires
        0 <= i < k < batch.len(),
        coalesce::coalescible(batch[i]) is Some,
        forall|j: int| i < j < k ==> #[trigger] coalesce::joins(batch, i, j),
    ensures
        coalesce::joins(batch, i, k) <==> extends_run(batch, i, k),
{
    law_plain_data_is_coalescible(batch[i]);
    law_plain_data_is_coalescible(batch[k]);
    law_plain_data_is_coalescible(batch[k - 1]);
    if k > i + 1 {
        assert(coalesce::joins(batch, i, k - 1));
    }
    if coalesce::coalescible(batch[k]) is Some {
        law_neighbours_continue_each_other(batch[k - 1], batch[k]);
    }
    if coalesce::coalescible(batch[k - 1])->0.payload_len == coalesce::coalescible(
        batch[i],
    )->0.payload_len {
        assert forall|j: int| i <= j < k implies coalesce::coalescible(#[trigger] batch[j]) is Some
            && coalesce::coalescible(batch[j])->0.payload_len == coalesce::coalescible(
            batch[i],
        )->0.payload_len by {
            if j > i {
                assert(coalesce::joins(batch, i, j));
            }
            if j + 1 < k {
                assert(coalesce::joins(batch, i, j + 1));
            }
        }
        lemma_run_total(batch, i, k);
    }
}

/// A plan takes the packets of a batch in order and in runs that are as long as can be: a packet
/// is in one group with its predecessor exactly if it can extend the run that the group starts.
/// A packet that no super-frame can hold is alone.
pub proof fn law_plan_merges_what_belongs_together(
    batch: Seq<Seq<u8>>,
    groups: Seq<(usize, usize, bool)>,
    g: int,
)
    requires
        coalesce::plans(batch, groups, batch.len() as int),
        0 <= g < groups.len(),
    ensures
        ({
            let (start, end, merge) = groups[g];
            &&& start == (if g == 0 {
                0
            } else {
                groups[g - 1].1 as int
            })
            &&& start < end <= batch.len()
            &&& g == groups.len() - 1 ==> end == batch.len()
            &&& merge == (end > start + 1)
            &&& merge ==> is_plain_data(batch[start as int])
            &&& forall|k: int| start < k < end ==> #[trigger] extends_run(batch, start as int, k)
            &&& is_plain_data(batch[start as int]) && end < batch.len() ==> !extends_run(
                batch,
                start as int,
                end as int,
            )
        }),
{
    let (start, end, merge) = groups[g];
    let i = start as int;
    law_plain_data_is_coalescible(batch[i]);
    assert(coalesce::is_group(batch, i, end as int));
    if coalesce::coalescible(batch[i]) is Some {
        assert forall|k: int| start < k < end implies #[trigger] extends_run(batch, i, k) by {
            assert(coalesce::joins(batch, i, k));
            lemma_joins(batch, i, k);
        }
        if end < batch.len() {
            lemma_joins(batch, i, end as int);
        }
    }
}

/// A list of TCP options that can be read from `i` on: padding, an end, or an option that is as
/// long as it says.
pub open spec fn options_readable(o: Seq<u8>, i: int) -> bool
    decreases o.len() - i,
{
    if i < 0 || i >= o.len() || o[i] == 0 {
        true
    } else if o[i] == 1 {
        options_readable(o, i + 1)
    } else {
        &&& i + 1 < o.len()
        &&& 2 <= o[i + 1]
        &&& i + o[i + 1] <= o.len()
        &&& if 2 <= o[i + 1] {
            options_readable(o, i + o[i + 1])
        } else {
            false
        }
    }
}

/// Options that can be read match themselves, and no others do.
proof fn lemma_options_match_themselves(o: Seq<u8>, i: int, found: Option<usize>)
    requires
        0 <= i,
    ensures
        gro::options_match_from(o, o, i, found) is Some <==> options_readable(o, i),
    decreases o.len() - i,
{
    if i < o.len() && o[i] != 0 {
        if o[i] == 1 {
            lemma_options_match_themselves(o, i + 1, found);
        } else if i + 1 < o.len() && o[i + 1] >= 2 && i + o[i + 1] <= o.len() {
            lemma_options_match_themselves(o, i + o[i + 1], found);
            lemma_options_match_themselves(o, i + o[i + 1], Some((i + 2) as usize));
        }
    }
}

/// The byte `k` lies in the values of a timestamps option.
pub open spec fn in_timestamps(o: Seq<u8>, k: int) -> bool {
    exists|j: int|
        0 <= j && j + 2 <= k < j + 10 && j + 10 <= o.len() && #[trigger] o[j] == 8 && o[j + 1]
            == 10
}

/// Options that match from `i` on differ in the values of timestamps only.
proof fn lemma_options_differ_in_timestamps(
    a: Seq<u8>,
    b: Seq<u8>,
    i: int,
    found: Option<usize>,
    k: int,
)
    requires
        a.len() == b.len(),
        0 <= i <= k < a.len(),
        gro::options_match_from(a, b, i, found) is Some,
        a[k] != b[k],
    ensures
        in_timestamps(a, k),
    decreases a.len() - i,
{
    if a[i] == 0 {
        assert(a.skip(i)[k - i] == b.skip(i)[k - i]);
    } else if a[i] == 1 {
        lemma_options_differ_in_timestamps(a, b, i + 1, found, k);
    } else {
        let end = i + a[i + 1];
        if a[i] == 8 && a[i + 1] == 10 {
            if k >= end {
                lemma_options_differ_in_timestamps(a, b, end, Some((i + 2) as usize), k);
            } else {
                assert(a[i] == 8 && a[i + 1] == 10);
            }
        } else if k >= end {
            lemma_options_differ_in_timestamps(a, b, end, found, k);
        } else {
            assert(k >= i + 2);
            assert(a.subrange(i + 2, end)[k - i - 2] == b.subrange(i + 2, end)[k - i - 2]);
        }
    }
}

/// Options match themselves exactly if they can be read, and two lists that match have one length
/// and differ in the values of timestamps only.
pub proof fn law_matching_options_differ_in_timestamps(a: Seq<u8>, b: Seq<u8>)
    ensures
        gro::options_match(a, a) is Some <==> options_readable(a, 0),
        gro::options_match(a, b) is Some ==> a.len() == b.len(),
        gro::options_match(a, b) is Some ==> forall|k: int|
            0 <= k < a.len() && a[k] != b[k] ==> #[trigger] in_timestamps(a, k),
{
    lemma_options_match_themselves(a, 0, None);
    if gro::options_match(a, b) is Some {
        assert forall|k: int| 0 <= k < a.len() && a[k] != b[k] implies #[trigger] in_timestamps(
            a,
            k,
        ) by {
            lemma_options_differ_in_timestamps(a, b, 0, None, k);
        }
    }
}

/// Two lists of the usual shape, padding and timestamps, match whatever their timestamps, and the
/// values are found where they lie.
pub proof fn law_timestamps_may_advance(a: Seq<u8>, b: Seq<u8>)
    requires
        a.len() == 12,
        b.len() == 12,
        a[0] == 1 && a[1] == 1 && a[2] == 8 && a[3] == 10,
        b[0] == 1 && b[1] == 1 && b[2] == 8 && b[3] == 10,
    ensures
        gro::options_match(a, b) == Some(Some(4usize)),
{
    reveal_with_fuel(gro::options_match_from, 5);
}

/// The bytes of the headers that all segments of a group share: of the IP header all but lengths,
/// identification and checksum, of the TCP header all but sequence number, flags, checksum and
/// options.
pub open spec fn is_group_byte(is_v6: bool, t: int, i: int) -> bool {
    ||| is_v6 && (0 <= i < 4 || 6 <= i < 40)
    ||| !is_v6 && (0 <= i < 2 || 6 <= i < 10 || 12 <= i < t)
    ||| t <= i < t + 4
    ||| t + 8 <= i < t + 13
    ||| t + 14 <= i < t + 16
    ||| t + 18 <= i < t + 20
}

/// A TCP packet can join a group: it is of the same shape, says the same but for FIN and PSH, its
/// payload follows and is no longer than the others, and neither the count nor the length of the
/// group is exceeded.
pub open spec fn fits_group(g: GroupState, p: Seq<u8>) -> bool {
    let t = g.ip_header_len;
    let h = g.headers();
    let m = tcp_packet::payload(p).len();
    let f = g.buf[t + 13] as int;
    &&& g.is_v6 == (tcp_packet::version(p) == 6)
    &&& tcp_packet::ip_end(p) == t
    &&& tcp_packet::tcp_end(p) == h
    &&& tcp_packet::number(p.subrange(t + 4, t + 8)) == g.next_seq
    &&& m <= g.gso_size
    &&& g.segment_count < 64
    &&& g.buf.len() + m <= 65535
    &&& forall|i: int| is_group_byte(g.is_v6, t, i) ==> g.buf[i] == p[i]
    &&& f / 2 % 4 == tcp_packet::flags(p) / 2 % 4
    &&& f / 16 == tcp_packet::flags(p) / 16
    &&& gro::options_match(g.buf.subrange(t + 20, h), p.subrange(t + 20, h)) is Some
}

/// FIN and PSH aside, and FIN and PSH alone.
proof fn lemma_closing_flags(x: u8, y: u8)
    ensures
        (x & !(segment::TCP_FLAG_FIN | segment::TCP_FLAG_PSH) == y & !(segment::TCP_FLAG_FIN
            | segment::TCP_FLAG_PSH)) == (x as int / 2 % 4 == y as int / 2 % 4 && x as int / 16
            == y as int / 16),
        (y & (segment::TCP_FLAG_FIN | segment::TCP_FLAG_PSH) != 0) == (y as int % 2 == 1 || y as int
            / 8 % 2 == 1),
{
    assert((x & !(1u8 | 8u8) == y & !(1u8 | 8u8)) == (x / 2 % 4 == y / 2 % 4 && x / 16 == y / 16))
        by (bit_vector);
    assert((y & (1u8 | 8u8) != 0) == (y % 2 == 1 || y / 8 % 2 == 1)) by (bit_vector);
}

/// A data packet joins a group exactly if it fits it. The group then holds its payload behind the
/// rest, expects what follows it, and is closed by FIN, PSH or a payload shorter than the others.
#[verifier::rlimit(60)]
#[verifier::spinoff_prover]
pub proof fn law_fitting_segments_join(g: GroupState, p: Seq<u8>)
    requires
        g.valid(),
        gro::gro_class(p) is Coalescable,
    ensures
        ({
            let seg = gro::gro_class(p)->Coalescable_0;
            let m = tcp_packet::payload(p).len();
            let f = tcp_packet::flags(p);
            let r = gro::group_offered(g, seg, p);
            &&& r is Some <==> fits_group(g, p)
            &&& r matches Some((x, closed)) ==> {
                &&& x.buf.len() == g.buf.len() + m
                &&& x.buf.skip(g.buf.len() as int) == tcp_packet::payload(p)
                &&& forall|i: int| g.headers() <= i < g.buf.len() ==> x.buf[i] == g.buf[i]
                &&& x.segment_count == g.segment_count + 1
                &&& x.next_seq == (g.next_seq + m) % 0x1_0000_0000
                &&& x.gso_size == g.gso_size
                &&& x.headers() == g.headers()
                &&& closed <==> f % 2 == 1 || f / 8 % 2 == 1 || m < g.gso_size
            }
        }),
{
    let seg = gro::gro_class(p)->Coalescable_0;
    let t = g.ip_header_len;
    let h = g.headers();
    tcp_packet::law_every_tcp_packet_has_its_flow(p);
    lemma_closing_flags(g.buf[t + 13], p[seg.ip_header_len + 13]);
    if seg.ip_header_len == t && seg.tcp_header_len == g.tcp_header_len && seg.is_v6 == g.is_v6 {
        if g.is_v6 {
            wire::law_ranges_are_their_bytes(g.buf, p, 0, 4);
            wire::law_ranges_are_their_bytes(g.buf, p, 6, 40);
        } else {
            wire::law_ranges_are_their_bytes(g.buf, p, 0, 2);
            wire::law_ranges_are_their_bytes(g.buf, p, 6, 10);
            wire::law_ranges_are_their_bytes(g.buf, p, 12, t);
        }
        wire::law_ranges_are_their_bytes(g.buf, p, t, t + 4);
        wire::law_ranges_are_their_bytes(g.buf, p, t + 8, t + 13);
        wire::law_ranges_are_their_bytes(g.buf, p, t + 14, t + 16);
        wire::law_ranges_are_their_bytes(g.buf, p, t + 18, t + 20);
        gro::lemma_timestamps_inside(
            g.buf.subrange(t + 20, h),
            p.subrange(t + 20, h),
            0,
            None,
        );
    }
    if gro::group_offered(g, seg, p) is Some {
        let (x, _) = gro::group_offered(g, seg, p)->0;
        assert(x.buf.skip(g.buf.len() as int) =~= tcp_packet::payload(p));
    }
}

/// A data packet of a flow that nothing is held of starts a group, unless FIN or PSH asks for it
/// to go out at once; the group then holds the packet as it came and expects what follows it.
#[verifier::spinoff_prover]
#[verifier::rlimit(50)]
pub proof fn law_data_starts_a_group(table: gro::Pending, p: Seq<u8>)
    requires
        gro::pending_valid(table),
        gro::gro_class(p) is Coalescable,
        !gro::has_flow(table, tcp_packet::flow(p)),
    ensures
        ({
            let o = gro::pushed(table, p);
            let f = tcp_packet::flags(p);
            let m = tcp_packet::payload(p).len();
            let t = tcp_packet::ip_end(p);
            let (key, g) = o.table.last();
            &&& o.pass_through <==> f % 2 == 1 || f / 8 % 2 == 1
            &&& o.pass_through ==> o.table == table && o.outputs.len() == 0
            &&& !o.pass_through ==> {
                &&& key == tcp_packet::flow(p)
                &&& g.buf == p
                &&& g.segment_count == 1
                &&& g.gso_size == m
                &&& g.next_seq == (tcp_packet::number(p.subrange(t + 4, t + 8)) + m)
                    % 0x1_0000_0000
                &&& g.headers() == tcp_packet::tcp_end(p)
                &&& o.table.len() == (if table.len() < 16 {
                    table.len() + 1
                } else {
                    16
                })
                &&& table.len() < 16 ==> o.outputs.len() == 0
            }
        }),
{
    let seg = gro::gro_class(p)->Coalescable_0;
    tcp_packet::law_every_tcp_packet_has_its_flow(p);
    lemma_closing_flags(0, p[seg.ip_header_len + 13]);
}

/// A packet is cut for datagrams of `max` bytes exactly if it is whole TCP data without SYN, RST
/// and URG that does not fit behind its prefix while its headers and a byte of payload do. Any
/// other packet stays as it is.
pub proof fn law_oversized_data_is_cut(p: Seq<u8>, max: usize)
    requires
        max <= 65535,
    ensures
        ({
            let f = tcp_packet::flags(p);
            let h = tcp_packet::tcp_end(p);
            let cuttable = tcp_packet::whole(p) && tcp_packet::payload(p).len() > 0 && f / 2 % 4
                == 0 && f / 32 % 2 == 0;
            let r = cut::cut_header(p, max);
            &&& r is Some <==> cuttable && p.len() + 2 > max && h + 3 <= max
            &&& r is None ==> cut::fitted(p, max) == seq![p]
            &&& r matches Some(hdr) ==> {
                &&& hdr.gso_size == max - 2 - h
                &&& hdr.hdr_len == h
                &&& hdr.csum_start == tcp_packet::ip_end(p)
                &&& hdr.csum_offset == 16
                &&& hdr.flags == 1
                &&& hdr.gso_type == (if tcp_packet::version(p) == 6 {
                    4u8
                } else {
                    1u8
                })
            }
        }),
{
    tcp_packet::law_every_tcp_packet_has_its_flow(p);
    if tcp_packet::whole(p) {
        let t = tcp_packet::ip_end(p);
        let f = p[t + 13];
        wire::lemma_nibbles(p[0]);
        wire::lemma_nibbles(p[t + 12]);
        assert((f & (2u8 | 4u8 | 0x20u8) != 0) == (f / 2 % 4 != 0 || f / 32 % 2 != 0))
            by (bit_vector);
    }
}

/// Segments are capped to datagrams of `max` bytes exactly if they would not fit while their
/// headers and a byte of payload do; then they fill the datagrams. Nothing else of the metadata
/// changes.
pub proof fn law_segments_are_capped(h: VirtioNetHdr, max: usize)
    ensures
        ({
            let c = cut::capped(h, max);
            let fits = h.hdr_len + h.gso_size + 2 <= max;
            let hopeless = h.hdr_len + 3 > max;
            &&& fits || hopeless ==> c == h
            &&& !fits && !hopeless ==> c.hdr_len + c.gso_size + 2 == max
            &&& c == (VirtioNetHdr { gso_size: c.gso_size, ..h })
        }),
{
}

/// Where the parts of a segmentation packet lie is told for every packet whose metadata names
/// its IP version, all of its headers and a checksum field inside them, and for no other.
pub proof fn law_gso_metadata_is_taken(h: VirtioNetHdr, p: Seq<u8>)
    ensures
        ({
            let version = tcp_packet::version(p);
            let t = h.csum_start as int;
            let kind = h.gso_type as int % 128;
            let end = t + p[t + 12] as int / 16 * 4;
            let r = segment::gso_layout(h, p);
            &&& r is Ok <==> {
                &&& h.gso_size > 0
                &&& version == 4 && kind == 1 || version == 6 && kind == 4
                &&& h.hdr_len <= p.len()
                &&& t + 20 <= end <= h.hdr_len
                &&& t + 20 <= h.hdr_len
                &&& t + h.csum_offset + 2 <= h.hdr_len
            }
            &&& r matches Ok(l) ==> {
                &&& l.is_ipv6 == (version == 6)
                &&& l.header_len == h.hdr_len
                &&& l.tcp_offset == t
                &&& l.checksum_index == t + h.csum_offset
                &&& l.gso_size == h.gso_size
            }
        }),
{
    let g = h.gso_type;
    assert(g & !0x80u8 == g % 128) by (bit_vector);
    if p.len() > 0 {
        wire::lemma_nibbles(p[0]);
    }
    if h.csum_start + 20 <= h.hdr_len <= p.len() {
        wire::lemma_nibbles(p[h.csum_start + 12]);
    }
}

/// A segmentation packet that holds no more than one segment comes out as that segment: as it
/// went in if no checksum is asked for, and otherwise with the bytes from the TCP header on summed
/// into the checksum field.
pub proof fn law_single_segment_is_kept(h: VirtioNetHdr, p: Seq<u8>)
    requires
        segment::gso_layout(h, p) is Ok,
        p.len() <= h.hdr_len + h.gso_size,
    ensures
        ({
            let e = segment::plain_emission(h, p);
            let q = e.packets[0];
            let i = h.csum_start + h.csum_offset;
            &&& e.error is None
            &&& e.packets.len() == 1
            &&& q.len() == p.len()
            &&& forall|j: int| 0 <= j < p.len() && j != i && j != i + 1 ==> q[j] == p[j]
            &&& h.flags as int % 2 == 0 ==> q == p
            &&& h.flags as int % 2 == 1 ==> q[i] * 256 + q[i + 1] == 65535 - checksum::fold(
                checksum::word_sum(p.skip(h.csum_start as int)) % 0x1_0000_0000,
            )
        }),
{
    let f = h.flags;
    law_gso_metadata_is_taken(h, p);
    assert((f & 1u8 != 0) == (f % 2 == 1)) by (bit_vector);
}

/// A group goes out as its one packet, or as one packet that says of itself what it is: its
/// metadata tells its version, the length of its headers, the size of its segments and where its
/// checksum lies, its length field its length, and its payload is that of the group.
#[verifier::spinoff_prover]
#[verifier::rlimit(50)]
pub proof fn law_group_goes_out_whole(g: GroupState)
    requires
        g.valid(),
    ensures
        g.segment_count == 1 ==> gro::group_output(g) == gro::OutputView::Single(g.buf),
        g.segment_count > 1 ==> {
            let h = gro::group_output(g)->Coalesced_0;
            let p = gro::group_output(g)->Coalesced_1;
            let t = g.ip_header_len;
            &&& gro::group_output(g) is Coalesced
            &&& h.flags == 1
            &&& h.gso_type == (if g.is_v6 {
                4u8
            } else {
                1u8
            })
            &&& h.hdr_len == g.headers()
            &&& h.gso_size == g.gso_size
            &&& h.csum_start == t
            &&& h.csum_offset == 16
            &&& h.num_buffers == 0
            &&& p.len() == g.buf.len()
            &&& p.skip(g.headers()) == g.buf.skip(g.headers())
            &&& g.is_v6 ==> tcp_packet::number(p.subrange(4, 6)) == p.len() - 40
            &&& !g.is_v6 ==> tcp_packet::number(p.subrange(2, 4)) == p.len()
            &&& forall|i: int|
                0 <= i < g.headers() && i != t + 16 && i != t + 17 && (if g.is_v6 {
                    i != 4 && i != 5
                } else {
                    i != 2 && i != 3 && i != 10 && i != 11
                }) ==> p[i] == g.buf[i]
        },
{
    if g.segment_count > 1 {
        let p = gro::group_output(g)->Coalesced_1;
        assert(headers::offload_finished(g.is_v6, g.ip_header_len, g.buf) is Ok);
        assert(p.skip(g.headers()) =~= g.buf.skip(g.headers()));
        tcp_packet::lemma_number2(p, 2);
        tcp_packet::lemma_number2(p, 4);
    }
}

/// A super-frame is made of two packets or more exactly if the first is plain TCP data, each has
/// payload behind headers of its length, and together they fit an IP packet. It has the headers
/// of the first but for lengths and checksums, the payloads of all in order, and metadata that
/// says so.
#[verifier::spinoff_prover]
#[verifier::rlimit(60)]
pub proof fn law_superframe_joins_payloads(segments: Seq<Seq<u8>>)
    requires
        segments.len() >= 2,
    ensures
        ({
            let first = segments[0];
            let t = tcp_packet::ip_end(first);
            let h = tcp_packet::tcp_end(first);
            let is_v6 = tcp_packet::version(first) == 6;
            let r = coalesce::superframe(segments);
            &&& r is Ok <==> {
                &&& is_plain_data(first)
                &&& forall|k: int| 0 <= k < segments.len() ==> (#[trigger] segments[k]).len() > h
                &&& h + coalesce::payloads(segments, h).len() <= 65535
            }
            &&& r matches Ok((hdr, p)) ==> {
                &&& p.len() == h + coalesce::payloads(segments, h).len()
                &&& p.skip(h) == coalesce::payloads(segments, h)
                &&& forall|i: int|
                    0 <= i < h && i != t + 16 && i != t + 17 && (if is_v6 {
                        i != 4 && i != 5
                    } else {
                        i != 2 && i != 3 && i != 10 && i != 11
                    }) ==> p[i] == first[i]
                &&& is_v6 ==> tcp_packet::number(p.subrange(4, 6)) == p.len() - 40
                &&& !is_v6 ==> tcp_packet::number(p.subrange(2, 4)) == p.len()
                &&& hdr.flags == 1
                &&& hdr.gso_type == (if is_v6 {
                    4u8
                } else {
                    1u8
                })
                &&& hdr.hdr_len == h
                &&& hdr.gso_size == tcp_packet::payload(first).len()
                &&& hdr.csum_start == t
                &&& hdr.csum_offset == 16
            }
        }),
{
    let first = segments[0];
    law_plain_data_is_coalescible(first);
    if coalesce::coalescible(first) is Some {
        let h = tcp_packet::tcp_end(first);
        let d = coalesce::superframe_draft(segments, h);
        let m = coalesce::coalescible(first)->0;
        wire::lemma_nibbles(first[0]);
        assert(d.len() == h + coalesce::payloads(segments, h).len());
        assert forall|i: int| 0 <= i < h implies d[i] == first[i] by {}
        if (forall|k: int| 0 <= k < segments.len() ==> (#[trigger] segments[k]).len() > h) && d.len()
            <= 65535 {
            assert(headers::offload_finished(m.is_ipv6, m.ip_header_len as int, d) is Ok);
            let p = coalesce::superframe(segments)->Ok_0.1;
            assert(p.len() == d.len());
            assert(p.skip(h) =~= coalesce::payloads(segments, h));
            tcp_packet::lemma_number2(p, 2);
            tcp_packet::lemma_number2(p, 4);
        }
    }
}

/// A full table makes room for a new flow by sending out the group that has waited longest; what
/// is left keeps its order.
#[verifier::spinoff_prover]
#[verifier::rlimit(50)]
pub proof fn law_full_table_sends_the_oldest(table: gro::Pending, p: Seq<u8>)
    requires
        gro::pending_valid(table),
        table.len() == 16,
        gro::gro_class(p) is Coalescable,
        !gro::has_flow(table, tcp_packet::flow(p)),
        !gro::pushed(table, p).pass_through,
    ensures
        ({
            let o = gro::pushed(table, p);
            &&& o.outputs == seq![gro::group_output(table[0].1)]
            &&& o.table.len() == 16
            &&& forall|i: int| 0 <= i < 15 ==> o.table[i] == table[i + 1]
        }),
{
    tcp_packet::law_every_tcp_packet_has_its_flow(p);
    assert(gro::pushed(table, p).outputs =~= seq![gro::group_output(table[0].1)]);
}

/// Flushing sends out every group, in the order of the table.
pub proof fn law_flush_sends_every_group(table: gro::Pending)
    ensures
        gro::flushed(table).len() == table.len(),
        forall|i: int|
            0 <= i < table.len() ==> #[trigger] gro::flushed(table)[i] == gro::group_output(
                table[i].1,
            ),
{
}

/// The flags of a group take over FIN and PSH.
proof fn lemma_flags_taken_over(x: u8, y: u8)
    ensures
        ({
            let c = y & (segment::TCP_FLAG_FIN | segment::TCP_FLAG_PSH);
            let z = if c != 0 {
                x | c
            } else {
                x
            };
            &&& z as int % 2 == 1 <==> x as int % 2 == 1 || y as int % 2 == 1
            &&& z as int / 8 % 2 == 1 <==> x as int / 8 % 2 == 1 || y as int / 8 % 2 == 1
            &&& z as int / 2 % 4 == x as int / 2 % 4
            &&& z as int / 16 == x as int / 16
        }),
{
    let c = y & (1u8 | 8u8);
    assert(y & (1u8 | 8u8) == 0 ==> y % 2 == 0 && y / 8 % 2 == 0) by (bit_vector);
    assert(((x | (y & (1u8 | 8u8))) % 2 == 1) == (x % 2 == 1 || y % 2 == 1)) by (bit_vector);
    assert(((x | (y & (1u8 | 8u8))) / 8 % 2 == 1) == (x / 8 % 2 == 1 || y / 8 % 2 == 1))
        by (bit_vector);
    assert((x | (y & (1u8 | 8u8))) / 2 % 4 == x / 2 % 4) by (bit_vector);
    assert((x | (y & (1u8 | 8u8))) / 16 == x / 16) by (bit_vector);
}

/// A group keeps the header of its first segment, but for FIN and PSH, which it takes over from
/// any segment, and for the values of the usual timestamps option, which it takes from the
/// latest.
#[verifier::rlimit(60)]
#[verifier::spinoff_prover]
pub proof fn law_latest_timestamps_are_kept(g: GroupState, p: Seq<u8>)
    requires
        g.valid(),
        gro::gro_class(p) is Coalescable,
        fits_group(g, p),
        g.tcp_header_len == 20 || g.tcp_header_len == 32,
        g.tcp_header_len == 32 ==> {
            let o = g.ip_header_len + 20;
            &&& g.buf[o] == 1 && g.buf[o + 1] == 1 && g.buf[o + 2] == 8 && g.buf[o + 3] == 10
            &&& p[o] == 1 && p[o + 1] == 1 && p[o + 2] == 8 && p[o + 3] == 10
        },
    ensures
        ({
            let t = g.ip_header_len;
            let r = gro::group_offered(g, gro::gro_class(p)->Coalescable_0, p);
            &&& r is Some
            &&& r matches Some((x, _)) ==> {
                let f = x.buf[t + 13] as int;
                &&& forall|i: int|
                    0 <= i < g.headers() && i != t + 13 && !(t + 24 <= i < t + 32) ==> x.buf[i]
                        == g.buf[i]
                &&& forall|i: int|
                    t + 24 <= i < t + 32 && i < g.headers() ==> x.buf[i] == p[i]
                &&& f % 2 == 1 <==> g.buf[t + 13] as int % 2 == 1 || p[t + 13] as int % 2 == 1
                &&& f / 8 % 2 == 1 <==> g.buf[t + 13] as int / 8 % 2 == 1 || p[t + 13] as int / 8
                    % 2 == 1
            }
        }),
{
    let t = g.ip_header_len;
    let h = g.headers();
    let a = g.buf.subrange(t + 20, h);
    let b = p.subrange(t + 20, h);
    law_fitting_segments_join(g, p);
    tcp_packet::law_every_tcp_packet_has_its_flow(p);
    lemma_flags_taken_over(g.buf[t + 13], p[t + 13]);
    if g.tcp_header_len == 32 {
        law_timestamps_may_advance(a, b);
    } else {
        assert(a.len() == 0);
    }
}

/// A data packet of a flow that is held joins its group if it fits it, and the group goes out if
/// that closes it. If it does not fit, the group goes out before it.
#[verifier::spinoff_prover]
#[verifier::rlimit(50)]
pub proof fn law_held_flows_are_continued(table: gro::Pending, p: Seq<u8>, i: int)
    requires
        gro::pending_valid(table),
        gro::gro_class(p) is Coalescable,
        0 <= i < table.len(),
        table[i].0 == tcp_packet::flow(p),
    ensures
        ({
            let o = gro::pushed(table, p);
            let g = table[i].1;
            let (x, closed) = gro::group_offered(g, gro::gro_class(p)->Coalescable_0, p)->0;
            &&& fits_group(g, p) ==> {
                &&& !o.pass_through
                &&& closed ==> o.outputs == seq![gro::group_output(x)] && o.table == table.remove(i)
                &&& !closed ==> o.outputs.len() == 0 && o.table == table.update(
                    i,
                    (table[i].0, x),
                )
            }
            &&& !fits_group(g, p) ==> o.outputs.len() >= 1 && o.outputs[0] == gro::group_output(g)
        }),
{
    let g = table[i].1;
    tcp_packet::law_every_tcp_packet_has_its_flow(p);
    assert(gro::has_flow(table, tcp_packet::flow(p)));
    assert(gro::flow_index(table, tcp_packet::flow(p)) == i);
    assert(g.valid());
    law_fitting_segments_join(g, p);
}

/// Sealing a segment writes its lengths and checksums only, all of them in its headers.
proof fn lemma_sealed_keeps_payload(is_ipv6: bool, t: int, c: int, h: int, draft: Seq<u8>)
    requires
        20 <= h <= draft.len(),
        is_ipv6 ==> h >= 6,
        0 <= c,
        c + 2 <= h,
    ensures
        segment::segment_sealed(is_ipv6, t, c, draft) matches Ok(s) ==> s.len() == draft.len()
            && s.skip(h) == draft.skip(h),
{
    reveal(segment::segment_sealed);
    if segment::segment_sealed(is_ipv6, t, c, draft) is Ok {
        let s = segment::segment_sealed(is_ipv6, t, c, draft)->Ok_0;
        assert(s.skip(h) =~= draft.skip(h));
    }
}

/// The segments from an offset on hold the payload from there on.
proof fn lemma_segments_partition(l: segment::GsoLayout, p: Seq<u8>, offset: int)
    requires
        l.fits(p.len()),
        0 <= offset,
    ensures
        ({
            let e = segment::segments_from(l, p, offset);
            let h = l.header_len as int;
            &&& e.error is None && offset <= p.len() - h ==> coalesce::payloads(e.packets, h)
                == p.skip(h + offset)
            &&& forall|k: int|
                0 <= k < e.packets.len() ==> h < (#[trigger] e.packets[k]).len() <= h + l.gso_size
        }),
    decreases
            (if offset < p.len() - l.header_len {
                p.len() - l.header_len - offset
            } else {
                0
            }),
{
    let h = l.header_len as int;
    let e = segment::segments_from(l, p, offset);
    if offset >= p.len() - h {
        assert(e.packets.len() == 0);
        assert(offset <= p.len() - h ==> coalesce::payloads(e.packets, h) =~= p.skip(h + offset));
    } else if segment::segment_at(l, p, offset) is Ok {
        let s = segment::segment_at(l, p, offset)->Ok_0;
        let rest = segment::segments_from(l, p, offset + l.gso_size);
        let draft = segment::segment_draft(l, p, offset);
        let end = segment::chunk_end(l, p, offset);
        lemma_sealed_keeps_payload(
            l.is_ipv6,
            l.tcp_offset as int,
            l.checksum_index as int,
            h,
            draft,
        );
        assert(draft.len() == h + end - offset);
        assert(draft.skip(h) =~= p.subrange(h + offset, h + end));
        lemma_segments_partition(l, p, offset + l.gso_size);
        coalesce::law_payloads_keep_their_order(seq![s], rest.packets, s, h);
        assert forall|k: int| 0 <= k < e.packets.len() implies h < (#[trigger] e.packets[k]).len()
            <= h + l.gso_size by {
            if k > 0 {
                assert(e.packets[k] == rest.packets[k - 1]);
            }
        }
        if rest.error is None {
            if offset + l.gso_size <= p.len() - h {
                assert(end == offset + l.gso_size);
                assert(p.subrange(h + offset, h + end) + p.skip(h + end) =~= p.skip(h + offset));
            } else {
                assert(end == p.len() - h);
                assert(rest.packets.len() == 0);
                assert(p.subrange(h + offset, h + end) + Seq::<u8>::empty() =~= p.skip(h + offset));
            }
        }
    } else {
        assert(e.packets.len() == 0);
    }
}

/// However a segmentation packet is laid out, its segments are no larger than it asks for, and
/// unless one of them cannot be built, they hold its payload, byte for byte and in order.
pub proof fn law_segments_hold_the_payload(h: VirtioNetHdr, p: Seq<u8>)
    requires
        segment::gso_layout(h, p) is Ok,
    ensures
        ({
            let e = segment::gso_emission(h, p);
            let n = h.hdr_len as int;
            &&& e.error is None ==> coalesce::payloads(e.packets, n) == p.skip(n)
            &&& forall|k: int|
                0 <= k < e.packets.len() ==> (#[trigger] e.packets[k]).len() <= n + h.gso_size
        }),
{
    let l = segment::gso_layout(h, p)->Ok_0;
    let e = segment::gso_emission(h, p);
    let n = h.hdr_len as int;
    law_gso_metadata_is_taken(h, p);
    if p.len() - n > l.gso_size {
        lemma_segments_partition(l, p, 0);
    } else {
        law_single_segment_is_kept(h, p);
        let q = e.packets[0];
        coalesce::law_payloads_keep_their_order(e.packets, e.packets, q, n);
        assert(e.packets =~= seq![q]);
        assert(q.skip(n) =~= p.skip(n));
    }
}

/// The headers of a packet match those of a group exactly if they are of one shape, share every
/// byte that segments share, agree in their flags but for FIN and PSH, and have options that
/// match.
#[verifier::spinoff_prover]
#[verifier::rlimit(50)]
pub proof fn law_matching_headers_share_their_bytes(g: GroupState, p: Seq<u8>)
    requires
        g.valid(),
        gro::gro_class(p) is Coalescable,
    ensures
        ({
            let t = g.ip_header_len;
            let h = g.headers();
            let f = g.buf[t + 13] as int;
            gro::headers_match(g, gro::gro_class(p)->Coalescable_0, p) is Some <==> {
                &&& g.is_v6 == (tcp_packet::version(p) == 6)
                &&& tcp_packet::ip_end(p) == t
                &&& tcp_packet::tcp_end(p) == h
                &&& forall|i: int| is_group_byte(g.is_v6, t, i) ==> g.buf[i] == p[i]
                &&& f / 2 % 4 == tcp_packet::flags(p) / 2 % 4
                &&& f / 16 == tcp_packet::flags(p) / 16
                &&& gro::options_match(g.buf.subrange(t + 20, h), p.subrange(t + 20, h)) is Some
            }
        }),
{
    let seg = gro::gro_class(p)->Coalescable_0;
    let t = g.ip_header_len;
    tcp_packet::law_every_tcp_packet_has_its_flow(p);
    lemma_closing_flags(g.buf[t + 13], p[seg.ip_header_len + 13]);
    if seg.ip_header_len == t && seg.tcp_header_len == g.tcp_header_len && seg.is_v6 == g.is_v6 {
        if g.is_v6 {
            wire::law_ranges_are_their_bytes(g.buf, p, 0, 4);
            wire::law_ranges_are_their_bytes(g.buf, p, 6, 40);
        } else {
            wire::law_ranges_are_their_bytes(g.buf, p, 0, 2);
            wire::law_ranges_are_their_bytes(g.buf, p, 6, 10);
            wire::law_ranges_are_their_bytes(g.buf, p, 12, t);
        }
        wire::law_ranges_are_their_bytes(g.buf, p, t, t + 4);
        wire::law_ranges_are_their_bytes(g.buf, p, t + 8, t + 13);
        wire::law_ranges_are_their_bytes(g.buf, p, t + 14, t + 16);
        wire::law_ranges_are_their_bytes(g.buf, p, t + 18, t + 20);
    }
}

/// The byte `k` of a list of options, read from `i` on, is one of the values of a timestamps
/// option.
pub open spec fn is_timestamp_byte(o: Seq<u8>, i: int, k: int) -> bool
    decreases o.len() - i,
{
    if i < 0 || i >= o.len() || o[i] == 0 {
        false
    } else if o[i] == 1 {
        is_timestamp_byte(o, i + 1, k)
    } else if i + 1 >= o.len() || o[i + 1] < 2 || i + o[i + 1] > o.len() {
        false
    } else if o[i] == 8 && o[i + 1] == 10 && i + 2 <= k < i + 10 {
        true
    } else {
        is_timestamp_byte(o, i + o[i + 1], k)
    }
}

/// Two lists of options differ from `i` on in the values of timestamps only.
pub open spec fn differ_in_timestamps(a: Seq<u8>, b: Seq<u8>, i: int) -> bool {
    forall|k: int| i <= k < a.len() && a[k] != b[k] ==> #[trigger] is_timestamp_byte(a, i, k)
}

/// The values of timestamps lie behind the kind and the length of their option.
proof fn lemma_timestamp_byte_behind(o: Seq<u8>, i: int, k: int)
    ensures
        is_timestamp_byte(o, i, k) ==> k >= i + 2,
    decreases o.len() - i,
{
    if 0 <= i < o.len() && o[i] != 0 {
        if o[i] == 1 {
            lemma_timestamp_byte_behind(o, i + 1, k);
        } else if i + 1 < o.len() && o[i + 1] >= 2 && i + o[i + 1] <= o.len() {
            lemma_timestamp_byte_behind(o, i + o[i + 1], k);
        }
    }
}

/// Options match from `i` on exactly if they can be read and differ in timestamps only.
proof fn lemma_options_match(a: Seq<u8>, b: Seq<u8>, i: int, found: Option<usize>)
    requires
        a.len() == b.len(),
        0 <= i,
    ensures
        gro::options_match_from(a, b, i, found) is Some <==> options_readable(a, i)
            && differ_in_timestamps(a, b, i),
    decreases a.len() - i,
{
    if i < a.len() {
        lemma_timestamp_byte_behind(a, i, i);
        lemma_timestamp_byte_behind(a, i, i + 1);
        if a[i] != b[i] {
            assert(!is_timestamp_byte(a, i, i));
        } else if a[i] == 0 {
            if differ_in_timestamps(a, b, i) {
                assert forall|k: int| i <= k < a.len() implies a[k] == b[k] by {
                    assert(!is_timestamp_byte(a, i, k));
                }
                assert(a.skip(i) =~= b.skip(i));
            }
            if a.skip(i) == b.skip(i) {
                assert forall|k: int| i <= k < a.len() && a[k] != b[k] implies #[trigger]
                    is_timestamp_byte(a, i, k) by {
                    assert(a.skip(i)[k - i] == b.skip(i)[k - i]);
                }
            }
        } else if a[i] == 1 {
            lemma_options_match(a, b, i + 1, found);
            if differ_in_timestamps(a, b, i) {
                assert forall|k: int| i + 1 <= k < a.len() && a[k] != b[k] implies #[trigger]
                    is_timestamp_byte(a, i + 1, k) by {
                    assert(is_timestamp_byte(a, i, k));
                }
            }
            if differ_in_timestamps(a, b, i + 1) {
                assert forall|k: int| i <= k < a.len() && a[k] != b[k] implies #[trigger]
                    is_timestamp_byte(a, i, k) by {
                    assert(is_timestamp_byte(a, i + 1, k));
                }
            }
        } else if i + 1 < a.len() && a[i + 1] >= 2 && i + a[i + 1] <= a.len() {
            let end = i + a[i + 1];
            let stamped = a[i] == 8 && a[i + 1] == 10;
            lemma_options_match(a, b, end, found);
            lemma_options_match(a, b, end, Some((i + 2) as usize));
            if a[i + 1] != b[i + 1] {
                assert(!is_timestamp_byte(a, i, i + 1));
            } else {
                if differ_in_timestamps(a, b, i) {
                    assert forall|k: int| end <= k < a.len() && a[k] != b[k] implies #[trigger]
                        is_timestamp_byte(a, end, k) by {
                        assert(is_timestamp_byte(a, i, k));
                    }
                    if !stamped {
                        assert forall|k: int| i <= k < end implies a[k] == b[k] by {
                            if a[k] != b[k] {
                                assert(is_timestamp_byte(a, i, k));
                                lemma_timestamp_byte_behind(a, end, k);
                            }
                        }
                        assert(a.subrange(i + 2, end) =~= b.subrange(i + 2, end));
                    }
                }
                if differ_in_timestamps(a, b, end) && (stamped || a.subrange(i + 2, end)
                    == b.subrange(i + 2, end)) {
                    assert forall|k: int| i <= k < a.len() && a[k] != b[k] implies #[trigger]
                        is_timestamp_byte(a, i, k) by {
                        if k >= end {
                            assert(is_timestamp_byte(a, end, k));
                        } else if !stamped && k >= i + 2 {
                            assert(a.subrange(i + 2, end)[k - i - 2] == b.subrange(
                                i + 2,
                                end,
                            )[k - i - 2]);
                        }
                    }
                }
            }
        }
    }
}

/// Two lists of options match exactly if they are of one length, can be read, and differ in the
/// values of timestamps only, wherever in the list those lie.
pub proof fn law_options_match_up_to_timestamps(a: Seq<u8>, b: Seq<u8>)
    ensures
        gro::options_match(a, b) is Some <==> a.len() == b.len() && options_readable(a, 0)
            && differ_in_timestamps(a, b, 0),
{
    if a.len() == b.len() {
        lemma_options_match(a, b, 0, None);
    }
}

/// A TCP packet whose metadata names its version, its headers and its checksum is segmented, with
/// any size that an IP packet can hold: into as many segments as its payload fills, each of them
/// sealed, with its own share of the payload and the sequence number that goes with it, and with
/// FIN and PSH on the last one only.
pub proof fn law_tcp_packets_are_segmented(h: VirtioNetHdr, p: Seq<u8>, k: int)
    requires
        tcp_packet::version(p) == 4 && h.gso_type as int % 128 == 1 && p.len() >= 20
            && tcp_packet::ip_end(p) >= 20 && p[9] == 6 || tcp_packet::version(p) == 6
            && h.gso_type as int % 128 == 4,
        h.csum_start == tcp_packet::ip_end(p),
        h.csum_start + 20 <= h.hdr_len <= p.len(),
        h.hdr_len == tcp_packet::tcp_end(p),
        h.csum_offset == 16,
        0 < h.gso_size,
        h.hdr_len + h.gso_size <= 65535,
        h.hdr_len + h.gso_size < p.len() <= u32::MAX,
        0 <= k < (p.len() - h.hdr_len + h.gso_size - 1) / h.gso_size as int,
    ensures
        ({
            let e = segment::plain_emission(h, p);
            let n = h.hdr_len as int;
            let t = h.csum_start as int;
            let g = h.gso_size as int;
            &&& e.error is None
            &&& e.packets.len() == (p.len() - n + g - 1) / g
            &&& round_trip::is_burst(tcp_packet::version(p) == 6, t, n, g, e.packets)
            &&& coalesce::payloads(e.packets, n) == p.skip(n)
            &&& n < e.packets[k].len() <= n + g
            &&& checksum::sum_is_valid(
                headers::tcp_sum(e.packets[k], tcp_packet::version(p) == 6, t),
            )
            &&& round_trip::stands_for(tcp_packet::version(p) == 6, t, n, p, e.packets)
        }),
{
    let t = h.csum_start as int;
    let n = h.hdr_len as int;
    let is_v6 = tcp_packet::version(p) == 6;
    wire::lemma_nibbles(p[0]);
    wire::lemma_nibbles(p[t + 12]);
    law_gso_metadata_is_taken(h, p);
    assert(round_trip::tcp_shape(is_v6, t, n, p));
    assert(round_trip::gso_packet(h, p));
    round_trip::law_segmentation_gives_burst(h, p);
    let e = segment::gso_emission(h, p);
    assert(round_trip::burst_member(is_v6, t, n, h.gso_size as int, e.packets, k));
    round_trip::law_sealed_is_valid(is_v6, t, n, e.packets[k]);
}

} // verus!
