//! Partial checksums: what an offload packet carries is completed to a valid checksum.

use vstd::prelude::*;
use crate::checksum;
use crate::coalesce;
use crate::gro;
use crate::headers;
use crate::segment;
use crate::virtio::{VirtioNetHdr, VIRTIO_NET_HDR_F_DATA_VALID, VIRTIO_NET_HDR_F_NEEDS_CSUM};
use crate::wire;

verus! {

/// Reducing a part of a sum first does not change what the sum reduces to.
proof fn lemma_fold_part(a: nat, b: nat)
    ensures
        checksum::fold(a + checksum::fold(b)) == checksum::fold(a + b),
{
    if b > 0 {
        let f = checksum::fold(b) as int;
        let q = (b - 1) / 65535;
        assert(b - 1 == 65535 * q + (f - 1));
        assert(a + b - 1 == 65535 * q + (a + f - 1));
        vstd::arithmetic::div_mod::lemma_mod_multiples_vanish(q, a + f - 1, 65535);
    }
}

/// A place for a TCP header in a packet that an IP length field can count.
pub open spec fn tcp_fits(is_ipv6: bool, t: int, p: Seq<u8>) -> bool {
    &&& t >= (if is_ipv6 {
        headers::IPV6_HEADER_LEN
    } else {
        headers::IPV4_HEADER_LEN
    })
    &&& t + headers::TCP_MIN_HEADER_LEN <= p.len()
    &&& p.len() <= u16::MAX + headers::IPV6_HEADER_LEN
}

/// The sum of a pseudo-header, which does not look at the TCP segment.
proof fn lemma_pseudo_header(is_ipv6: bool, t: int, a: Seq<u8>, b: Seq<u8>)
    requires
        tcp_fits(is_ipv6, t, a),
        a.len() == b.len(),
        forall|i: int| 0 <= i < t ==> a[i] == b[i],
    ensures
        headers::pseudo_header_sum(a, is_ipv6, (a.len() - t) as nat) == headers::pseudo_header_sum(
            b,
            is_ipv6,
            (b.len() - t) as nat,
        ),
        0 < headers::pseudo_header_sum(a, is_ipv6, (a.len() - t) as nat) <= 65535 * 20,
{
    if is_ipv6 {
        assert(a.subrange(8, 40) =~= b.subrange(8, 40));
        checksum::lemma_word_sum_bound(a.subrange(8, 40));
    } else {
        assert(a.subrange(12, 20) =~= b.subrange(12, 20));
        checksum::lemma_word_sum_bound(a.subrange(12, 20));
    }
}

/// The sums over a TCP segment whose checksum field holds `v`, without and with its
/// pseudo-header.
pub proof fn lemma_field_sum(is_ipv6: bool, t: int, p: Seq<u8>, v: u16)
    requires
        tcp_fits(is_ipv6, t, p),
    ensures
        ({
            let pseudo = headers::pseudo_header_sum(p, is_ipv6, (p.len() - t) as nat);
            let w = checksum::word_sum(wire::put_be16(p, t + 16, 0).skip(t));
            let x = wire::put_be16(p, t + 16, v);
            &&& checksum::word_sum(x.skip(t)) == w + v
            &&& headers::tcp_sum(x, is_ipv6, t) == pseudo + w + v
            &&& 0 < pseudo
            &&& w + v < checksum::SUM_MODULUS
        }),
{
    let z = wire::put_be16(p, t + 16, 0);
    let x = wire::put_be16(p, t + 16, v);
    let tail = z.skip(t);
    assert(x.skip(t) =~= wire::put_be16(tail, 16, v));
    wire::law_be16_read_back(p, t + 16, 0);
    assert(wire::be16_at(tail, 16) == 0);
    checksum::lemma_word_sum_put(tail, 16, v);
    checksum::lemma_word_sum_bound(tail);
    lemma_pseudo_header(is_ipv6, t, p, x);
    let whole = headers::pseudo_header_sum(x, is_ipv6, (x.len() - t) as nat) + checksum::word_sum(
        x.skip(t),
    );
    vstd::arithmetic::div_mod::lemma_small_mod(whole, checksum::SUM_MODULUS as nat);
}

/// The field that is written last is the one that stays.
proof fn lemma_put_again(p: Seq<u8>, i: int, a: u16, b: u16)
    requires
        0 <= i,
        i + 2 <= p.len(),
    ensures
        wire::put_be16(wire::put_be16(p, i, a), i, b) == wire::put_be16(p, i, b),
{
    assert(wire::put_be16(wire::put_be16(p, i, a), i, b) =~= wire::put_be16(p, i, b));
}

/// Completing a partial checksum on `l` gives what computing it in full gives.
proof fn lemma_completes(is_ipv6: bool, t: int, l: Seq<u8>)
    requires
        tcp_fits(is_ipv6, t, l),
    ensures
        ({
            let pseudo = headers::pseudo_header_sum(l, is_ipv6, (l.len() - t) as nat);
            let p = wire::put_be16(l, t + 16, checksum::fold(pseudo) as u16);
            let z = wire::put_be16(l, t + 16, 0);
            let q = segment::checksum_completed(p, t, t + 16);
            &&& q == wire::put_be16(
                z,
                t + 16,
                checksum::complement(headers::tcp_sum(z, is_ipv6, t)) as u16,
            )
            &&& checksum::sum_is_valid(headers::tcp_sum(q, is_ipv6, t))
        }),
{
    let pseudo = headers::pseudo_header_sum(l, is_ipv6, (l.len() - t) as nat);
    let f = checksum::fold(pseudo);
    let w = checksum::word_sum(wire::put_be16(l, t + 16, 0).skip(t));
    let c = checksum::complement(pseudo + w) as u16;
    assert(f <= 65535);
    lemma_field_sum(is_ipv6, t, l, f as u16);
    lemma_field_sum(is_ipv6, t, l, 0);
    lemma_field_sum(is_ipv6, t, l, c);
    vstd::arithmetic::div_mod::lemma_small_mod(w + f, checksum::SUM_MODULUS as nat);
    lemma_fold_part(w, pseudo);
    assert(checksum::complement(w + f) == checksum::complement(pseudo + w));
    lemma_put_again(l, t + 16, f as u16, c);
    lemma_put_again(l, t + 16, 0, c);
    checksum::law_complement_validates(pseudo + w);
}

/// The partial checksum that a packet is given for offload is what completes it: summing the
/// TCP segment on top of it gives the very packet that computing the checksum in full gives,
/// and its TCP checksum is valid.
pub proof fn law_partial_checksum_completes(is_ipv6: bool, t: int, draft: Seq<u8>)
    requires
        tcp_fits(is_ipv6, t, draft),
        headers::offload_finished(is_ipv6, t, draft) is Ok,
    ensures
        ({
            let p = headers::offload_finished(is_ipv6, t, draft)->Ok_0;
            let q = segment::checksum_completed(p, t, t + 16);
            &&& segment::segment_sealed(is_ipv6, t, t + 16, draft) == Ok::<
                Seq<u8>,
                crate::error::OffloadError,
            >(q)
            &&& checksum::sum_is_valid(headers::tcp_sum(q, is_ipv6, t))
        }),
{
    reveal(segment::segment_sealed);
    let l = headers::length_finished(is_ipv6, draft)->Ok_0;
    assert(l.len() == draft.len());
    lemma_completes(is_ipv6, t, l);
}

/// The packet of a coalesced group carries a partial checksum that completes to a valid one,
/// where its metadata says.
pub proof fn law_group_checksum_completes(g: gro::GroupState)
    requires
        g.valid(),
        g.segment_count > 1,
    ensures
        ({
            let h = gro::group_output(g)->Coalesced_0;
            let p = gro::group_output(g)->Coalesced_1;
            let t = h.csum_start as int;
            let q = segment::checksum_completed(p, t, t + h.csum_offset);
            &&& gro::group_output(g) is Coalesced
            &&& checksum::sum_is_valid(headers::tcp_sum(q, g.is_v6, t))
        }),
{
    law_partial_checksum_completes(g.is_v6, g.ip_header_len, g.buf);
}

/// A super-frame carries a partial checksum that completes to a valid one, where its metadata
/// says.
pub proof fn law_superframe_checksum_completes(segments: Seq<Seq<u8>>)
    requires
        coalesce::superframe(segments) is Ok,
    ensures
        ({
            let (h, p) = coalesce::superframe(segments)->Ok_0;
            let t = h.csum_start as int;
            let q = segment::checksum_completed(p, t, t + h.csum_offset);
            checksum::sum_is_valid(
                headers::tcp_sum(q, coalesce::coalescible(segments[0])->0.is_ipv6, t),
            )
        }),
{
    let first = coalesce::coalescible(segments[0])->0;
    law_partial_checksum_completes(
        first.is_ipv6,
        first.ip_header_len as int,
        coalesce::superframe_draft(segments, first.headers()),
    );
}

/// The flags of a header, by their bits.
proof fn lemma_checksum_flags(h: VirtioNetHdr)
    ensures
        h.wants_checksum() <==> h.flags as int % 2 == 1,
        h.flags & !(VIRTIO_NET_HDR_F_NEEDS_CSUM | VIRTIO_NET_HDR_F_DATA_VALID) == 0 <==> h.flags
            < 4,
        h.gso_type == 0 ==> !h.tcp_gso(),
{
    let f = h.flags;
    assert((f & 1u8 != 0) == (f % 2 == 1)) by (bit_vector);
    assert((f & !(1u8 | 2u8) == 0) == (f < 4)) by (bit_vector);
    assert(0u8 & !0x80u8 == 0u8) by (bit_vector);
}

/// A packet that asks for a checksum gets it, wherever in the packet the field lies: it comes out
/// as one packet that differs from the one that went in in the two bytes of the field only, and
/// those hold the complement of the reduced sum of all the bytes from the start on.
pub proof fn law_requested_checksum_is_written(h: VirtioNetHdr, p: Seq<u8>)
    requires
        h.gso_type == 0,
        h.flags == 1 || h.flags == 3,
        h.csum_start < p.len(),
        h.csum_start + h.csum_offset + 2 <= p.len(),
    ensures
        ({
            let e = segment::plain_emission(h, p);
            let q = e.packets[0];
            let i = h.csum_start + h.csum_offset;
            &&& segment::checksum_plan(h, p) == Ok::<
                Option<(usize, usize)>,
                crate::error::OffloadError,
            >(Some((h.csum_start as usize, i as usize)))
            &&& segment::plain_builds(h, p)
            &&& e.error is None
            &&& e.packets.len() == 1
            &&& q.len() == p.len()
            &&& forall|j: int| 0 <= j < p.len() && j != i && j != i + 1 ==> q[j] == p[j]
            &&& q[i] * 256 + q[i + 1] == 65535 - checksum::fold(
                checksum::word_sum(p.skip(h.csum_start as int)) % 0x1_0000_0000,
            )
        }),
{
    lemma_checksum_flags(h);
}

/// A packet without segmentation metadata that asks for no checksum comes out as it went in, and
/// one that cannot be given the checksum that it asks for does not come out at all.
pub proof fn law_other_packets_are_left_alone(h: VirtioNetHdr, p: Seq<u8>)
    requires
        h.gso_type == 0,
    ensures
        ({
            let e = segment::plain_emission(h, p);
            let asks = h.flags as int % 2 == 1;
            let i = h.csum_start + h.csum_offset;
            &&& p.len() > 0 && !asks ==> e.error is None && e.packets == seq![p]
            &&& e.error is Some <==> p.len() == 0 || asks && (h.flags > 3 || h.csum_start
                >= p.len() || i + 2 > p.len())
            &&& e.error is Some ==> e.packets.len() == 0
        }),
{
    lemma_checksum_flags(h);
}

/// Whatever partial sum a checksum field holds, the checksum that comes out covers it and the
/// bytes from the start on, and is valid.
#[verifier::spinoff_prover]
#[verifier::rlimit(40)]
pub proof fn law_written_checksum_is_valid(h: VirtioNetHdr, p: Seq<u8>, pseudo: nat)
    requires
        h.gso_type == 0,
        h.flags == 1 || h.flags == 3,
        h.csum_offset as int % 2 == 0,
        h.csum_start + h.csum_offset + 2 <= p.len() <= 0x1_0000,
        0 < pseudo,
        p[h.csum_start + h.csum_offset] * 256 + p[h.csum_start + h.csum_offset + 1]
            == checksum::fold(pseudo),
    ensures
        ({
            let q = segment::plain_emission(h, p).packets[0];
            checksum::sum_is_valid(pseudo + checksum::word_sum(q.skip(h.csum_start as int)))
        }),
{
    let start = h.csum_start as int;
    let at = h.csum_offset as int;
    let q = segment::plain_emission(h, p).packets[0];
    let tail = p.skip(start);
    let f = checksum::fold(pseudo);
    let c = wire::be16_at(q, start + at);
    lemma_checksum_flags(h);
    law_requested_checksum_is_written(h, p);
    assert(q == segment::checksum_completed(p, start, start + at));
    assert(q.skip(start) =~= wire::put_be16(tail, at, c));
    assert(wire::be16_at(tail, at) == f);
    checksum::lemma_word_sum_put(tail, at, c);
    checksum::lemma_word_sum_put(tail, at, 0);
    checksum::lemma_word_sum_bound(tail);
    let w = checksum::word_sum(wire::put_be16(tail, at, 0));
    assert(checksum::word_sum(tail) == w + f);
    assert(checksum::word_sum(q.skip(start)) == w + c);
    vstd::arithmetic::div_mod::lemma_small_mod(w + f, checksum::SUM_MODULUS as nat);
    lemma_fold_part(w, pseudo);
    assert(c == checksum::complement(pseudo + w));
    checksum::law_complement_validates(pseudo + w);
}

/// A UDP packet whose checksum field held the reduced sum of its pseudo-header, that is of its
/// addresses, the number of UDP and its UDP length, comes out with a valid checksum, under either
/// IP version.
#[verifier::spinoff_prover]
#[verifier::rlimit(40)]
pub proof fn law_udp_checksum_is_valid(h: VirtioNetHdr, p: Seq<u8>, is_ipv6: bool)
    requires
        h.gso_type == 0,
        h.flags == 1 || h.flags == 3,
        h.csum_start == (if is_ipv6 {
            40u16
        } else {
            20u16
        }),
        h.csum_offset == 6,
        h.csum_start + 8 <= p.len() <= 0x1_0000,
        ({
            let t = h.csum_start as int;
            let addresses = if is_ipv6 {
                p.subrange(8, 40)
            } else {
                p.subrange(12, 20)
            };
            p[t + 6] * 256 + p[t + 7] == checksum::fold(
                checksum::word_sum(addresses) + 17 + (p.len() - t) as nat,
            )
        }),
    ensures
        ({
            let t = h.csum_start as int;
            let q = segment::plain_emission(h, p).packets[0];
            let addresses = if is_ipv6 {
                q.subrange(8, 40)
            } else {
                q.subrange(12, 20)
            };
            checksum::sum_is_valid(
                checksum::word_sum(addresses) + 17 + (q.len() - t) as nat + checksum::word_sum(
                    q.skip(t),
                ),
            )
        }),
{
    let t = h.csum_start as int;
    let q = segment::plain_emission(h, p).packets[0];
    let addresses = if is_ipv6 {
        p.subrange(8, 40)
    } else {
        p.subrange(12, 20)
    };
    law_requested_checksum_is_written(h, p);
    law_written_checksum_is_valid(
        h,
        p,
        checksum::word_sum(addresses) + 17 + (p.len() - t) as nat,
    );
    if is_ipv6 {
        assert(q.subrange(8, 40) =~= p.subrange(8, 40));
    } else {
        assert(q.subrange(12, 20) =~= p.subrange(12, 20));
    }
}

/// Setting the length of an IPv4 packet changes its length and its header checksum only, and the
/// checksum is valid; it is done exactly for TCP packets with a whole header and a length that
/// fits.
#[verifier::spinoff_prover]
#[verifier::rlimit(40)]
pub proof fn law_ipv4_length_is_set(p: Seq<u8>, len: nat)
    ensures
        ({
            let r = headers::ipv4_finished(p, len);
            let ihl = p[0] as int % 16 * 4;
            &&& r is Ok <==> p.len() >= 20 && p[9] == 6 && 20 <= ihl <= p.len() && len <= 65535
            &&& r matches Ok(q) ==> {
                &&& q.len() == p.len()
                &&& q[2] * 256 + q[3] == len
                &&& forall|i: int|
                    0 <= i < p.len() && i != 2 && i != 3 && i != 10 && i != 11 ==> q[i] == p[i]
                &&& checksum::sum_is_valid(checksum::word_sum(q.take(ihl)))
            }
        }),
{
    if p.len() >= 20 {
        wire::lemma_nibbles(p[0]);
    }
    if headers::ipv4_finished(p, len) is Ok {
        let ihl = headers::ipv4_header_len(p);
        let z = headers::ipv4_with_length(p, len as u16);
        let c = headers::ipv4_header_checksum(z);
        let q = wire::put_be16(z, 10, c);
        let covered = z.take(ihl);
        assert(z[0] == p[0]);
        assert(q.take(ihl) =~= wire::put_be16(covered, 10, c));
        assert(wire::be16_at(covered, 10) == 0);
        checksum::lemma_word_sum_put(covered, 10, c);
        checksum::lemma_word_sum_first(covered.skip(8));
        assert(covered =~= covered.take(8) + covered.skip(8));
        checksum::lemma_word_sum_concat(covered.take(8), covered.skip(8));
        assert(wire::be16_at(covered.skip(8), 0) >= 6);
        checksum::law_complement_validates(checksum::word_sum(covered));
    }
}

/// Setting the length of an IPv6 packet changes its payload length only; it is done exactly for
/// packets with a whole header and a length that fits.
pub proof fn law_ipv6_length_is_set(p: Seq<u8>, len: nat)
    ensures
        ({
            let r = headers::ipv6_finished(p, len);
            &&& r is Ok <==> p.len() >= 40 && 40 <= len <= 65575
            &&& r matches Ok(q) ==> {
                &&& q.len() == p.len()
                &&& q[4] * 256 + q[5] == len - 40
                &&& forall|i: int| 0 <= i < p.len() && i != 4 && i != 5 ==> q[i] == p[i]
            }
        }),
{
}

/// A TCP checksum is computed for every segment that an IP packet of its version can hold, and
/// written into a field that was zero it makes the sum over pseudo-header and segment valid.
#[verifier::spinoff_prover]
#[verifier::rlimit(40)]
pub proof fn law_tcp_checksum_is_valid(is_ipv6: bool, t: int, p: Seq<u8>)
    requires
        tcp_fits(is_ipv6, t, p),
        p[t + 16] == 0 && p[t + 17] == 0,
    ensures
        ({
            let r = if is_ipv6 {
                headers::tcp_checksum_v6(p, t)
            } else {
                headers::tcp_checksum_v4(p, t)
            };
            let addresses = if is_ipv6 {
                p.subrange(8, 40)
            } else {
                p.subrange(12, 20)
            };
            &&& r is Ok <==> is_ipv6 || p.len() - t <= 65535
            &&& r matches Ok(c) ==> {
                let q = wire::put_be16(p, t + 16, c);
                &&& p.len() - t <= 65535 ==> checksum::sum_is_valid(
                    checksum::word_sum(addresses) + 6 + (p.len() - t) as nat + checksum::word_sum(
                        q.skip(t),
                    ),
                )
            }
        }),
{
    let pseudo = headers::pseudo_header_sum(p, is_ipv6, (p.len() - t) as nat);
    let z = wire::put_be16(p, t + 16, 0);
    assert(z =~= p);
    let c = checksum::complement(headers::tcp_sum(p, is_ipv6, t)) as u16;
    lemma_field_sum(is_ipv6, t, p, 0);
    lemma_field_sum(is_ipv6, t, p, c);
    checksum::law_complement_validates(headers::tcp_sum(p, is_ipv6, t));
}

/// A partial checksum is the reduced sum of the addresses, the number of TCP and the length of
/// the segment; it is told for every segment whose length its IP version can count.
pub proof fn law_partial_checksum_is_the_pseudo_header(p: Seq<u8>, is_ipv6: bool, t: int)
    requires
        0 <= t,
    ensures
        ({
            let n = p.len() - t;
            let addresses = if is_ipv6 {
                p.subrange(8, 40)
            } else {
                p.subrange(12, 20)
            };
            let r = headers::tcp_partial_checksum(p, is_ipv6, t);
            &&& r is Ok <==> n >= 0 && if is_ipv6 {
                p.len() >= 40 && n <= u32::MAX
            } else {
                p.len() >= 20 && n <= 65535
            }
            &&& r matches Ok(c) ==> c == checksum::fold(
                checksum::word_sum(addresses) + 6 + (n / 0x1_0000) as nat + (n % 0x1_0000) as nat,
            )
        }),
{
    let n = p.len() - t;
    if headers::tcp_partial_checksum(p, is_ipv6, t) is Ok {
        let pseudo = headers::pseudo_header_sum(p, is_ipv6, n as nat);
        checksum::law_fold_reduces(pseudo);
    }
}

} // verus!
