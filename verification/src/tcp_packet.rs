//! TCP packets field by field: which bytes are a whole TCP packet, and which connection, header
//! and payload they carry.

use vstd::prelude::*;
use crate::gro;
use crate::gro::{GroClass, TcpFlowKey};
use crate::wire;

verus! {

/// The number that bytes stand for, the most significant first.
pub open spec fn number(s: Seq<u8>) -> nat
    decreases s.len(),
{
    if s.len() == 0 {
        0
    } else {
        256 * number(s.drop_last()) + s.last() as nat
    }
}

/// The IP version of a packet: the upper half of its first byte.
pub open spec fn version(p: Seq<u8>) -> int {
    if p.len() == 0 {
        0
    } else {
        p[0] as int / 16
    }
}

/// Where the IP header of a packet ends: behind as many words as the lower half of the first
/// byte says for IPv4, and behind forty bytes for IPv6.
pub open spec fn ip_end(p: Seq<u8>) -> int {
    if version(p) == 6 {
        40
    } else {
        p[0] as int % 16 * 4
    }
}

/// Where the TCP header of a packet ends: behind as many words as its data offset says.
pub open spec fn tcp_end(p: Seq<u8>) -> int {
    ip_end(p) + p[ip_end(p) + 12] as int / 16 * 4
}

/// An IPv4 packet that carries TCP, that is as long as it says, and that is no fragment.
pub open spec fn carries_tcp4(p: Seq<u8>) -> bool {
    &&& version(p) == 4
    &&& p.len() >= 20
    &&& ip_end(p) >= 20
    &&& p[9] == 6
    &&& number(p.subrange(2, 4)) == p.len()
    &&& p[6] as int % 64 == 0
    &&& p[7] == 0
}

/// An IPv6 packet that carries TCP right behind its header and that is as long as it says.
pub open spec fn carries_tcp6(p: Seq<u8>) -> bool {
    &&& version(p) == 6
    &&& p.len() >= 40
    &&& p[6] == 6
    &&& number(p.subrange(4, 6)) == p.len() - 40
}

/// A whole, unfragmented TCP packet, with all of its TCP header inside.
pub open spec fn whole(p: Seq<u8>) -> bool {
    &&& carries_tcp4(p) || carries_tcp6(p)
    &&& ip_end(p) + 20 <= p.len()
    &&& ip_end(p) + 20 <= tcp_end(p) <= p.len()
}

/// The connection that a TCP packet belongs to: its addresses and its ports.
pub open spec fn flow(p: Seq<u8>) -> TcpFlowKey {
    let t = ip_end(p);
    if version(p) == 6 {
        TcpFlowKey {
            src: number(p.subrange(8, 24)) as u128,
            dst: number(p.subrange(24, 40)) as u128,
            src_port: number(p.subrange(t, t + 2)) as u16,
            dst_port: number(p.subrange(t + 2, t + 4)) as u16,
            is_v6: true,
        }
    } else {
        TcpFlowKey {
            src: number(p.subrange(12, 16)) as u128,
            dst: number(p.subrange(16, 20)) as u128,
            src_port: number(p.subrange(t, t + 2)) as u16,
            dst_port: number(p.subrange(t + 2, t + 4)) as u16,
            is_v6: false,
        }
    }
}

/// The payload of a TCP packet: all that follows its TCP header.
pub open spec fn payload(p: Seq<u8>) -> Seq<u8> {
    p.skip(tcp_end(p))
}

/// The byte that holds the flags of a TCP packet.
pub open spec fn flags(p: Seq<u8>) -> int {
    p[ip_end(p) + 13] as int
}

/// A TCP packet opens or resets its connection, or carries urgent data or a congestion response:
/// SYN, RST, URG or CWR is set.
pub open spec fn is_special(p: Seq<u8>) -> bool {
    ||| flags(p) / 2 % 2 == 1
    ||| flags(p) / 4 % 2 == 1
    ||| flags(p) / 32 % 2 == 1
    ||| flags(p) / 128 % 2 == 1
}

/// Nothing but payload sets a TCP packet apart from others of its connection.
pub open spec fn is_data(p: Seq<u8>) -> bool {
    !is_special(p) && payload(p).len() > 0
}

/// A two-byte field is the number of its two bytes.
pub proof fn lemma_number2(p: Seq<u8>, i: int)
    requires
        0 <= i,
        i + 2 <= p.len(),
    ensures
        number(p.subrange(i, i + 2)) == wire::be16_at(p, i),
        number(p.subrange(i, i + 2)) == p[i] * 256 + p[i + 1],
{
    let s = p.subrange(i, i + 2);
    reveal_with_fuel(number, 3);
    assert(s.drop_last().drop_last().len() == 0);
    assert(s.drop_last().last() == p[i]);
    assert(s.last() == p[i + 1]);
}

/// A four-byte field is the number of its four bytes.
pub proof fn lemma_number4(p: Seq<u8>, i: int)
    requires
        0 <= i,
        i + 4 <= p.len(),
    ensures
        number(p.subrange(i, i + 4)) == wire::be32_at(p, i),
{
    let s = p.subrange(i, i + 4);
    reveal_with_fuel(number, 3);
    assert(s.drop_last().drop_last() =~= p.subrange(i, i + 2));
    assert(s.drop_last().last() == p[i + 2]);
    assert(s.last() == p[i + 3]);
    lemma_number2(p, i);
}

/// Four more bytes.
proof fn lemma_number_step(p: Seq<u8>, i: int, n: int)
    requires
        0 <= i,
        0 <= n,
        i + n + 4 <= p.len(),
    ensures
        number(p.subrange(i, i + n + 4)) == number(p.subrange(i, i + n)) * 0x1_0000_0000
            + wire::be32_at(p, i + n),
{
    let s = p.subrange(i, i + n + 4);
    reveal_with_fuel(number, 5);
    let a = s.drop_last();
    let b = a.drop_last();
    let c = b.drop_last();
    assert(c.drop_last() =~= p.subrange(i, i + n));
    assert(s.last() == p[i + n + 3]);
    assert(a.last() == p[i + n + 2]);
    assert(b.last() == p[i + n + 1]);
    assert(c.last() == p[i + n]);
    assert(number(s) == 256 * number(a) + s.last());
    assert(number(a) == 256 * number(b) + a.last());
    assert(number(b) == 256 * number(c) + b.last());
    assert(number(c) == 256 * number(p.subrange(i, i + n)) + c.last());
}

/// A sixteen-byte field is the number of its sixteen bytes.
pub proof fn lemma_number16(p: Seq<u8>, i: int)
    requires
        0 <= i,
        i + 16 <= p.len(),
    ensures
        number(p.subrange(i, i + 16)) == wire::be128_at(p, i),
{
    lemma_number4(p, i);
    lemma_number_step(p, i, 4);
    lemma_number_step(p, i, 8);
    lemma_number_step(p, i, 12);
    let a = wire::be32_at(p, i);
    let b = wire::be32_at(p, i + 4);
    let c = wire::be32_at(p, i + 8);
    let d = wire::be32_at(p, i + 12);
    assert(number(p.subrange(i, i + 8)) == a * 0x1_0000_0000 + b);
    assert(number(p.subrange(i, i + 12)) == (a * 0x1_0000_0000 + b) * 0x1_0000_0000 + c);
    assert(number(p.subrange(i, i + 16)) == ((a * 0x1_0000_0000 + b) * 0x1_0000_0000 + c)
        * 0x1_0000_0000 + d);
}

/// The flags that set a packet apart, bit by bit.
proof fn lemma_special(f: u8)
    ensures
        (f & (gro::TCP_FLAG_SYN | gro::TCP_FLAG_RST | gro::TCP_FLAG_URG | gro::TCP_FLAG_CWR) != 0)
            == (f as int / 2 % 2 == 1 || f as int / 4 % 2 == 1 || f as int / 32 % 2 == 1
            || f as int / 128 % 2 == 1),
{
    assert((f & (0x02u8 | 0x04u8 | 0x20u8 | 0x80u8) != 0) == (f / 2 % 2 == 1 || f / 4 % 2 == 1 || f
        / 32 % 2 == 1 || f / 128 % 2 == 1)) by (bit_vector);
}

/// The fragment field, in its two bytes.
proof fn lemma_fragment(p: Seq<u8>)
    requires
        p.len() >= 8,
    ensures
        (wire::be16_at(p, 6) & 0x2000 == 0 && wire::be16_at(p, 6) & 0x1fff == 0) == (p[6] as int
            % 64 == 0 && p[7] == 0),
{
    let x = wire::be16_at(p, 6);
    assert((x & 0x2000 == 0 && x & 0x1fff == 0) == (x % 0x4000 == 0)) by (bit_vector);
    assert(x == p[6] * 256 + p[7]);
}

/// A packet passes through regardless of any flow exactly when it is not a whole, unfragmented
/// TCP packet. Every other packet is told by its addresses and ports, whatever its flags and its
/// length: it can be merged exactly when it carries payload and none of SYN, RST, URG and CWR.
#[verifier::spinoff_prover]
#[verifier::rlimit(50)]
pub proof fn law_every_tcp_packet_has_its_flow(p: Seq<u8>)
    ensures
        gro::gro_class(p) is PassThrough <==> !whole(p),
        gro::gro_class(p) is Coalescable <==> whole(p) && is_data(p),
        gro::gro_class(p) is SameFlowPassThrough <==> whole(p) && !is_data(p),
        match gro::gro_class(p) {
            GroClass::Coalescable(seg) => {
                &&& seg.key == flow(p)
                &&& seg.is_v6 == (version(p) == 6)
                &&& seg.ip_header_len == ip_end(p)
                &&& seg.ip_header_len + seg.tcp_header_len == tcp_end(p)
                &&& seg.payload_len == payload(p).len()
                &&& seg.tcp_flags == flags(p)
                &&& seg.seq == number(p.subrange(ip_end(p) + 4, ip_end(p) + 8))
            },
            GroClass::SameFlowPassThrough(key) => key == flow(p),
            GroClass::PassThrough => true,
        },
{
    if p.len() > 0 {
        wire::lemma_nibbles(p[0]);
        let t = ip_end(p);
        if p.len() >= 20 {
            lemma_number2(p, 2);
            lemma_number2(p, 4);
            lemma_fragment(p);
            lemma_number4(p, 12);
            lemma_number4(p, 16);
        }
        if p.len() >= 40 {
            lemma_number16(p, 8);
            lemma_number16(p, 24);
        }
        if t + 20 <= p.len() {
            wire::lemma_nibbles(p[t + 12]);
            lemma_special(p[t + 13]);
            lemma_number2(p, t);
            lemma_number2(p, t + 2);
            lemma_number4(p, t + 4);
        }
    }
}

} // verus!
