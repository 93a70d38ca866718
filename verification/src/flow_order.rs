//! Coalescing keeps every flow in order: what comes out of a flow is what went in, byte for byte
//! and packet for packet.

use vstd::prelude::*;
use crate::gro;
use crate::gro::{GroClass, GroupState, OutputView, Pending, TcpFlowKey};
use crate::headers;
use crate::tcp_packet;
use crate::virtio::{VirtioNetHdr, VIRTIO_NET_HDR_GSO_TCPV6};
use crate::wire;

verus! {

/// What happens on a TCP flow: a byte of payload, or a packet that is not coalesced, such as a
/// pure acknowledgement or a reset.
pub enum FlowEvent {
    Byte(u8),
    Packet(Seq<u8>),
}

/// The bytes of a payload, one after the other.
pub open spec fn bytes(payload: Seq<u8>) -> Seq<FlowEvent> {
    payload.map_values(|b: u8| FlowEvent::Byte(b))
}

/// What a packet brings to the flow `k`, by its addresses and ports: its payload, byte for byte,
/// or itself if it carries none or is set apart by its flags.
pub open spec fn packet_events(p: Seq<u8>, k: TcpFlowKey) -> Seq<FlowEvent> {
    if !tcp_packet::whole(p) || tcp_packet::flow(p) != k {
        Seq::empty()
    } else if tcp_packet::is_data(p) {
        bytes(tcp_packet::payload(p))
    } else {
        seq![FlowEvent::Packet(p)]
    }
}

/// What packets bring to the flow `k`, in order.
pub open spec fn incoming(packets: Seq<Seq<u8>>, k: TcpFlowKey) -> Seq<FlowEvent>
    decreases packets.len(),
{
    if packets.len() == 0 {
        Seq::empty()
    } else {
        incoming(packets.drop_last(), k) + packet_events(packets.last(), k)
    }
}

/// The flow of a coalesced packet, found by its metadata.
pub open spec fn coalesced_flow(h: VirtioNetHdr, p: Seq<u8>) -> TcpFlowKey {
    gro::flow_key(p, h.csum_start as int, h.gso_type == VIRTIO_NET_HDR_GSO_TCPV6)
}

/// What an output takes to the flow `k`.
pub open spec fn output_events(o: OutputView, k: TcpFlowKey) -> Seq<FlowEvent> {
    match o {
        OutputView::Single(p) => packet_events(p, k),
        OutputView::Coalesced(h, p) => if coalesced_flow(h, p) == k {
            bytes(p.skip(h.hdr_len as int))
        } else {
            Seq::empty()
        },
    }
}

/// What outputs take to the flow `k`, in order.
pub open spec fn outgoing(outputs: Seq<OutputView>, k: TcpFlowKey) -> Seq<FlowEvent>
    decreases outputs.len(),
{
    if outputs.len() == 0 {
        Seq::empty()
    } else {
        outgoing(outputs.drop_last(), k) + output_events(outputs.last(), k)
    }
}

/// The payload that a group holds.
pub open spec fn group_events(g: GroupState) -> Seq<FlowEvent> {
    bytes(g.buf.skip(g.headers()))
}

/// What a table holds of the flow `k`.
pub open spec fn held(table: Pending, k: TcpFlowKey) -> Seq<FlowEvent> {
    if gro::has_flow(table, k) {
        group_events(table[gro::flow_index(table, k)].1)
    } else {
        Seq::empty()
    }
}

/// The group is of the flow, by its own headers; a group of one segment is that segment.
pub open spec fn is_of_flow(key: TcpFlowKey, g: GroupState) -> bool {
    &&& g.valid()
    &&& gro::flow_key(g.buf, g.ip_header_len, g.is_v6) == key
    &&& g.segment_count == 1 ==> {
        let seg = gro::gro_class(g.buf)->Coalescable_0;
        &&& gro::gro_class(g.buf) is Coalescable
        &&& seg.key == key
        &&& seg.ip_header_len + seg.tcp_header_len == g.headers()
    }
}

/// Every group of the table is of its flow.
pub open spec fn sorted_by_flow(table: Pending) -> bool {
    &&& gro::pending_valid(table)
    &&& forall|i: int| 0 <= i < table.len() ==> is_of_flow((#[trigger] table[i]).0, table[i].1)
}

/// Payloads that follow each other.
proof fn lemma_bytes_concat(a: Seq<u8>, b: Seq<u8>)
    ensures
        bytes(a + b) == bytes(a) + bytes(b),
{
    assert(bytes(a + b) =~= bytes(a) + bytes(b));
}

/// One more output.
proof fn lemma_outgoing_push(outputs: Seq<OutputView>, o: OutputView, k: TcpFlowKey)
    ensures
        outgoing(outputs.push(o), k) == outgoing(outputs, k) + output_events(o, k),
{
    assert(outputs.push(o).drop_last() =~= outputs);
}

/// Outputs that follow each other.
proof fn lemma_outgoing_concat(a: Seq<OutputView>, b: Seq<OutputView>, k: TcpFlowKey)
    ensures
        outgoing(a + b, k) == outgoing(a, k) + outgoing(b, k),
    decreases b.len(),
{
    if b.len() == 0 {
        assert(a + b =~= a);
        assert(outgoing(a, k) + outgoing(b, k) =~= outgoing(a, k));
    } else {
        assert((a + b).drop_last() =~= a + b.drop_last());
        lemma_outgoing_concat(a, b.drop_last(), k);
        assert(outgoing(a, k) + (outgoing(b.drop_last(), k) + output_events(b.last(), k)) =~= (
        outgoing(a, k) + outgoing(b.drop_last(), k)) + output_events(b.last(), k));
    }
}

/// One output alone.
proof fn lemma_outgoing_one(o: OutputView, k: TcpFlowKey)
    ensures
        outgoing(seq![o], k) == output_events(o, k),
{
    assert(seq![o].drop_last() =~= Seq::<OutputView>::empty());
    assert(Seq::<FlowEvent>::empty() + output_events(o, k) =~= output_events(o, k));
    reveal_with_fuel(outgoing, 2);
}

/// A flow key is made of the addresses and the ports.
proof fn lemma_same_flow(a: Seq<u8>, b: Seq<u8>, t: int, v6: bool)
    requires
        if v6 {
            t == 40
        } else {
            t >= 20
        },
        t + 4 <= a.len(),
        t + 4 <= b.len(),
        forall|i: int|
            (if v6 {
                8 <= i < 40
            } else {
                12 <= i < 20
            }) || t <= i < t + 4 ==> a[i] == b[i],
    ensures
        gro::flow_key(a, t, v6) == gro::flow_key(b, t, v6),
{
    if v6 {
        assert(wire::be32_at(a, 8) == wire::be32_at(b, 8));
        assert(wire::be32_at(a, 12) == wire::be32_at(b, 12));
        assert(wire::be32_at(a, 16) == wire::be32_at(b, 16));
        assert(wire::be32_at(a, 20) == wire::be32_at(b, 20));
        assert(wire::be32_at(a, 24) == wire::be32_at(b, 24));
        assert(wire::be32_at(a, 28) == wire::be32_at(b, 28));
        assert(wire::be32_at(a, 32) == wire::be32_at(b, 32));
        assert(wire::be32_at(a, 36) == wire::be32_at(b, 36));
    }
}

/// The output of a group takes its payload to its flow, and nothing to another.
proof fn lemma_group_output(key: TcpFlowKey, g: GroupState, k: TcpFlowKey)
    requires
        is_of_flow(key, g),
    ensures
        output_events(gro::group_output(g), k) == (if k == key {
            group_events(g)
        } else {
            Seq::empty()
        }),
{
    if g.segment_count == 1 {
        tcp_packet::law_every_tcp_packet_has_its_flow(g.buf);
    }
    if g.segment_count > 1 {
        let t = g.ip_header_len;
        let p = headers::offload_finished(g.is_v6, t, g.buf)->Ok_0;
        assert(headers::offload_finished(g.is_v6, t, g.buf) is Ok);
        assert(p.len() == g.buf.len());
        assert forall|i: int|
            (if g.is_v6 {
                8 <= i < 40
            } else {
                12 <= i < 20
            }) || t <= i < t + 4 implies p[i] == g.buf[i] by {}
        lemma_same_flow(p, g.buf, t, g.is_v6);
        assert(p.skip(g.headers()) =~= g.buf.skip(g.headers()));
    }
}

/// A table without the group at `i` holds what it held, but of that flow.
proof fn lemma_held_without(table: Pending, i: int, k: TcpFlowKey)
    requires
        sorted_by_flow(table),
        0 <= i < table.len(),
    ensures
        sorted_by_flow(table.remove(i)),
        held(table, table[i].0) == group_events(table[i].1),
        held(table.remove(i), k) == (if k == table[i].0 {
            Seq::empty()
        } else {
            held(table, k)
        }),
        !gro::has_flow(table.remove(i), table[i].0),
        gro::has_flow(table.remove(i), k) ==> gro::has_flow(table, k),
{
    let rest = table.remove(i);
    assert forall|j: int| 0 <= j < rest.len() implies (#[trigger] rest[j]) == table[if j < i {
        j
    } else {
        j + 1
    }] by {}
    assert(gro::flow_index(table, table[i].0) == i);
    if k != table[i].0 && gro::has_flow(table, k) {
        let a = gro::flow_index(table, k);
        let b = if a < i {
            a
        } else {
            a - 1
        };
        assert(rest[b] == table[a]);
        assert(gro::flow_index(rest, k) == b);
    }
}

/// A table with one more group holds what it held, and the payload of that group.
proof fn lemma_held_with(table: Pending, key: TcpFlowKey, g: GroupState, k: TcpFlowKey)
    requires
        sorted_by_flow(table),
        !gro::has_flow(table, key),
        is_of_flow(key, g),
        table.len() < gro::MAX_GRO_FLOWS,
    ensures
        sorted_by_flow(table.push((key, g))),
        held(table.push((key, g)), k) == (if k == key {
            group_events(g)
        } else {
            held(table, k)
        }),
{
    let more = table.push((key, g));
    let n = table.len() as int;
    assert(more[n] == (key, g));
    assert forall|i: int| 0 <= i < n implies (#[trigger] more[i]).0 != key by {
        assert(more[i] == table[i]);
    }
    if k == key {
        assert(gro::flow_index(more, k) == n);
    } else if gro::has_flow(table, k) {
        let a = gro::flow_index(table, k);
        assert(more[a] == table[a]);
        assert(gro::flow_index(more, k) == a);
    }
}

/// A table with another group in place of that of its flow.
proof fn lemma_held_instead(table: Pending, i: int, g: GroupState, k: TcpFlowKey)
    requires
        sorted_by_flow(table),
        0 <= i < table.len(),
        is_of_flow(table[i].0, g),
    ensures
        sorted_by_flow(table.update(i, (table[i].0, g))),
        held(table.update(i, (table[i].0, g)), k) == (if k == table[i].0 {
            group_events(g)
        } else {
            held(table, k)
        }),
{
    let key = table[i].0;
    let other = table.update(i, (key, g));
    assert(other[i] == (key, g));
    if k == key {
        assert(gro::flow_index(other, k) == i);
    } else if gro::has_flow(table, k) {
        let a = gro::flow_index(table, k);
        assert(other[a] == table[a]);
        assert(gro::flow_index(other, k) == a);
    }
}

/// A segment starts a group of its flow that holds its payload.
proof fn lemma_started(p: Seq<u8>)
    requires
        gro::gro_class(p) is Coalescable,
    ensures
        ({
            let seg = gro::gro_class(p)->Coalescable_0;
            let g = gro::group_started(seg, p);
            &&& is_of_flow(seg.key, g)
            &&& group_events(g) == packet_events(p, seg.key)
        }),
{
    let seg = gro::gro_class(p)->Coalescable_0;
    let t = seg.ip_header_len as int;
    tcp_packet::law_every_tcp_packet_has_its_flow(p);
    wire::lemma_nibbles(p[0]);
    wire::lemma_nibbles(p[t + 12]);
}

/// A segment that continues a group adds its payload to it.
proof fn lemma_extended(key: TcpFlowKey, g: GroupState, p: Seq<u8>)
    requires
        is_of_flow(key, g),
        gro::gro_class(p) is Coalescable,
        gro::gro_class(p)->Coalescable_0.key == key,
        gro::group_offered(g, gro::gro_class(p)->Coalescable_0, p) is Some,
    ensures
        ({
            let seg = gro::gro_class(p)->Coalescable_0;
            let (x, _) = gro::group_offered(g, seg, p)->0;
            &&& is_of_flow(key, x)
            &&& group_events(x) == group_events(g) + packet_events(p, key)
        }),
{
    let seg = gro::gro_class(p)->Coalescable_0;
    let (x, _) = gro::group_offered(g, seg, p)->0;
    let t = g.ip_header_len;
    let h = g.headers();
    tcp_packet::law_every_tcp_packet_has_its_flow(p);
    wire::lemma_nibbles(p[0]);
    wire::lemma_nibbles(p[t + 12]);
    gro::lemma_timestamps_inside(
        g.buf.subrange(t + 20, h),
        p.subrange(t + 20, h),
        0,
        None,
    );
    assert(x.buf.len() == g.buf.len() + seg.payload_len);
    assert forall|i: int| 0 <= i < t + 13 implies x.buf[i] == g.buf[i] by {}
    lemma_same_flow(x.buf, g.buf, t, g.is_v6);
    assert(x.buf.skip(h) =~= g.buf.skip(h) + p.skip(h));
    lemma_bytes_concat(g.buf.skip(h), p.skip(h));
}

/// What a push takes to the flow `k`: what goes out at once, and the packet itself if it passes
/// through.
pub open spec fn push_events(o: gro::PushOutcome, p: Seq<u8>, k: TcpFlowKey) -> Seq<FlowEvent> {
    outgoing(o.outputs, k) + (if o.pass_through {
        packet_events(p, k)
    } else {
        Seq::empty()
    })
}

/// A segment without a group to join keeps every flow in order.
proof fn lemma_start_keeps(table: Pending, outputs: Seq<OutputView>, p: Seq<u8>, k: TcpFlowKey)
    requires
        sorted_by_flow(table),
        gro::gro_class(p) is Coalescable,
        !gro::has_flow(table, gro::gro_class(p)->Coalescable_0.key),
    ensures
        ({
            let seg = gro::gro_class(p)->Coalescable_0;
            let o = gro::segment_starts(table, outputs, seg, p);
            &&& sorted_by_flow(o.table)
            &&& push_events(o, p, k) + held(o.table, k) == outgoing(outputs, k) + held(table, k)
                + packet_events(p, k)
        }),
{
    let seg = gro::gro_class(p)->Coalescable_0;
    let o = gro::segment_starts(table, outputs, seg, p);
    let g = gro::group_started(seg, p);
    let none = Seq::<FlowEvent>::empty();
    lemma_started(p);
    tcp_packet::law_every_tcp_packet_has_its_flow(p);
    if o.pass_through {
        if k == seg.key {
            assert(held(table, k) =~= none);
        }
        assert(outgoing(outputs, k) + packet_events(p, k) + held(table, k) =~= outgoing(outputs, k)
            + held(table, k) + packet_events(p, k));
    } else if table.len() >= gro::MAX_GRO_FLOWS {
        let oldest = table[0];
        lemma_held_without(table, 0, k);
        lemma_held_without(table, 0, seg.key);
        lemma_held_with(table.remove(0), seg.key, g, k);
        lemma_outgoing_push(outputs, gro::group_output(oldest.1), k);
        lemma_group_output(oldest.0, oldest.1, k);
        assert(is_of_flow(table[0].0, table[0].1));
        assert(push_events(o, p, k) + held(o.table, k) =~= outgoing(outputs, k) + held(table, k)
            + packet_events(p, k));
    } else {
        lemma_held_with(table, seg.key, g, k);
        assert(push_events(o, p, k) + held(o.table, k) =~= outgoing(outputs, k) + held(table, k)
            + packet_events(p, k));
    }
}

/// Pushing one packet keeps every flow in order: what the flow has held so far and what the
/// packet brings is what goes out and what is held then.
#[verifier::spinoff_prover]
#[verifier::rlimit(40)]
pub proof fn law_push_keeps_every_flow(table: Pending, p: Seq<u8>, k: TcpFlowKey)
    requires
        sorted_by_flow(table),
    ensures
        ({
            let o = gro::pushed(table, p);
            &&& sorted_by_flow(o.table)
            &&& push_events(o, p, k) + held(o.table, k) == held(table, k) + packet_events(p, k)
        }),
{
    let o = gro::pushed(table, p);
    let none = Seq::<FlowEvent>::empty();
    let nothing = Seq::<OutputView>::empty();
    tcp_packet::law_every_tcp_packet_has_its_flow(p);
    match gro::gro_class(p) {
        GroClass::PassThrough => {
            assert(push_events(o, p, k) + held(o.table, k) =~= held(table, k) + packet_events(p, k));
        },
        GroClass::SameFlowPassThrough(key) => {
            if gro::has_flow(table, key) {
                let i = gro::flow_index(table, key);
                lemma_held_without(table, i, k);
                lemma_outgoing_one(gro::group_output(table[i].1), k);
                lemma_group_output(key, table[i].1, k);
            }
            assert(push_events(o, p, k) + held(o.table, k) =~= held(table, k) + packet_events(p, k));
        },
        GroClass::Coalescable(seg) => {
            if gro::has_flow(table, seg.key) {
                let i = gro::flow_index(table, seg.key);
                lemma_held_without(table, i, k);
                assert(is_of_flow(table[i].0, table[i].1));
                match gro::group_offered(table[i].1, seg, p) {
                    Some((g, closed)) => {
                        lemma_extended(seg.key, table[i].1, p);
                        if closed {
                            lemma_outgoing_one(gro::group_output(g), k);
                            lemma_group_output(seg.key, g, k);
                        } else {
                            lemma_held_instead(table, i, g, k);
                        }
                        assert(push_events(o, p, k) + held(o.table, k) =~= held(table, k)
                            + packet_events(p, k));
                    },
                    None => {
                        let rest = table.remove(i);
                        lemma_outgoing_one(gro::group_output(table[i].1), k);
                        lemma_group_output(seg.key, table[i].1, k);
                        lemma_start_keeps(rest, seq![gro::group_output(table[i].1)], p, k);
                        assert(outgoing(seq![gro::group_output(table[i].1)], k) + held(rest, k)
                            =~= held(table, k));
                    },
                }
            } else {
                lemma_start_keeps(table, nothing, p, k);
                assert(outgoing(nothing, k) + held(table, k) =~= held(table, k));
            }
        },
    }
}

/// Whatever packet of a flow is pushed, a FIN, a reset or an acknowledgement without payload
/// just as well, all the earlier payload of the flow goes out before it: of a packet that passes
/// through, nothing of its flow is held any longer; of one that is held, what is held then ends
/// in its payload.
#[verifier::spinoff_prover]
#[verifier::rlimit(40)]
pub proof fn law_no_packet_overtakes_its_flow(table: Pending, p: Seq<u8>)
    requires
        sorted_by_flow(table),
        tcp_packet::whole(p),
    ensures
        ({
            let o = gro::pushed(table, p);
            let k = tcp_packet::flow(p);
            let before = held(table, k);
            let after = held(o.table, k);
            &&& !tcp_packet::is_data(p) ==> o.pass_through
            &&& o.pass_through ==> {
                &&& !gro::has_flow(o.table, k)
                &&& after == Seq::<FlowEvent>::empty()
                &&& outgoing(o.outputs, k) == before
            }
            &&& !o.pass_through ==> outgoing(o.outputs, k) + after == before + bytes(
                tcp_packet::payload(p),
            )
        }),
{
    let o = gro::pushed(table, p);
    let k = tcp_packet::flow(p);
    let none = Seq::<FlowEvent>::empty();
    tcp_packet::law_every_tcp_packet_has_its_flow(p);
    law_push_keeps_every_flow(table, p, k);
    if gro::has_flow(table, k) {
        let i = gro::flow_index(table, k);
        lemma_held_without(table, i, k);
        assert(is_of_flow(table[i].0, table[i].1));
        lemma_outgoing_one(gro::group_output(table[i].1), k);
        lemma_group_output(k, table[i].1, k);
    }
    if !o.pass_through {
        assert(outgoing(o.outputs, k) + none =~= outgoing(o.outputs, k));
    }
}

/// Pushing a packet adds nothing to a flow that it is not of: what goes out of that flow, and what
/// is held of it then, is what was held of it before.
pub proof fn law_other_flows_wait(table: Pending, p: Seq<u8>, k: TcpFlowKey)
    requires
        sorted_by_flow(table),
        !tcp_packet::whole(p) || tcp_packet::flow(p) != k,
    ensures
        ({
            let o = gro::pushed(table, p);
            outgoing(o.outputs, k) + held(o.table, k) == held(table, k)
        }),
{
    let o = gro::pushed(table, p);
    let none = Seq::<FlowEvent>::empty();
    law_push_keeps_every_flow(table, p, k);
    assert(outgoing(o.outputs, k) + none =~= outgoing(o.outputs, k));
    assert(held(table, k) + none =~= held(table, k));
}

/// What is left of the flows goes out when a table is flushed.
proof fn lemma_flush_keeps(table: Pending, k: TcpFlowKey)
    requires
        sorted_by_flow(table),
    ensures
        outgoing(gro::flushed(table), k) == held(table, k),
    decreases table.len(),
{
    if table.len() == 0 {
        assert(gro::flushed(table) =~= Seq::<OutputView>::empty());
    } else {
        let n = table.len() - 1;
        let rest = table.drop_last();
        assert(table.remove(n) =~= rest);
        lemma_held_without(table, n, k);
        lemma_flush_keeps(rest, k);
        assert(gro::flushed(table) =~= gro::flushed(rest).push(gro::group_output(table[n].1)));
        lemma_outgoing_push(gro::flushed(rest), gro::group_output(table[n].1), k);
        assert(is_of_flow(table[n].0, table[n].1));
        lemma_group_output(table[n].0, table[n].1, k);
        assert(outgoing(gro::flushed(table), k) =~= held(table, k));
    }
}

/// What goes in front of two equal runs of events can be taken into them.
proof fn lemma_in_front(
    front: Seq<FlowEvent>,
    a: Seq<FlowEvent>,
    b: Seq<FlowEvent>,
    c: Seq<FlowEvent>,
    d: Seq<FlowEvent>,
    e: Seq<FlowEvent>,
)
    requires
        a + b + c == d + e,
    ensures
        front + a + b + c == front + d + e,
{
    assert(front + a + b + c =~= front + (a + b + c));
    assert(front + d + e =~= front + (d + e));
}

/// However packets are pushed, every flow stays in order.
proof fn lemma_fed_keeps(packets: Seq<Seq<u8>>, k: TcpFlowKey)
    ensures
        ({
            let (table, sent) = gro::fed(Seq::empty(), packets);
            &&& sorted_by_flow(table)
            &&& outgoing(sent, k) + held(table, k) == incoming(packets, k)
        }),
    decreases packets.len(),
{
    let (table, sent) = gro::fed(Seq::empty(), packets);
    let none = Seq::<FlowEvent>::empty();
    if packets.len() == 0 {
        assert(outgoing(sent, k) + held(table, k) =~= incoming(packets, k));
    } else {
        let p = packets.last();
        let (before, earlier) = gro::fed(Seq::empty(), packets.drop_last());
        let o = gro::pushed(before, p);
        let passed = if o.pass_through {
            packet_events(p, k)
        } else {
            none
        };
        lemma_fed_keeps(packets.drop_last(), k);
        law_push_keeps_every_flow(before, p, k);
        lemma_outgoing_concat(earlier, o.outputs, k);
        lemma_in_front(
            outgoing(earlier, k),
            outgoing(o.outputs, k),
            passed,
            held(o.table, k),
            held(before, k),
            packet_events(p, k),
        );
        let both = earlier + o.outputs;
        if o.pass_through {
            lemma_outgoing_push(both, OutputView::Single(p), k);
        } else {
            assert(outgoing(both, k) + none =~= outgoing(both, k));
        }
        assert(outgoing(sent, k) == outgoing(both, k) + passed);
    }
}

/// Whatever packets are pushed into an empty table, once it is flushed every flow has gone out
/// as it came in: no byte of payload and no packet is lost, repeated or moved ahead of another
/// of its flow.
pub proof fn law_coalescing_keeps_every_flow(packets: Seq<Seq<u8>>, k: TcpFlowKey)
    ensures
        ({
            let (table, sent) = gro::fed(Seq::empty(), packets);
            outgoing(sent + gro::flushed(table), k) == incoming(packets, k)
        }),
{
    let (table, sent) = gro::fed(Seq::empty(), packets);
    lemma_fed_keeps(packets, k);
    lemma_flush_keeps(table, k);
    lemma_outgoing_concat(sent, gro::flushed(table), k);
}

/// Flushing a table takes all that it holds to every flow, in order.
pub proof fn law_flush_sends_what_is_held(table: Pending, k: TcpFlowKey)
    requires
        sorted_by_flow(table),
    ensures
        outgoing(gro::flushed(table), k) == held(table, k),
{
    lemma_flush_keeps(table, k);
}

} // verus!
