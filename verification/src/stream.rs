//! Datagrams of the data path, and frames of the control stream.

use bytes::{Bytes, BytesMut};
use vstd::prelude::*;
use vstd::slice::slice_subrange;
use vstd::string::*;
use crate::buffer;
use crate::buffer::{
    buffer_capacity,
    buffer_extend_from_slice,
    buffer_freeze,
    buffer_len,
    buffer_put_slice,
    buffer_put_u32,
    buffer_put_u8,
    buffer_reserve,
    buffer_split_to,
};
use crate::coalesce;
use crate::segment;
use crate::segment::{collect_offload_packets, Emission};
use crate::signaling;
use crate::signaling::DataMessageType;
use crate::text;
use crate::text::{push_dec, push_hex2};
use crate::virtio::{VirtioNetHdr, VIRTIO_NET_HDR_LEN};
use crate::vpn_error;
use crate::vpn_error::{ErrorKind, VpnError};
use crate::wire;
use crate::wire::read_be32;

verus! {

/// Reserve granularity for the arena packets are copied into before being sent
/// as datagrams. Packets are appended to a long-lived buffer and split off
/// as refcounted pieces, so the allocator is only hit once per chunk instead of
/// once per datagram.
pub const FRAME_ARENA_CHUNK: usize = 64 * 1024;

/// Size of the `u32` big-endian control-frame length prefix.
pub const FRAME_LEN_PREFIX: usize = 4;

/// Maximum control-frame body size (the length the prefix may carry).
///
/// A peer announcing a larger frame is violating the protocol, and since stream framing
/// cannot resynchronize past a corrupt length, the connection is torn down.
pub const MAX_FRAME_BODY: usize = 2 + VIRTIO_NET_HDR_LEN + 65535;

/// A classified inbound control-frame body (a borrowed view into the receive
/// buffer).
#[derive(Debug)]
pub enum Frame<'a> {
    /// Server-published candidate-address message body (everything after the
    /// type byte). Server to client only.
    ServerAddrs(&'a [u8]),
}

/// Outcome of mapping an IP packet to one or more unreliable QUIC datagrams.
#[derive(Debug, Clone, Copy, PartialEq, Eq, Structural)]
pub struct DatagramSendOutcome {
    /// Datagrams successfully queued for sending.
    pub sent: u64,
    /// Packets dropped because they exceed the connection's current max
    /// datagram size (path-MTU capped).
    pub dropped_too_large: u64,
    /// Packets dropped for any other reason (send buffer full, peer disabled
    /// datagrams, connection lost, or an un-segmentable offload frame).
    pub dropped_other: u64,
}

/// Nothing sent and nothing dropped.
pub open spec fn no_outcome() -> DatagramSendOutcome {
    DatagramSendOutcome { sent: 0, dropped_too_large: 0, dropped_other: 0 }
}

impl Default for DatagramSendOutcome {
    fn default() -> (o: Self)
        ensures
            o == no_outcome(),
    {
        DatagramSendOutcome { sent: 0, dropped_too_large: 0, dropped_other: 0 }
    }
}

/// How sending one datagram went.
#[derive(Debug, Clone, Copy, PartialEq, Eq, Structural)]
pub enum SendResult {
    Sent,
    TooLarge,
    Failed,
}

impl DatagramSendOutcome {
    /// Fold another outcome into this one.
    pub fn add(&mut self, other: DatagramSendOutcome)
        requires
            old(self).sent + other.sent <= u64::MAX,
            old(self).dropped_too_large + other.dropped_too_large <= u64::MAX,
            old(self).dropped_other + other.dropped_other <= u64::MAX,
        ensures
            final(self).sent == old(self).sent + other.sent,
            final(self).dropped_too_large == old(self).dropped_too_large + other.dropped_too_large,
            final(self).dropped_other == old(self).dropped_other + other.dropped_other,
    {
        self.sent = self.sent + other.sent;
        self.dropped_too_large = self.dropped_too_large + other.dropped_too_large;
        self.dropped_other = self.dropped_other + other.dropped_other;
    }

    /// Count the result of sending one datagram.
    pub fn record(&mut self, result: SendResult)
        requires
            old(self).sent < u64::MAX,
            old(self).dropped_too_large < u64::MAX,
            old(self).dropped_other < u64::MAX,
        ensures
            *final(self) == (match result {
                SendResult::Sent => DatagramSendOutcome {
                    sent: (old(self).sent + 1) as u64,
                    ..*old(self)
                },
                SendResult::TooLarge => DatagramSendOutcome {
                    dropped_too_large: (old(self).dropped_too_large + 1) as u64,
                    ..*old(self)
                },
                SendResult::Failed => DatagramSendOutcome {
                    dropped_other: (old(self).dropped_other + 1) as u64,
                    ..*old(self)
                },
            }),
    {
        match result {
            SendResult::Sent => {
                self.sent = self.sent + 1;
            },
            SendResult::TooLarge => {
                self.dropped_too_large = self.dropped_too_large + 1;
            },
            SendResult::Failed => {
                self.dropped_other = self.dropped_other + 1;
            },
        }
    }
}

/// Copy a packet out of a (reused) receive buffer into a long-lived arena and
/// hand it out as a refcounted `Bytes`.
///
/// The arena must be empty on entry, since what is handed out is taken from the front. It
/// is empty again afterwards.
pub fn copy_packet_to_arena(arena: &mut BytesMut, packet: &[u8]) -> (r: Bytes)
    requires
        buffer::buffer_content(*old(arena)).len() == 0,
        packet@.len() <= isize::MAX,
    ensures
        buffer::bytes_content(r) == packet@,
        buffer::buffer_content(*final(arena)) == Seq::<u8>::empty(),
{
    if buffer_capacity(arena) - buffer_len(arena) < packet.len() {
        let room: usize = if packet.len() > FRAME_ARENA_CHUNK {
            packet.len()
        } else {
            FRAME_ARENA_CHUNK
        };
        buffer_reserve(arena, room);
    }
    buffer_extend_from_slice(arena, packet);
    assert(buffer::buffer_content(*arena) =~= packet@);
    let piece = buffer_split_to(arena, packet.len());
    assert(packet@.take(packet@.len() as int) =~= packet@);
    assert(packet@.skip(packet@.len() as int) =~= Seq::<u8>::empty());
    buffer_freeze(piece)
}

/// What becomes of a packet when the connection takes datagrams of at most `limit` bytes,
/// or none at all.
pub open spec fn verdict(limit: Option<usize>, len: nat) -> SendResult {
    match limit {
        Some(max) => if len <= max {
            SendResult::Sent
        } else {
            SendResult::TooLarge
        },
        None => SendResult::Failed,
    }
}

/// What is left of packets that were held against limits.
pub struct Prepared {
    pub kept: Seq<Seq<u8>>,
    pub too_large: nat,
    pub other: nat,
}

/// Packets held against the limits that were in force when their turn came.
pub open spec fn prepared(packets: Seq<Seq<u8>>, limits: Seq<Option<usize>>) -> Prepared
    decreases packets.len(),
{
    if packets.len() == 0 {
        Prepared { kept: Seq::empty(), too_large: 0, other: 0 }
    } else {
        let r = prepared(packets.drop_last(), limits.drop_last());
        match verdict(limits.last(), packets.last().len()) {
            SendResult::Sent => Prepared { kept: r.kept.push(packets.last()), ..r },
            SendResult::TooLarge => Prepared { too_large: r.too_large + 1, ..r },
            SendResult::Failed => Prepared { other: r.other + 1, ..r },
        }
    }
}

/// The plain packets that a TUN packet stands for.
pub open spec fn datagram_packets(offload: Option<VirtioNetHdr>, packet: Seq<u8>) -> Emission {
    match offload {
        Some(h) => segment::plain_emission(h, packet),
        None => segment::emit_one(packet),
    }
}

/// The packets of `e` were held against the answers `limits`: `kept` is what is ready to be
/// sent, and the outcome counts the rest, and the error of `e` if it has one.
pub open spec fn held_against(
    e: Emission,
    limits: Seq<Option<usize>>,
    kept: Seq<Seq<u8>>,
    before: DatagramSendOutcome,
    after: DatagramSendOutcome,
) -> bool {
    let p = prepared(e.packets, limits);
    let refused: int = if e.error is Some {
        1
    } else {
        0
    };
    &&& limits.len() == e.packets.len()
    &&& kept == p.kept
    &&& after.sent == before.sent
    &&& after.dropped_too_large == before.dropped_too_large + p.too_large
    &&& after.dropped_other == before.dropped_other + p.other + refused
}

/// The packets of `e` were held against the limits that `max_datagram_size` answered, one
/// answer for each.
pub open spec fn datagrams_prepared<L>(
    max_datagram_size: L,
    e: Emission,
    kept: Seq<Seq<u8>>,
    before: DatagramSendOutcome,
    after: DatagramSendOutcome,
) -> bool where L: Fn() -> Option<usize> {
    exists|limits: Seq<Option<usize>>|
        #[trigger] held_against(e, limits, kept, before, after) && (forall|k: int|
            0 <= k < limits.len() ==> call_ensures(max_datagram_size, (), #[trigger] limits[k]))
}

/// Prepare a single plain IP packet for datagram transmission.
///
/// Datagrams are capped by the live path MTU; an oversized packet is dropped
/// (not fragmented) so that the flow inside can adapt.
pub fn prepare_one_datagram(
    max_datagram_size: Option<usize>,
    arena: &mut BytesMut,
    packet: &[u8],
    pending: &mut Vec<Bytes>,
    outcome: &mut DatagramSendOutcome,
)
    requires
        buffer::buffer_content(*old(arena)).len() == 0,
        packet@.len() <= isize::MAX,
        old(outcome).dropped_too_large < u64::MAX,
        old(outcome).dropped_other < u64::MAX,
    ensures
        buffer::buffer_content(*final(arena)).len() == 0,
        final(outcome).sent == old(outcome).sent,
        match verdict(max_datagram_size, packet@.len()) {
            SendResult::Sent => {
                &&& coalesce::packets_of(final(pending)@) == coalesce::packets_of(
                    old(pending)@,
                ).push(packet@)
                &&& *final(outcome) == *old(outcome)
            },
            SendResult::TooLarge => {
                &&& final(pending)@ == old(pending)@
                &&& final(outcome).dropped_too_large == old(outcome).dropped_too_large + 1
                &&& final(outcome).dropped_other == old(outcome).dropped_other
            },
            SendResult::Failed => {
                &&& final(pending)@ == old(pending)@
                &&& final(outcome).dropped_too_large == old(outcome).dropped_too_large
                &&& final(outcome).dropped_other == old(outcome).dropped_other + 1
            },
        },
{
    match max_datagram_size {
        Some(max) => {
            if packet.len() > max {
                outcome.dropped_too_large = outcome.dropped_too_large + 1;
                return ;
            }
        },
        None => {
            outcome.dropped_other = outcome.dropped_other + 1;
            return ;
        },
    }
    let datagram = copy_packet_to_arena(arena, packet);
    pending.push(datagram);
    assert(coalesce::packets_of(pending@) =~= coalesce::packets_of(old(pending)@).push(packet@));
}

/// Materialize a TUN packet into plain datagrams without sending them.
///
/// `max_datagram_size` is asked once for each datagram, since the limit follows the path.
pub fn prepare_ip_datagrams<L>(
    max_datagram_size: L,
    arena: &mut BytesMut,
    pending: &mut Vec<Bytes>,
    offload: Option<&VirtioNetHdr>,
    packet: &[u8],
    outcome: &mut DatagramSendOutcome,
) where L: Fn() -> Option<usize>
    requires
        call_requires(max_datagram_size, ()),
        buffer::buffer_content(*old(arena)).len() == 0,
        packet@.len() <= isize::MAX,
        old(outcome).dropped_too_large + packet@.len() + 2 <= u64::MAX,
        old(outcome).dropped_other + packet@.len() + 2 <= u64::MAX,
    ensures
        buffer::buffer_content(*final(arena)).len() == 0,
        datagrams_prepared(
            max_datagram_size,
            datagram_packets(
                (match offload {
                    Some(h) => Some(*h),
                    None => None,
                }),
                packet@,
            ),
            coalesce::packets_of(final(pending)@),
            *old(outcome),
            *final(outcome),
        ),
{
    let ghost e = datagram_packets(
        (match offload {
            Some(h) => Some(*h),
            None => None,
        }),
        packet@,
    );
    let ghost before = *outcome;
    pending.clear();
    let mut plain: Vec<Vec<u8>> = Vec::new();
    let mut refused: bool = false;
    assert(wire::contents(plain@) + e.packets =~= e.packets);
    match offload {
        Some(meta) => {
            match collect_offload_packets(meta, packet, &mut plain) {
                Ok(()) => {},
                Err(_) => {
                    refused = true;
                },
            }
        },
        None => {
            plain.push(vstd::slice::slice_to_vec(packet));
            assert(wire::contents(plain@) =~= e.packets);
        },
    }
    proof {
        lemma_datagram_bounds(
            (match offload {
                Some(h) => Some(*h),
                None => None,
            }),
            packet@,
        );
    }
    let ghost mut limits = Seq::<Option<usize>>::empty();
    let mut i: usize = 0;
    assert(e.packets.take(0) =~= Seq::<Seq<u8>>::empty());
    assert(coalesce::packets_of(pending@) =~= Seq::<Seq<u8>>::empty());
    while i < plain.len()
        invariant
            wire::contents(plain@) == e.packets,
            before == *old(outcome),
            i <= plain@.len(),
            limits.len() == i,
            call_requires(max_datagram_size, ()),
            forall|k: int|
                0 <= k < limits.len() ==> call_ensures(
                    max_datagram_size,
                    (),
                    #[trigger] limits[k],
                ),
            forall|k: int|
                0 <= k < e.packets.len() ==> (#[trigger] e.packets[k]).len() <= isize::MAX,
            buffer::buffer_content(*arena).len() == 0,
            e.packets.len() <= packet@.len() + 1,
            before.dropped_too_large + packet@.len() + 2 <= u64::MAX,
            before.dropped_other + packet@.len() + 2 <= u64::MAX,
            prepared(e.packets.take(i as int), limits).too_large <= i,
            prepared(e.packets.take(i as int), limits).other <= i,
            coalesce::packets_of(pending@) == prepared(e.packets.take(i as int), limits).kept,
            outcome.sent == before.sent,
            outcome.dropped_too_large == before.dropped_too_large + prepared(
                e.packets.take(i as int),
                limits,
            ).too_large,
            outcome.dropped_other == before.dropped_other + prepared(
                e.packets.take(i as int),
                limits,
            ).other,
        decreases plain@.len() - i,
    {
        let limit = max_datagram_size();
        let one = plain[i].as_slice();
        assert(one@ == e.packets[i as int]);
        prepare_one_datagram(limit, arena, one, pending, outcome);
        proof {
            let more = limits.push(limit);
            assert(e.packets.take(i + 1).drop_last() =~= e.packets.take(i as int));
            assert(more.drop_last() =~= limits);
            assert(e.packets.take(i + 1).last() == one@);
            assert forall|k: int| 0 <= k < more.len() implies call_ensures(
                max_datagram_size,
                (),
                #[trigger] more[k],
            ) by {
                if k < limits.len() {
                    assert(more[k] == limits[k]);
                }
            }
            limits = more;
        }
        i = i + 1;
    }
    if refused {
        outcome.dropped_other = outcome.dropped_other + 1;
    }
    assert(e.packets.take(i as int) =~= e.packets);
    assert(held_against(e, limits, coalesce::packets_of(pending@), before, *outcome));
}

/// The segments of a packet are no longer than the packet, and no more than its bytes.
pub proof fn lemma_segment_bounds(l: segment::GsoLayout, p: Seq<u8>, offset: int)
    requires
        l.fits(p.len()),
        0 <= offset,
    ensures
        segment::segments_from(l, p, offset).packets.len() <= (if offset < p.len() - l.header_len {
            p.len() - l.header_len - offset
        } else {
            0
        }),
        forall|k: int|
            0 <= k < segment::segments_from(l, p, offset).packets.len() ==> (
            #[trigger] segment::segments_from(l, p, offset).packets[k]).len() <= p.len(),
    decreases
            (if offset < p.len() - l.header_len {
                p.len() - l.header_len - offset
            } else {
                0
            }),
{
    if offset < p.len() - l.header_len && segment::segment_at(l, p, offset) is Ok {
        reveal(segment::segment_sealed);
        let s = segment::segment_at(l, p, offset)->Ok_0;
        let rest = segment::segments_from(l, p, offset + l.gso_size);
        lemma_segment_bounds(l, p, offset + l.gso_size);
        assert(segment::segments_from(l, p, offset).packets == seq![s] + rest.packets);
        assert(s.len() == segment::segment_draft(l, p, offset).len());
        assert forall|k: int| 0 <= k < 1 + rest.packets.len() implies (#[trigger] (seq![s]
            + rest.packets)[k]).len() <= p.len() by {
            if k > 0 {
                assert((seq![s] + rest.packets)[k] == rest.packets[k - 1]);
            }
        }
    }
}

/// The datagrams of a packet are no longer than the packet, and no more than its bytes.
proof fn lemma_datagram_bounds(offload: Option<VirtioNetHdr>, p: Seq<u8>)
    ensures
        datagram_packets(offload, p).packets.len() <= p.len() + 1,
        forall|k: int|
            0 <= k < datagram_packets(offload, p).packets.len() ==> (#[trigger] datagram_packets(
                offload,
                p,
            ).packets[k]).len() <= p.len(),
{
    if offload is Some && offload->0.tcp_gso() && segment::gso_layout(offload->0, p) is Ok {
        let l = segment::gso_layout(offload->0, p)->Ok_0;
        assert(l.fits(p.len()));
        lemma_segment_bounds(l, p, 0);
    }
}

/// The message of a control-frame body, or why it has none.
pub open spec fn framed_message(body: Seq<u8>) -> Result<Seq<u8>, Seq<char>> {
    if body.len() == 0 {
        Err("Empty frame body"@)
    } else if signaling::message_type_of(body[0]) == Some(DataMessageType::ServerAddrs) {
        Ok(body.skip(1))
    } else {
        Err("Unknown frame message type: 0x"@ + text::hex2(body[0]))
    }
}

/// Classify a control-frame body by its leading message-type byte.
pub fn classify(body: &[u8]) -> (r: Result<Frame<'_>, VpnError>)
    ensures
        match framed_message(body@) {
            Ok(message) => r is Ok && r->Ok_0->ServerAddrs_0@ == message,
            Err(m) => vpn_error::fails(r, ErrorKind::Signaling, m),
        },
{
    if body.len() == 0 {
        return Err(VpnError::Signaling("Empty frame body".to_owned()));
    }
    match DataMessageType::from_byte(body[0]) {
        Some(DataMessageType::ServerAddrs) => {
            let rest = slice_subrange(body, 1, body.len());
            assert(rest@ =~= body@.skip(1));
            Ok(Frame::ServerAddrs(rest))
        },
        // Packets travel as datagrams, never on the control stream.
        _ => {
            let mut m = "Unknown frame message type: 0x".to_owned();
            push_hex2(&mut m, body[0]);
            Err(VpnError::Signaling(m))
        },
    }
}

/// A server-addresses frame: its length, its type, and the encoded message.
pub open spec fn server_addrs_frame(message: Seq<u8>) -> Seq<u8> {
    wire::be32_bytes((1 + message.len()) as u32).push(
        signaling::message_type_byte(DataMessageType::ServerAddrs),
    ) + message
}

/// Append a server-addresses frame to `buf` (arena-style) and return the
/// number of bytes written. `message` is the encoded message. Layout: `[len: u32 BE]
/// [type: 0x01] [message]`.
pub fn encode_server_addrs_frame(buf: &mut BytesMut, message: &[u8]) -> (r: Result<usize, VpnError>)
    requires
        1 + message@.len() <= MAX_FRAME_BODY ==> buffer::buffer_content(*old(buf)).len()
            + FRAME_LEN_PREFIX + 1 + message@.len() <= isize::MAX,
        message@.len() < usize::MAX,
    ensures
        1 + message@.len() <= MAX_FRAME_BODY ==> {
            &&& r is Ok
            &&& r->Ok_0 == FRAME_LEN_PREFIX + 1 + message@.len()
            &&& buffer::buffer_content(*final(buf)) == buffer::buffer_content(*old(buf))
                + server_addrs_frame(message@)
        },
        1 + message@.len() > MAX_FRAME_BODY ==> {
            &&& vpn_error::fails(
                r,
                ErrorKind::Signaling,
                "Server addrs frame too large: "@ + text::dec(1 + message@.len()) + " > 65547"@,
            )
            &&& *final(buf) == *old(buf)
        },
{
    let body_len: usize = 1 + message.len();
    if body_len > MAX_FRAME_BODY {
        let mut m = "Server addrs frame too large: ".to_owned();
        push_dec(&mut m, body_len as u64);
        m.append(" > 65547");
        return Err(VpnError::Signaling(m));
    }
    let total: usize = FRAME_LEN_PREFIX + body_len;
    buffer_reserve(buf, total);
    buffer_put_u32(buf, body_len as u32);
    buffer_put_u8(buf, DataMessageType::ServerAddrs.as_byte());
    buffer_put_slice(buf, message);
    assert(buffer::buffer_content(*buf) =~= buffer::buffer_content(*old(buf))
        + server_addrs_frame(message@));
    Ok(total)
}

/// The length of the body that a prefix announces, if a frame can have it.
pub open spec fn body_len(prefix: Seq<u8>) -> Option<nat> {
    if 0 < wire::be32_at(prefix, 0) <= MAX_FRAME_BODY {
        Some(wire::be32_at(prefix, 0) as nat)
    } else {
        None
    }
}

/// Reads the length in front of a control frame, and refuses one that is empty or too long.
pub fn frame_body_len(prefix: &[u8]) -> (r: Result<usize, VpnError>)
    requires
        prefix@.len() == FRAME_LEN_PREFIX,
    ensures
        0 < wire::be32_at(prefix@, 0) <= MAX_FRAME_BODY ==> r is Ok && r->Ok_0 == wire::be32_at(
            prefix@,
            0,
        ),
        match body_len(prefix@) {
            Some(n) => r is Ok && r->Ok_0 == n,
            None => r is Err,
        },
        !(0 < wire::be32_at(prefix@, 0) <= MAX_FRAME_BODY) ==> vpn_error::fails(
            r,
            ErrorKind::Signaling,
            "Invalid frame length "@ + text::dec(wire::be32_at(prefix@, 0) as nat)
                + " (max 65547)"@,
        ),
{
    let len: u32 = read_be32(prefix, 0);
    if len == 0 || len as u64 > MAX_FRAME_BODY as u64 {
        let mut m = "Invalid frame length ".to_owned();
        push_dec(&mut m, len as u64);
        m.append(" (max 65547)");
        return Err(VpnError::Signaling(m));
    }
    Ok(len as usize)
}

/// A server-addresses frame announces the length of what follows, which is accepted and
/// classified as the message that was framed, whatever stands in the buffer before it.
pub proof fn law_server_addrs_frame_round_trip(before: Seq<u8>, message: Seq<u8>)
    requires
        1 + message.len() <= MAX_FRAME_BODY,
    ensures
        ({
            let f = server_addrs_frame(message);
            let body = f.skip(FRAME_LEN_PREFIX as int);
            &&& f.len() == FRAME_LEN_PREFIX + 1 + message.len()
            &&& wire::be32_at(f, 0) == body.len()
            &&& 0 < wire::be32_at(f, 0) <= MAX_FRAME_BODY
            &&& framed_message(body) == Ok::<Seq<u8>, Seq<char>>(message)
            &&& (before + f).skip(before.len() as int) == f
            &&& (before + f).skip(before.len() + FRAME_LEN_PREFIX) == body
        }),
{
    let n = (1 + message.len()) as u32;
    let f = server_addrs_frame(message);
    let rest = seq![signaling::message_type_byte(DataMessageType::ServerAddrs)] + message;
    assert(f =~= wire::be32_bytes(n) + rest);
    signaling::law_message_length_round_trip(n, rest);
    assert(f.skip(4) =~= rest);
    assert(rest.skip(1) =~= message);
    assert((before + f).skip(before.len() as int) =~= f);
    assert((before + f).skip(before.len() + FRAME_LEN_PREFIX) =~= f.skip(4));
}

/// A packet is sent exactly if it is no longer than the connection takes, is too large exactly if
/// it is longer, and fails where the connection takes no datagrams.
pub proof fn law_limits_decide(limit: Option<usize>, len: nat)
    ensures
        verdict(limit, len) is Sent <==> limit is Some && len <= limit->0,
        verdict(limit, len) is TooLarge <==> limit is Some && len > limit->0,
        verdict(limit, len) is Failed <==> limit is None,
{
}

/// Every packet is either kept or counted, and what is kept stays in order: packets that follow
/// others add to what those leave.
pub proof fn law_every_packet_is_accounted_for(
    a: Seq<Seq<u8>>,
    la: Seq<Option<usize>>,
    b: Seq<Seq<u8>>,
    lb: Seq<Option<usize>>,
)
    requires
        a.len() == la.len(),
        b.len() == lb.len(),
    ensures
        ({
            let x = prepared(a, la);
            let y = prepared(b, lb);
            let z = prepared(a + b, la + lb);
            &&& x.kept.len() + x.too_large + x.other == a.len()
            &&& z.kept == x.kept + y.kept
            &&& z.too_large == x.too_large + y.too_large
            &&& z.other == x.other + y.other
            &&& x.too_large >= 0 && x.other >= 0
        }),
    decreases a.len() + b.len(),
{
    if b.len() == 0 {
        assert(a + b =~= a);
        assert(la + lb =~= la);
        assert(prepared(a, la).kept + prepared(b, lb).kept =~= prepared(a, la).kept);
        if a.len() > 0 {
            law_every_packet_is_accounted_for(a.drop_last(), la.drop_last(), b, lb);
        }
    } else {
        assert((a + b).drop_last() =~= a + b.drop_last());
        assert((la + lb).drop_last() =~= la + lb.drop_last());
        law_every_packet_is_accounted_for(a, la, b.drop_last(), lb.drop_last());
        assert(prepared(a + b, la + lb).kept =~= prepared(a, la).kept + prepared(b, lb).kept);
    }
}

/// A packet is no longer than the connection takes.
pub open spec fn is_taken(packet: Seq<u8>, limit: Option<usize>) -> bool {
    limit is Some && packet.len() <= limit->0
}

/// Packets that all fit a connection are all kept, as they are.
pub proof fn law_fitting_packets_are_kept(packets: Seq<Seq<u8>>, limits: Seq<Option<usize>>)
    requires
        packets.len() == limits.len(),
        forall|k: int| 0 <= k < packets.len() ==> #[trigger] is_taken(packets[k], limits[k]),
    ensures
        prepared(packets, limits).kept == packets,
        prepared(packets, limits).too_large == 0,
        prepared(packets, limits).other == 0,
    decreases packets.len(),
{
    if packets.len() > 0 {
        let n = packets.len() - 1;
        let p = packets.drop_last();
        let l = limits.drop_last();
        assert forall|k: int| 0 <= k < p.len() implies #[trigger] is_taken(p[k], l[k]) by {
            assert(is_taken(packets[k], limits[k]));
        }
        law_fitting_packets_are_kept(p, l);
        assert(is_taken(packets[n], limits[n]));
        assert(p.push(packets.last()) =~= packets);
    }
    assert(prepared(packets, limits).kept =~= packets);
}

/// Every packet that an offloaded packet stands for is kept or counted, and so is the failure to
/// turn it into plain packets; a packet without metadata stands for itself.
pub proof fn law_outcome_adds_up(
    offload: Option<VirtioNetHdr>,
    packet: Seq<u8>,
    limits: Seq<Option<usize>>,
    kept: Seq<Seq<u8>>,
    before: DatagramSendOutcome,
    after: DatagramSendOutcome,
)
    requires
        held_against(datagram_packets(offload, packet), limits, kept, before, after),
    ensures
        ({
            let e = datagram_packets(offload, packet);
            let lost: int = if e.error is Some {
                1
            } else {
                0
            };
            &&& kept.len() + (after.dropped_too_large - before.dropped_too_large) + (
            after.dropped_other - before.dropped_other) == e.packets.len() + lost
            &&& after.sent == before.sent
            &&& offload is None ==> e.packets == seq![packet] && e.error is None
            &&& offload is Some ==> e == segment::plain_emission(offload->0, packet)
        }),
{
    let e = datagram_packets(offload, packet);
    law_every_packet_is_accounted_for(e.packets, limits, Seq::empty(), Seq::empty());
}

/// A frame with the server's addresses is its length in four bytes, a one, and the message; the
/// body of a frame is taken exactly if it starts with that one.
pub proof fn law_frames_are_read(body: Seq<u8>, message: Seq<u8>)
    requires
        1 + message.len() <= u32::MAX,
    ensures
        framed_message(body) is Ok <==> body.len() > 0 && body[0] == 1,
        framed_message(body) matches Ok(m) ==> m == body.skip(1),
        ({
            let f = server_addrs_frame(message);
            &&& f.len() == 5 + message.len()
            &&& f[0] * 0x100_0000 + f[1] * 0x1_0000 + f[2] * 0x100 + f[3] == 1 + message.len()
            &&& f[4] == 1
            &&& f.skip(5) == message
        }),
{
    let f = server_addrs_frame(message);
    assert(f.skip(5) =~= message);
}

/// A frame with the server's addresses is announced with the length of its body, unless that is
/// more than a frame can have; an empty body is never announced.
pub proof fn law_announced_frames_are_taken(message: Seq<u8>, prefix: Seq<u8>)
    requires
        1 + message.len() <= u32::MAX,
    ensures
        ({
            let f = server_addrs_frame(message);
            let n = body_len(f.take(4));
            &&& 1 + message.len() <= 65547 ==> n == Some((f.len() - 4) as nat)
            &&& 1 + message.len() > 65547 ==> n is None
        }),
        body_len(prefix) matches Some(n) ==> 1 <= n <= 65547,
{
    let f = server_addrs_frame(message);
    law_frames_are_read(message, message);
    assert(wire::be32_at(f.take(4), 0) == 1 + message.len());
}

} // verus!
