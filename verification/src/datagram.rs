//! The messages of the data channel, one to a QUIC datagram.
//!
//! The datagram boundary is the message length. The leading byte is the message type and the
//! rest depends on it:
//! - IP packet: `[0x00] [offload_len: 1] [offload: 0|10] [ip_packet]`
//! - server addresses: `[0x01] [message]`

use bytes::{Bytes, BytesMut};
use vstd::prelude::*;
use vstd::string::*;
use crate::buffer;
use crate::buffer::{
    buffer_extend_from_slice, buffer_freeze, buffer_len, buffer_put_u8, buffer_split_to,
    bytes_as_slice, bytes_slice_from,
};
use crate::cut;
use crate::cut::{capped_of, cut_header_of};
use crate::error;
use crate::error::OffloadError;
use crate::gro;
use crate::gro::CoalescedOutput;
use crate::segment;
use crate::segment::{
    collect_offload_packets, collect_tcp_gso_segments, complete_checksum_offload_packet,
};
use crate::signaling;
use crate::signaling::{parse_ip_packet_v2, DataMessageType};
use crate::stream;
use crate::stream::copy_packet_to_arena;
use crate::text;
use crate::text::push_hex2;
use crate::virtio;
use crate::virtio::{VirtioNetHdr, VIRTIO_NET_HDR_GSO_NONE, VIRTIO_NET_HDR_LEN};
use crate::vpn_error;
use crate::vpn_error::{ErrorKind, VpnError};
use crate::wire;

verus! {

/// The bytes of offload metadata, behind their length.
pub open spec fn offload_field(offload: Option<VirtioNetHdr>) -> Seq<u8> {
    match offload {
        Some(h) => seq![VIRTIO_NET_HDR_LEN as u8] + h.wire_bytes(),
        None => seq![0u8],
    }
}

/// The datagram that carries a packet.
pub open spec fn ip_datagram(offload: Option<VirtioNetHdr>, packet: Seq<u8>) -> Seq<u8> {
    seq![signaling::message_type_byte(DataMessageType::IpPacket)] + offload_field(offload) + packet
}

/// What a datagram is, by its leading byte.
#[derive(Debug)]
pub enum Datagram<'a> {
    /// An IP packet, behind its offload metadata.
    Ip(&'a [u8]),
    /// The server's addresses.
    ServerAddrs(&'a [u8]),
}

/// Why a datagram cannot be told, if it cannot.
pub open spec fn datagram_refusal(d: Seq<u8>) -> Option<Seq<char>> {
    if d.len() == 0 {
        Some("Empty datagram"@)
    } else if signaling::message_type_of(d[0]) is None {
        Some("Unknown datagram message type: 0x"@ + text::hex2(d[0]))
    } else {
        None
    }
}

/// Tells a datagram by its leading byte.
pub fn classify(dgram: &[u8]) -> (r: Result<Datagram<'_>, VpnError>)
    ensures
        match datagram_refusal(dgram@) {
            Some(m) => vpn_error::fails(r, ErrorKind::Signaling, m),
            None => {
                &&& r is Ok
                &&& match signaling::message_type_of(dgram@[0])->0 {
                    DataMessageType::IpPacket => r->Ok_0 is Ip && r->Ok_0->Ip_0@ == dgram@.skip(1),
                    DataMessageType::ServerAddrs => r->Ok_0 is ServerAddrs
                        && r->Ok_0->ServerAddrs_0@ == dgram@.skip(1),
                }
            },
        },
{
    if dgram.len() == 0 {
        return Err(VpnError::Signaling("Empty datagram".to_owned()));
    }
    let rest = vstd::slice::slice_subrange(dgram, 1, dgram.len());
    assert(rest@ =~= dgram@.skip(1));
    match DataMessageType::from_byte(dgram[0]) {
        Some(DataMessageType::IpPacket) => Ok(Datagram::Ip(rest)),
        Some(DataMessageType::ServerAddrs) => Ok(Datagram::ServerAddrs(rest)),
        None => {
            let mut m = "Unknown datagram message type: 0x".to_owned();
            push_hex2(&mut m, dgram[0]);
            Err(VpnError::Signaling(m))
        },
    }
}

/// Frames a packet. The arena must be empty on entry, since the datagram is taken from its
/// front; it is empty again afterwards.
fn frame_ip_datagram(
    arena: &mut BytesMut,
    offload: Option<VirtioNetHdr>,
    packet: &[u8],
) -> (r: Bytes)
    requires
        buffer::buffer_content(*old(arena)).len() == 0,
        packet@.len() + 2 + VIRTIO_NET_HDR_LEN <= isize::MAX,
    ensures
        buffer::bytes_content(r) == ip_datagram(offload, packet@),
        buffer::buffer_content(*final(arena)).len() == 0,
{
    buffer_put_u8(arena, DataMessageType::IpPacket.as_byte());
    match offload {
        Some(h) => {
            buffer_put_u8(arena, VIRTIO_NET_HDR_LEN as u8);
            let bytes = h.to_bytes();
            buffer_extend_from_slice(arena, bytes.as_slice());
        },
        None => {
            buffer_put_u8(arena, 0);
        },
    }
    buffer_extend_from_slice(arena, packet);
    let ghost whole = buffer::buffer_content(*arena);
    assert(whole =~= ip_datagram(offload, packet@));
    let n: usize = buffer_len(arena);
    let piece = buffer_split_to(arena, n);
    assert(whole.take(n as int) =~= whole);
    buffer_freeze(piece)
}

/// The contents of a list of datagrams.
pub open spec fn datagrams(v: Seq<Bytes>) -> Seq<Seq<u8>> {
    v.map_values(|b: Bytes| buffer::bytes_content(b))
}

/// Each packet in a datagram of its own, without metadata.
pub open spec fn plain_datagrams(packets: Seq<Seq<u8>>) -> Seq<Seq<u8>> {
    packets.map_values(|p: Seq<u8>| ip_datagram(None, p))
}

/// The packet goes out with its metadata: the peer takes it, and it fits a datagram.
pub open spec fn sent_whole(packet: Seq<u8>, gso_active: bool, max_datagram_size: usize) -> bool {
    gso_active && packet.len() + 2 + VIRTIO_NET_HDR_LEN <= max_datagram_size
}

/// The plain packets that a packet goes out as when it does not go out whole.
///
/// A packet with segmentation metadata is segmented, into segments that fit a datagram. Any
/// other packet has its checksum completed where the metadata asks for it, and is cut if it is
/// a TCP packet that does not fit.
pub open spec fn plain_parts(
    offload: Option<VirtioNetHdr>,
    packet: Seq<u8>,
    max_datagram_size: usize,
) -> Result<Seq<Seq<u8>>, OffloadError> {
    match offload {
        None => Ok(cut::fitted(packet, max_datagram_size)),
        Some(h) => if h.tcp_gso() {
            let e = segment::gso_emission(cut::capped(h, max_datagram_size), packet);
            match e.error {
                Some(x) => Err(x),
                None => Ok(e.packets),
            }
        } else {
            let e = segment::plain_emission(h, packet);
            match e.error {
                Some(x) => Err(x),
                None => Ok(cut::fitted(e.packets[0], max_datagram_size)),
            }
        },
    }
}

/// The datagrams of a packet, or why there are none.
pub open spec fn datagrams_of(
    offload: Option<VirtioNetHdr>,
    packet: Seq<u8>,
    gso_active: bool,
    max_datagram_size: usize,
) -> Result<Seq<Seq<u8>>, OffloadError> {
    if offload is Some && sent_whole(packet, gso_active, max_datagram_size) {
        Ok(seq![ip_datagram(offload, packet)])
    } else {
        match plain_parts(offload, packet, max_datagram_size) {
            Err(e) => Err(e),
            Ok(packets) => Ok(plain_datagrams(packets)),
        }
    }
}

/// The plain packets of an offloaded packet are no longer than it.
proof fn lemma_plain_packets_fit(h: VirtioNetHdr, p: Seq<u8>)
    ensures
        forall|k: int|
            0 <= k < segment::plain_emission(h, p).packets.len() ==> (#[trigger] segment::plain_emission(
                h,
                p,
            ).packets[k]).len() <= p.len(),
{
    if h.tcp_gso() && segment::gso_layout(h, p) is Ok {
        let l = segment::gso_layout(h, p)->Ok_0;
        assert(l.fits(p.len()));
        stream::lemma_segment_bounds(l, p, 0);
    }
}

/// Frames packets one by one, and adds the datagrams to `pending`.
fn frame_packets(arena: &mut BytesMut, pending: &mut Vec<Bytes>, packets: &Vec<Vec<u8>>)
    requires
        buffer::buffer_content(*old(arena)).len() == 0,
        forall|k: int|
            0 <= k < packets@.len() ==> (#[trigger] wire::contents(packets@)[k]).len() + 2
                + VIRTIO_NET_HDR_LEN <= isize::MAX,
    ensures
        buffer::buffer_content(*final(arena)).len() == 0,
        datagrams(final(pending)@) == datagrams(old(pending)@) + plain_datagrams(
            wire::contents(packets@),
        ),
{
    let ghost before = pending@;
    let ghost all = wire::contents(packets@);
    let mut i: usize = 0;
    assert(datagrams(pending@) =~= datagrams(before) + plain_datagrams(all.take(0)));
    while i < packets.len()
        invariant
            i <= packets@.len(),
            all == wire::contents(packets@),
            forall|k: int|
                0 <= k < packets@.len() ==> (#[trigger] wire::contents(packets@)[k]).len() + 2
                    + VIRTIO_NET_HDR_LEN <= isize::MAX,
            buffer::buffer_content(*arena).len() == 0,
            datagrams(pending@) == datagrams(before) + plain_datagrams(all.take(i as int)),
        decreases packets@.len() - i,
    {
        assert(packets@[i as int]@ == wire::contents(packets@)[i as int]);
        let ghost sent = pending@;
        let d = frame_ip_datagram(arena, None, packets[i].as_slice());
        pending.push(d);
        proof {
            assert(datagrams(pending@) =~= datagrams(sent).push(ip_datagram(None, all[i as int])));
            assert(plain_datagrams(all.take(i + 1)) =~= plain_datagrams(all.take(i as int)).push(
                ip_datagram(None, all[i as int]),
            ));
            assert(datagrams(pending@) =~= datagrams(before) + plain_datagrams(all.take(i + 1)));
        }
        i += 1;
    }
    assert(all.take(i as int) =~= all);
}

/// Frames a plain packet, cut if it has to be, and adds the datagrams to `pending`.
fn frame_fitting(
    arena: &mut BytesMut,
    pending: &mut Vec<Bytes>,
    packet: &[u8],
    max_datagram_size: usize,
)
    requires
        buffer::buffer_content(*old(arena)).len() == 0,
        packet@.len() + 2 + VIRTIO_NET_HDR_LEN <= isize::MAX,
    ensures
        buffer::buffer_content(*final(arena)).len() == 0,
        datagrams(final(pending)@) == datagrams(old(pending)@) + plain_datagrams(
            cut::fitted(packet@, max_datagram_size),
        ),
{
    let ghost before = pending@;
    let mut pieces: Vec<Vec<u8>> = Vec::new();
    match cut_header_of(packet, max_datagram_size) {
        None => {
            let d = frame_ip_datagram(arena, None, packet);
            pending.push(d);
            assert(datagrams(pending@) =~= datagrams(before) + plain_datagrams(seq![packet@]));
        },
        Some(h) => {
            proof {
                cut::lemma_cut(packet@, max_datagram_size);
                lemma_plain_packets_fit(h, packet@);
            }
            let cut = collect_tcp_gso_segments(&h, packet, &mut pieces);
            assert(cut is Ok);
            assert(wire::contents(pieces@) =~= cut::fitted(packet@, max_datagram_size));
            frame_packets(arena, pending, &pieces);
        },
    }
}

/// Frames a packet into one or more datagrams, and adds them to `pending`.
///
/// A packet with offload metadata goes out whole if the peer takes the metadata and it fits a
/// datagram. Otherwise it is turned into plain packets first. TCP packets are segmented to what
/// fits a datagram; any other packet that does not fit is left for the connection to drop. On
/// an error nothing is added.
pub fn build_datagrams(
    arena: &mut BytesMut,
    pending: &mut Vec<Bytes>,
    offload: Option<VirtioNetHdr>,
    packet: &[u8],
    gso_active: bool,
    max_datagram_size: usize,
) -> (r: Result<(), String>)
    requires
        buffer::buffer_content(*old(arena)).len() == 0,
        packet@.len() + 2 + VIRTIO_NET_HDR_LEN <= isize::MAX,
    ensures
        buffer::buffer_content(*final(arena)).len() == 0,
        match datagrams_of(offload, packet@, gso_active, max_datagram_size) {
            Ok(d) => r is Ok && datagrams(final(pending)@) == datagrams(old(pending)@) + d,
            Err(e) => error::reports(r, e) && final(pending)@ == old(pending)@,
        },
{
    let ghost before = pending@;
    let h: VirtioNetHdr = match offload {
        Some(h) => h,
        None => {
            frame_fitting(arena, pending, packet, max_datagram_size);
            return Ok(());
        },
    };
    if gso_active && packet.len() + 2 + VIRTIO_NET_HDR_LEN <= max_datagram_size {
        let d = frame_ip_datagram(arena, offload, packet);
        pending.push(d);
        assert(datagrams(pending@) =~= datagrams(before) + seq![ip_datagram(offload, packet@)]);
        return Ok(());
    }
    if h.is_tcp_gso() {
        let c: VirtioNetHdr = capped_of(&h, max_datagram_size);
        let mut plain: Vec<Vec<u8>> = Vec::new();
        let ghost e = segment::gso_emission(c, packet@);
        match collect_tcp_gso_segments(&c, packet, &mut plain) {
            Ok(()) => {},
            Err(m) => {
                return Err(m);
            },
        }
        assert(wire::contents(plain@) =~= e.packets);
        proof {
            lemma_plain_packets_fit(c, packet@);
        }
        frame_packets(arena, pending, &plain);
        return Ok(());
    }
    if h.gso_type != VIRTIO_NET_HDR_GSO_NONE {
        return Err(OffloadError::MetadataGsoType { gso_type: h.gso_type }.message());
    }
    match complete_checksum_offload_packet(&h, packet) {
        Ok(completed) => {
            proof {
                lemma_plain_packets_fit(h, packet@);
                assert(completed@ == segment::plain_emission(h, packet@).packets[0]);
            }
            frame_fitting(arena, pending, completed.as_slice(), max_datagram_size);
            Ok(())
        },
        Err(m) => Err(m),
    }
}

/// The packet and the metadata of a coalesced output.
pub open spec fn output_parts(o: gro::OutputView) -> (Option<VirtioNetHdr>, Seq<u8>) {
    match o {
        gro::OutputView::Single(p) => (None, p),
        gro::OutputView::Coalesced(h, p) => (Some(h), p),
    }
}

/// The datagrams of a list of coalesced outputs, in order, or the first error.
pub open spec fn output_datagrams(
    outputs: Seq<gro::OutputView>,
    max_datagram_size: usize,
) -> Result<Seq<Seq<u8>>, OffloadError>
    decreases outputs.len(),
{
    if outputs.len() == 0 {
        Ok(Seq::empty())
    } else {
        match output_datagrams(outputs.drop_last(), max_datagram_size) {
            Err(e) => Err(e),
            Ok(head) => {
                let (offload, packet) = output_parts(outputs.last());
                match datagrams_of(offload, packet, true, max_datagram_size) {
                    Err(e) => Err(e),
                    Ok(d) => Ok(head + d),
                }
            },
        }
    }
}

/// The datagrams of the outputs in front of the first that cannot be framed, in order.
pub open spec fn framed_outputs(
    outputs: Seq<gro::OutputView>,
    max_datagram_size: usize,
) -> Seq<Seq<u8>>
    decreases outputs.len(),
{
    match output_datagrams(outputs, max_datagram_size) {
        Ok(d) => d,
        Err(_) => if outputs.len() == 0 {
            Seq::empty()
        } else {
            framed_outputs(outputs.drop_last(), max_datagram_size)
        },
    }
}

/// An error in a part of the list is the error of the list, and nothing behind it is framed.
proof fn lemma_first_error(outputs: Seq<gro::OutputView>, n: int, max_datagram_size: usize)
    requires
        0 <= n <= outputs.len(),
        output_datagrams(outputs.take(n), max_datagram_size) is Err,
    ensures
        output_datagrams(outputs, max_datagram_size) == output_datagrams(
            outputs.take(n),
            max_datagram_size,
        ),
        framed_outputs(outputs, max_datagram_size) == framed_outputs(
            outputs.take(n),
            max_datagram_size,
        ),
    decreases outputs.len(),
{
    if n < outputs.len() {
        assert(outputs.drop_last().take(n) =~= outputs.take(n));
        lemma_first_error(outputs.drop_last(), n, max_datagram_size);
    } else {
        assert(outputs.take(n) =~= outputs);
    }
}

/// Where output `n` is the first that cannot be framed, those before it are.
proof fn lemma_framed_before_error(
    outputs: Seq<gro::OutputView>,
    n: int,
    max_datagram_size: usize,
)
    requires
        0 <= n < outputs.len(),
        output_datagrams(outputs.take(n), max_datagram_size) is Ok,
        output_datagrams(outputs.take(n + 1), max_datagram_size) is Err,
    ensures
        output_datagrams(outputs, max_datagram_size) == output_datagrams(
            outputs.take(n + 1),
            max_datagram_size,
        ),
        framed_outputs(outputs, max_datagram_size) == output_datagrams(
            outputs.take(n),
            max_datagram_size,
        )->Ok_0,
{
    lemma_first_error(outputs, n + 1, max_datagram_size);
    assert(outputs.take(n + 1).drop_last() =~= outputs.take(n));
    reveal_with_fuel(framed_outputs, 2);
}

/// Frames the outputs of software GRO into datagrams, and adds them to `pending`.
///
/// Both ends take metadata here: an output that does not fit a datagram whole is segmented
/// again. After an error `pending` holds the datagrams of the outputs before it.
pub fn build_gro_datagrams(
    arena: &mut BytesMut,
    pending: &mut Vec<Bytes>,
    outputs: &[CoalescedOutput],
    max_datagram_size: usize,
) -> (r: Result<(), String>)
    requires
        buffer::buffer_content(*old(arena)).len() == 0,
        forall|k: int|
            0 <= k < outputs@.len() ==> output_parts((#[trigger] outputs@[k])@).1.len() + 2
                + VIRTIO_NET_HDR_LEN <= isize::MAX,
    ensures
        buffer::buffer_content(*final(arena)).len() == 0,
        match output_datagrams(gro::output_views(outputs@), max_datagram_size) {
            Ok(d) => r is Ok && datagrams(final(pending)@) == datagrams(old(pending)@) + d,
            Err(e) => {
                &&& error::reports(r, e)
                &&& datagrams(final(pending)@) == datagrams(old(pending)@) + framed_outputs(
                    gro::output_views(outputs@),
                    max_datagram_size,
                )
            },
        },
{
    let ghost before = pending@;
    let ghost views = gro::output_views(outputs@);
    let mut i: usize = 0;
    assert(views.take(0) =~= Seq::empty());
    assert(datagrams(pending@) =~= datagrams(before) + Seq::empty());
    while i < outputs.len()
        invariant
            i <= outputs@.len(),
            views == gro::output_views(outputs@),
            forall|k: int|
                0 <= k < outputs@.len() ==> output_parts((#[trigger] outputs@[k])@).1.len() + 2
                    + VIRTIO_NET_HDR_LEN <= isize::MAX,
            buffer::buffer_content(*arena).len() == 0,
            before == old(pending)@,
            output_datagrams(views.take(i as int), max_datagram_size) is Ok,
            datagrams(pending@) == datagrams(before) + output_datagrams(
                views.take(i as int),
                max_datagram_size,
            )->Ok_0,
        decreases outputs@.len() - i,
    {
        let ghost sent = pending@;
        proof {
            assert(views.take(i + 1).drop_last() =~= views.take(i as int));
            assert(views[i as int] == outputs@[i as int]@);
        }
        let built = match &outputs[i] {
            CoalescedOutput::Single(p) => build_datagrams(
                arena,
                pending,
                None,
                p.as_slice(),
                true,
                max_datagram_size,
            ),
            CoalescedOutput::Coalesced(h, p) => build_datagrams(
                arena,
                pending,
                Some(*h),
                p.as_slice(),
                true,
                max_datagram_size,
            ),
        };
        match built {
            Ok(()) => {},
            Err(m) => {
                proof {
                    lemma_framed_before_error(views, i as int, max_datagram_size);
                }
                return Err(m);
            },
        }
        proof {
            let head = output_datagrams(views.take(i as int), max_datagram_size)->Ok_0;
            let (offload, packet) = output_parts(views[i as int]);
            let d = datagrams_of(offload, packet, true, max_datagram_size)->Ok_0;
            assert((datagrams(before) + head) + d =~= datagrams(before) + (head + d));
        }
        i += 1;
    }
    assert(views.take(i as int) =~= views);
    Ok(())
}

/// The datagram that carries a message with the server's addresses.
pub open spec fn server_addrs_datagram(message: Seq<u8>) -> Seq<u8> {
    seq![signaling::message_type_byte(DataMessageType::ServerAddrs)] + message
}

/// Appends the datagram that carries a message with the server's addresses.
pub fn encode_server_addrs_datagram(buf: &mut BytesMut, message: &[u8])
    requires
        buffer::buffer_content(*old(buf)).len() + 1 + message@.len() <= isize::MAX,
    ensures
        buffer::buffer_content(*final(buf)) == buffer::buffer_content(*old(buf))
            + server_addrs_datagram(message@),
{
    let ghost before = buffer::buffer_content(*buf);
    buffer_put_u8(buf, DataMessageType::ServerAddrs.as_byte());
    buffer_extend_from_slice(buf, message);
    assert(buffer::buffer_content(*buf) =~= before + server_addrs_datagram(message@));
}

/// What a received datagram holds.
pub enum Received {
    /// It cannot be told, or it is no packet in good order.
    Refused(Seq<char>),
    /// The body of a message with the server's addresses.
    ServerAddrs(Seq<u8>),
    /// A packet, and where it starts in the datagram.
    Packet { offload: Option<VirtioNetHdr>, at: int },
}

/// What the datagram holds.
pub open spec fn received(d: Seq<u8>) -> Received {
    let body = d.skip(1);
    match datagram_refusal(d) {
        Some(m) => Received::Refused(m),
        None => match signaling::message_type_of(d[0])->0 {
            DataMessageType::ServerAddrs => Received::ServerAddrs(body),
            DataMessageType::IpPacket => match signaling::ip_frame_refusal(body) {
                Some(m) => Received::Refused(m),
                None => Received::Packet {
                    offload: if body[0] == 0 {
                        None
                    } else {
                        Some(virtio::header_of_bytes(body.subrange(1, 11)))
                    },
                    at: 2 + body[0],
                },
            },
        },
    }
}

/// A datagram that was opened.
#[derive(Debug)]
pub enum Opened {
    /// It cannot be told, or it is no packet in good order.
    Refused(VpnError),
    /// The body of a message with the server's addresses.
    ServerAddrs(Bytes),
    /// A packet, and where it starts in the datagram.
    Packet { offload: Option<VirtioNetHdr>, at: usize },
}

/// Opens a received datagram.
pub fn open_datagram(dgram: &Bytes) -> (o: Opened)
    ensures
        match received(buffer::bytes_content(*dgram)) {
            Received::Refused(m) => {
                &&& o is Refused
                &&& o->Refused_0.kind() == ErrorKind::Signaling
                &&& o->Refused_0.text() == m
            },
            Received::ServerAddrs(body) => {
                &&& o is ServerAddrs
                &&& buffer::bytes_content(o->ServerAddrs_0) == body
            },
            Received::Packet { offload, at } => {
                &&& o is Packet
                &&& o->offload == offload
                &&& o->at == at
                &&& at <= buffer::bytes_content(*dgram).len()
            },
        },
{
    let bytes = bytes_as_slice(dgram);
    match classify(bytes) {
        Err(e) => Opened::Refused(e),
        Ok(Datagram::ServerAddrs(_)) => Opened::ServerAddrs(bytes_slice_from(dgram, 1)),
        Ok(Datagram::Ip(body)) => match parse_ip_packet_v2(body) {
            Err(e) => Opened::Refused(e),
            Ok((offload, packet)) => {
                let at: usize = bytes.len() - packet.len();
                Opened::Packet { offload, at }
            },
        },
    }
}

/// A packet for the TUN device, with metadata if the device takes it.
#[derive(Debug)]
pub struct TunWrite {
    pub packet: Bytes,
    pub offload: Option<VirtioNetHdr>,
}

/// What a list of writes holds.
pub open spec fn written(w: Seq<TunWrite>) -> Seq<(Seq<u8>, Option<VirtioNetHdr>)> {
    w.map_values(|t: TunWrite| (buffer::bytes_content(t.packet), t.offload))
}

/// Packets without metadata.
pub open spec fn without_metadata(packets: Seq<Seq<u8>>) -> Seq<(Seq<u8>, Option<VirtioNetHdr>)> {
    packets.map_values(|p: Seq<u8>| (p, None::<VirtioNetHdr>))
}

/// What a received packet becomes on a device that takes metadata, or on one that does not.
pub open spec fn writes_of(offload: Option<VirtioNetHdr>, packet: Seq<u8>, gso: bool) -> Result<
    Seq<(Seq<u8>, Option<VirtioNetHdr>)>,
    OffloadError,
> {
    match offload {
        Some(h) => if gso {
            Ok(seq![(packet, offload)])
        } else {
            match segment::plain_emission(h, packet).error {
                Some(e) => Err(e),
                None => Ok(without_metadata(segment::plain_emission(h, packet).packets)),
            }
        },
        None => Ok(seq![(packet, None)]),
    }
}

/// Turns the packet that starts at `at` in a datagram into writes for the TUN device.
///
/// Without metadata, or on a device that takes it, the packet is shared with the datagram.
/// Otherwise it is turned into plain packets, which are copied into the arena; a packet for
/// which that fails is dropped as a whole.
pub fn tun_writes(
    dgram: &Bytes,
    offload: Option<VirtioNetHdr>,
    at: usize,
    gso: bool,
    arena: &mut BytesMut,
) -> (r: Result<Vec<TunWrite>, String>)
    requires
        at <= buffer::bytes_content(*dgram).len() <= isize::MAX,
        buffer::buffer_content(*old(arena)).len() == 0,
    ensures
        buffer::buffer_content(*final(arena)).len() == 0,
        match writes_of(offload, buffer::bytes_content(*dgram).skip(at as int), gso) {
            Ok(w) => r is Ok && written(r->Ok_0@) == w,
            Err(e) => error::reports(r, e),
        },
{
    let ghost packet = buffer::bytes_content(*dgram).skip(at as int);
    let shared: bool = match offload {
        Some(_) => gso,
        None => true,
    };
    let mut out: Vec<TunWrite> = Vec::new();
    if shared {
        out.push(TunWrite { packet: bytes_slice_from(dgram, at), offload });
        assert(written(out@) =~= seq![(packet, offload)]);
        return Ok(out);
    }
    let h: VirtioNetHdr = offload.unwrap();
    let bytes = bytes_as_slice(dgram);
    let tail = vstd::slice::slice_subrange(bytes, at, bytes.len());
    assert(tail@ =~= packet);
    let mut plain: Vec<Vec<u8>> = Vec::new();
    let ghost e = segment::plain_emission(h, packet);
    match collect_offload_packets(&h, tail, &mut plain) {
        Ok(()) => {},
        Err(m) => {
            return Err(m);
        },
    }
    assert(wire::contents(plain@) =~= e.packets);
    proof {
        lemma_plain_packets_fit(h, packet);
    }
    let mut i: usize = 0;
    assert(written(out@) =~= without_metadata(e.packets.take(0)));
    while i < plain.len()
        invariant
            i <= plain@.len(),
            wire::contents(plain@) == e.packets,
            forall|k: int| 0 <= k < e.packets.len() ==> (#[trigger] e.packets[k]).len()
                <= packet.len(),
            packet.len() <= isize::MAX,
            buffer::buffer_content(*arena).len() == 0,
            written(out@) == without_metadata(e.packets.take(i as int)),
        decreases plain@.len() - i,
    {
        assert(plain@[i as int]@ == wire::contents(plain@)[i as int]);
        let ghost before = out@;
        let piece = copy_packet_to_arena(arena, plain[i].as_slice());
        out.push(TunWrite { packet: piece, offload: None });
        proof {
            assert(written(out@) =~= written(before).push((e.packets[i as int], None)));
            assert(written(out@) =~= without_metadata(e.packets.take(i + 1)));
        }
        i += 1;
    }
    assert(e.packets.take(i as int) =~= e.packets);
    Ok(out)
}

/// A packet that the data channel carries: of a known version, with a whole header.
pub open spec fn carries(p: Seq<u8>) -> bool {
    ||| p.len() >= 20 && p[0] >> 4 == 4
    ||| p.len() >= 40 && p[0] >> 4 == 6
}

/// Metadata as the data channel carries it: the buffer count has no place there.
pub open spec fn carried(offload: Option<VirtioNetHdr>) -> Option<VirtioNetHdr> {
    match offload {
        Some(h) => Some(VirtioNetHdr { num_buffers: 0, ..h }),
        None => None,
    }
}

/// A receiver opens the datagram of a packet as that packet, with the metadata it was given.
pub proof fn law_datagram_round_trip(offload: Option<VirtioNetHdr>, packet: Seq<u8>)
    requires
        carries(packet),
    ensures
        ({
            let d = ip_datagram(offload, packet);
            &&& received(d) matches Received::Packet { offload: o, at }
            &&& o == carried(offload)
            &&& d.skip(at) == packet
        }),
{
    let d = ip_datagram(offload, packet);
    let body = d.skip(1);
    match offload {
        Some(h) => {
            virtio::law_header_round_trip(h);
            assert(body.subrange(1, 11) =~= h.wire_bytes());
            assert(body[0] == VIRTIO_NET_HDR_LEN as u8);
            assert(body[11] == packet[0]);
            assert(d.skip(12) =~= packet);
        },
        None => {
            assert(body[0] == 0);
            assert(body[1] == packet[0]);
            assert(d.skip(2) =~= packet);
        },
    }
}

/// A receiver opens the datagram of a message with the server's addresses as that message.
pub proof fn law_server_addrs_datagram_round_trip(message: Seq<u8>)
    ensures
        received(server_addrs_datagram(message)) == Received::ServerAddrs(message),
{
    assert(server_addrs_datagram(message).skip(1) =~= message);
}

/// The plain packets that a packet stands for.
pub open spec fn stands_for(offload: Option<VirtioNetHdr>, packet: Seq<u8>) -> Seq<Seq<u8>> {
    match offload {
        Some(h) => segment::plain_emission(h, packet).packets,
        None => seq![packet],
    }
}

/// The plain packets that a received datagram stands for.
pub open spec fn arrives(d: Seq<u8>) -> Seq<Seq<u8>> {
    match received(d) {
        Received::Packet { offload, at } => stands_for(offload, d.skip(at)),
        _ => Seq::empty(),
    }
}

/// The plain packets that a list of received datagrams stands for, in order.
pub open spec fn all_arrive(ds: Seq<Seq<u8>>) -> Seq<Seq<u8>>
    decreases ds.len(),
{
    if ds.len() == 0 {
        Seq::empty()
    } else {
        all_arrive(ds.drop_last()) + arrives(ds.last())
    }
}

/// Metadata that asks for a checksum or for segmentation leaves the first byte of the packet
/// alone.
pub open spec fn spares_version(offload: Option<VirtioNetHdr>) -> bool {
    offload is Some && (offload->0.tcp_gso() || offload->0.wants_checksum())
        ==> offload->0.csum_start >= 1
}

/// A segment keeps the version of its packet.
proof fn lemma_segment_is_carried(l: segment::GsoLayout, p: Seq<u8>, offset: int)
    requires
        l.fits(p.len()),
        l.tcp_offset >= 1,
        l.checksum_index >= 1,
        0 <= offset < p.len() - l.header_len,
        l.is_ipv6 <==> p[0] >> 4 == 6,
        p[0] >> 4 == 4 || p[0] >> 4 == 6,
        segment::segment_at(l, p, offset) is Ok,
    ensures
        carries(segment::segment_at(l, p, offset)->Ok_0),
{
    reveal(segment::segment_sealed);
    let draft = segment::segment_draft(l, p, offset);
    assert(draft[0] == p[0]);
    let s = segment::segment_at(l, p, offset)->Ok_0;
    assert(s.len() == draft.len());
    assert(s[0] == p[0]);
}

/// All the segments keep the version of their packet.
proof fn lemma_segments_are_carried(l: segment::GsoLayout, p: Seq<u8>, offset: int)
    requires
        l.fits(p.len()),
        l.tcp_offset >= 1,
        l.checksum_index >= 1,
        0 <= offset,
        l.is_ipv6 <==> p[0] >> 4 == 6,
        p[0] >> 4 == 4 || p[0] >> 4 == 6,
    ensures
        forall|k: int|
            0 <= k < segment::segments_from(l, p, offset).packets.len() ==> carries(
                #[trigger] segment::segments_from(l, p, offset).packets[k],
            ),
    decreases
            (if offset < p.len() - l.header_len {
                p.len() - l.header_len - offset
            } else {
                0
            }),
{
    if offset < p.len() - l.header_len && segment::segment_at(l, p, offset) is Ok {
        let s = segment::segment_at(l, p, offset)->Ok_0;
        let rest = segment::segments_from(l, p, offset + l.gso_size);
        lemma_segment_is_carried(l, p, offset);
        lemma_segments_are_carried(l, p, offset + l.gso_size);
        assert(segment::segments_from(l, p, offset).packets == seq![s] + rest.packets);
        assert forall|k: int| 0 <= k < 1 + rest.packets.len() implies carries(
            #[trigger] (seq![s] + rest.packets)[k],
        ) by {
            if k > 0 {
                assert((seq![s] + rest.packets)[k] == rest.packets[k - 1]);
            }
        }
    }
}

/// The plain packets of a packet that the data channel carries are carried too.
proof fn lemma_plain_packets_are_carried(h: VirtioNetHdr, p: Seq<u8>)
    requires
        carries(p),
        spares_version(Some(h)),
    ensures
        forall|k: int|
            0 <= k < segment::plain_emission(h, p).packets.len() ==> carries(
                #[trigger] segment::plain_emission(h, p).packets[k],
            ),
{
    if h.tcp_gso() {
        if segment::gso_layout(h, p) is Ok {
            let l = segment::gso_layout(h, p)->Ok_0;
            assert(l.tcp_offset == h.csum_start);
            if p.len() - l.header_len > l.gso_size {
                if l.gso_size > 0 {
                    lemma_segments_are_carried(l, p, 0);
                }
            } else if h.wants_checksum() {
                let q = segment::checksum_completed(
                    p,
                    l.tcp_offset as int,
                    l.checksum_index as int,
                );
                assert(q[0] == p[0]);
            }
        }
    } else if h.gso_type == virtio::VIRTIO_NET_HDR_GSO_NONE {
        match segment::checksum_plan(h, p) {
            Ok(Some((start, index))) => {
                let q = segment::checksum_completed(p, start as int, index as int);
                assert(q[0] == p[0]);
            },
            _ => {},
        }
    }
}

/// Plain datagrams arrive as the packets that they were made of.
proof fn lemma_plain_datagrams_arrive(packets: Seq<Seq<u8>>)
    requires
        forall|k: int| 0 <= k < packets.len() ==> carries(#[trigger] packets[k]),
    ensures
        all_arrive(plain_datagrams(packets)) == packets,
    decreases packets.len(),
{
    let ds = plain_datagrams(packets);
    if packets.len() > 0 {
        let head = packets.drop_last();
        assert forall|k: int| 0 <= k < head.len() implies carries(#[trigger] head[k]) by {
            assert(head[k] == packets[k]);
        }
        lemma_plain_datagrams_arrive(head);
        assert(ds.drop_last() =~= plain_datagrams(head));
        assert(ds.last() == ip_datagram(None, packets.last()));
        assert(carries(packets[packets.len() - 1]));
        law_datagram_round_trip(None, packets.last());
        assert(head + seq![packets.last()] =~= packets);
    } else {
        assert(packets =~= Seq::empty());
    }
}

/// The buffer count plays no part in turning a packet into plain ones.
proof fn lemma_buffer_count_is_idle(h: VirtioNetHdr, p: Seq<u8>)
    ensures
        segment::plain_emission(VirtioNetHdr { num_buffers: 0, ..h }, p) == segment::plain_emission(
            h,
            p,
        ),
{
}

/// The packets fit a datagram as they are: none has to be cut, and segments keep their size.
pub open spec fn goes_uncut(
    offload: Option<VirtioNetHdr>,
    packet: Seq<u8>,
    max_datagram_size: usize,
) -> bool {
    match offload {
        None => cut::cut_header(packet, max_datagram_size) is None,
        Some(h) => if h.tcp_gso() {
            cut::capped(h, max_datagram_size) == h
        } else {
            cut::cut_header(
                segment::plain_emission(h, packet).packets[0],
                max_datagram_size,
            ) is None
        },
    }
}

/// Whether a packet goes out whole or in segments, and whatever the size of a datagram, what
/// arrives stands for the same plain packets in the same order.
///
/// The metadata has to leave the first byte of the packet alone: a checksum written there
/// would change the version, and the receiver would refuse the packet. And no packet may have
/// to be cut to fit a datagram: what arrives of one that is cut is what
/// [`law_cut_packets_arrive`] says.
pub proof fn law_delivery_is_independent_of_framing(
    offload: Option<VirtioNetHdr>,
    packet: Seq<u8>,
    gso_active: bool,
    max_datagram_size: usize,
)
    requires
        carries(packet),
        spares_version(offload),
        goes_uncut(offload, packet, max_datagram_size),
        datagrams_of(offload, packet, gso_active, max_datagram_size) is Ok,
    ensures
        all_arrive(datagrams_of(offload, packet, gso_active, max_datagram_size)->Ok_0)
            == stands_for(offload, packet),
{
    let ds = datagrams_of(offload, packet, gso_active, max_datagram_size)->Ok_0;
    reveal_with_fuel(all_arrive, 2);
    match offload {
        None => {
            lemma_plain_datagrams_arrive(seq![packet]);
        },
        Some(h) => {
            if sent_whole(packet, gso_active, max_datagram_size) {
                law_datagram_round_trip(offload, packet);
                lemma_buffer_count_is_idle(h, packet);
                let e = segment::plain_emission(h, packet).packets;
                assert(ds.drop_last() =~= Seq::empty());
                assert(Seq::<Seq<u8>>::empty() + e =~= e);
            } else {
                let e = segment::plain_emission(h, packet).packets;
                lemma_plain_packets_are_carried(h, packet);
                lemma_plain_datagrams_arrive(e);
                if !h.tcp_gso() {
                    assert(e =~= seq![e[0]]);
                }
            }
        },
    }
}

/// A TCP packet with payload arrives whatever the size of a datagram, as the segments that it
/// was cut into, in order.
pub proof fn law_cut_packets_arrive(packet: Seq<u8>, max_datagram_size: usize)
    requires
        cut::cut_header(packet, max_datagram_size) is Some,
    ensures
        all_arrive(datagrams_of(None, packet, false, max_datagram_size)->Ok_0) == cut::fitted(
            packet,
            max_datagram_size,
        ),
{
    let h = cut::cut_header(packet, max_datagram_size)->0;
    let l = segment::gso_layout(h, packet)->Ok_0;
    cut::lemma_cut(packet, max_datagram_size);
    lemma_segments_are_carried(l, packet, 0);
    lemma_plain_datagrams_arrive(cut::fitted(packet, max_datagram_size));
}

/// No datagram of a TCP packet is too long for the connection, as long as a datagram has room
/// for more than the headers: neither of a plain packet with payload nor of one with
/// segmentation metadata.
pub proof fn law_tcp_datagrams_fit(
    offload: Option<VirtioNetHdr>,
    packet: Seq<u8>,
    gso_active: bool,
    max_datagram_size: usize,
)
    requires
        match offload {
            None => cut::tcp_data(packet) is Some && cut::tcp_data(packet)->0.header_len + 2
                < max_datagram_size,
            Some(h) => h.tcp_gso() && h.hdr_len + 2 < max_datagram_size,
        },
        datagrams_of(offload, packet, gso_active, max_datagram_size) is Ok,
    ensures
        forall|k: int|
            0 <= k < datagrams_of(offload, packet, gso_active, max_datagram_size)->Ok_0.len() ==> (
            #[trigger] datagrams_of(
                offload,
                packet,
                gso_active,
                max_datagram_size,
            )->Ok_0[k]).len() <= max_datagram_size,
{
    if offload is Some && sent_whole(packet, gso_active, max_datagram_size) {
    } else {
        let packets = plain_parts(offload, packet, max_datagram_size)->Ok_0;
        match offload {
            None => {
                cut::law_cut_packets_fit(packet, max_datagram_size);
            },
            Some(h) => {
                cut::law_capped_segments_fit(h, packet, max_datagram_size);
            },
        }
        let ds = plain_datagrams(packets);
        assert forall|k: int| 0 <= k < ds.len() implies (#[trigger] ds[k]).len()
            <= max_datagram_size by {
            assert(packets[k].len() + cut::PLAIN_PREFIX <= max_datagram_size);
        }
    }
}

/// A datagram is told by its first byte: zero for a packet, one for the server's addresses. A
/// packet follows the length of its metadata, none or ten bytes, and the metadata itself, and has
/// a whole header of either IP version. Everything else is refused.
pub proof fn law_datagrams_are_read(d: Seq<u8>)
    ensures
        ({
            let at = 2 + d[1];
            let v = d[at] as int / 16;
            let len = d.len() - at;
            let r = received(d);
            &&& r is ServerAddrs <==> d.len() > 0 && d[0] == 1
            &&& r matches Received::ServerAddrs(body) ==> body == d.skip(1)
            &&& r is Packet <==> {
                &&& d.len() >= 2
                &&& d[0] == 0
                &&& d[1] == 0 || d[1] == 10
                &&& v == 4 && len >= 20 || v == 6 && len >= 40
            }
            &&& r matches Received::Packet { offload, at: a } ==> {
                &&& a == at
                &&& offload is None <==> d[1] == 0
                &&& offload matches Some(h) ==> h == virtio::header_of_bytes(d.subrange(2, 12))
            }
        }),
{
    if d.len() >= 2 {
        let body = d.skip(1);
        assert(body[0] == d[1]);
        if d.len() > 2 + d[1] {
            assert(body[1 + d[1]] == d[2 + d[1]]);
            wire::lemma_nibbles(d[2 + d[1]]);
        }
        if body[0] == 10 && d.len() >= 12 {
            assert(body.subrange(1, 11) =~= d.subrange(2, 12));
        }
    }
}

/// A packet goes into a datagram behind a zero, the length of its metadata and the metadata; the
/// server's addresses go behind a one.
pub proof fn law_datagrams_are_written(offload: Option<VirtioNetHdr>, p: Seq<u8>)
    ensures
        ({
            let d = ip_datagram(offload, p);
            let a = server_addrs_datagram(p);
            let n: int = if offload is Some {
                10
            } else {
                0
            };
            &&& d.len() == 2 + n + p.len()
            &&& d[0] == 0
            &&& d[1] == n
            &&& offload is Some ==> d.subrange(2, 12) == offload->0.wire_bytes()
            &&& d.skip(2 + n) == p
            &&& a.len() == 1 + p.len()
            &&& a[0] == 1
            &&& a.skip(1) == p
        }),
{
    let d = ip_datagram(offload, p);
    let a = server_addrs_datagram(p);
    let n: int = if offload is Some {
        10
    } else {
        0
    };
    assert(d.skip(2 + n) =~= p);
    assert(a.skip(1) =~= p);
    if offload is Some {
        assert(d.subrange(2, 12) =~= offload->0.wire_bytes());
    }
}

/// A packet that fits goes into one datagram: without metadata behind its two bytes, and with
/// metadata as it is where the peer takes it.
pub proof fn law_fitting_packets_go_whole(
    offload: Option<VirtioNetHdr>,
    packet: Seq<u8>,
    gso_active: bool,
    max_datagram_size: usize,
)
    ensures
        offload is None ==> datagrams_of(offload, packet, gso_active, max_datagram_size) is Ok,
        offload is None && packet.len() + 2 <= max_datagram_size ==> datagrams_of(
            offload,
            packet,
            gso_active,
            max_datagram_size,
        )->Ok_0 == seq![ip_datagram(None, packet)],
        offload is Some && gso_active && packet.len() + 12 <= max_datagram_size ==> datagrams_of(
            offload,
            packet,
            gso_active,
            max_datagram_size,
        ) == Ok::<Seq<Seq<u8>>, OffloadError>(seq![ip_datagram(offload, packet)]),
{
    if offload is None && packet.len() + 2 <= max_datagram_size {
        assert(plain_datagrams(seq![packet]) =~= seq![ip_datagram(None, packet)]);
    }
}

/// A segmentation packet that does not go whole goes as its segments, none longer than a datagram
/// takes where headers leave room, and they arrive as they are.
pub proof fn law_segments_arrive(
    h: VirtioNetHdr,
    packet: Seq<u8>,
    gso_active: bool,
    max_datagram_size: usize,
)
    requires
        h.tcp_gso(),
        h.csum_start >= 1,
        carries(packet),
        !gso_active || packet.len() + 12 > max_datagram_size,
    ensures
        ({
            let e = segment::gso_emission(cut::capped(h, max_datagram_size), packet);
            let r = datagrams_of(Some(h), packet, gso_active, max_datagram_size);
            &&& r is Ok <==> e.error is None
            &&& r is Ok ==> all_arrive(r->Ok_0) == e.packets
        }),
{
    let c = cut::capped(h, max_datagram_size);
    let e = segment::gso_emission(c, packet);
    assert(c.tcp_gso());
    lemma_plain_packets_are_carried(c, packet);
    lemma_plain_datagrams_arrive(e.packets);
}

/// What is written to the TUN device for a packet stands for the packet: with its metadata where
/// the device takes it, and otherwise as the plain packets that it stands for, none of them with
/// metadata.
pub proof fn law_writes_stand_for_the_packet(
    offload: Option<VirtioNetHdr>,
    packet: Seq<u8>,
    gso: bool,
)
    ensures
        ({
            let r = writes_of(offload, packet, gso);
            let plain = stands_for(offload, packet);
            &&& offload is None || gso ==> r == Ok::<
                Seq<(Seq<u8>, Option<VirtioNetHdr>)>,
                OffloadError,
            >(seq![(packet, offload)])
            &&& offload is Some && !gso ==> {
                &&& r is Ok <==> segment::plain_emission(offload->0, packet).error is None
                &&& r is Ok ==> r->Ok_0.len() == plain.len()
                &&& r is Ok ==> forall|k: int|
                    0 <= k < plain.len() ==> (#[trigger] r->Ok_0[k]).0 == plain[k] && r->Ok_0[k].1
                        is None
            }
        }),
{
}

/// The datagrams of several outputs follow each other in the order of the outputs.
#[verifier::spinoff_prover]
#[verifier::rlimit(60)]
pub proof fn law_outputs_keep_their_order(
    outputs: Seq<gro::OutputView>,
    next: gro::OutputView,
    max_datagram_size: usize,
)
    ensures
        ({
            let (offload, packet) = output_parts(next);
            let one = datagrams_of(offload, packet, true, max_datagram_size);
            let head = output_datagrams(outputs, max_datagram_size);
            let all = output_datagrams(outputs.push(next), max_datagram_size);
            match (head, one) {
                (Ok(a), Ok(b)) => all == Ok::<Seq<Seq<u8>>, OffloadError>(a + b),
                (Ok(_), Err(e)) => all == Err::<Seq<Seq<u8>>, OffloadError>(e),
                (Err(_), _) => all == head,
            }
        }),
{
    assert(outputs.push(next).drop_last() =~= outputs);
    assert(outputs.push(next).last() == next);
}

/// If an output cannot be sent, all before it are.
#[verifier::spinoff_prover]
#[verifier::rlimit(60)]
pub proof fn law_outputs_before_an_error_are_sent(
    outputs: Seq<gro::OutputView>,
    next: gro::OutputView,
    max_datagram_size: usize,
)
    requires
        output_datagrams(outputs, max_datagram_size) is Ok,
        output_datagrams(outputs.push(next), max_datagram_size) is Err,
    ensures
        framed_outputs(outputs.push(next), max_datagram_size) == output_datagrams(
            outputs,
            max_datagram_size,
        )->Ok_0,
{
    assert(outputs.push(next).drop_last() =~= outputs);
    reveal_with_fuel(framed_outputs, 2);
}

/// A packet that only asks for a checksum and is not sent with its metadata goes out with the
/// checksum written, as one plain datagram if it fits.
pub proof fn law_completed_packets_go_plain(
    h: VirtioNetHdr,
    packet: Seq<u8>,
    max_datagram_size: usize,
)
    requires
        h.gso_type == 0,
    ensures
        ({
            let e = segment::plain_emission(h, packet);
            let r = datagrams_of(Some(h), packet, false, max_datagram_size);
            &&& r is Ok <==> e.error is None
            &&& r is Ok && packet.len() + 2 <= max_datagram_size ==> r->Ok_0 == seq![
                ip_datagram(None, e.packets[0]),
            ]
        }),
{
    let e = segment::plain_emission(h, packet);
    virtio::law_header_requests(h);
    if e.error is None && packet.len() + 2 <= max_datagram_size {
        let q = e.packets[0];
        assert(q.len() == packet.len());
        assert(cut::cut_header(q, max_datagram_size) is None);
        assert(plain_datagrams(seq![q]) =~= seq![ip_datagram(None, q)]);
    }
}

/// What is written to the device is told write by write, with its packet and its metadata.
pub proof fn law_writes_are_told(w: Seq<TunWrite>, k: int)
    requires
        0 <= k < w.len(),
    ensures
        written(w).len() == w.len(),
        written(w)[k] == (buffer::bytes_content(w[k].packet), w[k].offload),
{
}

/// What waits to be sent is told datagram by datagram.
pub proof fn law_datagrams_are_told(v: Seq<Bytes>, k: int)
    requires
        0 <= k < v.len(),
    ensures
        datagrams(v).len() == v.len(),
        datagrams(v)[k] == buffer::bytes_content(v[k]),
{
}

} // verus!
