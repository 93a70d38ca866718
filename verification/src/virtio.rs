//! The virtio network header that a TUN device prepends to its frames.

use bytes::BytesMut;
use vstd::prelude::*;
use vstd::slice::slice_subrange;
use crate::buffer;
use crate::buffer::{buffer_clear, buffer_put_slice, buffer_reserve};
use crate::error;
use crate::error::OffloadError;
use crate::wire;

verus! {

/// Size of the virtio header on a TUN device that has virtio headers enabled.
pub const VIRTIO_NET_HDR_LEN: usize = 10;

/// Offload flag: checksum field needs software/device completion.
pub const VIRTIO_NET_HDR_F_NEEDS_CSUM: u8 = 1;

/// Offload flag: packet checksum has already been validated.
pub const VIRTIO_NET_HDR_F_DATA_VALID: u8 = 2;

/// GSO type: no segmentation offload.
pub const VIRTIO_NET_HDR_GSO_NONE: u8 = 0;

/// GSO type: TCP over IPv4.
pub const VIRTIO_NET_HDR_GSO_TCPV4: u8 = 1;

/// GSO type: TCP over IPv6.
pub const VIRTIO_NET_HDR_GSO_TCPV6: u8 = 4;

/// GSO type flag: ECN is present.
pub const VIRTIO_NET_HDR_GSO_ECN: u8 = 0x80;

/// Offload metadata of one TUN frame.
#[derive(Debug, Clone, Copy, PartialEq, Eq, Structural)]
pub struct VirtioNetHdr {
    pub flags: u8,
    pub gso_type: u8,
    pub hdr_len: u16,
    pub gso_size: u16,
    pub csum_start: u16,
    pub csum_offset: u16,
    pub num_buffers: u16,
}

/// The header that ten bytes stand for: the 16-bit fields are little-endian, and
/// the buffer count has no bytes of its own.
pub open spec fn header_of_bytes(b: Seq<u8>) -> VirtioNetHdr {
    VirtioNetHdr {
        flags: b[0],
        gso_type: b[1],
        hdr_len: wire::le16_at(b, 2),
        gso_size: wire::le16_at(b, 4),
        csum_start: wire::le16_at(b, 6),
        csum_offset: wire::le16_at(b, 8),
        num_buffers: 0,
    }
}

/// The header of a frame without any offload.
pub open spec fn plain_header() -> VirtioNetHdr {
    VirtioNetHdr {
        flags: 0,
        gso_type: 0,
        hdr_len: 0,
        gso_size: 0,
        csum_start: 0,
        csum_offset: 0,
        num_buffers: 0,
    }
}

impl VirtioNetHdr {
    /// The ten bytes that stand for the header on the wire.
    pub open spec fn wire_bytes(self) -> Seq<u8> {
        seq![
            self.flags,
            self.gso_type,
            (self.hdr_len % 256) as u8,
            (self.hdr_len / 256) as u8,
            (self.gso_size % 256) as u8,
            (self.gso_size / 256) as u8,
            (self.csum_start % 256) as u8,
            (self.csum_start / 256) as u8,
            (self.csum_offset % 256) as u8,
            (self.csum_offset / 256) as u8,
        ]
    }

    /// The GSO type without the ECN mark.
    pub open spec fn base_gso_type(self) -> u8 {
        self.gso_type & !VIRTIO_NET_HDR_GSO_ECN
    }

    /// Whether the header asks for TCP segmentation.
    pub open spec fn tcp_gso(self) -> bool {
        (self.base_gso_type() == VIRTIO_NET_HDR_GSO_TCPV4 || self.base_gso_type()
            == VIRTIO_NET_HDR_GSO_TCPV6) && self.gso_size != 0
    }

    /// Whether the header asks for the checksum to be completed.
    pub open spec fn wants_checksum(self) -> bool {
        self.flags & VIRTIO_NET_HDR_F_NEEDS_CSUM != 0
    }

    /// Parse a 10-byte virtio header.
    pub fn from_bytes(bytes: &[u8]) -> (r: Result<Self, String>)
        ensures
            bytes@.len() == VIRTIO_NET_HDR_LEN ==> r is Ok && r->Ok_0 == header_of_bytes(bytes@),
            bytes@.len() != VIRTIO_NET_HDR_LEN ==> error::reports(
                r,
                (OffloadError::HeaderSize { got: bytes@.len() as usize }),
            ),
    {
        if bytes.len() != VIRTIO_NET_HDR_LEN {
            return Err(OffloadError::HeaderSize { got: bytes.len() }.message());
        }
        Ok(
            VirtioNetHdr {
                flags: bytes[0],
                gso_type: bytes[1],
                hdr_len: bytes[2] as u16 + (bytes[3] as u16) * 256,
                gso_size: bytes[4] as u16 + (bytes[5] as u16) * 256,
                csum_start: bytes[6] as u16 + (bytes[7] as u16) * 256,
                csum_offset: bytes[8] as u16 + (bytes[9] as u16) * 256,
                num_buffers: 0,
            },
        )
    }

    /// Serialize a virtio header to its 10-byte wire form.
    pub fn to_bytes(self) -> (b: [u8; VIRTIO_NET_HDR_LEN])
        ensures
            b@ == self.wire_bytes(),
    {
        [
            self.flags,
            self.gso_type,
            (self.hdr_len % 256) as u8,
            (self.hdr_len / 256) as u8,
            (self.gso_size % 256) as u8,
            (self.gso_size / 256) as u8,
            (self.csum_start % 256) as u8,
            (self.csum_start / 256) as u8,
            (self.csum_offset % 256) as u8,
            (self.csum_offset / 256) as u8,
        ]
    }

    /// Return true if this header carries a TCP GSO packet (v4 or v6).
    pub fn is_tcp_gso(self) -> (r: bool)
        ensures
            r == self.tcp_gso(),
    {
        let t: u8 = self.normalized_gso_type();
        (t == VIRTIO_NET_HDR_GSO_TCPV4 || t == VIRTIO_NET_HDR_GSO_TCPV6) && self.gso_size != 0
    }

    /// Return the normalized GSO type value without ECN bit.
    pub fn normalized_gso_type(self) -> (t: u8)
        ensures
            t == self.base_gso_type(),
    {
        self.gso_type & !VIRTIO_NET_HDR_GSO_ECN
    }

    /// Return true if the packet checksum must be completed before writing as plain IP.
    pub fn needs_checksum(self) -> (r: bool)
        ensures
            r == self.wants_checksum(),
    {
        (self.flags & VIRTIO_NET_HDR_F_NEEDS_CSUM) != 0
    }
}

impl Default for VirtioNetHdr {
    fn default() -> (h: Self)
        ensures
            h == plain_header(),
    {
        VirtioNetHdr {
            flags: 0,
            gso_type: 0,
            hdr_len: 0,
            gso_size: 0,
            csum_start: 0,
            csum_offset: 0,
            num_buffers: 0,
        }
    }
}

impl From<[u8; VIRTIO_NET_HDR_LEN]> for VirtioNetHdr {
    fn from(value: [u8; VIRTIO_NET_HDR_LEN]) -> (h: Self) {
        VirtioNetHdr {
            flags: value[0],
            gso_type: value[1],
            hdr_len: value[2] as u16 + (value[3] as u16) * 256,
            gso_size: value[4] as u16 + (value[5] as u16) * 256,
            csum_start: value[6] as u16 + (value[7] as u16) * 256,
            csum_offset: value[8] as u16 + (value[9] as u16) * 256,
            num_buffers: 0,
        }
    }
}

impl vstd::std_specs::convert::FromSpecImpl<[u8; VIRTIO_NET_HDR_LEN]> for VirtioNetHdr {
    open spec fn obeys_from_spec() -> bool {
        true
    }

    open spec fn from_spec(value: [u8; VIRTIO_NET_HDR_LEN]) -> Self {
        header_of_bytes(value@)
    }
}

/// What a TUN frame holds: its offload metadata, where it has any, and its IP packet.
pub open spec fn split_frame(frame: Seq<u8>, vnet_hdr_enabled: bool) -> Result<
    (Option<VirtioNetHdr>, Seq<u8>),
    OffloadError,
> {
    let hdr = header_of_bytes(frame);
    let packet = frame.skip(VIRTIO_NET_HDR_LEN as int);
    if !vnet_hdr_enabled {
        if frame.len() == 0 {
            Err(OffloadError::ZeroLengthFrame)
        } else {
            Ok((None, frame))
        }
    } else if frame.len() < VIRTIO_NET_HDR_LEN {
        Err(OffloadError::FrameTooShort { len: frame.len() as usize })
    } else if packet.len() == 0 {
        Err(OffloadError::NoPayload)
    } else if hdr.gso_type == VIRTIO_NET_HDR_GSO_NONE {
        if hdr.flags != 0 || hdr.csum_start != 0 || hdr.csum_offset != 0 {
            Ok((Some(hdr), packet))
        } else {
            Ok((None, packet))
        }
    } else if hdr.tcp_gso() {
        Ok((Some(hdr), packet))
    } else {
        Err(OffloadError::TunGsoType { gso_type: hdr.gso_type })
    }
}

/// Split a TUN frame into optional offload metadata and raw IP payload.
///
/// When `vnet_hdr_enabled` is false, the frame is treated as plain IP.
/// When true, the leading 10-byte virtio header is parsed and stripped.
pub fn split_tun_frame(frame: &[u8], vnet_hdr_enabled: bool) -> (r: Result<
    (Option<VirtioNetHdr>, &[u8]),
    String,
>)
    ensures
        match split_frame(frame@, vnet_hdr_enabled) {
            Ok((hdr, packet)) => r is Ok && r->Ok_0.0 == hdr && r->Ok_0.1@ == packet,
            Err(e) => error::reports(r, e),
        },
{
    if !vnet_hdr_enabled {
        if frame.is_empty() {
            return Err(OffloadError::ZeroLengthFrame.message());
        }
        return Ok((None, frame));
    }
    if frame.len() < VIRTIO_NET_HDR_LEN {
        return Err(OffloadError::FrameTooShort { len: frame.len() }.message());
    }
    let offload = match VirtioNetHdr::from_bytes(slice_subrange(frame, 0, VIRTIO_NET_HDR_LEN)) {
        Ok(h) => h,
        Err(e) => {
            return Err(e);
        },
    };
    assert(offload == header_of_bytes(frame@));
    let ip_packet = slice_subrange(frame, VIRTIO_NET_HDR_LEN, frame.len());
    assert(ip_packet@ =~= frame@.skip(VIRTIO_NET_HDR_LEN as int));
    if ip_packet.is_empty() {
        return Err(OffloadError::NoPayload.message());
    }
    if offload.gso_type == VIRTIO_NET_HDR_GSO_NONE {
        // Checksum metadata is kept so that the peer can finish the transport checksum.
        let has_checksum_metadata = offload.flags != 0 || offload.csum_start != 0
            || offload.csum_offset != 0;
        if has_checksum_metadata {
            return Ok((Some(offload), ip_packet));
        }
        return Ok((None, ip_packet));
    }
    if offload.is_tcp_gso() {
        return Ok((Some(offload), ip_packet));
    }
    Err(OffloadError::TunGsoType { gso_type: offload.gso_type }.message())
}

/// The frame to be written for an IP packet and its offload metadata.
pub open spec fn compose_frame(
    vnet_hdr_enabled: bool,
    offload: Option<VirtioNetHdr>,
    ip_packet: Seq<u8>,
) -> Result<Seq<u8>, OffloadError> {
    if ip_packet.len() == 0 {
        Err(OffloadError::ComposeEmpty)
    } else if !vnet_hdr_enabled {
        if offload is Some {
            Err(OffloadError::ComposeOffload)
        } else {
            Ok(ip_packet)
        }
    } else {
        let hdr = if offload is Some {
            offload->0
        } else {
            plain_header()
        };
        Ok(hdr.wire_bytes() + ip_packet)
    }
}

/// Compose a TUN frame for writing.
///
/// If `vnet_hdr_enabled` is true, a 10-byte virtio header is prepended. If no
/// offload header is provided, a zeroed header is used for plain packets.
/// On an error `out` keeps what it held.
pub fn compose_tun_frame(
    out: &mut BytesMut,
    vnet_hdr_enabled: bool,
    offload: Option<&VirtioNetHdr>,
    ip_packet: &[u8],
) -> (r: Result<(), String>)
    requires
        VIRTIO_NET_HDR_LEN + ip_packet@.len() <= isize::MAX,
    ensures
        match compose_frame(
            vnet_hdr_enabled,
            (match offload {
                Some(h) => Some(*h),
                None => None,
            }),
            ip_packet@,
        ) {
            Ok(frame) => r is Ok && buffer::buffer_content(*final(out)) == frame,
            Err(e) => error::reports(r, e) && *final(out) == *old(out),
        },
{
    if ip_packet.is_empty() {
        return Err(OffloadError::ComposeEmpty.message());
    }
    if !vnet_hdr_enabled && offload.is_some() {
        return Err(OffloadError::ComposeOffload.message());
    }
    buffer_clear(out);
    if vnet_hdr_enabled {
        buffer_reserve(out, ip_packet.len() + VIRTIO_NET_HDR_LEN);
        let header = match offload {
            Some(h) => h.to_bytes(),
            None => VirtioNetHdr::default().to_bytes(),
        };
        buffer_put_slice(out, header.as_slice());
        assert(buffer::buffer_content(*out) =~= header@);
    } else {
        buffer_reserve(out, ip_packet.len());
    }
    buffer_put_slice(out, ip_packet);
    assert(Seq::<u8>::empty() + ip_packet@ =~= ip_packet@);
    Ok(())
}

/// Parsing the serialized form of a header gives the header back, but for the
/// buffer count, which the wire form does not carry.
pub proof fn law_header_round_trip(h: VirtioNetHdr)
    ensures
        h.wire_bytes().len() == VIRTIO_NET_HDR_LEN,
        header_of_bytes(h.wire_bytes()) == (VirtioNetHdr { num_buffers: 0, ..h }),
{
}

/// Serializing the header of ten bytes gives the ten bytes back.
pub proof fn law_wire_round_trip(b: Seq<u8>)
    requires
        b.len() == VIRTIO_NET_HDR_LEN,
    ensures
        header_of_bytes(b).wire_bytes() == b,
{
    assert(header_of_bytes(b).wire_bytes() =~= b);
}

/// A composed frame splits into the packet it was composed of, and into the offload
/// header that was given with it whenever that header says something: a checksum
/// request, or TCP segmentation. A header that is all zero reads as none.
pub proof fn law_compose_then_split(
    vnet_hdr_enabled: bool,
    offload: Option<VirtioNetHdr>,
    ip_packet: Seq<u8>,
)
    requires
        compose_frame(vnet_hdr_enabled, offload, ip_packet) is Ok,
    ensures
        offload is None ==> split_frame(
            compose_frame(vnet_hdr_enabled, offload, ip_packet)->Ok_0,
            vnet_hdr_enabled,
        ) == Ok::<(Option<VirtioNetHdr>, Seq<u8>), OffloadError>((None, ip_packet)),
        offload is Some && (offload->0.tcp_gso() || (offload->0.gso_type == VIRTIO_NET_HDR_GSO_NONE
            && (offload->0.flags != 0 || offload->0.csum_start != 0 || offload->0.csum_offset != 0)))
            ==> split_frame(
            compose_frame(vnet_hdr_enabled, offload, ip_packet)->Ok_0,
            vnet_hdr_enabled,
        ) == Ok::<(Option<VirtioNetHdr>, Seq<u8>), OffloadError>((Some((VirtioNetHdr { num_buffers: 0, ..offload->0 })), ip_packet)),
        offload is Some && offload->0.num_buffers == 0 && (offload->0.tcp_gso() || (
        offload->0.gso_type == VIRTIO_NET_HDR_GSO_NONE && (offload->0.flags != 0
            || offload->0.csum_start != 0 || offload->0.csum_offset != 0))) ==> split_frame(
            compose_frame(vnet_hdr_enabled, offload, ip_packet)->Ok_0,
            vnet_hdr_enabled,
        ) == Ok::<(Option<VirtioNetHdr>, Seq<u8>), OffloadError>((offload, ip_packet)),
{
    let frame = compose_frame(vnet_hdr_enabled, offload, ip_packet)->Ok_0;
    if vnet_hdr_enabled {
        let hdr = if offload is Some {
            offload->0
        } else {
            plain_header()
        };
        assert(frame.take(10) =~= hdr.wire_bytes());
        assert(frame.skip(10) =~= ip_packet);
        law_header_round_trip(hdr);
        assert(header_of_bytes(frame) == header_of_bytes(frame.take(10)));
        assert(0u8 & !0x80u8 == 0) by (bit_vector);
    }
}

/// The header is ten bytes: flags and type in one byte each, and four little-endian numbers of
/// two bytes.
pub proof fn law_header_layout(b: Seq<u8>)
    requires
        b.len() >= 10,
    ensures
        ({
            let h = header_of_bytes(b);
            &&& h.flags == b[0]
            &&& h.gso_type == b[1]
            &&& h.hdr_len == b[2] + 256 * b[3]
            &&& h.gso_size == b[4] + 256 * b[5]
            &&& h.csum_start == b[6] + 256 * b[7]
            &&& h.csum_offset == b[8] + 256 * b[9]
            &&& h.num_buffers == 0
        }),
{
}

/// A header asks for segmentation if it names TCP over either IP version, congestion marks aside,
/// and a size; it asks for a checksum by its lowest flag.
pub proof fn law_header_requests(h: VirtioNetHdr)
    ensures
        h.tcp_gso() <==> (h.gso_type == 1 || h.gso_type == 4 || h.gso_type == 0x81 || h.gso_type
            == 0x84) && h.gso_size > 0,
        h.wants_checksum() <==> h.flags as int % 2 == 1,
        h.base_gso_type() == h.gso_type as int % 128,
{
    let g = h.gso_type;
    let f = h.flags;
    assert(g & !0x80u8 == g % 128) by (bit_vector);
    assert((f & 1u8 != 0) == (f % 2 == 1)) by (bit_vector);
}

/// A frame is split into its header and its packet, byte for byte. With headers enabled that is
/// done for every frame that holds more than its header and asks for nothing but a checksum or
/// the segmentation of TCP; a header that asks for nothing is dropped. Without headers the frame
/// is the packet.
pub proof fn law_frames_are_split(frame: Seq<u8>)
    ensures
        ({
            let plain = split_frame(frame, false);
            let r = split_frame(frame, true);
            let h = header_of_bytes(frame);
            &&& plain is Ok <==> frame.len() > 0
            &&& plain matches Ok((hdr, p)) ==> hdr is None && p == frame
            &&& r is Ok <==> frame.len() > 10 && (h.gso_type == 0 || h.tcp_gso())
            &&& r matches Ok((hdr, p)) ==> {
                &&& p == frame.skip(10)
                &&& hdr is None <==> h.gso_type == 0 && h.flags == 0 && h.csum_start == 0
                    && h.csum_offset == 0
                &&& hdr is Some ==> hdr->0 == h
            }
        }),
{
    assert(0u8 & !0x80u8 == 0u8) by (bit_vector);
}

/// A frame is composed of its header and its packet, byte for byte; a packet without metadata
/// gets a header of zeros. Metadata cannot go where headers are not enabled, and an empty packet
/// nowhere.
pub proof fn law_frames_are_composed(offload: Option<VirtioNetHdr>, p: Seq<u8>)
    ensures
        ({
            let plain = compose_frame(false, offload, p);
            let r = compose_frame(true, offload, p);
            &&& plain is Ok <==> p.len() > 0 && offload is None
            &&& plain matches Ok(frame) ==> frame == p
            &&& r is Ok <==> p.len() > 0
            &&& r matches Ok(frame) ==> {
                &&& frame.len() == 10 + p.len()
                &&& frame.skip(10) == p
                &&& offload is None ==> forall|i: int| 0 <= i < 10 ==> frame[i] == 0
                &&& offload matches Some(h) ==> {
                    &&& frame[0] == h.flags
                    &&& frame[1] == h.gso_type
                    &&& frame[2] + 256 * frame[3] == h.hdr_len
                    &&& frame[4] + 256 * frame[5] == h.gso_size
                    &&& frame[6] + 256 * frame[7] == h.csum_start
                    &&& frame[8] + 256 * frame[9] == h.csum_offset
                }
            }
        }),
{
    if p.len() > 0 {
        let frame = compose_frame(true, offload, p)->Ok_0;
        assert(frame.skip(10) =~= p);
    }
}

} // verus!
