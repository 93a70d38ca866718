//! Why offload processing can refuse its input.

use vstd::prelude::*;
use vstd::string::*;
use crate::text;
use crate::text::{push_dec, push_hex2};

verus! {

/// A refused frame, packet or offload header.
#[derive(Debug, Clone, Copy, PartialEq, Eq, Structural)]
pub enum OffloadError {
    /// A virtio header of the wrong size.
    HeaderSize { got: usize },
    /// A plain TUN frame without any byte.
    ZeroLengthFrame,
    /// A TUN frame that cannot hold its virtio header.
    FrameTooShort { len: usize },
    /// A TUN frame that ends with its virtio header.
    NoPayload,
    /// A TUN frame with a GSO type other than TCP.
    TunGsoType { gso_type: u8 },
    /// A TUN frame to be written without an IP packet.
    ComposeEmpty,
    /// Offload metadata for a TUN device that takes none.
    ComposeOffload,
    /// A super-frame of fewer than two segments.
    TooFewSegments { got: usize },
    /// A super-frame whose first packet cannot be merged.
    FirstSegment,
    /// A super-frame member without payload behind the common headers.
    SegmentTooShort,
    /// A super-frame that exceeds the IP length field.
    MergedTooLarge { len: usize },
    /// Segmentation asked for without TCP GSO metadata.
    NotTcpGso,
    /// An IP packet without any byte.
    EmptyPacket,
    /// A GSO type for the other IP version.
    VersionMismatch { version: u8, gso_type: u8 },
    /// An IP version other than four and six.
    Version { version: u8 },
    /// A header length of zero or beyond the packet.
    HdrLen { hdr_len: usize, len: usize },
    /// A TCP header that does not fit the header length.
    CsumStartInHeader { csum_start: usize, header_len: usize },
    /// A TCP data offset below the minimum or beyond the headers.
    TcpHeaderLen { tcp_header_len: usize, tcp_offset: usize, header_len: usize },
    /// A checksum field beyond the headers.
    CsumOffsetInHeader { csum_offset: usize, checksum_index: usize, header_len: usize },
    /// A payload offset that the sequence number cannot count.
    PayloadOffset { offset: usize },
    /// Offload metadata with a GSO type other than TCP.
    MetadataGsoType { gso_type: u8 },
    /// Checksum completion asked for on a GSO packet.
    NotGsoNone { gso_type: u8 },
    /// Unknown flags beside a checksum request.
    ChecksumFlags { flags: u8 },
    /// A checksummed range that starts beyond the packet.
    CsumStartInPacket { csum_start: usize, len: usize },
    /// A checksum field beyond the packet.
    CsumOffsetInPacket { csum_offset: usize, checksum_index: usize, len: usize },
    /// An IPv4 packet shorter than its fixed header.
    Ipv4TooShort,
    /// An IPv4 packet of another protocol.
    Ipv4Protocol { protocol: u8 },
    /// An IPv4 header length below the minimum or beyond the packet.
    Ipv4HeaderLen { ihl: usize },
    /// An IPv4 packet beyond its length field.
    Ipv4TooLarge { len: usize },
    /// An IPv6 packet shorter than its fixed header.
    Ipv6TooShort,
    /// An IPv6 length below the fixed header.
    Ipv6Underflow,
    /// An IPv6 payload beyond its length field.
    Ipv6TooLarge { len: usize },
    /// A TCP header that an IPv4 packet does not hold.
    Ipv4TcpOffset,
    /// A TCP segment beyond the IPv4 pseudo-header's length.
    Ipv4TcpLen { len: usize },
    /// A TCP header that an IPv6 packet does not hold.
    Ipv6TcpOffset,
    /// A TCP segment beyond the IPv6 pseudo-header's length.
    Ipv6TcpLen { len: usize },
    /// A pseudo-header for a TCP header beyond the packet.
    PseudoUnderflow,
    /// An IPv6 packet without addresses for a pseudo-header.
    PseudoIpv6TooShort,
    /// An IPv4 packet without addresses for a pseudo-header.
    PseudoIpv4TooShort,
    /// A TCP segment beyond the pseudo-header's length.
    PseudoTcpLen { len: usize },
}

impl OffloadError {
    /// The text that reports the error.
    pub open spec fn text(self) -> Seq<char> {
        match self {
            OffloadError::HeaderSize { got } => {
                "virtio_net_hdr must be 10 bytes, got "@ + text::dec(got as nat)
            },
            OffloadError::ZeroLengthFrame => "zero-length TUN frame"@,
            OffloadError::FrameTooShort { len } => {
                "TUN frame shorter than virtio header: "@ + text::dec(len as nat) + " < 10"@
            },
            OffloadError::NoPayload => "empty IP payload after virtio header"@,
            OffloadError::TunGsoType { gso_type } => "unsupported GSO type from TUN: 0x"@ + text::hex2(gso_type),
            OffloadError::ComposeEmpty => "cannot compose TUN frame with empty IP payload"@,
            OffloadError::ComposeOffload => {
                "received offload metadata but local TUN does not use vnet headers"@
            },
            OffloadError::TooFewSegments { got } => {
                "GSO super-frame needs at least 2 segments, got "@ + text::dec(got as nat)
            },
            OffloadError::FirstSegment => "first segment is not a coalescible TCP segment"@,
            OffloadError::SegmentTooShort => "segment shorter than flow headers"@,
            OffloadError::MergedTooLarge { len } => {
                "merged GSO frame too large: "@ + text::dec(len as nat) + " bytes"@
            },
            OffloadError::NotTcpGso => "offload header is not TCP GSO"@,
            OffloadError::EmptyPacket => "empty IP packet"@,
            OffloadError::VersionMismatch { version, gso_type } => {
                "IP version/GSO mismatch (ip v"@ + text::dec(version as nat) + ", gso type 0x"@ + text::hex2(gso_type) + ")"@
            },
            OffloadError::Version { version } => "unsupported IP version "@ + text::dec(version as nat),
            OffloadError::HdrLen { hdr_len, len } => {
                "invalid offload hdr_len "@ + text::dec(hdr_len as nat) + " for packet length "@ + text::dec(len as nat)
            },
            OffloadError::CsumStartInHeader { csum_start, header_len } => {
                "invalid csum_start "@ + text::dec(csum_start as nat) + " for header_len "@ + text::dec(header_len as nat)
            },
            OffloadError::TcpHeaderLen { tcp_header_len, tcp_offset, header_len } => {
                "invalid TCP header length "@ + text::dec(tcp_header_len as nat) + " (offset "@ + text::dec(tcp_offset as nat) + ", header_len "@ + text::dec(header_len as nat) + ")"@
            },
            OffloadError::CsumOffsetInHeader { csum_offset, checksum_index, header_len } => {
                "invalid csum_offset "@ + text::dec(csum_offset as nat) + " (checksum index "@ + text::dec(checksum_index as nat) + " beyond header_len "@ + text::dec(header_len as nat) + ")"@
            },
            OffloadError::PayloadOffset { offset } => {
                "TCP GSO payload offset "@ + text::dec(offset as nat) + " exceeds u32 range for sequence number"@
            },
            OffloadError::MetadataGsoType { gso_type } => {
                "unsupported GSO type from offload metadata: 0x"@ + text::hex2(gso_type)
            },
            OffloadError::NotGsoNone { gso_type } => {
                "checksum completion requires GSO_NONE, got 0x"@ + text::hex2(gso_type)
            },
            OffloadError::ChecksumFlags { flags } => {
                "unsupported checksum offload flags: 0x"@ + text::hex2(flags)
            },
            OffloadError::CsumStartInPacket { csum_start, len } => {
                "invalid csum_start "@ + text::dec(csum_start as nat) + " for packet length "@ + text::dec(len as nat)
            },
            OffloadError::CsumOffsetInPacket { csum_offset, checksum_index, len } => {
                "invalid csum_offset "@ + text::dec(csum_offset as nat) + " (checksum index "@ + text::dec(checksum_index as nat) + " beyond packet length "@ + text::dec(len as nat) + ")"@
            },
            OffloadError::Ipv4TooShort => "IPv4 packet too short"@,
            OffloadError::Ipv4Protocol { protocol } => {
                "IPv4 protocol "@ + text::dec(protocol as nat) + " is not TCP"@
            },
            OffloadError::Ipv4HeaderLen { ihl } => "invalid IPv4 IHL "@ + text::dec(ihl as nat),
            OffloadError::Ipv4TooLarge { len } => {
                "IPv4 packet too large for total_len: "@ + text::dec(len as nat)
            },
            OffloadError::Ipv6TooShort => "IPv6 packet too short"@,
            OffloadError::Ipv6Underflow => "IPv6 packet length underflow"@,
            OffloadError::Ipv6TooLarge { len } => "IPv6 payload too large: "@ + text::dec(len as nat),
            OffloadError::Ipv4TcpOffset => "invalid TCP offset for IPv4 checksum"@,
            OffloadError::Ipv4TcpLen { len } => {
                "TCP segment too large for IPv4 checksum: "@ + text::dec(len as nat)
            },
            OffloadError::Ipv6TcpOffset => "invalid TCP offset for IPv6 checksum"@,
            OffloadError::Ipv6TcpLen { len } => {
                "TCP segment too large for IPv6 checksum: "@ + text::dec(len as nat)
            },
            OffloadError::PseudoUnderflow => "TCP length underflow"@,
            OffloadError::PseudoIpv6TooShort => "IPv6 packet too short for pseudo-header"@,
            OffloadError::PseudoIpv4TooShort => "IPv4 packet too short for pseudo-header"@,
            OffloadError::PseudoTcpLen { len } => {
                "TCP length too large for pseudo-header: "@ + text::dec(len as nat)
            },
        }
    }

    /// Writes the text that reports the error.
    pub fn message(&self) -> (s: String)
        ensures
            s@ == self.text(),
    {
        match *self {
            OffloadError::HeaderSize { got } => {
                let mut s = "virtio_net_hdr must be 10 bytes, got ".to_owned();
                push_dec(&mut s, got as u64);
                s
            },
            OffloadError::ZeroLengthFrame => "zero-length TUN frame".to_owned(),
            OffloadError::FrameTooShort { len } => {
                let mut s = "TUN frame shorter than virtio header: ".to_owned();
                push_dec(&mut s, len as u64);
                s.append(" < 10");
                s
            },
            OffloadError::NoPayload => "empty IP payload after virtio header".to_owned(),
            OffloadError::TunGsoType { gso_type } => {
                let mut s = "unsupported GSO type from TUN: 0x".to_owned();
                push_hex2(&mut s, gso_type);
                s
            },
            OffloadError::ComposeEmpty => "cannot compose TUN frame with empty IP payload".to_owned(),
            OffloadError::ComposeOffload => "received offload metadata but local TUN does not use vnet headers".to_owned(),
            OffloadError::TooFewSegments { got } => {
                let mut s = "GSO super-frame needs at least 2 segments, got ".to_owned();
                push_dec(&mut s, got as u64);
                s
            },
            OffloadError::FirstSegment => "first segment is not a coalescible TCP segment".to_owned(),
            OffloadError::SegmentTooShort => "segment shorter than flow headers".to_owned(),
            OffloadError::MergedTooLarge { len } => {
                let mut s = "merged GSO frame too large: ".to_owned();
                push_dec(&mut s, len as u64);
                s.append(" bytes");
                s
            },
            OffloadError::NotTcpGso => "offload header is not TCP GSO".to_owned(),
            OffloadError::EmptyPacket => "empty IP packet".to_owned(),
            OffloadError::VersionMismatch { version, gso_type } => {
                let mut s = "IP version/GSO mismatch (ip v".to_owned();
                push_dec(&mut s, version as u64);
                s.append(", gso type 0x");
                push_hex2(&mut s, gso_type);
                s.append(")");
                s
            },
            OffloadError::Version { version } => {
                let mut s = "unsupported IP version ".to_owned();
                push_dec(&mut s, version as u64);
                s
            },
            OffloadError::HdrLen { hdr_len, len } => {
                let mut s = "invalid offload hdr_len ".to_owned();
                push_dec(&mut s, hdr_len as u64);
                s.append(" for packet length ");
                push_dec(&mut s, len as u64);
                s
            },
            OffloadError::CsumStartInHeader { csum_start, header_len } => {
                let mut s = "invalid csum_start ".to_owned();
                push_dec(&mut s, csum_start as u64);
                s.append(" for header_len ");
                push_dec(&mut s, header_len as u64);
                s
            },
            OffloadError::TcpHeaderLen { tcp_header_len, tcp_offset, header_len } => {
                let mut s = "invalid TCP header length ".to_owned();
                push_dec(&mut s, tcp_header_len as u64);
                s.append(" (offset ");
                push_dec(&mut s, tcp_offset as u64);
                s.append(", header_len ");
                push_dec(&mut s, header_len as u64);
                s.append(")");
                s
            },
            OffloadError::CsumOffsetInHeader { csum_offset, checksum_index, header_len } => {
                let mut s = "invalid csum_offset ".to_owned();
                push_dec(&mut s, csum_offset as u64);
                s.append(" (checksum index ");
                push_dec(&mut s, checksum_index as u64);
                s.append(" beyond header_len ");
                push_dec(&mut s, header_len as u64);
                s.append(")");
                s
            },
            OffloadError::PayloadOffset { offset } => {
                let mut s = "TCP GSO payload offset ".to_owned();
                push_dec(&mut s, offset as u64);
                s.append(" exceeds u32 range for sequence number");
                s
            },
            OffloadError::MetadataGsoType { gso_type } => {
                let mut s = "unsupported GSO type from offload metadata: 0x".to_owned();
                push_hex2(&mut s, gso_type);
                s
            },
            OffloadError::NotGsoNone { gso_type } => {
                let mut s = "checksum completion requires GSO_NONE, got 0x".to_owned();
                push_hex2(&mut s, gso_type);
                s
            },
            OffloadError::ChecksumFlags { flags } => {
                let mut s = "unsupported checksum offload flags: 0x".to_owned();
                push_hex2(&mut s, flags);
                s
            },
            OffloadError::CsumStartInPacket { csum_start, len } => {
                let mut s = "invalid csum_start ".to_owned();
                push_dec(&mut s, csum_start as u64);
                s.append(" for packet length ");
                push_dec(&mut s, len as u64);
                s
            },
            OffloadError::CsumOffsetInPacket { csum_offset, checksum_index, len } => {
                let mut s = "invalid csum_offset ".to_owned();
                push_dec(&mut s, csum_offset as u64);
                s.append(" (checksum index ");
                push_dec(&mut s, checksum_index as u64);
                s.append(" beyond packet length ");
                push_dec(&mut s, len as u64);
                s.append(")");
                s
            },
            OffloadError::Ipv4TooShort => "IPv4 packet too short".to_owned(),
            OffloadError::Ipv4Protocol { protocol } => {
                let mut s = "IPv4 protocol ".to_owned();
                push_dec(&mut s, protocol as u64);
                s.append(" is not TCP");
                s
            },
            OffloadError::Ipv4HeaderLen { ihl } => {
                let mut s = "invalid IPv4 IHL ".to_owned();
                push_dec(&mut s, ihl as u64);
                s
            },
            OffloadError::Ipv4TooLarge { len } => {
                let mut s = "IPv4 packet too large for total_len: ".to_owned();
                push_dec(&mut s, len as u64);
                s
            },
            OffloadError::Ipv6TooShort => "IPv6 packet too short".to_owned(),
            OffloadError::Ipv6Underflow => "IPv6 packet length underflow".to_owned(),
            OffloadError::Ipv6TooLarge { len } => {
                let mut s = "IPv6 payload too large: ".to_owned();
                push_dec(&mut s, len as u64);
                s
            },
            OffloadError::Ipv4TcpOffset => "invalid TCP offset for IPv4 checksum".to_owned(),
            OffloadError::Ipv4TcpLen { len } => {
                let mut s = "TCP segment too large for IPv4 checksum: ".to_owned();
                push_dec(&mut s, len as u64);
                s
            },
            OffloadError::Ipv6TcpOffset => "invalid TCP offset for IPv6 checksum".to_owned(),
            OffloadError::Ipv6TcpLen { len } => {
                let mut s = "TCP segment too large for IPv6 checksum: ".to_owned();
                push_dec(&mut s, len as u64);
                s
            },
            OffloadError::PseudoUnderflow => "TCP length underflow".to_owned(),
            OffloadError::PseudoIpv6TooShort => "IPv6 packet too short for pseudo-header".to_owned(),
            OffloadError::PseudoIpv4TooShort => "IPv4 packet too short for pseudo-header".to_owned(),
            OffloadError::PseudoTcpLen { len } => {
                let mut s = "TCP length too large for pseudo-header: ".to_owned();
                push_dec(&mut s, len as u64);
                s
            },
        }
    }
}

/// The failure half of a contract: the result is an error that reports `e`.
pub open spec fn reports<T>(r: Result<T, String>, e: OffloadError) -> bool {
    r is Err && r->Err_0@ == e.text()
}

} // verus!
