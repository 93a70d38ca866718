use bytes::{Bytes, BytesMut};
use etherparse::{
    IpNumber, Ipv4Header, Ipv6Header, PacketHeaders, TcpOptionElement, TransportHeader,
};
use ezvpn::coalesce::{assemble_tcp_gso_superframe, plan_tun_write_groups};
use ezvpn::gro::{
    CoalescedOutput, TcpGroTable, MAX_GRO_FLOWS, MAX_GRO_PACKET_SIZE, MAX_GRO_SEGMENTS,
    TCP_FLAG_RST, TCP_FLAG_SYN, TCP_FLAG_URG, TCP_OPT_NOP, TCP_OPT_TIMESTAMP,
};
use ezvpn::headers::{tcp_checksum_ipv4, tcp_pseudo_header_partial};
use ezvpn::segment::{
    complete_checksum_offload_packet, materialize_offload_into, materialize_offload_packet,
    segment_tcp_gso_into, segment_tcp_gso_packet, TCP_FLAG_PSH,
};
use ezvpn::virtio::{
    compose_tun_frame, split_tun_frame, VirtioNetHdr, VIRTIO_NET_HDR_F_DATA_VALID,
    VIRTIO_NET_HDR_F_NEEDS_CSUM, VIRTIO_NET_HDR_GSO_NONE, VIRTIO_NET_HDR_GSO_TCPV4,
    VIRTIO_NET_HDR_GSO_TCPV6, VIRTIO_NET_HDR_LEN,
};

fn build_ipv4_tcp_packet(payload_len: usize) -> Vec<u8> {
    let payload: Vec<u8> = (0..payload_len).map(|v| (v % 251) as u8).collect();

    let mut tcp = etherparse::TcpHeader::new(12345, 443, 10_000, 65_535);
    tcp.ack = true;
    tcp.psh = true;
    tcp.fin = true;

    let mut ip = Ipv4Header::new(
        (tcp.header_len() + payload.len()) as u16,
        64,
        IpNumber::TCP,
        [10, 0, 0, 2],
        [10, 0, 0, 1],
    )
    .expect("valid IPv4 header");
    tcp.checksum = tcp
        .calc_checksum_ipv4(&ip, &payload)
        .expect("valid IPv4 TCP checksum");
    ip.header_checksum = ip.calc_header_checksum();

    let mut packet = Vec::with_capacity(ip.header_len() + tcp.header_len() + payload.len());
    ip.write(&mut packet).expect("serialize IPv4 header");
    tcp.write(&mut packet).expect("serialize TCP header");
    packet.extend_from_slice(&payload);
    packet
}

fn build_ipv6_tcp_packet(payload_len: usize) -> Vec<u8> {
    let payload: Vec<u8> = (0..payload_len).map(|v| (v % 253) as u8).collect();

    let mut tcp = etherparse::TcpHeader::new(12345, 443, 20_000, 65_535);
    tcp.ack = true;
    tcp.psh = true;
    tcp.fin = true;

    let ip = Ipv6Header {
        traffic_class: 0,
        flow_label: etherparse::Ipv6FlowLabel::ZERO,
        payload_length: u16::try_from(tcp.header_len() + payload.len())
            .expect("IPv6 payload length fits in u16"),
        next_header: IpNumber::TCP,
        hop_limit: 64,
        source: [0xfd, 0, 0, 0, 0, 0, 0, 0, 0, 0, 0, 0, 0, 0, 0, 2],
        destination: [0xfd, 0, 0, 0, 0, 0, 0, 0, 0, 0, 0, 0, 0, 0, 0, 1],
    };
    tcp.checksum = tcp
        .calc_checksum_ipv6(&ip, &payload)
        .expect("valid IPv6 TCP checksum");

    let mut packet = Vec::with_capacity(40 + tcp.header_len() + payload.len());
    ip.write(&mut packet).expect("serialize IPv6 header");
    tcp.write(&mut packet).expect("serialize TCP header");
    packet.extend_from_slice(&payload);
    packet
}

fn assert_tcp_checksum_valid(packet: &[u8]) {
    let headers = PacketHeaders::from_ip_slice(packet).expect("packet parses");
    match (headers.net, headers.transport, headers.payload) {
        (
            Some(etherparse::NetHeaders::Ipv4(ip, _)),
            Some(TransportHeader::Tcp(tcp)),
            etherparse::PayloadSlice::Tcp(payload),
        ) => {
            let expected = tcp
                .calc_checksum_ipv4(&ip, payload)
                .expect("IPv4 checksum calculation succeeds");
            assert_eq!(tcp.checksum, expected, "invalid IPv4 TCP checksum");
        }
        (
            Some(etherparse::NetHeaders::Ipv6(ip, _)),
            Some(TransportHeader::Tcp(tcp)),
            etherparse::PayloadSlice::Tcp(payload),
        ) => {
            let expected = tcp
                .calc_checksum_ipv6(&ip, payload)
                .expect("IPv6 checksum calculation succeeds");
            assert_eq!(tcp.checksum, expected, "invalid IPv6 TCP checksum");
        }
        _ => panic!("packet is not TCP over IP"),
    }
}

fn make_ipv4_tcp_partial_checksum(packet: &[u8]) -> Vec<u8> {
    let tcp_offset = 20;
    let checksum_index = tcp_offset + 16;
    let tcp_len = packet.len() - tcp_offset;
    let mut partial = packet.to_vec();
    partial[checksum_index] = 0;
    partial[checksum_index + 1] = 0;

    let pseudo_header_sum = tcp_pseudo_header_partial(&partial, false, tcp_len);
    partial[checksum_index..checksum_index + 2]
        .copy_from_slice(&pseudo_header_sum.to_be_bytes());
    partial
}

/// Build one TCP/IPv4 segment of a fixed test flow for GRO tests.
fn build_gro_segment_v4(seq: u32, payload: &[u8], psh: bool, fin: bool) -> Vec<u8> {
    let mut tcp = etherparse::TcpHeader::new(12345, 443, seq, 65_535);
    tcp.ack = true;
    tcp.acknowledgment_number = 55_555;
    tcp.psh = psh;
    tcp.fin = fin;

    let mut ip = Ipv4Header::new(
        (tcp.header_len() + payload.len()) as u16,
        64,
        IpNumber::TCP,
        [10, 0, 0, 2],
        [10, 0, 0, 1],
    )
    .expect("valid IPv4 header");
    tcp.checksum = tcp
        .calc_checksum_ipv4(&ip, payload)
        .expect("valid IPv4 TCP checksum");
    ip.header_checksum = ip.calc_header_checksum();

    let mut packet = Vec::with_capacity(ip.header_len() + tcp.header_len() + payload.len());
    ip.write(&mut packet).expect("serialize IPv4 header");
    tcp.write(&mut packet).expect("serialize TCP header");
    packet.extend_from_slice(payload);
    packet
}

fn set_gro_segment_source_port_v4(packet: &mut [u8], source_port: u16) {
    packet[20..22].copy_from_slice(&source_port.to_be_bytes());
    packet[36..38].copy_from_slice(&0u16.to_be_bytes());
    let checksum = tcp_checksum_ipv4(packet, 20).expect("valid IPv4 TCP checksum");
    packet[36..38].copy_from_slice(&checksum.to_be_bytes());
}

fn gro_output_source_port_v4(output: &CoalescedOutput) -> u16 {
    let packet = match output {
        CoalescedOutput::Single(packet) => packet,
        CoalescedOutput::Coalesced(_, packet) => packet,
    };
    u16::from_be_bytes([packet[20], packet[21]])
}

/// Build one TCP/IPv6 segment of a fixed test flow for GRO tests.
fn build_gro_segment_v6(seq: u32, payload: &[u8], psh: bool, fin: bool) -> Vec<u8> {
    let mut tcp = etherparse::TcpHeader::new(12345, 443, seq, 65_535);
    tcp.ack = true;
    tcp.acknowledgment_number = 55_555;
    tcp.psh = psh;
    tcp.fin = fin;

    let ip = Ipv6Header {
        traffic_class: 0,
        flow_label: etherparse::Ipv6FlowLabel::ZERO,
        payload_length: u16::try_from(tcp.header_len() + payload.len())
            .expect("IPv6 payload length fits in u16"),
        next_header: IpNumber::TCP,
        hop_limit: 64,
        source: [0xfd, 0, 0, 0, 0, 0, 0, 0, 0, 0, 0, 0, 0, 0, 0, 2],
        destination: [0xfd, 0, 0, 0, 0, 0, 0, 0, 0, 0, 0, 0, 0, 0, 0, 1],
    };
    tcp.checksum = tcp
        .calc_checksum_ipv6(&ip, payload)
        .expect("valid IPv6 TCP checksum");

    let mut packet = Vec::with_capacity(40 + tcp.header_len() + payload.len());
    ip.write(&mut packet).expect("serialize IPv6 header");
    tcp.write(&mut packet).expect("serialize TCP header");
    packet.extend_from_slice(payload);
    packet
}

/// Build a uniform run of same-flow segments covering `total` bytes,
/// with PSH set on the last segment.
fn build_gro_flow(total: &[u8], mss: usize, v6: bool) -> Vec<Vec<u8>> {
    let base_seq = 10_000u32;
    let chunks: Vec<&[u8]> = total.chunks(mss).collect();
    chunks
        .iter()
        .enumerate()
        .map(|(i, chunk)| {
            let seq = base_seq.wrapping_add((i * mss) as u32);
            let last = i == chunks.len() - 1;
            if v6 {
                build_gro_segment_v6(seq, chunk, last, false)
            } else {
                build_gro_segment_v4(seq, chunk, last, false)
            }
        })
        .collect()
}

/// Pushes a packet and returns everything that is to be sent for it:
/// a packet that passes through becomes an owned `Single` output, so that
/// assertions can treat all results uniformly.
fn push_owned(table: &mut TcpGroTable, packet: &[u8]) -> Vec<CoalescedOutput> {
    let result = table.push(packet);
    let mut out = result.outputs;
    if result.pass_through {
        out.push(CoalescedOutput::Single(packet.to_vec()));
    }
    out
}

fn push_all(table: &mut TcpGroTable, segments: &[Vec<u8>]) -> Vec<CoalescedOutput> {
    let mut out = Vec::new();
    for seg in segments {
        out.extend(push_owned(table, seg));
    }
    out
}

/// Assert a GRO round-trip: coalesce `segments`, re-segment via
/// `segment_tcp_gso_packet`, and require byte-identical originals.
fn assert_gro_roundtrip(segments: &[Vec<u8>], mss: usize, v6: bool) {
    let mut table = TcpGroTable::new();
    let mut outputs = push_all(&mut table, segments);
    outputs.extend(table.flush_all());
    assert_eq!(outputs.len(), 1, "expected a single coalesced output");

    let (hdr, super_packet) = match &outputs[0] {
        CoalescedOutput::Coalesced(hdr, packet) => (hdr, packet),
        other => panic!("expected coalesced output, got {:?}", other),
    };

    let expected_gso_type = if v6 {
        VIRTIO_NET_HDR_GSO_TCPV6
    } else {
        VIRTIO_NET_HDR_GSO_TCPV4
    };
    assert_eq!(hdr.flags, VIRTIO_NET_HDR_F_NEEDS_CSUM);
    assert_eq!(hdr.gso_type, expected_gso_type);
    assert_eq!(usize::from(hdr.gso_size), mss);
    let ip_header_len = if v6 { 40 } else { 20 };
    assert_eq!(usize::from(hdr.csum_start), ip_header_len);
    assert_eq!(hdr.csum_offset, 16);
    assert_eq!(usize::from(hdr.hdr_len), ip_header_len + 20);

    // The stored partial pseudo-header checksum must complete to a valid
    // full TCP checksum (same convention as checksum-only offload).
    let csum_hdr = VirtioNetHdr {
        flags: VIRTIO_NET_HDR_F_NEEDS_CSUM,
        gso_type: VIRTIO_NET_HDR_GSO_NONE,
        hdr_len: hdr.hdr_len,
        gso_size: 0,
        csum_start: hdr.csum_start,
        csum_offset: hdr.csum_offset,
        num_buffers: 0,
    };
    let completed = complete_checksum_offload_packet(&csum_hdr, super_packet)
        .expect("complete partial checksum");
    assert_tcp_checksum_valid(&completed);

    // Re-segmenting the coalesced packet must reproduce the originals.
    let resegmented =
        segment_tcp_gso_packet(hdr, super_packet).expect("re-segment coalesced packet");
    assert_eq!(resegmented.len(), segments.len());
    for (original, segment) in segments.iter().zip(&resegmented) {
        assert_eq!(original, segment, "round-trip mismatch");
        assert_tcp_checksum_valid(segment);
    }
}

#[test]
fn test_virtio_header_roundtrip() {
    let hdr = VirtioNetHdr {
        flags: VIRTIO_NET_HDR_F_NEEDS_CSUM,
        gso_type: VIRTIO_NET_HDR_GSO_TCPV4,
        hdr_len: 40,
        gso_size: 1200,
        csum_start: 20,
        csum_offset: 16,
        num_buffers: 0,
    };

    let encoded = hdr.to_bytes();
    let decoded = VirtioNetHdr::from_bytes(&encoded).expect("decode header");
    assert_eq!(decoded, hdr);
}

#[test]
fn test_split_tun_frame_with_plain_vnet_header() {
    let mut frame = vec![0u8; VIRTIO_NET_HDR_LEN];
    frame.extend_from_slice(&[0x45, 0, 0, 20]);

    let (offload, payload) = split_tun_frame(&frame, true).expect("split frame");
    assert!(offload.is_none());
    assert_eq!(payload, &[0x45, 0, 0, 20]);
}

#[test]
fn test_split_tun_frame_preserves_checksum_only_metadata() {
    let offload = VirtioNetHdr {
        flags: VIRTIO_NET_HDR_F_NEEDS_CSUM,
        gso_type: VIRTIO_NET_HDR_GSO_NONE,
        hdr_len: 40,
        gso_size: 0,
        csum_start: 20,
        csum_offset: 16,
        num_buffers: 0,
    };
    let mut frame = offload.to_bytes().to_vec();
    frame.extend_from_slice(&[0x45, 0, 0, 20, 0, 0, 0, 0]);

    let (parsed_offload, payload) = split_tun_frame(&frame, true).expect("split frame");
    assert_eq!(parsed_offload, Some(offload));
    assert_eq!(payload, &[0x45, 0, 0, 20, 0, 0, 0, 0]);
}

#[test]
fn test_compose_tun_frame_with_vnet_header() {
    let mut out = BytesMut::new();
    compose_tun_frame(&mut out, true, None, &[0x45, 1, 2, 3]).expect("compose frame");

    assert_eq!(out.len(), VIRTIO_NET_HDR_LEN + 4);
    assert!(out[..VIRTIO_NET_HDR_LEN].iter().all(|b| *b == 0));
    assert_eq!(&out[VIRTIO_NET_HDR_LEN..], &[0x45, 1, 2, 3]);
}

#[test]
fn test_materialize_checksum_only_offload_completes_ipv4_tcp_checksum() {
    let packet = build_ipv4_tcp_packet(256);
    let partial = make_ipv4_tcp_partial_checksum(&packet);
    let offload = VirtioNetHdr {
        flags: VIRTIO_NET_HDR_F_NEEDS_CSUM,
        gso_type: VIRTIO_NET_HDR_GSO_NONE,
        hdr_len: 0,
        gso_size: 0,
        csum_start: 20,
        csum_offset: 16,
        num_buffers: 0,
    };

    let packets =
        materialize_offload_packet(&offload, &partial).expect("materialize checksum metadata");
    assert_eq!(packets.len(), 1);
    assert_eq!(packets[0], packet);
    assert_tcp_checksum_valid(&packets[0]);
}

#[test]
fn test_materialize_data_valid_offload_strips_metadata() {
    let packet = build_ipv4_tcp_packet(32);
    let offload = VirtioNetHdr {
        flags: VIRTIO_NET_HDR_F_DATA_VALID,
        gso_type: VIRTIO_NET_HDR_GSO_NONE,
        hdr_len: 0,
        gso_size: 0,
        csum_start: 20,
        csum_offset: 16,
        num_buffers: 0,
    };

    let packets =
        materialize_offload_packet(&offload, &packet).expect("strip validated metadata");
    assert_eq!(packets, vec![packet]);
}

#[test]
fn test_segment_tcp_gso_ipv4() {
    let packet = build_ipv4_tcp_packet(3500);
    let offload = VirtioNetHdr {
        flags: 0,
        gso_type: VIRTIO_NET_HDR_GSO_TCPV4,
        hdr_len: 40,
        gso_size: 1200,
        csum_start: 20,
        csum_offset: 16,
        num_buffers: 0,
    };

    let segments = segment_tcp_gso_packet(&offload, &packet).expect("segment IPv4 packet");
    assert_eq!(segments.len(), 3);

    for (idx, segment) in segments.iter().enumerate() {
        assert_tcp_checksum_valid(segment);

        let headers = PacketHeaders::from_ip_slice(segment).expect("segment parses");
        let tcp = match headers.transport {
            Some(TransportHeader::Tcp(t)) => t,
            _ => panic!("not tcp"),
        };

        if idx < 2 {
            assert!(!tcp.fin, "FIN must be cleared in non-last segments");
            assert!(!tcp.psh, "PSH must be cleared in non-last segments");
        } else {
            assert!(tcp.fin, "FIN should remain set in last segment");
            assert!(tcp.psh, "PSH should remain set in last segment");
        }
    }
}

#[test]
fn test_segment_tcp_gso_ipv6() {
    let packet = build_ipv6_tcp_packet(2600);
    let offload = VirtioNetHdr {
        flags: 0,
        gso_type: VIRTIO_NET_HDR_GSO_TCPV6,
        hdr_len: 60,
        gso_size: 1000,
        csum_start: 40,
        csum_offset: 16,
        num_buffers: 0,
    };

    let segments = segment_tcp_gso_packet(&offload, &packet).expect("segment IPv6 packet");
    assert_eq!(segments.len(), 3);

    for segment in segments {
        assert_tcp_checksum_valid(&segment);
        assert_eq!(segment[0] >> 4, 6);
    }
}

#[test]
fn test_segment_tcp_gso_single_segment_completes_checksum() {
    // A NEEDS_CSUM GSO packet whose payload fits in a single segment must
    // still have its partial pseudo-header checksum completed instead of
    // being emitted as-is.
    let packet = build_ipv4_tcp_packet(800);
    let partial = make_ipv4_tcp_partial_checksum(&packet);
    let offload = VirtioNetHdr {
        flags: VIRTIO_NET_HDR_F_NEEDS_CSUM,
        gso_type: VIRTIO_NET_HDR_GSO_TCPV4,
        hdr_len: 40,
        gso_size: 1200,
        csum_start: 20,
        csum_offset: 16,
        num_buffers: 0,
    };

    let segments = segment_tcp_gso_packet(&offload, &partial).expect("segment");
    assert_eq!(segments.len(), 1);
    assert_eq!(segments[0], packet);
    assert_tcp_checksum_valid(&segments[0]);
}

#[test]
fn test_segment_tcp_gso_into_scratch_reuse() {
    // Streaming output must match the collecting wrapper, including when
    // the scratch buffer is reused across packets of different sizes.
    let offload = VirtioNetHdr {
        flags: 0,
        gso_type: VIRTIO_NET_HDR_GSO_TCPV4,
        hdr_len: 40,
        gso_size: 1200,
        csum_start: 20,
        csum_offset: 16,
        num_buffers: 0,
    };

    let mut scratch = Vec::new();
    for payload_len in [3500, 800, 2401] {
        let packet = build_ipv4_tcp_packet(payload_len);
        let expected = segment_tcp_gso_packet(&offload, &packet).expect("segment");

        let mut streamed = Vec::new();
        segment_tcp_gso_into(&offload, &packet, &mut scratch, |seg| {
            streamed.push(seg.to_vec());
            Ok(())
        })
        .expect("segment into");

        assert_eq!(streamed, expected, "payload_len={}", payload_len);
    }
}

#[test]
fn test_segment_tcp_gso_into_emit_error_short_circuits() {
    let packet = build_ipv4_tcp_packet(3500);
    let offload = VirtioNetHdr {
        flags: 0,
        gso_type: VIRTIO_NET_HDR_GSO_TCPV4,
        hdr_len: 40,
        gso_size: 1200,
        csum_start: 20,
        csum_offset: 16,
        num_buffers: 0,
    };

    let mut scratch = Vec::new();
    let mut emitted = 0usize;
    let err = segment_tcp_gso_into(&offload, &packet, &mut scratch, |_| {
        emitted += 1;
        if emitted == 2 {
            Err("stop".to_string())
        } else {
            Ok(())
        }
    })
    .expect_err("emit error propagates");
    assert_eq!(err, "stop");
    assert_eq!(emitted, 2, "segmentation stops after emit error");
}

#[test]
fn test_materialize_offload_into_checksum_only() {
    let packet = build_ipv4_tcp_packet(400);
    let partial = make_ipv4_tcp_partial_checksum(&packet);
    let offload = VirtioNetHdr {
        flags: VIRTIO_NET_HDR_F_NEEDS_CSUM,
        gso_type: VIRTIO_NET_HDR_GSO_NONE,
        hdr_len: 0,
        gso_size: 0,
        csum_start: 20,
        csum_offset: 16,
        num_buffers: 0,
    };

    let expected = complete_checksum_offload_packet(&offload, &partial).expect("complete");

    let mut scratch = Vec::new();
    let mut streamed = Vec::new();
    materialize_offload_into(&offload, &partial, &mut scratch, |pkt| {
        streamed.push(pkt.to_vec());
        Ok(())
    })
    .expect("materialize into");

    assert_eq!(streamed.len(), 1);
    assert_eq!(streamed[0], expected);
    assert_tcp_checksum_valid(&streamed[0]);
}

#[test]
fn test_materialize_offload_into_no_checksum_passthrough() {
    // No NEEDS_CSUM: the packet must be emitted unchanged with no copy
    // into scratch.
    let packet = build_ipv4_tcp_packet(200);
    let offload = VirtioNetHdr {
        flags: 0,
        gso_type: VIRTIO_NET_HDR_GSO_NONE,
        hdr_len: 0,
        gso_size: 0,
        csum_start: 0,
        csum_offset: 0,
        num_buffers: 0,
    };

    let mut scratch = Vec::new();
    let mut streamed = Vec::new();
    materialize_offload_into(&offload, &packet, &mut scratch, |pkt| {
        streamed.push(pkt.to_vec());
        Ok(())
    })
    .expect("materialize into");

    assert_eq!(streamed, vec![packet]);
    assert!(scratch.is_empty(), "passthrough must not touch scratch");
}

#[test]
fn test_gro_roundtrip_ipv4_exact_multiple() {
    // 3 x 1200-byte segments, PSH on the last closes the group.
    let total: Vec<u8> = (0..3600).map(|v| (v % 251) as u8).collect();
    let segments = build_gro_flow(&total, 1200, false);
    assert_eq!(segments.len(), 3);
    assert_gro_roundtrip(&segments, 1200, false);
}

#[test]
fn test_gro_roundtrip_ipv4_short_tail() {
    // 1200 + 1200 + 600: the short tail closes the group without PSH help.
    let total: Vec<u8> = (0..3000).map(|v| (v % 251) as u8).collect();
    let mut segments = build_gro_flow(&total, 1200, false);
    // Strip PSH from the last segment and fix its checksum to prove the
    // short tail alone finalizes the group.
    let last = segments.last_mut().expect("segments");
    last[20 + 13] &= !TCP_FLAG_PSH;
    last[20 + 16] = 0;
    last[20 + 17] = 0;
    let checksum = tcp_checksum_ipv4(last, 20).expect("checksum");
    last[20 + 16..20 + 18].copy_from_slice(&checksum.to_be_bytes());

    assert_gro_roundtrip(&segments, 1200, false);
}

#[test]
fn test_gro_roundtrip_ipv6() {
    let total: Vec<u8> = (0..2600).map(|v| (v % 253) as u8).collect();
    let segments = build_gro_flow(&total, 1000, true);
    assert_eq!(segments.len(), 3);
    assert_gro_roundtrip(&segments, 1000, true);
}

#[test]
fn test_gro_flush_all_emits_open_group() {
    // Uniform segments without PSH stay pending until flushed.
    let total: Vec<u8> = (0..2400).map(|v| (v % 251) as u8).collect();
    let segments: Vec<Vec<u8>> = total
        .chunks(1200)
        .enumerate()
        .map(|(i, chunk)| build_gro_segment_v4(10_000 + (i * 1200) as u32, chunk, false, false))
        .collect();

    let mut table = TcpGroTable::new();
    let outputs = push_all(&mut table, &segments);
    assert!(outputs.is_empty(), "open group must not emit early");
    assert!(!table.is_empty());

    let flushed = table.flush_all();
    assert_eq!(flushed.len(), 1);
    assert!(matches!(flushed[0], CoalescedOutput::Coalesced(_, _)));
    assert!(table.is_empty());
}

#[test]
fn test_gro_flush_all_drains_groups_in_insertion_order() {
    let mut table = TcpGroTable::new();

    // Three distinct flows pushed in a known order; flush_all must emit them
    // oldest-first (by creation/insertion order).
    let mut first = build_gro_segment_v4(10_000, &[0x11; 100], false, false);
    set_gro_segment_source_port_v4(&mut first, 40_000);
    let mut second = build_gro_segment_v4(20_000, &[0x22; 100], false, false);
    set_gro_segment_source_port_v4(&mut second, 40_001);
    let mut third = build_gro_segment_v4(30_000, &[0x33; 100], false, false);
    set_gro_segment_source_port_v4(&mut third, 40_002);

    assert!(push_owned(&mut table, &first).is_empty());
    assert!(push_owned(&mut table, &second).is_empty());
    assert!(push_owned(&mut table, &third).is_empty());

    let flushed = table.flush_all();
    assert_eq!(flushed.len(), 3);
    assert_eq!(gro_output_source_port_v4(&flushed[0]), 40_000);
    assert_eq!(gro_output_source_port_v4(&flushed[1]), 40_001);
    assert_eq!(gro_output_source_port_v4(&flushed[2]), 40_002);
    assert!(table.is_empty());
}

#[test]
fn test_gro_single_segment_group_emits_plain_packet() {
    let segment = build_gro_segment_v4(10_000, &[0xaa; 1200], false, false);
    let mut table = TcpGroTable::new();
    assert!(push_owned(&mut table, &segment).is_empty());

    let flushed = table.flush_all();
    assert_eq!(flushed.len(), 1);
    match &flushed[0] {
        CoalescedOutput::Single(packet) => assert_eq!(packet, &segment),
        other => panic!("expected single packet, got {:?}", other),
    }
}

#[test]
fn test_gro_seq_gap_finalizes_group() {
    let seg1 = build_gro_segment_v4(10_000, &[0x11; 1200], false, false);
    // Gap: expected next seq is 11_200.
    let seg2 = build_gro_segment_v4(11_300, &[0x22; 1200], false, false);

    let mut table = TcpGroTable::new();
    assert!(push_owned(&mut table, &seg1).is_empty());
    let outputs = push_owned(&mut table, &seg2);
    // The out-of-order segment finalizes the old group (emitted as a
    // plain single packet) and starts a new group.
    assert_eq!(outputs.len(), 1);
    match &outputs[0] {
        CoalescedOutput::Single(packet) => assert_eq!(packet, &seg1),
        other => panic!("expected single packet, got {:?}", other),
    }
    assert!(!table.is_empty());
}

#[test]
fn test_gro_non_uniform_middle_segment_finalizes() {
    // 1200, then short 600 (closes a 2-segment group), then 1200 (new group).
    let seg1 = build_gro_segment_v4(10_000, &[0x11; 1200], false, false);
    let seg2 = build_gro_segment_v4(11_200, &[0x22; 600], false, false);
    let seg3 = build_gro_segment_v4(11_800, &[0x33; 1200], false, false);

    let mut table = TcpGroTable::new();
    assert!(push_owned(&mut table, &seg1).is_empty());
    let outputs = push_owned(&mut table, &seg2);
    assert_eq!(outputs.len(), 1);
    assert!(matches!(outputs[0], CoalescedOutput::Coalesced(_, _)));

    assert!(push_owned(&mut table, &seg3).is_empty());
    let flushed = table.flush_all();
    assert_eq!(flushed.len(), 1);
    assert!(matches!(flushed[0], CoalescedOutput::Single(_)));
}

#[test]
fn test_gro_psh_mid_stream_closes_group() {
    let seg1 = build_gro_segment_v4(10_000, &[0x11; 1200], false, false);
    let seg2 = build_gro_segment_v4(11_200, &[0x22; 1200], true, false);
    let seg3 = build_gro_segment_v4(12_400, &[0x33; 1200], false, false);

    let mut table = TcpGroTable::new();
    assert!(push_owned(&mut table, &seg1).is_empty());
    let outputs = push_owned(&mut table, &seg2);
    assert_eq!(outputs.len(), 1);
    match &outputs[0] {
        CoalescedOutput::Coalesced(hdr, packet) => {
            // PSH carried into the coalesced header.
            assert_ne!(packet[20 + 13] & TCP_FLAG_PSH, 0);
            assert_eq!(usize::from(hdr.gso_size), 1200);
        }
        other => panic!("expected coalesced output, got {:?}", other),
    }
    // The next segment starts a fresh group; nothing coalesces after PSH.
    assert!(push_owned(&mut table, &seg3).is_empty());
    assert_eq!(table.flush_all().len(), 1);
}

#[test]
fn test_gro_syn_rst_urg_pass_through() {
    let mut table = TcpGroTable::new();

    for set_flag in [TCP_FLAG_SYN, TCP_FLAG_RST, TCP_FLAG_URG] {
        let mut segment = build_gro_segment_v4(10_000, &[0x11; 100], false, false);
        segment[20 + 13] |= set_flag;
        let outputs = push_owned(&mut table, &segment);
        assert_eq!(outputs.len(), 1, "flag 0x{:02x}", set_flag);
        assert!(
            matches!(&outputs[0], CoalescedOutput::Single(p) if p == &segment),
            "flag 0x{:02x} must pass through unchanged",
            set_flag
        );
        assert!(
            table.is_empty(),
            "flag 0x{:02x} must not create a group",
            set_flag
        );
    }
}

#[test]
fn test_gro_pure_ack_flushes_group_then_passes_through() {
    let seg1 = build_gro_segment_v4(10_000, &[0x11; 1200], false, false);
    let ack = build_gro_segment_v4(11_200, &[], false, false);

    let mut table = TcpGroTable::new();
    assert!(push_owned(&mut table, &seg1).is_empty());
    let outputs = push_owned(&mut table, &ack);
    // Pending same-flow data must be emitted before the pure ACK.
    assert_eq!(outputs.len(), 2);
    assert!(matches!(&outputs[0], CoalescedOutput::Single(p) if p == &seg1));
    assert!(matches!(&outputs[1], CoalescedOutput::Single(p) if p == &ack));
    assert!(table.is_empty());
}

#[test]
fn test_gro_non_tcp_pass_through() {
    // Minimal IPv4 UDP packet (proto 17), total length matching.
    let mut packet = vec![0u8; 28];
    packet[0] = 0x45;
    packet[2..4].copy_from_slice(&(28u16).to_be_bytes());
    packet[8] = 64;
    packet[9] = 17;

    let mut table = TcpGroTable::new();
    let outputs = push_owned(&mut table, &packet);
    assert_eq!(outputs.len(), 1);
    assert!(matches!(&outputs[0], CoalescedOutput::Single(p) if p == &packet));
    assert!(table.is_empty());
}

#[test]
fn test_gro_ipv4_fragment_pass_through() {
    let mut segment = build_gro_segment_v4(10_000, &[0x11; 1200], false, false);
    // Set the More Fragments flag.
    segment[6] |= 0x20;

    let mut table = TcpGroTable::new();
    let outputs = push_owned(&mut table, &segment);
    assert_eq!(outputs.len(), 1);
    assert!(matches!(&outputs[0], CoalescedOutput::Single(p) if p == &segment));
    assert!(table.is_empty());
}

#[test]
fn test_gro_interleaved_flows_coalesce_separately() {
    // Flow A: default test flow; flow B: different source port.
    let make_b = |seq: u32, payload: &[u8]| {
        let mut segment = build_gro_segment_v4(seq, payload, false, false);
        segment[20..22].copy_from_slice(&54_321u16.to_be_bytes());
        segment[20 + 16] = 0;
        segment[20 + 17] = 0;
        let checksum = tcp_checksum_ipv4(&segment, 20).expect("checksum");
        segment[20 + 16..20 + 18].copy_from_slice(&checksum.to_be_bytes());
        segment
    };

    let mut table = TcpGroTable::new();
    assert!(
        push_owned(
            &mut table,
            &build_gro_segment_v4(10_000, &[0x11; 1000], false, false)
        )
        .is_empty()
    );
    assert!(push_owned(&mut table, &make_b(20_000, &[0x22; 800])).is_empty());
    assert!(
        push_owned(
            &mut table,
            &build_gro_segment_v4(11_000, &[0x11; 1000], false, false)
        )
        .is_empty()
    );
    assert!(push_owned(&mut table, &make_b(20_800, &[0x22; 800])).is_empty());

    let flushed = table.flush_all();
    assert_eq!(flushed.len(), 2);
    for output in &flushed {
        match output {
            CoalescedOutput::Coalesced(hdr, packet) => {
                let mss = usize::from(hdr.gso_size);
                assert!(mss == 1000 || mss == 800);
                assert_eq!(packet.len(), 20 + 20 + 2 * mss);
            }
            other => panic!("expected coalesced output, got {:?}", other),
        }
    }
}

#[test]
fn test_gro_segment_count_cap_finalizes() {
    let mut table = TcpGroTable::new();
    let mut outputs = Vec::new();
    for i in 0..(MAX_GRO_SEGMENTS + 1) {
        let seq = 10_000u32.wrapping_add((i * 100) as u32);
        let segment = build_gro_segment_v4(seq, &[0x11; 100], false, false);
        outputs.extend(push_owned(&mut table, &segment));
    }
    // Segment MAX+1 exceeded the count cap: the full group was emitted
    // and a new group started.
    assert_eq!(outputs.len(), 1);
    match &outputs[0] {
        CoalescedOutput::Coalesced(hdr, packet) => {
            assert_eq!(packet.len(), 40 + MAX_GRO_SEGMENTS * 100);
            assert_eq!(usize::from(hdr.gso_size), 100);
        }
        other => panic!("expected coalesced output, got {:?}", other),
    }
    let flushed = table.flush_all();
    assert_eq!(flushed.len(), 1);
    assert!(matches!(flushed[0], CoalescedOutput::Single(_)));
}

#[test]
fn test_gro_size_cap_finalizes() {
    // 9000-byte payloads: 7 segments fit (40 + 63000 <= 65535), the 8th
    // would exceed the 64KB cap and must finalize the group.
    let mut table = TcpGroTable::new();
    let mut outputs = Vec::new();
    for i in 0..8u32 {
        let segment = build_gro_segment_v4(10_000 + i * 9000, &[0x11; 9000], false, false);
        outputs.extend(push_owned(&mut table, &segment));
    }
    assert_eq!(outputs.len(), 1);
    match &outputs[0] {
        CoalescedOutput::Coalesced(_, packet) => {
            assert_eq!(packet.len(), 40 + 7 * 9000);
            assert!(packet.len() <= MAX_GRO_PACKET_SIZE);
        }
        other => panic!("expected coalesced output, got {:?}", other),
    }
    assert_eq!(table.flush_all().len(), 1);
}

#[test]
fn test_gro_flow_cap_evicts_oldest() {
    let mut table = TcpGroTable::new();
    for i in 0..MAX_GRO_FLOWS {
        let mut segment = build_gro_segment_v4(10_000, &[0x11; 100], false, false);
        segment[20..22].copy_from_slice(&(40_000 + i as u16).to_be_bytes());
        assert!(push_owned(&mut table, &segment).is_empty());
    }

    // One more flow evicts the oldest group.
    let mut segment = build_gro_segment_v4(10_000, &[0x11; 100], false, false);
    segment[20..22].copy_from_slice(&60_000u16.to_be_bytes());
    let outputs = push_owned(&mut table, &segment);
    assert_eq!(outputs.len(), 1);
    match &outputs[0] {
        CoalescedOutput::Single(packet) => {
            assert_eq!(&packet[20..22], &40_000u16.to_be_bytes());
        }
        other => panic!("expected single packet, got {:?}", other),
    }
}

#[test]
fn test_gro_timestamp_option_carries_latest() {
    let build = |seq: u32, payload: &[u8], tsval: u32| {
        let mut tcp = etherparse::TcpHeader::new(12345, 443, seq, 65_535);
        tcp.ack = true;
        tcp.acknowledgment_number = 55_555;
        tcp.set_options(&[
            TcpOptionElement::Noop,
            TcpOptionElement::Noop,
            TcpOptionElement::Timestamp(tsval, 777),
        ])
        .expect("set options");

        let mut ip = Ipv4Header::new(
            (tcp.header_len() + payload.len()) as u16,
            64,
            IpNumber::TCP,
            [10, 0, 0, 2],
            [10, 0, 0, 1],
        )
        .expect("valid IPv4 header");
        tcp.checksum = tcp
            .calc_checksum_ipv4(&ip, payload)
            .expect("valid checksum");
        ip.header_checksum = ip.calc_header_checksum();

        let mut packet = Vec::new();
        ip.write(&mut packet).expect("serialize IPv4 header");
        tcp.write(&mut packet).expect("serialize TCP header");
        packet.extend_from_slice(payload);
        packet
    };

    let seg1 = build(10_000, &[0x11; 1000], 1_000);
    let seg2 = build(11_000, &[0x22; 1000], 1_001);

    let mut table = TcpGroTable::new();
    assert!(push_owned(&mut table, &seg1).is_empty());
    assert!(push_owned(&mut table, &seg2).is_empty());

    let flushed = table.flush_all();
    assert_eq!(flushed.len(), 1);
    match &flushed[0] {
        CoalescedOutput::Coalesced(_, packet) => {
            // Options: NOP NOP TS(kind 8, len 10, tsval, tsecr).
            let opts = &packet[40..52];
            assert_eq!(opts[0], TCP_OPT_NOP);
            assert_eq!(opts[1], TCP_OPT_NOP);
            assert_eq!(opts[2], TCP_OPT_TIMESTAMP);
            let tsval = u32::from_be_bytes([opts[4], opts[5], opts[6], opts[7]]);
            assert_eq!(tsval, 1_001, "latest TSval must be carried");
        }
        other => panic!("expected coalesced output, got {:?}", other),
    }
}

#[test]
fn test_gro_differing_ack_finalizes_group() {
    let seg1 = build_gro_segment_v4(10_000, &[0x11; 1000], false, false);
    let mut seg2 = build_gro_segment_v4(11_000, &[0x22; 1000], false, false);
    // Bump the ack number and fix the checksum.
    seg2[20 + 8..20 + 12].copy_from_slice(&66_666u32.to_be_bytes());
    seg2[20 + 16] = 0;
    seg2[20 + 17] = 0;
    let checksum = tcp_checksum_ipv4(&seg2, 20).expect("checksum");
    seg2[20 + 16..20 + 18].copy_from_slice(&checksum.to_be_bytes());

    let mut table = TcpGroTable::new();
    assert!(push_owned(&mut table, &seg1).is_empty());
    let outputs = push_owned(&mut table, &seg2);
    assert_eq!(outputs.len(), 1);
    assert!(matches!(&outputs[0], CoalescedOutput::Single(p) if p == &seg1));
    assert!(!table.is_empty());
}

// -----------------------------------------------------------------------
// Write-side GRO coalescing (plan_tun_write_groups /
// assemble_tcp_gso_superframe)
// -----------------------------------------------------------------------

/// Build a pure-data TCP segment (ACK only, no options) suitable for
/// coalescing, with valid checksums.
fn build_data_segment(ipv6: bool, src_port: u16, seq: u32, payload_len: usize) -> Bytes {
    build_data_segment_with_options(ipv6, src_port, seq, payload_len, &[])
}

/// Same as [`build_data_segment`] but with explicit TCP options.
fn build_data_segment_with_options(
    ipv6: bool,
    src_port: u16,
    seq: u32,
    payload_len: usize,
    options: &[etherparse::TcpOptionElement],
) -> Bytes {
    // Derive payload bytes from the sequence number so each segment's
    // payload is distinguishable.
    let payload: Vec<u8> = (0..payload_len)
        .map(|v| ((v as u32).wrapping_add(seq) % 251) as u8)
        .collect();

    let mut tcp = etherparse::TcpHeader::new(src_port, 443, seq, 65_535);
    tcp.ack = true;
    tcp.acknowledgment_number = 0x1122_3344;
    tcp.set_options(options).expect("valid TCP options");

    let mut packet = Vec::new();
    if ipv6 {
        let ip = Ipv6Header {
            traffic_class: 0,
            flow_label: etherparse::Ipv6FlowLabel::ZERO,
            payload_length: u16::try_from(tcp.header_len() + payload.len())
                .expect("IPv6 payload length fits in u16"),
            next_header: IpNumber::TCP,
            hop_limit: 64,
            source: [0xfd, 0, 0, 0, 0, 0, 0, 0, 0, 0, 0, 0, 0, 0, 0, 2],
            destination: [0xfd, 0, 0, 0, 0, 0, 0, 0, 0, 0, 0, 0, 0, 0, 0, 1],
        };
        tcp.checksum = tcp
            .calc_checksum_ipv6(&ip, &payload)
            .expect("valid IPv6 TCP checksum");
        ip.write(&mut packet).expect("serialize IPv6 header");
    } else {
        let mut ip = Ipv4Header::new(
            (tcp.header_len() + payload.len()) as u16,
            64,
            IpNumber::TCP,
            [10, 0, 0, 2],
            [10, 0, 0, 1],
        )
        .expect("valid IPv4 header");
        tcp.checksum = tcp
            .calc_checksum_ipv4(&ip, &payload)
            .expect("valid IPv4 TCP checksum");
        ip.header_checksum = ip.calc_header_checksum();
        ip.write(&mut packet).expect("serialize IPv4 header");
    }
    tcp.write(&mut packet).expect("serialize TCP header");
    packet.extend_from_slice(&payload);
    Bytes::from(packet)
}

/// Build a contiguous run of equal-size segments for one flow.
fn build_run(ipv6: bool, src_port: u16, base_seq: u32, sizes: &[usize]) -> Vec<Bytes> {
    let mut seq = base_seq;
    sizes
        .iter()
        .map(|&len| {
            let seg = build_data_segment(ipv6, src_port, seq, len);
            seq = seq.wrapping_add(len as u32);
            seg
        })
        .collect()
}

fn plan(batch: &[Bytes]) -> Vec<(usize, usize, bool)> {
    let mut out = Vec::new();
    plan_tun_write_groups(batch, &mut out);
    out
}

#[test]
fn test_plan_groups_coalesces_contiguous_run() {
    let batch = build_run(false, 12345, 10_000, &[1000, 1000, 1000]);
    assert_eq!(plan(&batch), vec![(0, 3, true)]);
}

#[test]
fn test_plan_groups_last_smaller_closes_run() {
    // The short third segment is accepted as the final member; the
    // following full-size segment starts a new (singleton) group.
    let batch = build_run(false, 12345, 10_000, &[1000, 1000, 500, 1000]);
    assert_eq!(plan(&batch), vec![(0, 3, true), (3, 4, false)]);
}

#[test]
fn test_plan_groups_splits_on_seq_gap() {
    let mut batch = build_run(false, 12345, 10_000, &[1000, 1000]);
    // Third segment leaves a 1-byte hole in the sequence space.
    batch.push(build_data_segment(false, 12345, 12_001, 1000));
    assert_eq!(plan(&batch), vec![(0, 2, true), (2, 3, false)]);
}

#[test]
fn test_plan_groups_splits_on_size_increase() {
    // A larger follow-up segment cannot join (non-final members must
    // match the first segment's size).
    let small = build_data_segment(false, 12345, 10_000, 500);
    let large = build_data_segment(false, 12345, 10_500, 1000);
    assert_eq!(plan(&[small, large]), vec![(0, 1, false), (1, 2, false)]);
}

#[test]
fn test_plan_groups_interleaved_flows_are_singletons() {
    let a = build_run(false, 1111, 10_000, &[800, 800]);
    let b = build_run(false, 2222, 50_000, &[800, 800]);
    let batch = vec![a[0].clone(), b[0].clone(), a[1].clone(), b[1].clone()];
    assert_eq!(
        plan(&batch),
        vec![(0, 1, false), (1, 2, false), (2, 3, false), (3, 4, false)]
    );
}

#[test]
fn test_plan_groups_non_tcp_splits_run() {
    let run = build_run(false, 12345, 10_000, &[1000, 1000, 1000, 1000]);
    // Turn the third segment into UDP (protocol byte only; the length
    // fields stay consistent).
    let mut udp = run[2].to_vec();
    udp[9] = 17;
    let batch = vec![
        run[0].clone(),
        run[1].clone(),
        Bytes::from(udp),
        run[3].clone(),
    ];
    assert_eq!(
        plan(&batch),
        vec![(0, 2, true), (2, 3, false), (3, 4, false)]
    );
}

#[test]
fn test_plan_groups_never_merges_across_ip_versions() {
    let mut batch = build_run(false, 12345, 10_000, &[700, 700]);
    batch.extend(build_run(true, 12345, 90_000, &[700, 700]));
    assert_eq!(plan(&batch), vec![(0, 2, true), (2, 4, true)]);
}

#[test]
fn test_plan_groups_rejects_flagged_segments() {
    let run = build_run(false, 12345, 10_000, &[600, 600, 600]);
    // Set FIN on the middle segment.
    let mut finned = run[1].to_vec();
    finned[20 + 13] |= 0x01;
    let batch = vec![run[0].clone(), Bytes::from(finned), run[2].clone()];
    assert_eq!(
        plan(&batch),
        vec![(0, 1, false), (1, 2, false), (2, 3, false)]
    );
}

#[test]
fn test_plan_groups_rejects_ecn_marked_segments() {
    let run = build_run(false, 12345, 10_000, &[600, 600]);
    let mut ecn = run[1].to_vec();
    ecn[1] |= 0x01; // ECT(1) in the ToS byte
    let batch = vec![run[0].clone(), Bytes::from(ecn)];
    assert_eq!(plan(&batch), vec![(0, 1, false), (1, 2, false)]);
}

#[test]
fn test_plan_groups_rejects_fragments_options_and_ext_headers() {
    let v4 = build_data_segment(false, 12345, 10_000, 600);

    let mut fragment = v4.to_vec();
    fragment[6] |= 0x20; // more-fragments flag
    assert_eq!(plan(&[Bytes::from(fragment)]), vec![(0, 1, false)]);

    let mut with_options = v4.to_vec();
    with_options[0] = 0x46; // IHL = 6 (IP options present)
    assert_eq!(plan(&[Bytes::from(with_options)]), vec![(0, 1, false)]);

    let v6 = build_data_segment(true, 12345, 10_000, 600);
    let mut ext_header = v6.to_vec();
    ext_header[6] = 0; // hop-by-hop extension header
    assert_eq!(plan(&[Bytes::from(ext_header)]), vec![(0, 1, false)]);
}

#[test]
fn test_plan_groups_splits_on_differing_ack() {
    let run = build_run(false, 12345, 10_000, &[600, 600]);
    let mut acked = run[1].to_vec();
    acked[20 + 8] ^= 0xff; // change the ACK number
    let batch = vec![run[0].clone(), Bytes::from(acked)];
    assert_eq!(plan(&batch), vec![(0, 1, false), (1, 2, false)]);
}

#[test]
fn test_plan_groups_coalesces_identical_options_and_splits_on_mismatch() {
    // Segments from one read-side GSO burst share identical option
    // bytes (including timestamps) — they must coalesce.
    let ts = etherparse::TcpOptionElement::Timestamp(123, 456);
    let a =
        build_data_segment_with_options(false, 12345, 10_000, 600, std::slice::from_ref(&ts));
    let b = build_data_segment_with_options(false, 12345, 10_600, 600, &[ts]);
    assert_eq!(plan(&[a.clone(), b]), vec![(0, 2, true)]);

    // Differing timestamp values must split.
    let ts2 = etherparse::TcpOptionElement::Timestamp(124, 456);
    let c = build_data_segment_with_options(false, 12345, 10_600, 600, &[ts2]);
    assert_eq!(plan(&[a, c]), vec![(0, 1, false), (1, 2, false)]);
}

#[test]
fn test_plan_groups_caps_merged_size() {
    // Three 30000-byte segments: the third would push the merged IP
    // length past u16::MAX, so the group closes after two.
    let batch = build_run(false, 12345, 10_000, &[30_000, 30_000, 30_000]);
    assert_eq!(plan(&batch), vec![(0, 2, true), (2, 3, false)]);
}

#[test]
fn test_plan_groups_empty_and_singleton_batches() {
    assert_eq!(plan(&[]), vec![]);
    let single = build_data_segment(false, 12345, 10_000, 600);
    assert_eq!(plan(&[single]), vec![(0, 1, false)]);
}

/// Round-trip helper: assemble a super-frame from `segments`, validate
/// the virtio metadata, then re-segment with the read-side segmenter
/// (which performs the same finalization the kernel does) and assert the
/// output reproduces the original segments byte-for-byte.
fn assert_superframe_roundtrip(segments: &[Bytes], ipv6: bool, expected_gso_size: u16) {
    let mut out = BytesMut::new();
    assemble_tcp_gso_superframe(&mut out, segments).expect("assemble super-frame");

    let hdr = VirtioNetHdr::from_bytes(&out[..VIRTIO_NET_HDR_LEN]).expect("virtio header");
    let ip_header_len: u16 = if ipv6 { 40 } else { 20 };
    assert_eq!(hdr.flags, VIRTIO_NET_HDR_F_NEEDS_CSUM);
    assert_eq!(
        hdr.gso_type,
        if ipv6 {
            VIRTIO_NET_HDR_GSO_TCPV6
        } else {
            VIRTIO_NET_HDR_GSO_TCPV4
        }
    );
    assert_eq!(hdr.csum_start, ip_header_len);
    assert_eq!(hdr.csum_offset, 16);
    assert_eq!(hdr.gso_size, expected_gso_size);
    let tcp_header_len =
        usize::from(out[VIRTIO_NET_HDR_LEN + usize::from(ip_header_len) + 12] >> 4) * 4;
    assert_eq!(hdr.hdr_len, ip_header_len + tcp_header_len as u16);

    let ip_frame = &out[VIRTIO_NET_HDR_LEN..];
    let expected_len: usize = usize::from(hdr.hdr_len)
        + segments
            .iter()
            .map(|s| s.len() - usize::from(hdr.hdr_len))
            .sum::<usize>();
    assert_eq!(ip_frame.len(), expected_len);
    if !ipv6 {
        // The rewritten IPv4 header must carry the merged total length
        // and a valid header checksum.
        let ip = Ipv4Header::from_slice(ip_frame)
            .expect("IPv4 header parses")
            .0;
        assert_eq!(usize::from(ip.total_len), ip_frame.len());
        assert_eq!(ip.header_checksum, ip.calc_header_checksum());
    } else {
        let payload_len = u16::from_be_bytes([ip_frame[4], ip_frame[5]]);
        assert_eq!(usize::from(payload_len), ip_frame.len() - 40);
    }

    let resegmented = segment_tcp_gso_packet(&hdr, ip_frame).expect("re-segment");
    assert_eq!(resegmented.len(), segments.len());
    for (output, original) in resegmented.iter().zip(segments) {
        assert_eq!(output.as_slice(), original.as_ref());
        assert_tcp_checksum_valid(output);
    }
}

#[test]
fn test_assemble_superframe_roundtrip_ipv4() {
    let segments = build_run(false, 12345, 10_000, &[1000, 1000, 1000]);
    assert_superframe_roundtrip(&segments, false, 1000);
}

#[test]
fn test_assemble_superframe_roundtrip_ipv6() {
    let segments = build_run(true, 12345, 70_000, &[900, 900, 900, 900]);
    assert_superframe_roundtrip(&segments, true, 900);
}

#[test]
fn test_assemble_superframe_roundtrip_last_smaller() {
    let segments = build_run(false, 12345, 10_000, &[1200, 1200, 333]);
    assert_superframe_roundtrip(&segments, false, 1200);
}

#[test]
fn test_assemble_superframe_roundtrip_with_options() {
    let ts = etherparse::TcpOptionElement::Timestamp(7, 9);
    let a =
        build_data_segment_with_options(false, 12345, 10_000, 640, std::slice::from_ref(&ts));
    let b = build_data_segment_with_options(false, 12345, 10_640, 640, &[ts]);
    assert_superframe_roundtrip(&[a, b], false, 640);
}

#[test]
fn test_assemble_superframe_scratch_reuse() {
    // The same output buffer must produce independent, correct frames
    // across runs of different sizes.
    let mut out = BytesMut::new();

    let large = build_run(false, 12345, 10_000, &[1400, 1400, 1400]);
    assemble_tcp_gso_superframe(&mut out, &large).expect("assemble large");
    let large_frame = out.to_vec();

    let small = build_run(false, 12345, 90_000, &[300, 300]);
    assemble_tcp_gso_superframe(&mut out, &small).expect("assemble small");
    assert_eq!(
        out.len(),
        VIRTIO_NET_HDR_LEN + 40 + 600,
        "small frame must not retain bytes from the larger previous frame"
    );

    assemble_tcp_gso_superframe(&mut out, &large).expect("assemble large again");
    assert_eq!(out.to_vec(), large_frame);
}

#[test]
fn test_assemble_superframe_rejects_invalid_input() {
    let single = build_run(false, 12345, 10_000, &[500]);
    let mut out = BytesMut::new();
    assert!(assemble_tcp_gso_superframe(&mut out, &single).is_err());
    assert!(assemble_tcp_gso_superframe(&mut out, &[]).is_err());
}
