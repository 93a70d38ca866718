use bytes::{Bytes, BytesMut};
use ezvpn::cut::{capped_of, cut_header_of, tcp_data_of};
use ezvpn::datagram::{
    build_datagrams, build_gro_datagrams, classify, encode_server_addrs_datagram, open_datagram,
    tun_writes, Datagram, Opened,
};
use ezvpn::gro::CoalescedOutput;
use ezvpn::packet::{extract_udp_ports, packet_has_local_iroh_udp_port};
use ezvpn::segment::segment_tcp_gso_packet;
use ezvpn::tunnel::{
    plan_write_runs, send_stops, take_datagram, tunnel_ended, DatagramSent, Inbound, Outbound,
    OutboundPath, ReadMode, TaskEnd, TunWriteFailures, TunnelTask, WriteRun,
    MAX_TUN_WRITE_FAILURES,
};
use ezvpn::virtio::{VirtioNetHdr, VIRTIO_NET_HDR_LEN};
use ezvpn::vpn_error::VpnError;
use std::collections::HashSet;

fn gso_header(gso_size: u16) -> VirtioNetHdr {
    VirtioNetHdr {
        flags: 1,
        gso_type: 1,
        hdr_len: 40,
        gso_size,
        csum_start: 20,
        csum_offset: 16,
        num_buffers: 0,
    }
}

fn tcp_packet(seq: u32, payload: &[u8]) -> Vec<u8> {
    let mut p = vec![0u8; 40];
    p.extend_from_slice(payload);
    p[0] = 0x45;
    let len = p.len() as u16;
    p[2..4].copy_from_slice(&len.to_be_bytes());
    p[8] = 64;
    p[9] = 6;
    p[12..16].copy_from_slice(&[10, 0, 0, 2]);
    p[16..20].copy_from_slice(&[10, 0, 0, 1]);
    p[20..22].copy_from_slice(&1234u16.to_be_bytes());
    p[22..24].copy_from_slice(&443u16.to_be_bytes());
    p[24..28].copy_from_slice(&seq.to_be_bytes());
    p[32] = 0x50;
    p[33] = 0x10;
    p
}

fn udp_packet(v6: bool, src: u16, dst: u16) -> Vec<u8> {
    let (mut p, at) = if v6 { (vec![0u8; 48], 40) } else { (vec![0u8; 28], 20) };
    if v6 {
        p[0] = 0x60;
        p[6] = 17;
    } else {
        p[0] = 0x45;
        p[9] = 17;
    }
    p[at..at + 2].copy_from_slice(&src.to_be_bytes());
    p[at + 2..at + 4].copy_from_slice(&dst.to_be_bytes());
    p
}

#[test]
fn udp_ports_are_read() {
    assert_eq!(extract_udp_ports(&udp_packet(false, 53, 4433)), Some((53, 4433)));
    assert_eq!(extract_udp_ports(&udp_packet(true, 53, 4433)), Some((53, 4433)));
    let mut options = udp_packet(false, 53, 4433);
    options[0] = 0x46;
    assert_eq!(extract_udp_ports(&options), None, "cut off by the longer header");
    options.extend_from_slice(&[0, 7, 0, 8]);
    assert_eq!(extract_udp_ports(&options[..28]), None);
    assert_eq!(extract_udp_ports(&options), Some((0, 0)));
    let mut short_ihl = udp_packet(false, 53, 4433);
    short_ihl[0] = 0x44;
    assert_eq!(extract_udp_ports(&short_ihl), None);
    let mut tcp = udp_packet(false, 53, 4433);
    tcp[9] = 6;
    assert_eq!(extract_udp_ports(&tcp), None);
    let mut ext = udp_packet(true, 53, 4433);
    ext[6] = 0;
    assert_eq!(extract_udp_ports(&ext), None);
    assert_eq!(extract_udp_ports(&[0x45; 19]), None);
    assert_eq!(extract_udp_ports(&[0x55; 48]), None);
}

#[test]
fn own_transport_is_told_by_its_ports() {
    let ports = HashSet::from([4433u16, 4434]);
    assert!(packet_has_local_iroh_udp_port(&udp_packet(false, 4433, 1), &ports));
    assert!(packet_has_local_iroh_udp_port(&udp_packet(true, 1, 4434), &ports));
    assert!(!packet_has_local_iroh_udp_port(&udp_packet(false, 1, 2), &ports));
    assert!(!packet_has_local_iroh_udp_port(&udp_packet(false, 4433, 1), &HashSet::new()));
    assert!(!packet_has_local_iroh_udp_port(&tcp_packet(1, &[0; 8]), &ports));
}

#[test]
fn datagrams_are_told_by_their_first_byte() {
    assert!(matches!(classify(&[0, 1, 2]), Ok(Datagram::Ip([1, 2]))));
    assert!(matches!(classify(&[1, 5]), Ok(Datagram::ServerAddrs([5]))));
    assert_eq!(classify(&[]).unwrap_err().message(), "Empty datagram");
    assert_eq!(classify(&[2]).unwrap_err().message(), "Unknown datagram message type: 0x02");
}

#[test]
fn packets_are_framed_and_opened() {
    let mut arena = BytesMut::new();
    let mut pending = Vec::new();
    let packet = tcp_packet(1, &[7; 30]);
    build_datagrams(&mut arena, &mut pending, None, &packet, false, 100).unwrap();
    assert_eq!(pending.len(), 1);
    assert_eq!(&pending[0][..2], &[0, 0]);
    assert_eq!(&pending[0][2..], &packet[..]);
    match open_datagram(&pending[0]) {
        Opened::Packet { offload, at } => {
            assert!(offload.is_none());
            assert_eq!(at, 2);
        }
        other => panic!("expected a packet, got {:?}", other),
    }
    match open_datagram(&Bytes::from_static(&[1, 9, 9])) {
        Opened::ServerAddrs(body) => assert_eq!(&body[..], &[9, 9]),
        other => panic!("expected addresses, got {:?}", other),
    }
    match open_datagram(&Bytes::from_static(&[0, 0])) {
        Opened::Refused(e) => assert_eq!(e.message(), "IP frame payload too short: 1 bytes"),
        other => panic!("expected a refusal, got {:?}", other),
    }
}

#[test]
fn offloaded_packets_go_whole_or_in_segments() {
    let packet = tcp_packet(1000, &[7; 3000]);
    let hdr = gso_header(1200);
    let segments = segment_tcp_gso_packet(&hdr, &packet).unwrap();
    assert_eq!(segments.len(), 3);
    let mut arena = BytesMut::new();

    let mut whole = Vec::new();
    build_datagrams(&mut arena, &mut whole, Some(hdr), &packet, true, 4000).unwrap();
    assert_eq!(whole.len(), 1);
    assert_eq!(whole[0].len(), 2 + VIRTIO_NET_HDR_LEN + packet.len());

    for (gso_active, max) in [(false, 4000), (true, 1400)] {
        let mut parts = Vec::new();
        build_datagrams(&mut arena, &mut parts, Some(hdr), &packet, gso_active, max).unwrap();
        assert_eq!(parts.len(), 3);
        for (part, segment) in parts.iter().zip(&segments) {
            assert_eq!(&part[2..], &segment[..]);
        }
    }

    // What arrives is the same either way, on a device that takes no metadata.
    let (offload, at) = match open_datagram(&whole[0]) {
        Opened::Packet { offload, at } => (offload, at),
        other => panic!("expected a packet, got {:?}", other),
    };
    assert_eq!(offload, Some(hdr));
    let writes = tun_writes(&whole[0], offload, at, false, &mut arena).unwrap();
    assert_eq!(writes.len(), 3);
    for (write, segment) in writes.iter().zip(&segments) {
        assert_eq!(&write.packet[..], &segment[..]);
        assert!(write.offload.is_none());
    }
    let kept = tun_writes(&whole[0], offload, at, true, &mut arena).unwrap();
    assert_eq!(kept.len(), 1);
    assert_eq!(&kept[0].packet[..], &packet[..]);
    assert_eq!(kept[0].offload, Some(hdr));
}

#[test]
fn framing_errors_add_nothing() {
    let mut arena = BytesMut::new();
    let mut pending = Vec::new();
    let mut hdr = gso_header(1200);
    hdr.gso_type = 7;
    let err =
        build_datagrams(&mut arena, &mut pending, Some(hdr), &tcp_packet(1, &[0; 9]), false, 100)
            .unwrap_err();
    assert_eq!(err, "unsupported GSO type from offload metadata: 0x07");
    assert!(pending.is_empty());
}

#[test]
fn outputs_are_framed_in_order() {
    let mut arena = BytesMut::new();
    let mut pending = Vec::new();
    let single = tcp_packet(1, &[1; 10]);
    let big = tcp_packet(5, &[2; 3000]);
    let outputs = [
        CoalescedOutput::Single(single.clone()),
        CoalescedOutput::Coalesced(gso_header(1500), big),
    ];
    build_gro_datagrams(&mut arena, &mut pending, &outputs, 2000).unwrap();
    assert_eq!(pending.len(), 3);
    assert_eq!(&pending[0][2..], &single[..]);
    assert_eq!(pending[1].len(), 2 + 40 + 1500);

    let mut bad = gso_header(1500);
    bad.hdr_len = 0;
    let outputs = [CoalescedOutput::Coalesced(bad, tcp_packet(5, &[2; 3000]))];
    assert!(build_gro_datagrams(&mut arena, &mut pending, &outputs, 2000).is_err());
}

#[test]
fn outputs_before_an_error_stay_framed() {
    let mut arena = BytesMut::new();
    let mut pending = vec![Bytes::from_static(b"earlier")];
    let first = tcp_packet(1, &[7; 10]);
    let mut bad = gso_header(1500);
    bad.hdr_len = 0;
    let outputs = [
        CoalescedOutput::Single(first.clone()),
        CoalescedOutput::Coalesced(bad, tcp_packet(5, &[2; 3000])),
        CoalescedOutput::Single(tcp_packet(9, &[8; 10])),
    ];
    assert!(build_gro_datagrams(&mut arena, &mut pending, &outputs, 2000).is_err());
    assert_eq!(pending.len(), 2);
    assert_eq!(&pending[0][..], b"earlier");
    assert_eq!(&pending[1][2..], &first[..]);
    assert!(arena.is_empty());
}

#[test]
fn frames_without_offload_are_coalesced() {
    let mut path = OutboundPath::new(false);
    let none = HashSet::new();
    assert_eq!(path.read_mode(), ReadMode::Wait);
    let first = tcp_packet(0, &[1; 100]);
    match path.take_frame(&first, &none) {
        Outbound::Send { outputs, pass_through, .. } => {
            assert!(outputs.is_empty() && !pass_through)
        }
        other => panic!("expected it to be coalesced, got {:?}", other),
    }
    assert_eq!(path.read_mode(), ReadMode::Poll);
    let udp = udp_packet(false, 1, 2);
    match path.take_frame(&udp, &none) {
        Outbound::Send { outputs, offload, packet, pass_through } => {
            assert!(outputs.is_empty() && pass_through && offload.is_none());
            assert_eq!(packet, &udp[..]);
        }
        other => panic!("expected it to pass, got {:?}", other),
    }
    let out = path.flush();
    assert_eq!(out.len(), 1);
    assert!(matches!(&out[0], CoalescedOutput::Single(p) if p == &first));
    assert_eq!(path.read_mode(), ReadMode::Wait);
    assert!(matches!(
        path.take_frame(&udp_packet(false, 9, 2), &HashSet::from([9])),
        Outbound::OwnTransport
    ));
    assert!(matches!(path.take_frame(&[], &none), Outbound::Unreadable(_)));
}

#[test]
fn frames_with_offload_pass() {
    let mut path = OutboundPath::new(true);
    let packet = tcp_packet(0, &[1; 3000]);
    let mut frame = gso_header(1200).to_bytes().to_vec();
    frame.extend_from_slice(&packet);
    match path.take_frame(&frame, &HashSet::new()) {
        Outbound::Send { outputs, offload, packet: p, pass_through } => {
            assert!(outputs.is_empty() && pass_through);
            assert_eq!(offload, Some(gso_header(1200)));
            assert_eq!(p, &packet[..]);
        }
        other => panic!("expected it to pass, got {:?}", other),
    }
    assert_eq!(path.read_mode(), ReadMode::Wait);
}

#[test]
fn datagrams_from_the_server_become_writes() {
    let mut arena = BytesMut::new();
    let mut pending = Vec::new();
    let packet = tcp_packet(1000, &[7; 3000]);
    let hdr = gso_header(1200);
    build_datagrams(&mut arena, &mut pending, Some(hdr), &packet, true, 4000).unwrap();
    match take_datagram(&pending[0], false, &mut arena) {
        Inbound::Write(w) => assert_eq!(w.len(), 3),
        other => panic!("expected writes, got {:?}", other),
    }
    match take_datagram(&pending[0], true, &mut arena) {
        Inbound::Write(w) => assert_eq!(w[0].offload, Some(hdr)),
        other => panic!("expected a write, got {:?}", other),
    }
    match take_datagram(&Bytes::from_static(&[1, 4, 2]), true, &mut arena) {
        Inbound::ServerAddrs(body) => assert_eq!(&body[..], &[4, 2]),
        other => panic!("expected addresses, got {:?}", other),
    }
    assert!(matches!(
        take_datagram(&Bytes::from_static(&[]), true, &mut arena),
        Inbound::Ignore(_)
    ));
    let mut bad = vec![0u8, 10];
    let mut h = hdr;
    h.gso_type = 9;
    bad.extend_from_slice(&h.to_bytes());
    bad.extend_from_slice(&packet);
    match take_datagram(&Bytes::from(bad), false, &mut arena) {
        Inbound::Drop(m) => assert_eq!(m, "unsupported GSO type from offload metadata: 0x09"),
        other => panic!("expected a drop, got {:?}", other),
    }
}

#[test]
fn a_run_of_failed_writes_ends_the_tunnel() {
    let fail = || Err(VpnError::TunDevice("no buffer".to_string()));
    let mut f = TunWriteFailures::new();
    for _ in 0..MAX_TUN_WRITE_FAILURES - 1 {
        assert!(f.note(fail()).is_none());
    }
    assert!(f.note(Ok(())).is_none());
    assert_eq!(f.consecutive, 0);
    for _ in 0..MAX_TUN_WRITE_FAILURES - 1 {
        assert!(f.note(fail()).is_none());
    }
    assert_eq!(f.note(fail()).as_deref(), Some("TUN write failures exceeded: no buffer"));
}

#[test]
fn writes_are_batched_in_runs() {
    assert!(plan_write_runs(&[]).is_empty());
    assert_eq!(
        plan_write_runs(&[false, false, true, true, false]),
        vec![
            WriteRun::Batch { start: 0, end: 2 },
            WriteRun::Single(2),
            WriteRun::Single(3),
            WriteRun::Batch { start: 4, end: 5 },
        ]
    );
    assert_eq!(plan_write_runs(&[true]), vec![WriteRun::Single(0)]);
    assert_eq!(plan_write_runs(&[false; 4]), vec![WriteRun::Batch { start: 0, end: 4 }]);
}

#[test]
fn the_end_of_a_tunnel_names_its_reasons() {
    let ends = [
        (TunnelTask::Inbound, TaskEnd::Reason("datagram read error: timed out".to_string())),
        (TunnelTask::Outbound, TaskEnd::Cancelled),
        (TunnelTask::Liveness, TaskEnd::Panicked("boom".to_string())),
        (TunnelTask::TunWriter, TaskEnd::Ended),
    ];
    assert_eq!(
        tunnel_ended(&ends),
        VpnError::ConnectionLost(
            "datagram read error: timed out; liveness task panicked: boom; tun-writer task ended"
                .to_string()
        )
    );
    assert_eq!(
        tunnel_ended(&[(TunnelTask::Outbound, TaskEnd::Failed("x".to_string()))]),
        VpnError::ConnectionLost("outbound task failed: x".to_string())
    );
    assert_eq!(
        tunnel_ended(&[(TunnelTask::Inbound, TaskEnd::Cancelled)]),
        VpnError::ConnectionLost("all tasks cancelled".to_string())
    );
    assert!(tunnel_ended(&[]).is_recoverable());
}

#[test]
fn sending_stops_on_failure_only() {
    assert!(send_stops(DatagramSent::Sent).is_none());
    assert!(send_stops(DatagramSent::TooLarge).is_none());
    assert_eq!(
        send_stops(DatagramSent::Failed("lost".to_string())).as_deref(),
        Some("QUIC datagram send error: lost")
    );
}

#[test]
fn long_tcp_packets_are_cut_to_fit() {
    let mut arena = BytesMut::new();
    let payload: Vec<u8> = (0..1240u32).map(|v| (v % 251) as u8).collect();
    let packet = tcp_packet(5_000, &payload);
    let mut pending = Vec::new();
    build_datagrams(&mut arena, &mut pending, None, &packet, false, 1200).unwrap();
    assert_eq!(pending.len(), 2);
    let mut stream = Vec::new();
    for (k, d) in pending.iter().enumerate() {
        assert!(d.len() <= 1200);
        let p = &d[2..];
        let seq = u32::from_be_bytes(p[24..28].try_into().unwrap());
        assert_eq!(seq as usize, 5_000 + stream.len());
        assert_eq!(u16::from_be_bytes(p[2..4].try_into().unwrap()) as usize, p.len());
        stream.extend_from_slice(&p[40..]);
        assert_eq!(k == 0, d.len() == 1200);
    }
    assert_eq!(stream, payload);

    // As long as it fits, the packet goes as it is.
    let mut pending = Vec::new();
    build_datagrams(&mut arena, &mut pending, None, &packet, false, packet.len() + 2).unwrap();
    assert_eq!(pending.len(), 1);
    assert_eq!(&pending[0][2..], &packet[..]);
}

#[test]
fn long_packets_that_cannot_be_cut_stay_whole() {
    let mut arena = BytesMut::new();
    let mut pending = Vec::new();
    let mut udp = udp_packet(false, 1, 2);
    udp.extend_from_slice(&[0; 1300]);
    build_datagrams(&mut arena, &mut pending, None, &udp, false, 1200).unwrap();
    let mut syn = tcp_packet(1, &[0; 1300]);
    syn[33] = 0x02;
    build_datagrams(&mut arena, &mut pending, None, &syn, false, 1200).unwrap();
    let tcp = tcp_packet(1, &[0; 1300]);
    build_datagrams(&mut arena, &mut pending, None, &tcp, false, 42).unwrap();
    assert_eq!(pending.len(), 3);
    for (d, p) in pending.iter().zip([&udp, &syn, &tcp]) {
        assert_eq!(&d[2..], &p[..]);
    }
}

#[test]
fn segments_shrink_to_the_datagram() {
    let mut arena = BytesMut::new();
    let packet = tcp_packet(1000, &[7; 3000]);
    let mut pending = Vec::new();
    build_datagrams(&mut arena, &mut pending, Some(gso_header(1400)), &packet, false, 1042)
        .unwrap();
    assert_eq!(pending.len(), 3);
    assert!(pending.iter().all(|d| d.len() == 1042));
    assert_eq!(capped_of(&gso_header(1400), 1042).gso_size, 1000);
    assert_eq!(capped_of(&gso_header(1400), 1442), gso_header(1400));
    assert_eq!(capped_of(&gso_header(1400), 42), gso_header(1400));
    let parts = tcp_data_of(&packet).unwrap();
    assert_eq!((parts.is_ipv6, parts.tcp_offset, parts.header_len), (false, 20, 40));
    assert_eq!(cut_header_of(&packet, 1042).unwrap().gso_size, 1000);
    assert!(cut_header_of(&packet, 3042).is_none());
}

#[test]
fn flows_stay_in_order() {
    let mut path = OutboundPath::new(false);
    let none = HashSet::new();
    let on_port = |mut p: Vec<u8>, port: u16| {
        p[20..22].copy_from_slice(&port.to_be_bytes());
        p
    };
    // Two flows in turn; the first has a gap, a pure acknowledgement and a PSH segment.
    let mut ack = tcp_packet(300, &[]);
    ack[33] = 0x10;
    let mut push = tcp_packet(300, &[4; 100]);
    push[33] = 0x18;
    let packets = [
        on_port(tcp_packet(0, &[1; 100]), 1),
        on_port(tcp_packet(0, &[9; 100]), 2),
        on_port(tcp_packet(100, &[2; 100]), 1),
        on_port(tcp_packet(500, &[3; 100]), 1),
        on_port(ack, 1),
        on_port(tcp_packet(100, &[8; 50]), 2),
        on_port(push, 1),
    ];
    let mut sent: Vec<Vec<u8>> = Vec::new();
    let collect = |sent: &mut Vec<Vec<u8>>, outputs: Vec<CoalescedOutput>| {
        for o in outputs {
            match o {
                CoalescedOutput::Single(p) => sent.push(p),
                CoalescedOutput::Coalesced(_, p) => sent.push(p),
            }
        }
    };
    for p in &packets {
        match path.take_frame(p, &none) {
            Outbound::Send { outputs, packet, pass_through, .. } => {
                let own = packet.to_vec();
                collect(&mut sent, outputs);
                if pass_through {
                    sent.push(own);
                }
            }
            other => panic!("expected packets, got {:?}", other),
        }
    }
    collect(&mut sent, path.flush());
    for port in [1u8, 2] {
        let stream = |all: &[Vec<u8>]| -> Vec<u8> {
            all.iter().filter(|p| p[21] == port).flat_map(|p| p[40..].to_vec()).collect()
        };
        assert_eq!(stream(&sent), stream(&packets));
    }
    // The acknowledgement leaves behind what came before it and ahead of what came after.
    let flow: Vec<usize> = sent.iter().filter(|p| p[21] == 1).map(|p| p.len() - 40).collect();
    assert_eq!(flow, vec![200, 100, 0, 100]);
}

#[test]
fn published_addresses_travel_as_a_datagram() {
    let message = serde_json::to_vec(&["203.0.113.5"]).unwrap();
    let mut buf = BytesMut::new();
    encode_server_addrs_datagram(&mut buf, &message);
    assert_eq!(buf[0], 1);
    match open_datagram(&buf.freeze()) {
        Opened::ServerAddrs(body) => assert_eq!(&body[..], &message[..]),
        other => panic!("expected addresses, got {:?}", other),
    }
}
