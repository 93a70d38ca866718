use bytes::{Bytes, BytesMut};
use ezvpn::coalesce::assemble_tcp_gso_superframe;
use ezvpn::headers::{
    tcp_checksum_ipv4, tcp_checksum_ipv6, tcp_pseudo_header_partial_checksum,
    update_ipv4_lengths_and_checksum, update_ipv6_payload_length,
};
use ezvpn::segment::{
    complete_checksum_offload_packet, materialize_offload_into, materialize_offload_packet,
    segment_tcp_gso_into, segment_tcp_gso_packet, validate_checksum_offload,
};
use ezvpn::virtio::{compose_tun_frame, split_tun_frame, VirtioNetHdr};

fn tcp4(payload: usize) -> Vec<u8> {
    let mut p = vec![0u8; 40 + payload];
    p[0] = 0x45;
    let len = p.len() as u16;
    p[2..4].copy_from_slice(&len.to_be_bytes());
    p[9] = 6;
    p[32] = 0x50;
    p[33] = 0x10;
    p
}

fn gso() -> VirtioNetHdr {
    VirtioNetHdr {
        flags: 1,
        gso_type: 1,
        hdr_len: 40,
        gso_size: 100,
        csum_start: 20,
        csum_offset: 16,
        num_buffers: 0,
    }
}

fn segment(change: fn(&mut VirtioNetHdr), packet: &[u8]) -> String {
    let mut h = gso();
    change(&mut h);
    segment_tcp_gso_packet(&h, packet).unwrap_err()
}

fn check(change: fn(&mut VirtioNetHdr), packet: &[u8]) -> String {
    let mut h = VirtioNetHdr { gso_type: 0, gso_size: 0, hdr_len: 0, ..gso() };
    change(&mut h);
    validate_checksum_offload(&h, packet).unwrap_err()
}

#[test]
fn frames_are_refused() {
    assert_eq!(VirtioNetHdr::from_bytes(&[0; 9]).unwrap_err(), "virtio_net_hdr must be 10 bytes, got 9");
    assert_eq!(split_tun_frame(&[], false).unwrap_err(), "zero-length TUN frame");
    assert_eq!(
        split_tun_frame(&[0; 4], true).unwrap_err(),
        "TUN frame shorter than virtio header: 4 < 10"
    );
    assert_eq!(
        split_tun_frame(&[0; 10], true).unwrap_err(),
        "empty IP payload after virtio header"
    );
    let mut frame = [0u8; 11];
    frame[1] = 3;
    assert_eq!(split_tun_frame(&frame, true).unwrap_err(), "unsupported GSO type from TUN: 0x03");

    let mut out = BytesMut::from(&b"kept"[..]);
    assert_eq!(
        compose_tun_frame(&mut out, true, None, &[]).unwrap_err(),
        "cannot compose TUN frame with empty IP payload"
    );
    assert_eq!(
        compose_tun_frame(&mut out, false, Some(&gso()), &[1]).unwrap_err(),
        "received offload metadata but local TUN does not use vnet headers"
    );
    assert_eq!(&out[..], b"kept");
}

#[test]
fn superframes_are_refused() {
    let mut out = BytesMut::new();
    let one = Bytes::from(tcp4(10));
    assert_eq!(
        assemble_tcp_gso_superframe(&mut out, &[one.clone()]).unwrap_err(),
        "GSO super-frame needs at least 2 segments, got 1"
    );
    let bare = Bytes::from(tcp4(0));
    assert_eq!(
        assemble_tcp_gso_superframe(&mut out, &[bare.clone(), one.clone()]).unwrap_err(),
        "first segment is not a coalescible TCP segment"
    );
    assert_eq!(
        assemble_tcp_gso_superframe(&mut out, &[one, bare]).unwrap_err(),
        "segment shorter than flow headers"
    );
    let big = Bytes::from(tcp4(40_000));
    assert_eq!(
        assemble_tcp_gso_superframe(&mut out, &[big.clone(), big]).unwrap_err(),
        "merged GSO frame too large: 80040 bytes"
    );
    assert!(out.is_empty());
}

#[test]
fn segmentation_is_refused() {
    let p = tcp4(300);
    assert_eq!(segment(|h| h.gso_type = 0, &p), "offload header is not TCP GSO");
    assert_eq!(segment(|h| h.gso_size = 0, &p), "offload header is not TCP GSO");
    assert_eq!(segment(|_| (), &[]), "empty IP packet");
    assert_eq!(segment(|h| h.gso_type = 4, &p), "IP version/GSO mismatch (ip v4, gso type 0x04)");
    let mut six = p.clone();
    six[0] = 0x60;
    assert_eq!(segment(|_| (), &six), "IP version/GSO mismatch (ip v6, gso type 0x01)");
    let mut five = p.clone();
    five[0] = 0x55;
    assert_eq!(segment(|_| (), &five), "unsupported IP version 5");
    assert_eq!(segment(|h| h.hdr_len = 0, &p), "invalid offload hdr_len 0 for packet length 340");
    assert_eq!(
        segment(|h| h.hdr_len = 341, &p),
        "invalid offload hdr_len 341 for packet length 340"
    );
    assert_eq!(segment(|h| h.csum_start = 21, &p), "invalid csum_start 21 for header_len 40");
    let mut offset = p.clone();
    offset[32] = 0x60;
    assert_eq!(
        segment(|_| (), &offset),
        "invalid TCP header length 24 (offset 20, header_len 40)"
    );
    offset[32] = 0x40;
    assert_eq!(
        segment(|_| (), &offset),
        "invalid TCP header length 16 (offset 20, header_len 40)"
    );
    assert_eq!(
        segment(|h| h.csum_offset = 19, &p),
        "invalid csum_offset 19 (checksum index 39 beyond header_len 40)"
    );
    let mut udp = p.clone();
    udp[9] = 17;
    assert_eq!(segment(|_| (), &udp), "IPv4 protocol 17 is not TCP");
}

#[test]
fn checksum_requests_are_refused() {
    let p = tcp4(10);
    assert_eq!(check(|h| h.gso_type = 1, &p), "checksum completion requires GSO_NONE, got 0x01");
    assert_eq!(check(|_| (), &[]), "empty IP packet");
    assert_eq!(check(|h| h.flags = 0x0d, &p), "unsupported checksum offload flags: 0x0c");
    assert_eq!(check(|h| h.csum_start = 50, &p), "invalid csum_start 50 for packet length 50");
    assert_eq!(
        check(|h| h.csum_offset = 29, &p),
        "invalid csum_offset 29 (checksum index 49 beyond packet length 50)"
    );
    let h = VirtioNetHdr { gso_type: 3, ..gso() };
    assert_eq!(
        materialize_offload_packet(&h, &p).unwrap_err(),
        "unsupported GSO type from offload metadata: 0x03"
    );
    assert_eq!(
        complete_checksum_offload_packet(&gso(), &p).unwrap_err(),
        "checksum completion requires GSO_NONE, got 0x01"
    );
    let none = VirtioNetHdr::default();
    assert_eq!(validate_checksum_offload(&none, &p), Ok(None));
    assert_eq!(complete_checksum_offload_packet(&none, &p), Ok(p));
}

#[test]
fn lengths_are_refused() {
    let v4 = |p: &mut [u8], n| update_ipv4_lengths_and_checksum(p, n).unwrap_err();
    assert_eq!(v4(&mut [0x45; 19], 19), "IPv4 packet too short");
    let mut p = tcp4(10);
    assert_eq!(v4(&mut p, 65_536), "IPv4 packet too large for total_len: 65536");
    p[0] = 0x44;
    assert_eq!(v4(&mut p, 50), "invalid IPv4 IHL 16");
    p[0] = 0x4f;
    assert_eq!(v4(&mut p, 50), "invalid IPv4 IHL 60");
    p[9] = 1;
    assert_eq!(v4(&mut p, 50), "IPv4 protocol 1 is not TCP");

    let v6 = |p: &mut [u8], n| update_ipv6_payload_length(p, n).unwrap_err();
    assert_eq!(v6(&mut [0x60; 39], 39), "IPv6 packet too short");
    assert_eq!(v6(&mut [0x60; 40], 39), "IPv6 packet length underflow");
    assert_eq!(v6(&mut [0x60; 40], 65_576), "IPv6 payload too large: 65536");
    let mut fits = [0x60; 40];
    assert_eq!(update_ipv6_payload_length(&mut fits, 65_575), Ok(()));
    assert_eq!(&fits[4..6], &[0xff, 0xff]);
}

#[test]
fn tcp_sums_are_refused() {
    assert_eq!(
        tcp_checksum_ipv4(&[0; 19], 0).unwrap_err(),
        "invalid TCP offset for IPv4 checksum"
    );
    assert_eq!(
        tcp_checksum_ipv4(&[0; 40], 40).unwrap_err(),
        "invalid TCP offset for IPv4 checksum"
    );
    assert_eq!(
        tcp_checksum_ipv4(&[0; 65_556], 20).unwrap_err(),
        "TCP segment too large for IPv4 checksum: 65536"
    );
    assert_eq!(
        tcp_checksum_ipv6(&[0; 39], 0).unwrap_err(),
        "invalid TCP offset for IPv6 checksum"
    );
    let partial = |p: &[u8], v6, t| tcp_pseudo_header_partial_checksum(p, v6, t).unwrap_err();
    assert_eq!(partial(&[0; 40], false, 41), "TCP length underflow");
    assert_eq!(partial(&[0; 39], true, 10), "IPv6 packet too short for pseudo-header");
    assert_eq!(partial(&[0; 19], false, 10), "IPv4 packet too short for pseudo-header");
    assert_eq!(
        partial(&[0; 65_556], false, 20),
        "TCP length too large for pseudo-header: 65536"
    );
    assert_eq!(tcp_pseudo_header_partial_checksum(&tcp4(10), false, 20), Ok(36));
}

#[test]
fn refused_packets_are_not_handed_out() {
    let packet = [0x45u8; 60];
    let mut plain = VirtioNetHdr::default();
    plain.gso_type = 3;
    let mut short = VirtioNetHdr::default();
    short.gso_type = 1;
    short.gso_size = 10;
    for offload in [plain, short] {
        let mut scratch = vec![1, 2, 3];
        let mut calls = 0;
        let r = segment_tcp_gso_into(&offload, &packet, &mut scratch, |_| {
            calls += 1;
            Ok(())
        });
        assert!(r.is_err());
        let r = materialize_offload_into(&offload, &packet, &mut scratch, |_| {
            calls += 1;
            Ok(())
        });
        assert!(r.is_err());
        assert_eq!(calls, 0);
        assert_eq!(scratch, vec![1, 2, 3]);
    }
}

#[test]
fn scratch_holds_what_was_built() {
    let packet = [0x45u8; 60];
    let mut scratch = vec![1, 2, 3];
    let untouched = VirtioNetHdr::default();
    materialize_offload_into(&untouched, &packet, &mut scratch, |p| {
        assert_eq!(p, &packet[..]);
        Ok(())
    })
    .unwrap();
    assert_eq!(scratch, vec![1, 2, 3]);

    let mut checksum = VirtioNetHdr::default();
    checksum.flags = 1;
    checksum.csum_start = 20;
    checksum.csum_offset = 16;
    let mut seen = Vec::new();
    let r = materialize_offload_into(&checksum, &packet, &mut scratch, |p| {
        seen = p.to_vec();
        Err("stop".to_string())
    });
    assert_eq!(r, Err("stop".to_string()));
    assert_eq!(scratch, seen);
    assert_eq!(seen.len(), packet.len());
}
