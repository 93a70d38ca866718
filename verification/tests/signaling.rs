use ezvpn::addr::{IpAddr, Ipv4Addr, Ipv4Net, Ipv6Addr, Ipv6Net};
use ezvpn::signaling::{
    decode_message_len, encode_message, parse_ip_packet_v2, CongestionController, DataMessageType,
    InvalidMessageType, ServerAddrsMsg, TransportTuning, VpnHandshake, VpnHandshakeResponse,
    WireTransport, DEFAULT_RECEIVE_WINDOW, MAX_HANDSHAKE_SIZE, VPN_ALPN, VPN_PROTOCOL_VERSION,
};
use ezvpn::virtio::{VirtioNetHdr, VIRTIO_NET_HDR_LEN};
use ezvpn::vpn_error::VpnError;

fn net4(s: &str) -> Ipv4Net {
    let net: ipnet::Ipv4Net = s.parse().unwrap();
    Ipv4Net::new(Ipv4Addr { bits: net.addr().into() }, net.prefix_len()).unwrap()
}

fn net6(s: &str) -> Ipv6Net {
    let net: ipnet::Ipv6Net = s.parse().unwrap();
    Ipv6Net::new(Ipv6Addr { bits: net.addr().into() }, net.prefix_len()).unwrap()
}

fn ip4(s: &str) -> Ipv4Addr {
    net4(&format!("{s}/32")).addr
}

fn ip6(s: &str) -> Ipv6Addr {
    net6(&format!("{s}/128")).addr
}

#[test]
fn test_handshake_rejects_unsupported_version() {
    let handshake = VpnHandshake {
        version: 1,
        device_id: 7,
        auth_token: None,
        gso_enabled: false,
    };

    let err = handshake.check_received().expect_err("v1 handshake should be rejected");
    assert!(err.message().contains("Unsupported handshake protocol version"));
}

#[test]
fn test_response_invalid_when_accepted_without_assigned_ip() {
    let response = VpnHandshakeResponse {
        version: VPN_PROTOCOL_VERSION,
        accepted: true,
        server_gso_enabled: false,
        transport: WireTransport::default(),
        mtu: 1440,
        assigned_ip: None,
        network: None,
        server_ip: None,
        assigned_ip6: None,
        network6: None,
        server_ip6: None,
        reject_reason: None,
        server_addrs: Vec::new(),
    };

    assert!(!response.is_valid());
    assert!(response.check_complete().is_err());
    assert!(response.check_received().is_err());
}

#[test]
fn test_response_invalid_with_incomplete_triplet() {
    // assigned_ip present but its network/gateway are missing.
    let mut response = VpnHandshakeResponse::accepted(
        ip4("10.0.0.2"),
        net4("10.0.0.0/24"),
        ip4("10.0.0.1"),
        false,
        WireTransport::default(),
        1440,
    );
    response.network = None;
    assert!(!response.is_valid(), "missing network must be rejected");
    assert!(response.check_complete().is_err());

    response.network = Some(net4("10.0.0.0/24"));
    response.server_ip = None;
    assert!(!response.is_valid(), "missing gateway must be rejected");

    // The IPv6 side of a dual-stack response must also be complete.
    let mut dual = VpnHandshakeResponse::accepted_dual_stack(
        ip4("10.0.0.2"),
        net4("10.0.0.0/24"),
        ip4("10.0.0.1"),
        ip6("fd00::2"),
        net6("fd00::/64"),
        ip6("fd00::1"),
        false,
        WireTransport::default(),
        1440,
    );
    dual.server_ip6 = None;
    assert!(!dual.is_valid(), "missing IPv6 gateway must be rejected");
}

#[test]
fn test_wire_transport_from_tuning_resolves_defaults() {
    // No windows configured: both fall back to the default receive window.
    let wire = WireTransport::from_tuning(&TransportTuning::default());
    assert_eq!(wire.congestion_controller, CongestionController::Cubic);
    assert_eq!(wire.receive_window, DEFAULT_RECEIVE_WINDOW);
    assert_eq!(wire.send_window, DEFAULT_RECEIVE_WINDOW);

    // Send window defaults to the configured receive window.
    let wire = WireTransport::from_tuning(&TransportTuning {
        congestion_controller: CongestionController::Bbr,
        receive_window: Some(1024),
        send_window: None,
    });
    assert_eq!(wire.congestion_controller, CongestionController::Bbr);
    assert_eq!(wire.receive_window, 1024);
    assert_eq!(wire.send_window, 1024);

    // Round-trip back into a fully-specified tuning.
    let tuning = wire.to_tuning();
    assert_eq!(tuning.congestion_controller, CongestionController::Bbr);
    assert_eq!(tuning.receive_window, Some(1024));
    assert_eq!(tuning.send_window, Some(1024));
    assert_eq!(WireTransport::from_tuning(&tuning), wire);
}

#[test]
fn test_response_rejects_old_protocol_version() {
    let mut response = VpnHandshakeResponse::rejected("nope", false);
    response.version = 2;
    let err = response.check_received().expect_err("v2 response should be rejected");
    assert!(err.message().contains("Unsupported handshake response protocol version"));
}

#[test]
fn test_data_message_type_roundtrip() {
    let msg_type = DataMessageType::from_byte(0x00).expect("valid message type");
    assert_eq!(msg_type, DataMessageType::IpPacket);
    assert_eq!(msg_type.as_byte(), 0x00);

    let msg_type: DataMessageType = 0x00u8.try_into().expect("try_from should work");
    assert_eq!(msg_type, DataMessageType::IpPacket);
    let back: u8 = msg_type.into();
    assert_eq!(back, 0x00);

    let msg_type = DataMessageType::from_byte(0x01).expect("valid message type");
    assert_eq!(msg_type, DataMessageType::ServerAddrs);
    assert_eq!(msg_type.as_byte(), 0x01);
}

#[test]
fn test_data_message_type_invalid_bytes() {
    for invalid in [0x02, 0x03, 0x10, 0x80, 0xff] {
        assert!(
            DataMessageType::from_byte(invalid).is_none(),
            "from_byte(0x{:02x}) should return None",
            invalid
        );
    }
}

#[test]
fn test_data_message_type_try_from_invalid() {
    for invalid in [0x02, 0x10, 0x80, 0xff] {
        let result: Result<DataMessageType, _> = invalid.try_into();
        assert!(result.is_err(), "TryFrom(0x{:02x}) should fail", invalid);

        let err = result.expect_err("invalid type");
        assert_eq!(err, InvalidMessageType(invalid));
        assert!(err.message().contains(&format!("0x{:02x}", invalid)));
    }
}

#[test]
fn test_parse_ip_packet_v2_rejects_invalid_offload_len() {
    let payload = [7u8, 1, 2, 3, 4, 5];
    let err = parse_ip_packet_v2(&payload).expect_err("invalid offload length must fail");
    assert!(err.message().contains("Invalid offload metadata length"));
}

#[test]
fn test_parse_ip_packet_v2_rejects_empty_ip_payload() {
    let mut payload = vec![VIRTIO_NET_HDR_LEN as u8];
    payload.extend_from_slice(&[0u8; VIRTIO_NET_HDR_LEN]);
    let err = parse_ip_packet_v2(&payload).expect_err("empty payload must fail");
    assert!(err.message().contains("IP frame payload too short"));
}

#[test]
fn received_messages_are_kept_as_they_are() {
    let h = VpnHandshake::new(12345).with_auth_token("test-token").with_gso(true);
    let h = h.check_received().unwrap();
    assert_eq!(h.version, VPN_PROTOCOL_VERSION);
    assert_eq!(h.device_id, 12345);
    assert_eq!(h.auth_token, Some("test-token".to_string()));
    assert!(h.gso_enabled);

    let r = VpnHandshakeResponse::rejected("Server full", false).check_received().unwrap();
    assert!(!r.accepted);
    assert_eq!(r.reject_reason, Some("Server full".to_string()));

    let r = VpnHandshakeResponse::accepted_ipv6_only(
        ip6("fd00::2"),
        net6("fd00::/64"),
        ip6("fd00::1"),
        true,
        WireTransport::default(),
        1440,
    )
    .with_server_addrs(vec![IpAddr::V4(ip4("44.230.20.120"))])
    .check_received()
    .unwrap();
    assert_eq!(r.assigned_ip, None);
    assert_eq!(r.assigned_ip6, Some(ip6("fd00::2")));
    assert_eq!(r.server_addrs.len(), 1);
    let rejected = VpnHandshakeResponse::rejected("no", true)
        .with_server_addrs(vec![IpAddr::V4(ip4("44.230.20.120"))]);
    assert!(rejected.server_addrs.is_empty());
}

#[test]
fn messages_have_their_length_in_front() {
    let m = encode_message(&[7, 8, 9]).unwrap();
    assert_eq!(m, vec![0, 0, 0, 3, 7, 8, 9]);
    assert_eq!(decode_message_len(&m[..4], MAX_HANDSHAKE_SIZE), Ok(3));
    assert_eq!(decode_message_len(&[0, 0, 0x40, 0], MAX_HANDSHAKE_SIZE), Ok(16384));
    assert_eq!(
        decode_message_len(&[0, 0, 0x40, 1], MAX_HANDSHAKE_SIZE),
        Err(VpnError::Signaling("Message too large: 16385 > 16384".to_string()))
    );
    assert_eq!(&VPN_ALPN, b"ezvpn/4");
}

#[test]
fn ip_frames_are_parsed() {
    let mut plain = vec![0u8];
    plain.extend_from_slice(&[0x45; 20]);
    let (offload, packet) = parse_ip_packet_v2(&plain).unwrap();
    assert!(offload.is_none());
    assert_eq!(packet, &[0x45; 20]);

    let hdr = VirtioNetHdr {
        flags: 1,
        gso_type: 1,
        hdr_len: 40,
        gso_size: 1200,
        csum_start: 20,
        csum_offset: 16,
        num_buffers: 0,
    };
    let mut tagged = vec![10u8];
    tagged.extend_from_slice(&hdr.to_bytes());
    tagged.extend_from_slice(&[0x60; 40]);
    let (offload, packet) = parse_ip_packet_v2(&tagged).unwrap();
    assert_eq!(offload, Some(hdr));
    assert_eq!(packet.len(), 40);
}

#[test]
fn ip_frames_are_refused_with_a_reason() {
    let text = |p: &[u8]| parse_ip_packet_v2(p).unwrap_err().message();
    assert_eq!(text(&[]), "Empty IP frame payload");
    assert_eq!(text(&[3]), "Invalid offload metadata length 3 (expected 0 or 10)");
    assert_eq!(text(&[0]), "IP frame payload too short: 1 bytes");
    assert_eq!(text(&[0, 0x45, 0]), "IPv4 packet too short: 2 bytes (minimum 20)");
    assert_eq!(text(&[0, 0x60, 0]), "IPv6 packet too short: 2 bytes (minimum 40)");
    assert_eq!(text(&[0, 0x50]), "Unsupported IP version: 5");
}

#[test]
fn published_addresses_are_carried() {
    let addrs = vec![IpAddr::V4(ip4("203.0.113.5")), IpAddr::V6(ip6("2001:db8::1"))];
    assert_eq!(ServerAddrsMsg::new(addrs.clone()).addrs, addrs);
}
