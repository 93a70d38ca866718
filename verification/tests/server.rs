use bytes::{Bytes, BytesMut};
use ezvpn::addr::{IpAddr, Ipv4Addr, Ipv4Net, Ipv6Addr, Ipv6Net};
use ezvpn::client_gro::ClientGroStates;
use ezvpn::datagram::build_datagrams;
use ezvpn::gro::CoalescedOutput;
use ezvpn::identity::{ClientKey, EndpointId};
use ezvpn::ip6_pool::Ip6Strategy;
use ezvpn::packet::{extract_dest_ip, extract_source_ip, PacketIp};
use ezvpn::registry::{Arrival, ClientRegistry, ClientState};
use ezvpn::server::{
    advertised_client_mtu, host_net4, host_net6, ServerConfig, VpnServer, DATAGRAM_SAFE_MTU,
};
use ezvpn::server_path::{
    client_ended, client_label, coalesce_for_client, source_valid, to_vpn_client, ClientEnd,
    ClientInbound, Routed, Verdict,
};
use ezvpn::signaling::{
    CongestionController, TransportTuning, VpnHandshake, VPN_PROTOCOL_VERSION,
};
use ezvpn::stats::{Counter, QueueStep, VpnServerStats};
use ezvpn::underlay::{
    ip_in_overlay, is_link_local6, is_routable_underlay, publication, server_candidate_addrs,
    AddrPublisher, Offered, PublisherAction, PublisherEvent,
};
use ezvpn::vpn_error::VpnError;
use std::collections::HashSet;
use tokio::sync::mpsc;

fn net4(s: &str) -> Ipv4Net {
    let net: ipnet::Ipv4Net = s.parse().unwrap();
    Ipv4Net::new(Ipv4Addr { bits: net.addr().into() }, net.prefix_len()).unwrap()
}

fn net6(s: &str) -> Ipv6Net {
    let net: ipnet::Ipv6Net = s.parse().unwrap();
    Ipv6Net::new(Ipv6Addr { bits: net.addr().into() }, net.prefix_len()).unwrap()
}

fn ip4(s: &str) -> Ipv4Addr {
    net4(&format!("{s}/32")).addr
}

fn ip6(s: &str) -> Ipv6Addr {
    net6(&format!("{s}/128")).addr
}

fn addr(s: &str) -> IpAddr {
    if s.contains(':') {
        IpAddr::V6(ip6(s))
    } else {
        IpAddr::V4(ip4(s))
    }
}

fn fixed_endpoint_id(seed: u8) -> EndpointId {
    EndpointId::from_bytes(iroh::SecretKey::from_bytes(&[seed; 32]).public().as_bytes()).unwrap()
}

/// Helper to create a random EndpointId for testing
fn random_endpoint_id() -> EndpointId {
    let bytes: [u8; 32] = rand::random();
    EndpointId::from_bytes(iroh::SecretKey::from_bytes(&bytes).public().as_bytes()).unwrap()
}

fn arrival(
    endpoint: EndpointId,
    device_id: u64,
    assigned_ip: Option<Ipv4Addr>,
    assigned_ip6: Option<Ipv6Addr>,
) -> Arrival {
    Arrival {
        key: ClientKey { endpoint, device_id },
        assigned_ip,
        assigned_ip6,
        client_gso_enabled: true,
        connection_gso_active: false,
    }
}

fn offer(tx: &mpsc::Sender<u8>, value: u8) -> Offered {
    match tx.try_send(value) {
        Ok(()) => Offered::Taken,
        Err(mpsc::error::TrySendError::Full(_)) => Offered::Full,
        Err(mpsc::error::TrySendError::Closed(_)) => Offered::Closed,
    }
}

#[test]
fn test_advertised_networks_are_server_host_prefixes() {
    // Clients must only ever be told to route the server itself — never the
    // full VPN subnet (inter-client traffic is dropped server-side).
    let server4: Ipv4Addr = ip4("10.0.0.1");
    let server6: Ipv6Addr = ip6("fd00::1");
    assert_eq!(host_net4(server4), net4("10.0.0.1/32"));
    assert_eq!(host_net6(server6), net6("fd00::1/128"));
}

#[test]
fn test_advertised_client_mtu_clamped_to_datagram_safe() {
    assert_eq!(advertised_client_mtu(1500), DATAGRAM_SAFE_MTU);
    assert_eq!(advertised_client_mtu(DATAGRAM_SAFE_MTU), DATAGRAM_SAFE_MTU);
    assert_eq!(advertised_client_mtu(1200), 1200);
}

#[test]
fn test_extract_dest_ip_v4() {
    // Valid IPv4 packet header (minimal)
    let mut packet = [0u8; 20];
    packet[0] = 0x45; // Version 4, IHL 5
    packet[16] = 10;
    packet[17] = 0;
    packet[18] = 0;
    packet[19] = 5;

    match extract_dest_ip(&packet) {
        Some(PacketIp::V4(ip)) => {
            assert_eq!(ip, ip4("10.0.0.5"));
        }
        _ => panic!("Expected IPv4 destination"),
    }

    // Too short for IPv4
    assert!(extract_dest_ip(&[0x45u8; 10]).is_none());
}

#[test]
fn test_extract_dest_ip_v6() {
    // Valid IPv6 packet header (40 bytes minimum)
    let mut packet = [0u8; 40];
    packet[0] = 0x60; // Version 6
    // Destination at bytes 24-39
    packet[24..40].copy_from_slice(&[
        0xfd, 0x00, 0x00, 0x00, 0x00, 0x00, 0x00, 0x00, 0x00, 0x00, 0x00, 0x00, 0x00, 0x00,
        0x00, 0x05,
    ]);

    match extract_dest_ip(&packet) {
        Some(PacketIp::V6(ip)) => {
            assert_eq!(ip, ip6("fd00::5"));
        }
        _ => panic!("Expected IPv6 destination"),
    }

    // Too short for IPv6
    let mut short_packet = [0u8; 20];
    short_packet[0] = 0x60;
    assert!(extract_dest_ip(&short_packet).is_none());
}

#[test]
fn test_extract_dest_ip_unknown_version() {
    // Empty packet
    assert!(extract_dest_ip(&[]).is_none());

    // Unknown version
    let mut packet = [0u8; 40];
    packet[0] = 0x50; // Version 5 (invalid)
    assert!(extract_dest_ip(&packet).is_none());
}

#[test]
fn test_extract_source_ip_v4() {
    // Valid IPv4 packet header (minimal)
    let mut packet = [0u8; 20];
    packet[0] = 0x45; // Version 4, IHL 5
    // Source at bytes 12-15
    packet[12] = 192;
    packet[13] = 168;
    packet[14] = 1;
    packet[15] = 100;

    match extract_source_ip(&packet) {
        Some(PacketIp::V4(ip)) => {
            assert_eq!(ip, ip4("192.168.1.100"));
        }
        _ => panic!("Expected IPv4 source"),
    }

    // Too short for IPv4
    assert!(extract_source_ip(&[0x45u8; 10]).is_none());
}

#[test]
fn test_extract_source_ip_v6() {
    // Valid IPv6 packet header (40 bytes minimum)
    let mut packet = [0u8; 40];
    packet[0] = 0x60; // Version 6
    // Source at bytes 8-23
    packet[8..24].copy_from_slice(&[
        0xfd, 0x00, 0x00, 0x00, 0x00, 0x00, 0x00, 0x00, 0x00, 0x00, 0x00, 0x00, 0x00, 0x00,
        0x00, 0x02,
    ]);

    match extract_source_ip(&packet) {
        Some(PacketIp::V6(ip)) => {
            assert_eq!(ip, ip6("fd00::2"));
        }
        _ => panic!("Expected IPv6 source"),
    }

    // Too short for IPv6
    let mut short_packet = [0u8; 20];
    short_packet[0] = 0x60;
    assert!(extract_source_ip(&short_packet).is_none());
}

#[test]
fn test_extract_source_ip_unknown_version() {
    // Empty packet
    assert!(extract_source_ip(&[]).is_none());

    // Unknown version
    let mut packet = [0u8; 40];
    packet[0] = 0x50; // Version 5 (invalid)
    assert!(extract_source_ip(&packet).is_none());
}

#[test]
fn test_stats_initial_zero() {
    let stats = VpnServerStats::new();

    // All counters should be zero on initialization
    assert_eq!(stats.tun_packets_read, 0);
    assert_eq!(stats.packets_to_clients, 0);
    assert_eq!(stats.packets_no_route, 0);
    assert_eq!(stats.packets_unknown_version, 0);
    assert_eq!(stats.packets_dropped_full, 0);
    assert_eq!(stats.packets_backpressure, 0);
    assert_eq!(stats.packets_from_clients, 0);
    assert_eq!(stats.packets_tun_write_failed, 0);
    assert_eq!(stats.packets_spoofed, 0);
}

#[test]
fn test_stats_counters_increment() {
    let mut stats = VpnServerStats::new();

    // Increment some counters
    stats.count(Counter::TunPacketsRead, 100);
    stats.count(Counter::PacketsToClients, 90);
    stats.count(Counter::PacketsNoRoute, 5);
    stats.count(Counter::PacketsSpoofed, 3);
    stats.count(Counter::PacketsBackpressure, 2);

    assert_eq!(stats.tun_packets_read, 100);
    assert_eq!(stats.packets_to_clients, 90);
    assert_eq!(stats.packets_no_route, 5);
    assert_eq!(stats.packets_spoofed, 3);
    assert_eq!(stats.packets_backpressure, 2);
    assert_eq!(stats.packets_unknown_version, 0);
    assert_eq!(stats.packets_dropped_full, 0);
    assert_eq!(stats.packets_from_clients, 0);
    assert_eq!(stats.packets_tun_write_failed, 0);
}

#[test]
fn test_stats_no_route_simulation() {
    // Simulate the no-route counter being incremented when routing fails
    let mut stats = VpnServerStats::new();
    let network: Ipv4Net = net4("10.0.0.0/24");
    let mut clients = ClientRegistry::new();

    // Register one client
    let client_ip = ip4("10.0.0.2");
    clients.register(arrival(random_endpoint_id(), 1, Some(client_ip), None));

    // Create packet destined for registered client - should find route
    let mut packet_to_client = [0u8; 20];
    packet_to_client[0] = 0x45; // IPv4
    packet_to_client[16..20].copy_from_slice(&client_ip.bits.to_be_bytes());

    if let Some(dest) = extract_dest_ip(&packet_to_client) {
        if clients.owner(dest).is_none() {
            stats.count(Counter::PacketsNoRoute, 1);
        }
    }
    assert_eq!(stats.packets_no_route, 0);

    // Create packet destined for unknown IP - should increment no_route
    let unknown_ip = ip4("10.0.0.99");
    let mut packet_to_unknown = [0u8; 20];
    packet_to_unknown[0] = 0x45; // IPv4
    packet_to_unknown[16..20].copy_from_slice(&unknown_ip.bits.to_be_bytes());

    if let Some(dest) = extract_dest_ip(&packet_to_unknown) {
        if clients.owner(dest).is_none() {
            stats.count(Counter::PacketsNoRoute, 1);
        }
    }
    assert_eq!(stats.packets_no_route, 1);

    // Packet destined outside network entirely
    let external_ip = ip4("192.168.1.1");
    let mut packet_external = [0u8; 20];
    packet_external[0] = 0x45;
    packet_external[16..20].copy_from_slice(&external_ip.bits.to_be_bytes());

    if let Some(PacketIp::V4(dest)) = extract_dest_ip(&packet_external) {
        if !network.contains(&dest) || clients.owner(PacketIp::V4(dest)).is_none() {
            stats.count(Counter::PacketsNoRoute, 1);
        }
    }
    assert_eq!(stats.packets_no_route, 2);
}

#[test]
fn test_inter_client_drop_simulation() {
    // A packet addressed to another VPN client's assigned IP is dropped,
    // while a packet to the server/gateway IP (not in the maps) is kept.
    let mut stats = VpnServerStats::new();
    let mut clients = ClientRegistry::new();

    // Register a peer client (IPv4 + IPv6).
    let peer_ip4 = ip4("10.0.0.5");
    let peer_ip6 = ip6("fd00::5");
    clients.register(arrival(random_endpoint_id(), 1, Some(peer_ip4), Some(peer_ip6)));

    let is_to_vpn_client = |packet: &[u8]| to_vpn_client(packet, &clients);

    // IPv4 packet to another client -> dropped.
    let mut v4_to_client = [0u8; 20];
    v4_to_client[0] = 0x45;
    v4_to_client[16..20].copy_from_slice(&peer_ip4.bits.to_be_bytes());
    if is_to_vpn_client(&v4_to_client) {
        stats.count(Counter::PacketsInterClientBlocked, 1);
    }

    // IPv6 packet to another client -> dropped.
    let mut v6_to_client = [0u8; 40];
    v6_to_client[0] = 0x60;
    v6_to_client[24..40].copy_from_slice(&peer_ip6.bits.to_be_bytes());
    if is_to_vpn_client(&v6_to_client) {
        stats.count(Counter::PacketsInterClientBlocked, 1);
    }

    assert_eq!(
        stats.packets_inter_client_blocked,
        2
    );

    // Packet to the server/gateway IP (never inserted into the maps) -> kept.
    let gateway_ip = ip4("10.0.0.1");
    let mut v4_to_gateway = [0u8; 20];
    v4_to_gateway[0] = 0x45;
    v4_to_gateway[16..20].copy_from_slice(&gateway_ip.bits.to_be_bytes());
    assert!(!is_to_vpn_client(&v4_to_gateway));
    assert_eq!(
        stats.packets_inter_client_blocked,
        2
    );
}

#[test]
fn test_stats_unknown_version_simulation() {
    let mut stats = VpnServerStats::new();

    // Valid IPv4 packet - should not increment unknown_version
    let ipv4_packet = [0x45u8; 20];
    if extract_dest_ip(&ipv4_packet).is_none() {
        stats.count(Counter::PacketsUnknownVersion, 1);
    }
    assert_eq!(stats.packets_unknown_version, 0);

    // Invalid version (5) packet - should increment unknown_version
    let mut invalid_packet = [0u8; 40];
    invalid_packet[0] = 0x50; // Version 5
    if extract_dest_ip(&invalid_packet).is_none() {
        stats.count(Counter::PacketsUnknownVersion, 1);
    }
    assert_eq!(stats.packets_unknown_version, 1);

    // Empty packet - should increment unknown_version
    if extract_dest_ip(&[]).is_none() {
        stats.count(Counter::PacketsUnknownVersion, 1);
    }
    assert_eq!(stats.packets_unknown_version, 2);
}

#[test]
fn test_stats_spoofing_detection_simulation() {
    // Simulate IP spoofing detection
    let mut stats = VpnServerStats::new();

    // Client is assigned 10.0.0.2
    let assigned_ip = ip4("10.0.0.2");

    // Packet with correct source IP - not spoofed
    let mut valid_packet = [0u8; 20];
    valid_packet[0] = 0x45; // IPv4
    valid_packet[12..16].copy_from_slice(&assigned_ip.bits.to_be_bytes());

    let source_valid = match extract_source_ip(&valid_packet) {
        Some(PacketIp::V4(src)) => src == assigned_ip,
        _ => false,
    };
    if !source_valid {
        stats.count(Counter::PacketsSpoofed, 1);
    }
    assert_eq!(stats.packets_spoofed, 0);

    // Packet with wrong source IP - spoofed!
    let spoofed_ip = ip4("10.0.0.99");
    let mut spoofed_packet = [0u8; 20];
    spoofed_packet[0] = 0x45; // IPv4
    spoofed_packet[12..16].copy_from_slice(&spoofed_ip.bits.to_be_bytes());

    let source_valid = match extract_source_ip(&spoofed_packet) {
        Some(PacketIp::V4(src)) => src == assigned_ip,
        _ => false,
    };
    if !source_valid {
        stats.count(Counter::PacketsSpoofed, 1);
    }
    assert_eq!(stats.packets_spoofed, 1);

    // Packet with unparseable source - also treated as spoofed
    let bad_packet = [0x45u8; 10]; // Too short
    let source_valid = match extract_source_ip(&bad_packet) {
        Some(PacketIp::V4(src)) => src == assigned_ip,
        _ => false,
    };
    if !source_valid {
        stats.count(Counter::PacketsSpoofed, 1);
    }
    assert_eq!(stats.packets_spoofed, 2);
}

#[test]
fn test_stats_backpressure_and_drop_simulation() {
    // Simulate the backpressure/drop logic
    let mut stats = VpnServerStats::new();

    // Create a tiny channel that will fill up immediately
    let (tx, mut rx) = mpsc::channel::<u8>(1);

    // First send succeeds
    stats.client_frame_offered(offer(&tx, 1), true, 1);
    assert_eq!(stats.packets_to_clients, 1);

    // Second send fails (channel full) - simulate drop_on_full=true
    let drop_on_full = true;
    let step = stats.client_frame_offered(offer(&tx, 2), drop_on_full, 1);
    assert_eq!(
        step,
        if drop_on_full { QueueStep::Next } else { QueueStep::WaitForRoom }
    );
    assert_eq!(stats.packets_dropped_full, 1);
    assert_eq!(stats.packets_backpressure, 0);

    // Drain the channel
    let _ = rx.try_recv();

    // Simulate drop_on_full=false (backpressure mode)
    let _ = tx.try_send(3); // Fill the channel again

    let drop_on_full = false;
    let step = stats.client_frame_offered(offer(&tx, 4), drop_on_full, 1);
    assert_eq!(
        step,
        if drop_on_full { QueueStep::Next } else { QueueStep::WaitForRoom }
    );
    assert_eq!(stats.packets_dropped_full, 1);
    assert_eq!(stats.packets_backpressure, 1);
}

#[test]
fn test_stats_tun_write_failed_simulation() {
    let mut stats = VpnServerStats::new();

    // Simulate TUN write failures being tracked

    // Successful write (channel open)
    stats.count(Counter::PacketsFromClients, 1);
    assert_eq!(stats.packets_from_clients, 1);

    // Failed write (channel closed)
    stats.count(Counter::PacketsTunWriteFailed, 1);
    assert_eq!(stats.packets_tun_write_failed, 1);

    // Multiple failures
    stats.count(Counter::PacketsTunWriteFailed, 1);
    stats.count(Counter::PacketsTunWriteFailed, 1);
    assert_eq!(stats.packets_tun_write_failed, 3);
}

#[test]
fn test_ip_in_overlay_excludes_only_vpn_overlay() {
    let v4: Ipv4Net = net4("10.99.0.0/24");
    let v6: Ipv6Net = net6("fd11:9a0b:1095:99::/64");

    // The server's own VPN overlay gateway must be treated as overlay.
    assert!(ip_in_overlay(
        addr("10.99.0.1"),
        Some(v4),
        Some(v6)
    ));
    assert!(ip_in_overlay(
        addr("fd11:9a0b:1095:99::1"),
        Some(v4),
        Some(v6)
    ));

    // Real underlay addresses (public or private LAN) are NOT overlay: a peer
    // on that private network legitimately uses them for transport.
    assert!(!ip_in_overlay(
        addr("172.31.150.233"),
        Some(v4),
        Some(v6)
    ));
    assert!(!ip_in_overlay(
        addr("44.230.20.120"),
        Some(v4),
        Some(v6)
    ));
    assert!(!ip_in_overlay(
        addr("2600:1f13:adc:a0b1:feb9:cb56:f64e:b6f8"),
        Some(v4),
        Some(v6)
    ));

    // With no overlay configured, nothing is excluded.
    assert!(!ip_in_overlay(
        addr("10.99.0.1"),
        None, None));
}

fn config() -> ServerConfig {
    ServerConfig {
        network: Some(net4("10.0.0.0/29")),
        server_ip: None,
        network6: Some(net6("fd00::/64")),
        server_ip6: None,
        ip6_strategy: Ip6Strategy::Sequential,
        mtu: 1500,
        max_clients: 2,
        auth_tokens: Some(vec!["alpha".to_string(), "beta".to_string()]),
        drop_on_full: true,
    }
}

fn tuning() -> TransportTuning {
    TransportTuning {
        congestion_controller: CongestionController::Bbr,
        receive_window: Some(4096),
        send_window: None,
    }
}

fn server(config: ServerConfig) -> VpnServer {
    VpnServer::new(config, fixed_endpoint_id(1), &tuning()).unwrap()
}

fn hello(device_id: u64) -> VpnHandshake {
    VpnHandshake::new(device_id).with_auth_token("beta").with_gso(true)
}

fn v4_packet(src: &str, dst: &str) -> Vec<u8> {
    let mut p = vec![0u8; 28];
    p[0] = 0x45;
    p[9] = 1;
    p[12..16].copy_from_slice(&ip4(src).bits.to_be_bytes());
    p[16..20].copy_from_slice(&ip4(dst).bits.to_be_bytes());
    p
}

fn v6_packet(src: &str, dst: &str) -> Vec<u8> {
    let mut p = vec![0u8; 48];
    p[0] = 0x60;
    p[6] = 58;
    p[8..24].copy_from_slice(&ip6(src).bits.to_be_bytes());
    p[24..40].copy_from_slice(&ip6(dst).bits.to_be_bytes());
    p
}

fn udp_packet(src_port: u16, dst_port: u16) -> Vec<u8> {
    let mut p = v4_packet("192.0.2.1", "192.0.2.2");
    p[9] = 17;
    p[20..22].copy_from_slice(&src_port.to_be_bytes());
    p[22..24].copy_from_slice(&dst_port.to_be_bytes());
    p
}

fn framed(packet: &[u8]) -> Bytes {
    let mut arena = BytesMut::new();
    let mut pending = Vec::new();
    build_datagrams(&mut arena, &mut pending, None, packet, true, 1400).unwrap();
    pending.remove(0)
}

#[test]
fn new_server_has_pools_for_its_networks() {
    let s = server(config());
    assert_eq!(s.ip_pool.as_ref().unwrap().server_ip(), ip4("10.0.0.1"));
    assert_eq!(s.ip6_pool.as_ref().unwrap().server_ip(), ip6("fd00::1"));
    assert_eq!(s.active_connections, 0);
    assert_eq!(s.wire_transport.receive_window, 4096);
    assert_eq!(s.wire_transport.send_window, 4096);
    assert!(s.registry.list().is_empty());
}

#[test]
fn new_server_reports_a_pool_that_cannot_be() {
    let mut c = config();
    c.network6 = Some(net6("fd00::/127"));
    let err = VpnServer::new(c, fixed_endpoint_id(1), &tuning()).unwrap_err();
    assert!(matches!(err, VpnError::Config(_)));
    assert!(err.message().contains("/127"));
}

#[test]
fn tun_plan_of_a_server() {
    let plan = server(config()).plan_tun().unwrap();
    let v4 = plan.v4.unwrap();
    assert_eq!(v4.address, ip4("10.0.0.1"));
    assert_eq!(v4.netmask, ip4("255.255.255.248"));
    assert_eq!(v4.gateway, ip4("10.0.0.1"));
    let v6 = plan.v6.unwrap();
    assert_eq!(v6.address, ip6("fd00::1"));
    assert_eq!(v6.prefix_len, 64);
    assert_eq!(plan.mtu, 1280);

    let mut none = config();
    none.network = None;
    none.network6 = None;
    let err = server(none).plan_tun().unwrap_err();
    assert_eq!(
        err,
        VpnError::Config("No network configured (need at least IPv4 or IPv6)".to_string())
    );
}

#[test]
fn tokens_decide_who_is_let_in() {
    let s = server(config());
    assert!(s.authenticate(&hello(1)).is_ok());

    let refusal = s.authenticate(&VpnHandshake::new(1).with_auth_token("gamma")).unwrap_err();
    assert_eq!(refusal.response.reject_reason.as_deref(), Some("Invalid authentication token"));
    assert_eq!(
        refusal.error,
        VpnError::Signaling("Invalid authentication token".to_string())
    );

    let refusal = s.authenticate(&VpnHandshake::new(1)).unwrap_err();
    assert_eq!(refusal.response.reject_reason.as_deref(), Some("Authentication token required"));
    assert!(!refusal.response.accepted);

    let mut open = config();
    open.auth_tokens = None;
    let refusal = server(open).authenticate(&hello(1)).unwrap_err();
    assert_eq!(refusal.response.reject_reason.as_deref(), Some("Server misconfigured"));
    assert_eq!(
        refusal.error,
        VpnError::Signaling("Server has no auth tokens configured".to_string())
    );
}

#[test]
fn tokens_are_compared_whole() {
    let s = server(config());
    for near in ["alph", "alpha ", "Alpha", "", "alphabeta"] {
        assert!(s.authenticate(&VpnHandshake::new(1).with_auth_token(near)).is_err());
    }
    let mut c = config();
    c.auth_tokens = Some(vec!["schl\u{fc}ssel".to_string()]);
    let s = server(c);
    assert!(s.authenticate(&VpnHandshake::new(1).with_auth_token("schl\u{fc}ssel")).is_ok());
    assert!(s.authenticate(&VpnHandshake::new(1).with_auth_token("schlussel")).is_err());
}

#[test]
fn a_full_server_turns_clients_away() {
    let mut s = server(config());
    assert!(s.take_in().is_ok());
    assert!(s.take_in().is_ok());
    let refusal = s.take_in().unwrap_err();
    assert_eq!(refusal.response.reject_reason.as_deref(), Some("Server full"));
    assert_eq!(refusal.error, VpnError::IpAssignment("Server full".to_string()));
    assert_eq!(s.active_connections, 2);
    s.dismiss();
    assert_eq!(s.active_connections, 1);
    assert!(s.take_in().is_ok());
}

#[test]
fn onboarding_tells_a_client_its_addresses() {
    let mut s = server(config());
    s.local_gso_enabled = true;
    let local = [
        addr("203.0.113.9"),
        addr("10.0.0.1"),
        addr("127.0.0.1"),
        addr("198.51.100.7"),
        addr("203.0.113.9"),
        addr("fe80::1"),
        addr("2001:db8::9"),
    ];
    let o = s.onboard(fixed_endpoint_id(2), &hello(7), Some(1400), &local).unwrap();
    let r = &o.response;
    assert!(r.accepted);
    assert_eq!(r.version, VPN_PROTOCOL_VERSION);
    assert_eq!(r.assigned_ip, Some(ip4("10.0.0.2")));
    assert_eq!(r.network, Some(net4("10.0.0.1/32")));
    assert_eq!(r.server_ip, Some(ip4("10.0.0.1")));
    assert_eq!(r.assigned_ip6, Some(ip6("fd00::2")));
    assert_eq!(r.network6, Some(net6("fd00::1/128")));
    assert_eq!(r.server_ip6, Some(ip6("fd00::1")));
    assert_eq!(r.mtu, 1280);
    assert!(r.server_gso_enabled);
    assert_eq!(
        r.server_addrs,
        vec![addr("198.51.100.7"), addr("203.0.113.9"), addr("2001:db8::9")]
    );
    assert!(o.arrival.connection_gso_active);
    assert_eq!(o.arrival.key, ClientKey { endpoint: fixed_endpoint_id(2), device_id: 7 });
}

#[test]
fn onboarding_needs_datagrams() {
    let mut s = server(config());
    let err = s.onboard(fixed_endpoint_id(2), &hello(7), None, &[]).unwrap_err();
    assert_eq!(err, VpnError::Signaling("Peer does not support QUIC datagrams".to_string()));
    let o = s.onboard(fixed_endpoint_id(2), &hello(7), Some(1400), &[]).unwrap();
    assert_eq!(o.response.assigned_ip, Some(ip4("10.0.0.2")));
}

#[test]
fn exhausted_pools_turn_clients_away() {
    let mut only4 = config();
    only4.network = Some(net4("10.0.0.0/30"));
    only4.network6 = None;
    let mut s = server(only4);
    assert!(s.onboard(fixed_endpoint_id(2), &hello(1), Some(1400), &[]).is_ok());
    let err = s.onboard(fixed_endpoint_id(3), &hello(1), Some(1400), &[]).unwrap_err();
    assert_eq!(err, VpnError::IpAssignment("IPv4 pool exhausted".to_string()));

    let mut only6 = config();
    only6.network = None;
    only6.network6 = Some(net6("fd00::/126"));
    let mut s = server(only6);
    assert!(s.onboard(fixed_endpoint_id(2), &hello(1), Some(1400), &[]).is_ok());
    let err = s.onboard(fixed_endpoint_id(3), &hello(1), Some(1400), &[]).unwrap_err();
    assert_eq!(err, VpnError::IpAssignment("IPv6 pool exhausted".to_string()));

    let mut both = config();
    both.network = Some(net4("10.0.0.0/30"));
    both.network6 = Some(net6("fd00::/126"));
    let mut s = server(both);
    assert!(s.onboard(fixed_endpoint_id(2), &hello(1), Some(1400), &[]).is_ok());
    let err = s.onboard(fixed_endpoint_id(3), &hello(1), Some(1400), &[]).unwrap_err();
    assert_eq!(err, VpnError::IpAssignment("All IP pools exhausted".to_string()));
}

#[test]
fn one_family_is_enough() {
    let mut c = config();
    c.network = Some(net4("10.0.0.0/30"));
    let mut s = server(c);
    assert!(s.onboard(fixed_endpoint_id(2), &hello(1), Some(1400), &[]).is_ok());
    let o = s.onboard(fixed_endpoint_id(3), &hello(1), Some(1400), &[]).unwrap();
    assert_eq!(o.response.assigned_ip, None);
    assert_eq!(o.response.network, None);
    assert_eq!(o.response.assigned_ip6, Some(ip6("fd00::3")));
}

#[test]
fn a_late_cleanup_leaves_the_newer_session_alone() {
    let mut s = server(config());
    let first = s.onboard(fixed_endpoint_id(2), &hello(1), Some(1400), &[]).unwrap().arrival;
    let old_session = s.connected(first);
    let second = s.onboard(fixed_endpoint_id(2), &hello(1), Some(1400), &[]).unwrap().arrival;
    assert_eq!(second.assigned_ip, first.assigned_ip);
    let new_session = s.connected(second);
    assert_ne!(old_session, new_session);

    s.disconnected(first, old_session);
    assert_eq!(s.registry.client(&second.key).unwrap().session_id, new_session);
    assert_eq!(s.registry.owner(PacketIp::V4(second.assigned_ip.unwrap())), Some(second.key));

    s.disconnected(second, new_session);
    assert!(s.registry.client(&second.key).is_none());
    assert!(s.registry.owner(PacketIp::V4(second.assigned_ip.unwrap())).is_none());
    let other = s.onboard(fixed_endpoint_id(3), &hello(1), Some(1400), &[]).unwrap().arrival;
    assert_eq!(other.assigned_ip, first.assigned_ip, "the address is free again");
}

#[test]
fn registry_finds_clients_by_address() {
    let mut r = ClientRegistry::new();
    let a = arrival(fixed_endpoint_id(2), 1, Some(ip4("10.0.0.2")), None);
    let b = arrival(fixed_endpoint_id(2), 2, None, Some(ip6("fd00::9")));
    assert_eq!(r.register(a), 1);
    assert_eq!(r.register(b), 2);
    assert_eq!(r.owner(PacketIp::V4(ip4("10.0.0.2"))), Some(a.key));
    assert_eq!(r.owner(PacketIp::V6(ip6("fd00::9"))), Some(b.key));
    assert_eq!(r.owner(PacketIp::V6(Ipv6Addr { bits: ip4("10.0.0.2").bits as u128 })), None);
    assert!(r.is_assigned(PacketIp::V4(ip4("10.0.0.2"))));
    assert!(!r.is_assigned(PacketIp::V4(ip4("10.0.0.3"))));
    let mut ids: Vec<u64> = r.list().iter().map(|(_, state)| state.session_id).collect();
    ids.sort();
    assert_eq!(ids, vec![1, 2]);

    assert!(r.unregister(a, 9).is_none());
    assert_eq!(r.unregister(a, 1).unwrap().assigned_ip, Some(ip4("10.0.0.2")));
    assert!(r.unregister(a, 1).is_none());
    assert!(!r.is_assigned(PacketIp::V4(ip4("10.0.0.2"))));
    assert!(r.is_assigned(PacketIp::V6(ip6("fd00::9"))));
}

#[test]
fn a_client_may_use_its_own_and_foreign_sources() {
    let mut r = ClientRegistry::new();
    let me = arrival(fixed_endpoint_id(2), 1, Some(ip4("10.0.0.2")), Some(ip6("fd00::2")));
    let peer = arrival(fixed_endpoint_id(3), 1, Some(ip4("10.0.0.3")), Some(ip6("fd00::3")));
    r.register(me);
    r.register(peer);
    assert!(source_valid(&v4_packet("10.0.0.2", "192.0.2.1"), &r, &me.key));
    assert!(source_valid(&v4_packet("203.0.113.1", "192.0.2.1"), &r, &me.key));
    assert!(!source_valid(&v4_packet("10.0.0.3", "192.0.2.1"), &r, &me.key));
    assert!(source_valid(&v6_packet("fd00::2", "2001:db8::1"), &r, &me.key));
    assert!(!source_valid(&v6_packet("fd00::3", "2001:db8::1"), &r, &me.key));
    assert!(!source_valid(&v6_packet("fe80::1", "2001:db8::1"), &r, &me.key));
    assert!(!source_valid(&v6_packet("febf::1", "2001:db8::1"), &r, &me.key));
    assert!(source_valid(&v6_packet("fec0::1", "2001:db8::1"), &r, &me.key));
    assert!(!source_valid(&[0x45], &r, &me.key));
}

#[test]
fn packets_of_a_client_are_judged() {
    let mut s = server(config());
    let me = arrival(fixed_endpoint_id(2), 1, Some(ip4("10.0.0.2")), None);
    let peer = arrival(fixed_endpoint_id(3), 1, Some(ip4("10.0.0.3")), None);
    s.connected(me);
    s.connected(peer);
    let ports: HashSet<u16> = HashSet::from([4433]);

    let fine = v4_packet("10.0.0.2", "192.0.2.1");
    assert_eq!(s.judge(&fine, &ports, &me.key), Verdict::Accept);
    let to_server = v4_packet("10.0.0.2", "10.0.0.1");
    assert_eq!(s.judge(&to_server, &ports, &me.key), Verdict::Accept);
    let posing = v4_packet("10.0.0.3", "192.0.2.1");
    assert_eq!(s.judge(&posing, &ports, &me.key), Verdict::Spoofed);
    let to_peer = v4_packet("10.0.0.2", "10.0.0.3");
    assert_eq!(s.judge(&to_peer, &ports, &me.key), Verdict::InterClient);
    let to_self = v4_packet("10.0.0.2", "10.0.0.2");
    assert_eq!(s.judge(&to_self, &ports, &me.key), Verdict::InterClient);
    assert_eq!(s.judge(&udp_packet(4433, 53), &ports, &me.key), Verdict::OwnTransport);
    assert_eq!(s.judge(&udp_packet(53, 4433), &ports, &me.key), Verdict::OwnTransport);
    assert_eq!(s.judge(&udp_packet(53, 53), &ports, &me.key), Verdict::Accept);
    assert_eq!(s.stats.packets_spoofed, 1);
    assert_eq!(s.stats.packets_inter_client_blocked, 2);
}

#[test]
fn datagrams_of_a_client_become_writes() {
    let mut s = server(config());
    let me = arrival(fixed_endpoint_id(2), 1, Some(ip4("10.0.0.2")), None);
    s.connected(me);
    let ports = HashSet::new();
    let mut arena = BytesMut::new();

    let packet = v4_packet("10.0.0.2", "192.0.2.1");
    match s.take_client_datagram(&me.key, false, &framed(&packet), &ports, &mut arena) {
        ClientInbound::Write(w) => {
            assert_eq!(w.len(), 1);
            assert_eq!(&w[0].packet[..], &packet[..]);
            assert!(w[0].offload.is_none());
        }
        other => panic!("expected a write, got {:?}", other),
    }
    let posing = framed(&v4_packet("10.0.0.2", "10.0.0.2"));
    assert!(matches!(
        s.take_client_datagram(&me.key, false, &posing, &ports, &mut arena),
        ClientInbound::HeldBack(Verdict::InterClient)
    ));
    let addrs = Bytes::from_static(&[1, 2, 3]);
    assert!(matches!(
        s.take_client_datagram(&me.key, false, &addrs, &ports, &mut arena),
        ClientInbound::Unexpected
    ));
    let unknown = Bytes::from_static(&[9]);
    match s.take_client_datagram(&me.key, false, &unknown, &ports, &mut arena) {
        ClientInbound::Ignore(e) => {
            assert_eq!(e.message(), "Unknown datagram message type: 0x09")
        }
        other => panic!("expected to ignore it, got {:?}", other),
    }
}

#[test]
fn frames_are_routed_by_destination() {
    let mut s = server(config());
    let me = arrival(fixed_endpoint_id(2), 1, Some(ip4("10.0.0.2")), Some(ip6("fd00::2")));
    s.connected(me);
    let ports: HashSet<u16> = HashSet::from([4433]);

    let to_me = v4_packet("192.0.2.1", "10.0.0.2");
    match s.route_frame(&to_me, false, &ports) {
        Routed::To { key, state, offload, packet } => {
            assert_eq!(key, me.key);
            assert_eq!(state.session_id, 1);
            assert!(offload.is_none());
            assert_eq!(packet, &to_me[..]);
        }
        other => panic!("expected a route, got {:?}", other),
    }
    let to_me6 = v6_packet("2001:db8::1", "fd00::2");
    assert!(matches!(s.route_frame(&to_me6, false, &ports), Routed::To { .. }));
    let nowhere = v4_packet("192.0.2.1", "10.0.0.3");
    assert!(matches!(s.route_frame(&nowhere, false, &ports), Routed::NoRoute));
    assert!(matches!(s.route_frame(&[0x50; 40], false, &ports), Routed::UnknownVersion));
    assert!(matches!(s.route_frame(&udp_packet(1, 4433), false, &ports), Routed::OwnTransport));
    assert!(matches!(s.route_frame(&[], false, &ports), Routed::Unreadable(_)));
    assert_eq!(s.stats.tun_packets_read, 6);
    assert_eq!(s.stats.packets_no_route, 1);
    assert_eq!(s.stats.packets_unknown_version, 1);
    s.no_datagrams();
    assert_eq!(s.stats.packets_no_route, 2);
}

fn tcp_segment(seq: u32, payload_len: usize) -> Vec<u8> {
    let mut p = v4_packet("192.0.2.1", "10.0.0.2");
    p.resize(40 + payload_len, 0x55);
    let len = p.len() as u16;
    p[2..4].copy_from_slice(&len.to_be_bytes());
    p[9] = 6;
    p[20..40].fill(0);
    p[24..28].copy_from_slice(&seq.to_be_bytes());
    p[32] = 0x50;
    p[33] = 0x10;
    p
}

#[test]
fn packets_are_coalesced_for_clients_that_take_metadata() {
    let mut states = ClientGroStates::new();
    let key = ClientKey { endpoint: fixed_endpoint_id(2), device_id: 1 };
    let other = ClientKey { endpoint: fixed_endpoint_id(3), device_id: 1 };
    let mut state = ClientState {
        session_id: 5,
        assigned_ip: None,
        assigned_ip6: None,
        client_gso_enabled: false,
        connection_gso_active: false,
    };
    let r = coalesce_for_client(&mut states, false, key, &state, &tcp_segment(0, 100));
    assert!(r.pass_through && r.outputs.is_empty());
    state.client_gso_enabled = true;
    let r = coalesce_for_client(&mut states, true, key, &state, &tcp_segment(0, 100));
    assert!(r.pass_through && r.outputs.is_empty());
    assert!(!states.any_pending());

    let r = coalesce_for_client(&mut states, false, key, &state, &tcp_segment(0, 100));
    assert!(!r.pass_through && r.outputs.is_empty());
    let r = coalesce_for_client(&mut states, false, other, &state, &tcp_segment(0, 100));
    assert!(!r.pass_through && r.outputs.is_empty());
    state.session_id = 6;
    let r = coalesce_for_client(&mut states, false, key, &state, &tcp_segment(100, 100));
    assert!(!r.pass_through && r.outputs.is_empty());
    assert!(states.any_pending());

    let mut flushed = states.flush();
    assert!(!states.any_pending());
    flushed.sort_by_key(|o| o.session_id);
    assert_eq!(flushed.len(), 2);
    assert_eq!(flushed[0].key, other);
    assert!(matches!(flushed[0].outputs[..], [CoalescedOutput::Single(_)]));
    assert_eq!(flushed[1].key, key);
    assert_eq!(flushed[1].session_id, 6);
    assert!(matches!(flushed[1].outputs[..], [CoalescedOutput::Coalesced(_, _)]));
    states.evict(&key);
    assert_eq!(states.flush().len(), 1);
}

#[test]
fn routable_addresses() {
    for s in ["127.0.0.1", "127.9.9.9", "0.0.0.0", "169.254.1.1", "::1", "::", "fe80::1", "febf::"] {
        assert!(!is_routable_underlay(addr(s)), "{s}");
    }
    for s in ["10.0.0.1", "169.253.0.1", "128.0.0.1", "::2", "fec0::1", "fd00::1", "2001:db8::1"] {
        assert!(is_routable_underlay(addr(s)), "{s}");
    }
    assert!(is_link_local6(&ip6("fe80::1")));
    assert!(!is_link_local6(&ip6("fd80::1")));
}

#[test]
fn candidates_are_filtered_sorted_and_single() {
    let local = [
        addr("2001:db8::2"),
        addr("203.0.113.5"),
        addr("10.99.0.1"),
        addr("203.0.113.5"),
        addr("fd11::1"),
        addr("198.51.100.1"),
        addr("127.0.0.1"),
    ];
    let v4 = Some(net4("10.99.0.0/24"));
    let v6 = Some(net6("fd11::/64"));
    assert_eq!(
        server_candidate_addrs(&local, v4, v6),
        vec![addr("198.51.100.1"), addr("203.0.113.5"), addr("2001:db8::2")]
    );
    assert_eq!(publication(&local, v4, v6).unwrap().addrs.len(), 3);
    assert!(publication(&[addr("127.0.0.1")], v4, v6).is_none());
    assert!(publication(&[], None, None).is_none());
}

#[test]
fn publisher_follows_its_events() {
    let mut p = AddrPublisher::new();
    assert_eq!(p.on_event(PublisherEvent::Tick), PublisherAction::Publish);
    assert_eq!(p.on_event(PublisherEvent::Published(Offered::Taken)), PublisherAction::Wait);
    assert_eq!(p.on_event(PublisherEvent::Published(Offered::Full)), PublisherAction::Wait);
    assert_eq!(p.on_event(PublisherEvent::AddressesChanged), PublisherAction::Publish);
    assert_eq!(p.on_event(PublisherEvent::WatcherEnded), PublisherAction::Wait);
    assert!(!p.watcher_alive);
    assert_eq!(p.on_event(PublisherEvent::Published(Offered::Closed)), PublisherAction::Stop);
    assert_eq!(p.on_event(PublisherEvent::ConnectionClosed), PublisherAction::Stop);
}

#[test]
fn queues_are_counted() {
    let mut stats = VpnServerStats::new();
    assert_eq!(stats.tun_write_offered(Offered::Taken), QueueStep::Next);
    assert_eq!(stats.tun_write_offered(Offered::Full), QueueStep::WaitForRoom);
    assert_eq!(stats.tun_write_waited(true), QueueStep::Next);
    assert_eq!(stats.tun_write_offered(Offered::Closed), QueueStep::Closed);
    assert_eq!(stats.tun_write_waited(false), QueueStep::Closed);
    assert_eq!(stats.packets_from_clients, 2);
    assert_eq!(stats.packets_tun_write_failed, 2);
    stats.tun_write_done(true);
    stats.tun_write_done(false);
    assert_eq!(stats.packets_tun_write_failed, 3);

    assert_eq!(stats.client_frame_offered(Offered::Taken, true, 4), QueueStep::Next);
    assert_eq!(stats.client_frame_offered(Offered::Closed, true, 4), QueueStep::Closed);
    assert_eq!(stats.client_frame_offered(Offered::Full, false, 4), QueueStep::WaitForRoom);
    stats.client_frame_waited(false, 4);
    assert_eq!(stats.packets_to_clients, 4);
    stats.client_frame_waited(true, 4);
    assert_eq!(stats.packets_to_clients, 8);
    assert_eq!(stats.packets_backpressure, 4);
}

#[test]
fn counters_wrap_around() {
    let mut stats = VpnServerStats::new();
    stats.count(Counter::PacketsSpoofed, u64::MAX);
    stats.count(Counter::PacketsSpoofed, 3);
    assert_eq!(stats.packets_spoofed, 2);
}

#[test]
fn the_end_of_a_client_is_reported() {
    assert!(client_ended(ClientEnd::InboundDone).is_ok());
    assert!(client_ended(ClientEnd::WriterClosed).is_ok());
    assert_eq!(
        client_ended(ClientEnd::InboundPanicked("x".to_string())),
        Err(VpnError::ConnectionLost("inbound task panicked: x".to_string()))
    );
    assert_eq!(
        client_ended(ClientEnd::InboundFailed("x".to_string())),
        Err(VpnError::ConnectionLost("inbound task failed: x".to_string()))
    );
    assert_eq!(
        client_ended(ClientEnd::WriterFailed("gone".to_string())),
        Err(VpnError::ConnectionLost("gone".to_string()))
    );
    assert_eq!(
        client_label(Some(ip4("10.0.0.2")), Some(ip6("fd00::2"))).as_deref(),
        Some("10.0.0.2")
    );
    assert_eq!(client_label(None, Some(ip6("fd00::2"))).as_deref(), Some("fd00::2"));
    assert_eq!(client_label(None, None), None);
}

#[test]
fn status_lists_the_clients() {
    let mut s = server(config());
    s.connected(arrival(fixed_endpoint_id(2), 0xab, Some(ip4("10.0.0.2")), None));
    s.take_in().unwrap();
    let status = s.status_snapshot();
    assert_eq!(status.mode, "dual-stack");
    assert_eq!(status.network.as_deref(), Some("10.0.0.0/29"));
    assert_eq!(status.network6.as_deref(), Some("fd00::/64"));
    assert_eq!(status.connected_clients, 1);
    assert_eq!(status.active_connections, 1);
    let c = &status.clients[0];
    assert_eq!(c.endpoint_id, fixed_endpoint_id(2));
    assert_eq!(c.device_id, "00000000000000ab");
    assert_eq!(c.session_id, 1);
    assert_eq!(c.assigned_ip.as_deref(), Some("10.0.0.2"));
    assert_eq!(c.assigned_ip6, None);

    let mut v6 = config();
    v6.network = None;
    assert_eq!(server(v6).status_snapshot().mode, "ipv6");
    let mut v4 = config();
    v4.network6 = None;
    assert_eq!(server(v4).status_snapshot().mode, "ipv4");
}

#[test]
fn registry_and_pools_stay_in_step() {
    let mut s = server(config());
    let agrees = |s: &VpnServer| {
        for (key, state) in s.registry.list() {
            let v4 = PacketIp::V4(state.assigned_ip.unwrap());
            let v6 = PacketIp::V6(state.assigned_ip6.unwrap());
            assert_eq!(s.registry.owner(v4), Some(key));
            assert_eq!(s.registry.owner(v6), Some(key));
        }
    };
    let mut sessions = Vec::new();
    for seed in [2u8, 3, 2, 4] {
        let a = s.onboard(fixed_endpoint_id(seed), &hello(1), Some(1400), &[]).unwrap().arrival;
        let session = s.connected(a);
        sessions.push((a, session));
        agrees(&s);
    }
    assert_eq!(sessions[0].0.assigned_ip, sessions[2].0.assigned_ip);
    assert_eq!(s.registry.list().len(), 3);
    for (a, session) in sessions {
        s.disconnected(a, session);
        agrees(&s);
    }
    assert!(s.registry.list().is_empty());
    assert!(!s.registry.is_assigned(PacketIp::V4(ip4("10.0.0.2"))));
}
