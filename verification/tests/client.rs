use ezvpn::addr::{IpAddr, Ipv4Addr, Ipv4Net, Ipv6Addr, Ipv6Net};
use ezvpn::bypass::{insert_address, merge_addresses, overlapping_underlay_excludes, BypassRouteManager};
use ezvpn::connect::{
    connected_info, negotiated_gso, plan_routes, require_datagrams, ClientConfig, VpnClient,
};
use ezvpn::ios::{IosConfig, IosSession};
use ezvpn::underlay::is_private_scope;
use ezvpn::reconnect::{
    calculate_backoff, calculate_backoff_with_jitter, NextStep, ReconnectLoop, BACKOFF_JITTER_MS,
};
use ezvpn::session::{
    check_params_against, client_handshake, plan_client_tun, server_info_of, NetworkParams,
    ServerInfo, TunnelMode,
};
use ezvpn::signaling::{VpnHandshakeResponse, WireTransport, VPN_PROTOCOL_VERSION};
use ezvpn::vpn_error::VpnError;
use rand::{Rng, SeedableRng};
use rand_chacha::ChaCha8Rng;

fn net4(s: &str) -> Ipv4Net {
    let net: ipnet::Ipv4Net = s.parse().unwrap();
    Ipv4Net::new(Ipv4Addr { bits: net.addr().into() }, net.prefix_len()).unwrap()
}

fn net6(s: &str) -> Ipv6Net {
    let net: ipnet::Ipv6Net = s.parse().unwrap();
    Ipv6Net::new(Ipv6Addr { bits: net.addr().into() }, net.prefix_len()).unwrap()
}

fn ip4(s: &str) -> Ipv4Addr {
    net4(&format!("{s}/32")).addr
}

fn ip6(s: &str) -> Ipv6Addr {
    net6(&format!("{s}/128")).addr
}

fn addr(s: &str) -> IpAddr {
    if s.contains(':') {
        IpAddr::V6(ip6(s))
    } else {
        IpAddr::V4(ip4(s))
    }
}

fn bypass_manager(routes4: &[&str], routes6: &[&str]) -> BypassRouteManager {
    BypassRouteManager::new(
        routes4.iter().map(|s| net4(s)).collect(),
        routes6.iter().map(|s| net6(s)).collect(),
    )
}

/// The backoff delay with jitter from a custom generator.
fn backoff_with_rng(attempt: u32, rng: &mut ChaCha8Rng) -> u64 {
    calculate_backoff_with_jitter(attempt, rng.random_range(0..BACKOFF_JITTER_MS))
}

/// A dual-stack `ServerInfo` for config-change tests.
fn sample_server_info() -> ServerInfo {
    ServerInfo {
        assigned_ip: Some(ip4("10.0.0.2")),
        network: Some(net4("10.0.0.0/24")),
        server_ip: Some(ip4("10.0.0.1")),
        assigned_ip6: Some(ip6("fd00::2")),
        network6: Some(net6("fd00::/64")),
        server_ip6: Some(ip6("fd00::1")),
        server_gso_enabled: true,
        server_addrs: Vec::new(),
    }
}

#[test]
fn overlapping_excludes_keeps_only_routed_underlay_addresses() {
    let server_addrs: Vec<IpAddr> = [
        "192.168.1.5",        // private v4, inside routed prefix -> excluded
        "44.230.20.120",      // public v4, outside routes      -> dropped
        "fd12::5",            // ULA v6, inside routed prefix    -> excluded
        "2606:4700::1",       // public v6, outside routes       -> dropped
    ]
    .iter()
    .map(|s| addr(s))
    .collect();
    let routes4: Vec<Ipv4Net> = vec![net4("192.168.0.0/16")];
    let routes6: Vec<Ipv6Net> = vec![net6("fd12::/16")];

    let (v4, v6) = overlapping_underlay_excludes(&server_addrs, &routes4, &routes6);
    assert_eq!(v4, vec!["192.168.1.5/32".to_string()]);
    assert_eq!(v6, vec!["fd12::5/128".to_string()]);
}

#[test]
fn overlapping_excludes_empty_when_no_routes_or_no_overlap() {
    let server_addrs: Vec<IpAddr> =
        ["192.168.1.5", "fd12::5"].iter().map(|s| addr(s)).collect();

    // No routes at all.
    assert_eq!(
        overlapping_underlay_excludes(&server_addrs, &[], &[]),
        (Vec::new(), Vec::new())
    );

    // Routes that don't contain the server addresses.
    let routes4: Vec<Ipv4Net> = vec![net4("10.0.0.0/8")];
    let routes6: Vec<Ipv6Net> = vec![net6("fd99::/16")];
    assert_eq!(
        overlapping_underlay_excludes(&server_addrs, &routes4, &routes6),
        (Vec::new(), Vec::new())
    );
}

#[test]
fn test_ip_covered_only_when_inside_vpn_route() {
    let mgr = bypass_manager(&["172.31.0.0/16"], &["2600:1f13:adc:a000::/56"]);

    // Inside a VPN route prefix -> needs a bypass.
    assert!(mgr.ip_covered_by_vpn_routes(addr("172.31.5.6")));
    assert!(mgr.ip_covered_by_vpn_routes(addr("2600:1f13:adc:a001::1")));

    // Public iroh underlay addresses outside every prefix -> no bypass
    assert!(!mgr.ip_covered_by_vpn_routes(addr("44.230.20.120")));
    assert!(!mgr.ip_covered_by_vpn_routes(addr("2a01:4ff:1f0:e599::1")));
}

#[test]
fn test_ip_never_covered_with_no_vpn_routes() {
    let mgr = bypass_manager(&[], &[]);
    assert!(!mgr.ip_covered_by_vpn_routes(addr("172.31.5.6")));
    assert!(!mgr.ip_covered_by_vpn_routes(addr("2600:1f13:adc:a001::1")));
}

#[test]
fn test_backoff_exponential_growth() {
    // Use seeded RNG for deterministic tests
    let mut rng = ChaCha8Rng::seed_from_u64(12345);

    // Attempt 1: base = 1000ms
    let d1 = backoff_with_rng(1, &mut rng);
    assert!(d1 >= 1000 && d1 < 1500);

    // Attempt 2: base = 2000ms
    let d2 = backoff_with_rng(2, &mut rng);
    assert!(d2 >= 2000 && d2 < 2500);

    // Attempt 3: base = 4000ms
    let d3 = backoff_with_rng(3, &mut rng);
    assert!(d3 >= 4000 && d3 < 4500);

    // Attempt 5: base = 16000ms
    let d5 = backoff_with_rng(5, &mut rng);
    assert!(d5 >= 16000 && d5 < 16500);
}

#[test]
fn test_backoff_capped_at_max() {
    let mut rng = ChaCha8Rng::seed_from_u64(12345);

    // Attempt 6+: base = 32000ms exceeds the cap, so the result is exactly
    // the 30s cap regardless of jitter. Hardcoded so an upward drift of
    // BACKOFF_MAX_MS fails this test.
    let d6 = backoff_with_rng(6, &mut rng);
    assert_eq!(d6, 30_000);

    let d7 = backoff_with_rng(7, &mut rng);
    assert_eq!(d7, 30_000);

    // Very high attempt still capped
    let d100 = backoff_with_rng(100, &mut rng);
    assert_eq!(d100, 30_000);
}

#[test]
fn test_backoff_jitter_within_range() {
    // Run multiple times with same seed to verify jitter is applied
    for seed in 0..10 {
        let mut rng = ChaCha8Rng::seed_from_u64(seed);
        let d = backoff_with_rng(1, &mut rng);
        // Base is 1000ms, jitter is 0-499ms
        assert!(d >= 1000 && d < 1500);
    }
}

#[test]
fn test_backoff_attempt_zero_treated_as_one() {
    let mut rng = ChaCha8Rng::seed_from_u64(12345);
    // Attempt 0 uses the first multiplier
    let d0 = backoff_with_rng(0, &mut rng);
    assert!(d0 >= 1000 && d0 < 1500);
}

#[test]
fn network_params_maps_server_info_fields() {
    let info = sample_server_info();
    let p = NetworkParams::from_server_info(&info);
    assert_eq!(p.assigned_ip, info.assigned_ip);
    assert_eq!(p.network, info.network);
    assert_eq!(p.server_ip, info.server_ip);
    assert_eq!(p.assigned_ip6, info.assigned_ip6);
    assert_eq!(p.network6, info.network6);
    assert_eq!(p.server_ip6, info.server_ip6);
}

#[test]
fn network_params_eq_ignores_gso() {
    let a = sample_server_info();
    let mut b = sample_server_info();
    // Fields not part of the routing/TUN identity must not affect equality.
    b.server_gso_enabled = !a.server_gso_enabled;
    assert_eq!(
        NetworkParams::from_server_info(&a),
        NetworkParams::from_server_info(&b)
    );
}

#[test]
fn network_params_detects_each_change() {
    let base = NetworkParams::from_server_info(&sample_server_info());

    let mut net = sample_server_info();
    net.network = Some(net4("10.0.1.0/24"));
    assert_ne!(base, NetworkParams::from_server_info(&net));

    let mut other6 = sample_server_info();
    other6.network6 = Some(net6("fd00:1::/64"));
    assert_ne!(base, NetworkParams::from_server_info(&other6));

    let mut ip = sample_server_info();
    ip.assigned_ip = Some(ip4("10.0.0.3"));
    assert_ne!(base, NetworkParams::from_server_info(&ip));

    let mut gw = sample_server_info();
    gw.server_ip = Some(ip4("10.0.0.254"));
    assert_ne!(base, NetworkParams::from_server_info(&gw));
}

#[test]
fn network_params_display_is_readable() {
    let p = NetworkParams::from_server_info(&sample_server_info());
    let s = p.to_text();
    assert!(s.contains("ip=10.0.0.2"));
    assert!(s.contains("net=10.0.0.0/24"));
    assert!(s.contains("gw=10.0.0.1"));
}

#[test]
fn check_params_first_call_records_baseline() {
    let mut established = None;
    assert!(check_params_against(&mut established, &sample_server_info()).is_ok());
    assert!(established.is_some());
}

#[test]
fn check_params_identical_reconnect_is_ok() {
    let mut established = None;
    check_params_against(&mut established, &sample_server_info()).expect("baseline");
    // A second identical handshake must be accepted.
    assert!(check_params_against(&mut established, &sample_server_info()).is_ok());
}

#[test]
fn check_params_changed_reconnect_quits() {
    let mut established = None;
    check_params_against(&mut established, &sample_server_info()).expect("baseline");

    let mut changed = sample_server_info();
    changed.network = Some(net4("10.0.9.0/24"));
    let err = check_params_against(&mut established, &changed).expect_err("must reject");
    assert!(matches!(err, VpnError::ServerConfigChanged(_)));
    assert!(!err.is_recoverable());
}

#[test]
fn check_params_ip_reassignment_rebuilds_and_adopts_baseline() {
    let mut established = None;
    check_params_against(&mut established, &sample_server_info()).expect("baseline");

    // Only the assigned IPs change (server restart re-handing addresses).
    let mut reassigned = sample_server_info();
    reassigned.assigned_ip = Some(ip4("10.0.0.42"));
    reassigned.assigned_ip6 = Some(ip6("fd00::42"));
    // Must NOT quit: this rebuilds for the new address.
    check_params_against(&mut established, &reassigned).expect("IP reassignment is allowed");

    // The new address becomes the baseline, so reconnecting with the same
    // reassigned address is a no-op...
    check_params_against(&mut established, &reassigned).expect("new baseline accepted");
    // ...while reverting to the original IP is itself just another allowed
    // reassignment (not a fatal change).
    check_params_against(&mut established, &sample_server_info())
        .expect("reverting the IP is also a reassignment");
}

#[test]
fn check_params_non_ip_change_still_quits_even_with_ip_change() {
    let mut established = None;
    check_params_against(&mut established, &sample_server_info()).expect("baseline");

    // IP changed AND gateway changed: the non-IP change makes it fatal.
    let mut changed = sample_server_info();
    changed.assigned_ip = Some(ip4("10.0.0.42"));
    changed.server_ip = Some(ip4("10.0.0.254"));
    let err = check_params_against(&mut established, &changed).expect_err("must reject");
    assert!(matches!(err, VpnError::ServerConfigChanged(_)));
}

/// Regression: `update` is add-only. A route already in `active_routes` must
/// survive successive snapshots that omit it (no churn / premature removal).
#[test]
fn test_update_is_add_only_keeps_routes_across_snapshots() {
    let mut mgr = bypass_manager(&["172.31.0.0/16"], &["2600:1f13:adc:a000::/56"]);

    // An already-installed bypass route (e.g. the server's underlay IPv6).
    let pinned = addr("2600:1f13:adc:a0b1::1");
    assert_eq!(mgr.update(&[pinned]), vec![pinned]);
    mgr.route_installed(pinned);

    // A snapshot that no longer lists the pinned peer (only uncovered IPs,
    // which are filtered out): it must stay.
    assert!(mgr.update(&[addr("44.230.20.120")]).is_empty());
    assert!(
        mgr.active_routes.contains(&pinned),
        "pinned route removed when absent from snapshot (churn regression)"
    );

    // An empty snapshot must also not remove it.
    assert!(mgr.update(&[]).is_empty());
    assert!(
        mgr.active_routes.contains(&pinned),
        "pinned route removed on empty snapshot"
    );

    // Re-listing it must not duplicate or churn it; still exactly one entry.
    assert!(mgr.update(&[pinned]).is_empty());
    assert_eq!(mgr.active_routes.len(), 1);
    assert!(mgr.active_routes.contains(&pinned));
}

#[test]
fn wanted_bypasses_are_collected_even_if_they_fail() {
    let mut mgr = bypass_manager(&["44.0.0.0/8"], &[]);
    let a = addr("44.1.1.1");
    let b = addr("44.0.0.9");
    assert_eq!(mgr.update(&[a, addr("8.8.8.8"), b, a]), vec![b, a]);
    mgr.route_installed(b);
    assert_eq!(mgr.collected, vec![b, a]);
    assert_eq!(mgr.active_routes, vec![b]);
    assert_eq!(mgr.update(&[b, a]), vec![a], "a failed route is tried again");
}

#[test]
fn private_scopes_are_never_bypassed() {
    let mut mgr = bypass_manager(&["0.0.0.0/0"], &["::/0"]);
    let private = ["10.1.1.1", "172.31.0.5", "192.168.1.5", "169.254.0.1", "fd12::5", "fe80::1"];
    for s in private {
        assert!(mgr.ip_covered_by_vpn_routes(addr(s)));
        assert!(mgr.update(&[addr(s)]).is_empty(), "{} must stay in the tunnel", s);
    }
    assert!(mgr.collected.is_empty());
    let global = addr("2600:1f13:adc:a0b1::1");
    assert_eq!(mgr.update(&[addr("10.1.1.1"), global]), vec![global]);
    assert_eq!(mgr.collected, vec![global]);
}

#[test]
fn addresses_are_kept_in_order() {
    let mut list = Vec::new();
    for s in ["fd00::1", "10.0.0.2", "10.0.0.1", "fd00::1", "10.0.0.2"] {
        insert_address(&mut list, addr(s));
    }
    assert_eq!(list, vec![addr("10.0.0.1"), addr("10.0.0.2"), addr("fd00::1")]);
    assert_eq!(
        merge_addresses(&[addr("fd00::1"), addr("1.1.1.1")], &[addr("1.1.1.1"), addr("1.1.0.0")]),
        vec![addr("1.1.0.0"), addr("1.1.1.1"), addr("fd00::1")]
    );
}

#[test]
fn backoff_has_exact_values() {
    assert_eq!(calculate_backoff_with_jitter(0, 0), 1000);
    assert_eq!(calculate_backoff_with_jitter(1, 499), 1499);
    assert_eq!(calculate_backoff_with_jitter(2, 7), 2007);
    assert_eq!(calculate_backoff_with_jitter(4, 100), 8100);
    assert_eq!(calculate_backoff_with_jitter(5, 499), 16499);
    assert_eq!(calculate_backoff_with_jitter(6, 0), 30_000);
    assert_eq!(calculate_backoff_with_jitter(u32::MAX, 0), 30_000);
    assert_eq!(calculate_backoff_with_jitter(1, u64::MAX), 30_000);
}

#[test]
fn backoff_draws_its_jitter() {
    let mut seen = Vec::new();
    for _ in 0..64 {
        let d = calculate_backoff(1);
        assert!((1000..1500).contains(&d));
        seen.push(d);
    }
    seen.sort();
    seen.dedup();
    assert!(seen.len() > 1, "the jitter varies");
}

#[test]
fn reconnect_stops_at_its_limit() {
    let mut l = ReconnectLoop::new(Some(3));
    for expected in [NextStep::Retry, NextStep::Retry] {
        l.begin();
        assert_eq!(l.after(Err(VpnError::Network("down".to_string()))), expected);
    }
    assert_eq!(l.attempt, 2);
    let d = l.retry_delay_ms();
    assert!((2000..2500).contains(&d));
    l.begin();
    assert_eq!(
        l.after(Err(VpnError::Signaling("down".to_string()))),
        NextStep::GiveUp(VpnError::MaxReconnectAttemptsExceeded(3))
    );
}

#[test]
fn reconnect_starts_again_after_a_lost_tunnel() {
    let mut l = ReconnectLoop::new(Some(3));
    for _ in 0..5 {
        l.begin();
        assert_eq!(l.after(Err(VpnError::ConnectionLost("gone".to_string()))), NextStep::Retry);
        assert_eq!(l.attempt, 1);
    }
    l.begin();
    assert_eq!(l.after(Err(VpnError::Network("down".to_string()))), NextStep::Retry);
    l.begin();
    assert_eq!(
        l.after(Err(VpnError::Network("down".to_string()))),
        NextStep::GiveUp(VpnError::MaxReconnectAttemptsExceeded(3))
    );
}

#[test]
fn a_single_attempt_is_not_repeated() {
    let recoverable = [
        VpnError::ConnectionLost("gone".to_string()),
        VpnError::Network("down".to_string()),
        VpnError::Signaling("no answer".to_string()),
    ];
    for e in recoverable {
        let mut l = ReconnectLoop::new(Some(1));
        l.begin();
        let step = l.after(Err(e));
        assert_eq!(step, NextStep::GiveUp(VpnError::MaxReconnectAttemptsExceeded(1)));
    }
    let mut l = ReconnectLoop::new(Some(1));
    l.begin();
    assert_eq!(
        l.after(Err(VpnError::Config("bad".to_string()))),
        NextStep::GiveUp(VpnError::Config("bad".to_string()))
    );
}

#[test]
fn reconnect_without_limit_goes_on() {
    let mut l = ReconnectLoop::new(None);
    for _ in 0..50 {
        l.begin();
        assert_eq!(l.after(Err(VpnError::Network("down".to_string()))), NextStep::Retry);
    }
    assert_eq!(l.attempt, 50);
    l.attempt = u32::MAX;
    l.begin();
    assert_eq!(l.attempt, u32::MAX);
}

#[test]
fn reconnect_ends_on_fatal_errors_and_in_good_order() {
    let mut l = ReconnectLoop::new(None);
    l.begin();
    let fatal = [
        VpnError::AuthenticationFailed("no".to_string()),
        VpnError::Config("no".to_string()),
        VpnError::TunDevice("no".to_string()),
        VpnError::IpAssignment("no".to_string()),
        VpnError::ServerConfigChanged("no".to_string()),
    ];
    for e in fatal {
        assert!(matches!(l.after(Err(e)), NextStep::GiveUp(_)));
    }
    assert_eq!(l.after(Ok(())), NextStep::Finish);
    assert_eq!(
        VpnError::MaxReconnectAttemptsExceeded(12).message(),
        "gave up after 12 reconnect attempts"
    );
}

#[test]
fn network_params_have_an_exact_text() {
    let mut info = sample_server_info();
    info.assigned_ip6 = None;
    info.network6 = None;
    info.server_ip6 = None;
    let p = NetworkParams::from_server_info(&info);
    assert_eq!(
        p.to_text(),
        "ip=10.0.0.2 net=10.0.0.0/24 gw=10.0.0.1 ip6=none net6=none gw6=none"
    );
    let full = NetworkParams::from_server_info(&sample_server_info());
    assert_eq!(
        full.to_text(),
        "ip=10.0.0.2 net=10.0.0.0/24 gw=10.0.0.1 ip6=fd00::2 net6=fd00::/64 gw6=fd00::1"
    );
}

#[test]
fn a_changed_configuration_keeps_the_baseline() {
    let mut established = None;
    check_params_against(&mut established, &sample_server_info()).unwrap();
    let before = established;
    let mut changed = sample_server_info();
    changed.server_ip6 = None;
    let err = check_params_against(&mut established, &changed).unwrap_err();
    assert_eq!(established, before);
    assert_eq!(
        err.message(),
        "VPN config changed on reconnect (was [ip=10.0.0.2 net=10.0.0.0/24 gw=10.0.0.1 \
         ip6=fd00::2 net6=fd00::/64 gw6=fd00::1], now [ip=10.0.0.2 net=10.0.0.0/24 gw=10.0.0.1 \
         ip6=fd00::2 net6=fd00::/64 gw6=none]); quitting to avoid inconsistent routing/TUN state"
    );
}

fn accepted() -> VpnHandshakeResponse {
    VpnHandshakeResponse::accepted_dual_stack(
        ip4("10.0.0.2"),
        net4("10.0.0.1/32"),
        ip4("10.0.0.1"),
        ip6("fd00::2"),
        net6("fd00::1/128"),
        ip6("fd00::1"),
        true,
        WireTransport::default(),
        1280,
    )
    .with_server_addrs(vec![addr("203.0.113.5")])
}

#[test]
fn handshakes_carry_the_token() {
    let h = client_handshake(9, Some("secret"));
    assert_eq!(h.version, VPN_PROTOCOL_VERSION);
    assert_eq!(h.device_id, 9);
    assert_eq!(h.auth_token.as_deref(), Some("secret"));
    assert!(h.gso_enabled);
    assert_eq!(client_handshake(9, None).auth_token, None);
}

#[test]
fn responses_become_server_info() {
    let info = server_info_of(accepted()).unwrap();
    assert_eq!(info.assigned_ip, Some(ip4("10.0.0.2")));
    assert_eq!(info.server_addrs, vec![addr("203.0.113.5")]);
    assert!(info.server_gso_enabled);
    assert_eq!(info.mode(), TunnelMode::DualStack);

    let err = server_info_of(VpnHandshakeResponse::rejected("Server full", false)).unwrap_err();
    assert_eq!(err, VpnError::AuthenticationFailed("Server full".to_string()));
    let mut silent = VpnHandshakeResponse::rejected("x", false);
    silent.reject_reason = None;
    assert_eq!(
        server_info_of(silent).unwrap_err(),
        VpnError::AuthenticationFailed("Unknown".to_string())
    );

    let mut partial = accepted();
    partial.network = None;
    assert!(server_info_of(partial).unwrap_err().message().contains("incomplete IPv4"));
    let mut partial6 = accepted();
    partial6.server_ip6 = None;
    assert!(server_info_of(partial6).unwrap_err().message().contains("incomplete IPv6"));
    let mut none = accepted();
    none.assigned_ip = None;
    none.network = None;
    none.server_ip = None;
    none.assigned_ip6 = None;
    none.network6 = None;
    none.server_ip6 = None;
    assert_eq!(
        server_info_of(none).unwrap_err(),
        VpnError::Signaling("Server response missing both IPv4 and IPv6 configuration".to_string())
    );
}

#[test]
fn modes_follow_the_assigned_families() {
    let mut info = sample_server_info();
    info.assigned_ip = None;
    assert_eq!(info.mode(), TunnelMode::Ipv6Only);
    let mut info = sample_server_info();
    info.assigned_ip6 = None;
    assert_eq!(info.mode(), TunnelMode::Ipv4Only);
}

#[test]
fn tun_plan_of_a_client() {
    let plan = plan_client_tun(&sample_server_info()).unwrap();
    let v4 = plan.v4.unwrap();
    assert_eq!(v4.address, ip4("10.0.0.2"));
    assert_eq!(v4.netmask, ip4("255.255.255.0"));
    assert_eq!(v4.gateway, ip4("10.0.0.1"));
    let v6 = plan.v6.unwrap();
    assert_eq!(v6.address, ip6("fd00::2"));
    assert_eq!(v6.prefix_len, 64);
    assert_eq!(plan.mtu, 1280);
    assert!(plan.gso);

    let mut info = sample_server_info();
    info.server_ip = None;
    assert_eq!(
        plan_client_tun(&info).unwrap_err(),
        VpnError::Signaling(
            "Invalid server info: need at least one complete IP configuration".to_string()
        )
    );
}

fn client_config(routes: &[&str], routes6: &[&str]) -> ClientConfig {
    ClientConfig {
        auth_token: Some("secret".to_string()),
        routes: routes.iter().map(|s| net4(s)).collect(),
        routes6: routes6.iter().map(|s| net6(s)).collect(),
    }
}

#[test]
fn routes_follow_the_assigned_families() {
    let info = sample_server_info();
    let p = plan_routes(&info, &client_config(&[], &[]));
    assert!(!p.bypass && !p.custom4 && p.custom6.is_none());
    assert_eq!(p.gateway4, Some(net4("10.0.0.0/24")));
    assert_eq!(p.gateway6, Some((net6("fd00::/64"), ip6("fd00::2"))));

    let p = plan_routes(&info, &client_config(&["192.168.0.0/16"], &[]));
    assert!(p.bypass && p.custom4 && p.capture_gateway4);
    assert!(!p.capture_gateway6 && p.custom6.is_none());

    let mut v4only = sample_server_info();
    v4only.assigned_ip6 = None;
    v4only.network6 = None;
    v4only.server_ip6 = None;
    let p = plan_routes(&v4only, &client_config(&[], &["fd12::/16"]));
    assert!(!p.bypass && p.custom6.is_none() && p.gateway6.is_none());
}

#[test]
fn a_client_plans_its_connection() {
    let mut c = VpnClient::new(client_config(&["192.168.0.0/16"], &[]));
    let h = c.handshake();
    assert_eq!(h.device_id, c.device_id);
    assert_eq!(h.auth_token.as_deref(), Some("secret"));

    let plan = c.plan_connection(accepted()).unwrap();
    assert_eq!(plan.tun.v4.unwrap().netmask, ip4("255.255.255.255"));
    assert_eq!(plan.tun.v6.unwrap().prefix_len, 128);
    assert!(plan.routes.bypass);

    let before = c.established_params;
    let mut moved = accepted();
    moved.server_ip = Some(ip4("10.0.0.9"));
    assert!(matches!(c.plan_connection(moved), Err(VpnError::ServerConfigChanged(_))));
    assert_eq!(c.established_params, before);
    let refused = VpnHandshakeResponse::rejected("nope", false);
    assert!(matches!(c.plan_connection(refused), Err(VpnError::AuthenticationFailed(_))));
    assert_eq!(c.established_params, before);

    let mut reassigned = accepted();
    reassigned.assigned_ip = Some(ip4("10.0.0.7"));
    assert!(c.plan_connection(reassigned).is_ok());
    assert_eq!(c.established_params.unwrap().assigned_ip, Some(ip4("10.0.0.7")));
}

#[test]
fn device_ids_differ() {
    let ids: Vec<u64> = (0..8).map(|_| VpnClient::new(client_config(&[], &[])).device_id).collect();
    assert!(ids.iter().any(|id| *id != ids[0]));
}

#[test]
fn gso_and_datagrams_are_negotiated() {
    assert!(negotiated_gso(true, true));
    assert!(!negotiated_gso(true, false));
    assert!(!negotiated_gso(false, true));
    assert_eq!(require_datagrams(Some(1200)), Ok(1200));
    assert_eq!(
        require_datagrams(None),
        Err(VpnError::Signaling("Peer does not support QUIC datagrams".to_string()))
    );
}

#[test]
fn a_connected_client_reports_itself() {
    let mut info = sample_server_info();
    info.assigned_ip6 = None;
    let c = connected_info(&info, &client_config(&["10.0.0.0/8"], &["fd12::/16"]), true);
    assert_eq!(c.assigned_ip.as_deref(), Some("10.0.0.2"));
    assert_eq!(c.network.as_deref(), Some("10.0.0.0/24"));
    assert_eq!(c.gateway6.as_deref(), Some("fd00::1"));
    assert_eq!(c.assigned_ip6, None);
    assert_eq!(c.routes, vec!["10.0.0.0/8".to_string()]);
    assert!(c.routes6.is_empty());
    assert!(c.gso_negotiated);
    assert_eq!(c.mtu, 1280);
}

#[test]
fn settings_exclude_what_the_tunnel_would_capture() {
    let cfg = IosConfig {
        routes: vec![net4("192.168.0.0/16"), net4("44.230.0.0/16")],
        routes6: vec![net6("2600::/16"), net6("fd00::/16")],
        ..IosConfig::default()
    };
    let mut info = server_info_of(accepted()).unwrap();
    info.server_addrs = vec![
        addr("44.230.20.120"),
        addr("192.168.1.5"),
        addr("45.0.0.1"),
        addr("2600::5"),
        addr("fd00::1"),
        addr("fe80::1"),
    ];
    let s = IosSession::from_handshake(&cfg, info, &[addr("44.230.0.9"), addr("44.230.20.120")]);
    let c = s.network_config().unwrap();
    assert_eq!(
        c.excluded_routes,
        vec!["44.230.0.9/32".to_string(), "44.230.20.120/32".to_string()]
    );
    assert_eq!(c.excluded_routes6, vec!["2600::5/128".to_string()]);
    assert_eq!(c.netmask, Some(ip4("255.255.255.255")));
    assert_eq!(c.prefix_len6, Some(128));
    assert_eq!(c.gateway, Some(ip4("10.0.0.1")));
    assert_eq!(c.mtu, 1280);
}

#[test]
fn private_scopes_are_told() {
    for ip in [
        "10.0.0.1", "10.255.255.255", "172.16.0.0", "172.31.255.255", "192.168.9.9", "169.254.0.1",
        "fc00::1", "fdff::1", "fe80::1", "febf::1",
    ] {
        assert!(is_private_scope(addr(ip)), "{ip}");
    }
    for ip in [
        "9.255.255.255", "11.0.0.0", "172.15.255.255", "172.32.0.0", "192.169.0.0", "169.253.0.1",
        "44.230.20.120", "fe00::1", "fec0::1", "2600::1", "fbff::1",
    ] {
        assert!(!is_private_scope(addr(ip)), "{ip}");
    }
}
