use ezvpn::addr::{Ipv4Addr, Ipv4Net, Ipv6Addr, Ipv6Net};
use ezvpn::identity::EndpointId;
use ezvpn::ip6_pool::{derived_ip6, Ip6Pool, Ip6Strategy};
use ezvpn::ip_pool::IpPool;
use ezvpn::vpn_error::VpnError;

fn net4(s: &str) -> Ipv4Net {
    let net: ipnet::Ipv4Net = s.parse().unwrap();
    Ipv4Net::new(Ipv4Addr { bits: net.addr().into() }, net.prefix_len()).unwrap()
}

fn net6(s: &str) -> Ipv6Net {
    let net: ipnet::Ipv6Net = s.parse().unwrap();
    Ipv6Net::new(Ipv6Addr { bits: net.addr().into() }, net.prefix_len()).unwrap()
}

fn ip4(s: &str) -> Ipv4Addr {
    net4(&format!("{s}/32")).addr
}

fn ip6(s: &str) -> Ipv6Addr {
    net6(&format!("{s}/128")).addr
}

fn endpoint_id(bytes: &[u8; 32]) -> EndpointId {
    EndpointId::from_bytes(iroh::SecretKey::from_bytes(bytes).public().as_bytes()).unwrap()
}

/// Helper to create a random EndpointId for testing
fn random_endpoint_id() -> EndpointId {
    let bytes: [u8; 32] = rand::random();
    endpoint_id(&bytes)
}

/// Helper to create a fixed (deterministic) EndpointId for testing
fn fixed_endpoint_id(seed: u8) -> EndpointId {
    endpoint_id(&[seed; 32])
}

#[test]
fn test_ip_pool_allocation() {
    let network: Ipv4Net = net4("10.0.0.0/24");
    let mut pool = IpPool::new(network, None);

    // Server should get .1
    assert_eq!(pool.server_ip(), ip4("10.0.0.1"));

    // Allocate IPs for clients
    let id1 = random_endpoint_id();
    let id2 = random_endpoint_id();

    let ip1 = pool.allocate(id1, 1).unwrap();
    let ip2 = pool.allocate(id2, 1).unwrap();

    assert_eq!(ip1, ip4("10.0.0.2"));
    assert_eq!(ip2, ip4("10.0.0.3"));

    // Re-allocate same client should return same IP
    let ip1_again = pool.allocate(id1, 1).unwrap();
    assert_eq!(ip1, ip1_again);

    // Release and reallocate
    pool.release(&id1, 1);
    let id3 = random_endpoint_id();
    let ip3 = pool.allocate(id3, 1).unwrap();
    assert_eq!(ip3, ip1); // Should reuse released IP
}

#[test]
fn test_ip_pool_reserve_next_available() {
    let network: Ipv4Net = net4("10.0.0.0/24");
    let mut pool = IpPool::new(network, None);

    let reserved = pool.reserve_next_available().unwrap();
    assert_eq!(reserved, ip4("10.0.0.2"));

    let id1 = random_endpoint_id();
    let ip1 = pool.allocate(id1, 1).unwrap();
    assert_eq!(ip1, ip4("10.0.0.3"));
}

#[test]
fn test_ip_pool_reserve_last_available() {
    let network: Ipv4Net = net4("10.0.0.0/24");
    let mut pool = IpPool::new(network, None);

    let reserved = pool.reserve_last_available().unwrap();
    assert_eq!(reserved, ip4("10.0.0.254"));

    let id1 = random_endpoint_id();
    let ip1 = pool.allocate(id1, 1).unwrap();
    assert_eq!(ip1, ip4("10.0.0.2"));
}

#[test]
fn test_ip_pool_reserve_last_available_slash30() {
    let network: Ipv4Net = net4("10.0.0.0/30");
    let mut pool = IpPool::new(network, None);

    let reserved = pool.reserve_last_available().unwrap();
    assert_eq!(reserved, ip4("10.0.0.2"));

    let id1 = random_endpoint_id();
    let ip1 = pool.allocate(id1, 1);
    assert!(ip1.is_none());
}

#[test]
fn test_ip_pool_reserve_specific_ip_skips_allocation() {
    let network: Ipv4Net = net4("10.0.0.0/24");
    let mut pool = IpPool::new(network, None);

    let reserved_ip = ip4("10.0.0.5");
    pool.reserve_ip(reserved_ip, "reserved").unwrap();

    let mut assigned = Vec::new();
    for _ in 0..4 {
        let id = random_endpoint_id();
        assigned.push(pool.allocate(id, 1).unwrap());
    }

    assert_eq!(
        assigned,
        vec![
            ip4("10.0.0.2"),
            ip4("10.0.0.3"),
            ip4("10.0.0.4"),
            ip4("10.0.0.6"),
        ]
    );
}

#[test]
fn test_ip_pool_reserve_ip_validation_and_idempotency() {
    let network: Ipv4Net = net4("10.0.0.0/24");
    let mut pool = IpPool::new(network, None);

    assert!(pool.reserve_ip(ip4("10.0.0.1"), "ip").is_err());
    assert!(pool.reserve_ip(ip4("10.0.0.0"), "ip").is_err());
    assert!(pool.reserve_ip(ip4("10.0.0.255"), "ip").is_err());
    assert!(
        pool.reserve_ip(ip4("192.168.1.1"), "ip")
            .is_err()
    );

    let reserved = pool.reserve_next_available().unwrap();
    let id1 = random_endpoint_id();
    let assigned = pool.allocate(id1, 1).unwrap();
    assert!(pool.reserve_ip(assigned, "ip").is_err());

    let free_ip = reserved;
    assert!(pool.reserve_ip(free_ip, "ip").is_ok());
    assert!(pool.reserve_ip(free_ip, "ip").is_ok());
}

#[test]
fn test_ip_pool_exhaustion() {
    // Use a tiny /30 network (2 usable hosts)
    let network: Ipv4Net = net4("10.0.0.0/30");
    let mut pool = IpPool::new(network, None);

    // Server uses .1, only .2 available for clients
    let id1 = random_endpoint_id();
    let id2 = random_endpoint_id();

    let ip1 = pool.allocate(id1, 1);
    assert!(ip1.is_some());

    let ip2 = pool.allocate(id2, 1);
    assert!(ip2.is_none()); // Pool exhausted
}

#[test]
fn test_ip6_pool_allocation() {
    let network: Ipv6Net = net6("fd00::/120");
    let mut pool =
        Ip6Pool::new(network, None, Ip6Strategy::Sequential, random_endpoint_id()).unwrap();

    // Server should get ::1
    assert_eq!(pool.server_ip(), ip6("fd00::1"));

    // Allocate IPs for clients
    let id1 = random_endpoint_id();
    let id2 = random_endpoint_id();

    let ip1 = pool.allocate(id1, 1).unwrap();
    let ip2 = pool.allocate(id2, 1).unwrap();

    assert_eq!(ip1, ip6("fd00::2"));
    assert_eq!(ip2, ip6("fd00::3"));

    // Re-allocate same client should return same IP
    let ip1_again = pool.allocate(id1, 1).unwrap();
    assert_eq!(ip1, ip1_again);

    // Release and reallocate
    pool.release(&id1, 1);
    let id3 = random_endpoint_id();
    let ip3 = pool.allocate(id3, 1).unwrap();
    assert_eq!(ip3, ip1); // Should reuse released IP
}

#[test]
fn test_ip6_pool_exhaustion() {
    // Use a tiny /126 network (4 addresses: ::0 network, ::1 server, ::2 client, ::3 last)
    let network: Ipv6Net = net6("fd00::/126");
    let mut pool =
        Ip6Pool::new(network, None, Ip6Strategy::Sequential, random_endpoint_id()).unwrap();

    // Server uses ::1, only ::2 available for clients (::3 is excluded as last address)
    let id1 = random_endpoint_id();
    let id2 = random_endpoint_id();

    let ip1 = pool.allocate(id1, 1);
    assert!(ip1.is_some());

    let ip2 = pool.allocate(id2, 1);
    assert!(ip2.is_none()); // Pool exhausted
}

#[test]
fn test_ip6_pool_rejects_slash127() {
    // /127 network has only 2 addresses - too small for server + clients
    let network: Ipv6Net = net6("fd00::/127");
    let result = Ip6Pool::new(network, None, Ip6Strategy::Sequential, random_endpoint_id());

    assert!(result.is_err());
    let err = result.unwrap_err();
    assert!(
        matches!(err, VpnError::Config(_)),
        "Expected Config error, got {:?}",
        err
    );
}

#[test]
fn test_ip6_pool_rejects_slash128() {
    // /128 is a single-address network - unusable for VPN pool
    let network: Ipv6Net = net6("fd00::/128");
    let result = Ip6Pool::new(network, None, Ip6Strategy::Sequential, random_endpoint_id());

    assert!(result.is_err());
    let err = result.unwrap_err();
    assert!(
        matches!(err, VpnError::Config(_)),
        "Expected Config error, got {:?}",
        err
    );
}

#[test]
fn test_ip6_nodeid_deterministic() {
    // Same node id must derive the same address across pool instances
    let network: Ipv6Net = net6("fd00::/64");
    let server_id = fixed_endpoint_id(1);
    let client_id = fixed_endpoint_id(2);

    let mut pool1 = Ip6Pool::new(network, None, Ip6Strategy::NodeId, server_id).unwrap();
    let mut pool2 = Ip6Pool::new(network, None, Ip6Strategy::NodeId, server_id).unwrap();

    let ip1 = pool1.allocate(client_id, 1).unwrap();
    let ip2 = pool2.allocate(client_id, 99).unwrap();
    assert_eq!(ip1, ip2);
    assert_eq!(ip1, derived_ip6(network, &client_id));

    // Idempotent for the same (endpoint, device) key
    assert_eq!(pool1.allocate(client_id, 1).unwrap(), ip1);
}

#[test]
fn test_ip6_nodeid_distinct_ids_distinct_ips() {
    let network: Ipv6Net = net6("fd00::/64");
    let mut pool =
        Ip6Pool::new(network, None, Ip6Strategy::NodeId, fixed_endpoint_id(1)).unwrap();

    let ip_a = pool.allocate(fixed_endpoint_id(2), 1).unwrap();
    let ip_b = pool.allocate(fixed_endpoint_id(3), 1).unwrap();
    assert_ne!(ip_a, ip_b);
    assert!(network.contains(&ip_a));
    assert!(network.contains(&ip_b));
}

#[test]
fn test_ip6_nodeid_server_ip_derived() {
    let network: Ipv6Net = net6("fd00::/64");
    let server_id = fixed_endpoint_id(1);
    let pool = Ip6Pool::new(network, None, Ip6Strategy::NodeId, server_id).unwrap();

    assert_eq!(pool.server_ip(), derived_ip6(network, &server_id));
    assert!(network.contains(&pool.server_ip()));
}

#[test]
fn test_ip6_nodeid_wider_prefix_in_subnet() {
    // Wider than /64 (e.g., /56) is allowed; suffix masking keeps the
    // derived address in-subnet
    let network: Ipv6Net = net6("fd00:aa00::/56");
    let mut pool =
        Ip6Pool::new(network, None, Ip6Strategy::NodeId, fixed_endpoint_id(1)).unwrap();

    let ip = pool.allocate(fixed_endpoint_id(2), 1).unwrap();
    assert!(network.contains(&ip));
    assert!(network.contains(&pool.server_ip()));
}

#[test]
fn test_ip6_nodeid_rejects_narrower_than_slash64() {
    let network: Ipv6Net = net6("fd00::/65");
    let result = Ip6Pool::new(network, None, Ip6Strategy::NodeId, fixed_endpoint_id(1));

    assert!(result.is_err());
    assert!(result.unwrap_err().message().contains("/64 or wider"));
}

#[test]
fn test_ip6_nodeid_rejects_custom_server_ip() {
    let network: Ipv6Net = net6("fd00::/64");
    let custom: Ipv6Addr = ip6("fd00::1");
    let result = Ip6Pool::new(
        network,
        Some(custom),
        Ip6Strategy::NodeId,
        fixed_endpoint_id(1),
    );

    assert!(result.is_err());
    assert!(result.unwrap_err().message().contains("server_ip6"));
}

#[test]
fn test_ip6_nodeid_rejects_server_own_id() {
    // A client presenting the server's node id derives the server's
    // address and must be rejected
    let network: Ipv6Net = net6("fd00::/64");
    let server_id = fixed_endpoint_id(1);
    let mut pool = Ip6Pool::new(network, None, Ip6Strategy::NodeId, server_id).unwrap();

    assert!(pool.allocate(server_id, 1).is_none());
}

#[test]
fn test_ip6_nodeid_second_device_conflict() {
    // A second device of the same node id derives the same address ->
    // duplicate is rejected
    let network: Ipv6Net = net6("fd00::/64");
    let client_id = fixed_endpoint_id(2);
    let mut pool =
        Ip6Pool::new(network, None, Ip6Strategy::NodeId, fixed_endpoint_id(1)).unwrap();

    assert!(pool.allocate(client_id, 1).is_some());
    assert!(pool.allocate(client_id, 2).is_none());
}

#[test]
fn test_ip6_nodeid_release_realloc_same_ip() {
    let network: Ipv6Net = net6("fd00::/64");
    let client_id = fixed_endpoint_id(2);
    let mut pool =
        Ip6Pool::new(network, None, Ip6Strategy::NodeId, fixed_endpoint_id(1)).unwrap();

    let ip = pool.allocate(client_id, 1).unwrap();
    pool.release(&client_id, 1);
    assert_eq!(pool.allocate(client_id, 2).unwrap(), ip);
}
