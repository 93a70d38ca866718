use ezvpn::addr::{IpAddr, Ipv4Addr, Ipv6Addr};
use ezvpn::relay::{
    locate_relay, parse_relay_urls, relay_host, relay_target, resolve_server_addr, RelayHost,
    RelayTarget,
};
use ezvpn::vpn_error::VpnError;

fn texts(list: &[&str]) -> Vec<String> {
    list.iter().map(|s| s.to_string()).collect()
}

fn server_key() -> iroh::EndpointId {
    iroh::SecretKey::from_bytes(&[7; 32]).public()
}

fn v4(bits: u32) -> IpAddr {
    IpAddr::V4(Ipv4Addr { bits })
}

fn v6(bits: u128) -> IpAddr {
    IpAddr::V6(Ipv6Addr { bits })
}

#[test]
fn servers_are_resolved_with_their_relays() {
    let key = server_key();
    let server = resolve_server_addr(&key.to_string(), &[]).unwrap();
    assert_eq!(&server.id.to_bytes()[..], &key.as_bytes()[..]);
    assert!(server.relay_urls.is_empty());

    let relays = texts(&["https://b.example.com", "https://a.example.com:8443/"]);
    let server = resolve_server_addr(&key.to_string(), &relays).unwrap();
    let expected = texts(&["https://b.example.com/", "https://a.example.com:8443/"]);
    assert_eq!(server.relay_urls, expected);
}

#[test]
fn the_first_text_that_fails_is_named() {
    let bad = texts(&["https://a.example.com", "no url", "neither"]);
    assert_eq!(
        resolve_server_addr("not-a-key", &bad).unwrap_err(),
        VpnError::Config("Invalid server node ID: not-a-key".to_string())
    );
    assert_eq!(
        resolve_server_addr(&server_key().to_string(), &bad).unwrap_err(),
        VpnError::Config("Invalid relay URL: no url".to_string())
    );
    assert_eq!(
        parse_relay_urls(&bad[2..]).unwrap_err(),
        VpnError::Config("Invalid relay URL: neither".to_string())
    );
}

#[test]
fn hosts_are_told() {
    assert_eq!(relay_host(None), RelayHost::Absent);
    let host = |s: &str| relay_host(Some(s.to_string()));
    assert_eq!(host("192.168.1.1"), RelayHost::Address(v4(0xc0a8_0101)));
    assert_eq!(host("[::1]"), RelayHost::Address(v6(1)));
    assert_eq!(host("::1"), RelayHost::Address(v6(1)));
    assert_eq!(host("relay.example.com"), RelayHost::Name("relay.example.com".to_string()));
    assert_eq!(host("[relay]"), RelayHost::Name("[relay]".to_string()));
    assert_eq!(host(""), RelayHost::Name(String::new()));
}

#[test]
fn targets_have_a_port() {
    assert_eq!(relay_target(RelayHost::Absent, Some(1)), RelayTarget::NoHost);
    assert_eq!(
        relay_target(RelayHost::Address(v4(9)), None),
        RelayTarget::Address(v4(9), 443)
    );
    assert_eq!(
        relay_target(RelayHost::Name("r".to_string()), Some(8443)),
        RelayTarget::Lookup { name: "r".to_string(), port: 8443 }
    );
}

#[test]
fn relays_are_located_by_their_urls() {
    assert_eq!(
        locate_relay("https://192.168.1.1:8443/"),
        RelayTarget::Address(v4(0xc0a8_0101), 8443)
    );
    let address = v6(0x2001_0db8_0000_0000_0000_0000_0000_0001);
    assert_eq!(locate_relay("https://[2001:db8::1]/"), RelayTarget::Address(address, 443));
    assert_eq!(
        locate_relay("https://relay.example.com./"),
        RelayTarget::Lookup { name: "relay.example.com.".to_string(), port: 443 }
    );
    assert_eq!(locate_relay("data:text/plain,relay"), RelayTarget::NoHost);
    assert_eq!(locate_relay("no url"), RelayTarget::NoHost);
}
