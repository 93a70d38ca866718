use ezvpn::addr::{Ipv4Addr, Ipv4Net, Ipv6Addr, Ipv6Net};
use ezvpn::checksum::{add_bytes, finalize_checksum, fold_checksum};
use ezvpn::identity::{derive_ip6_suffix, suffix_of_digest, EndpointId};
use ezvpn::render::{or_none, render_ip, render_ip6, render_net, render_net6, render_nets};
use ezvpn::text::{digits_text, push_dec, push_hex16, push_hex2, same_text};

fn v4(bits: u32, prefix_len: u8) -> Ipv4Net {
    Ipv4Net::new(Ipv4Addr { bits }, prefix_len).unwrap()
}

fn v6(bits: u128, prefix_len: u8) -> Ipv6Net {
    Ipv6Net::new(Ipv6Addr { bits }, prefix_len).unwrap()
}

#[test]
fn ipv4_networks_are_measured() {
    let net = v4(0x0a01_02c8, 25);
    assert_eq!(net.network().bits, 0x0a01_0280);
    assert_eq!(net.broadcast().bits, 0x0a01_02ff);
    assert_eq!(net.netmask().bits, 0xffff_ff80);
    assert!(net.contains(&Ipv4Addr { bits: 0x0a01_0280 }));
    assert!(net.contains(&Ipv4Addr { bits: 0x0a01_02ff }));
    assert!(!net.contains(&Ipv4Addr { bits: 0x0a01_027f }));
    assert!(!net.contains(&Ipv4Addr { bits: 0x0a01_0300 }));
    assert_eq!(net.to_text(), "10.1.2.200/25");
    assert_eq!(v4(7, 0).network().bits, 0);
    assert_eq!(v4(7, 0).broadcast().bits, u32::MAX);
    assert_eq!(v4(7, 0).netmask().bits, 0);
    assert_eq!(v4(7, 32).network().bits, 7);
    assert_eq!(v4(7, 32).broadcast().bits, 7);
    assert_eq!(v4(7, 32).netmask().bits, u32::MAX);
    assert!(Ipv4Net::new(Ipv4Addr { bits: 7 }, 33).is_none());
}

#[test]
fn ipv6_networks_are_measured() {
    let base: u128 = 0xfd00_0000_0000_0000_0000_0000_0000_0000;
    let net = v6(base + 0x1234, 120);
    assert_eq!(net.network().bits, base + 0x1200);
    assert_eq!(net.broadcast().bits, base + 0x12ff);
    assert!(net.contains(&Ipv6Addr { bits: base + 0x12ff }));
    assert!(!net.contains(&Ipv6Addr { bits: base + 0x1300 }));
    assert!(!net.contains(&Ipv6Addr { bits: base + 0x11ff }));
    assert_eq!(net.to_text(), "fd00::1234/120");
    assert_eq!(v6(base, 0).network().bits, 0);
    assert_eq!(v6(base, 0).broadcast().bits, u128::MAX);
    assert!(Ipv6Net::new(Ipv6Addr { bits: 7 }, 129).is_none());
}

#[test]
fn addresses_are_written() {
    assert_eq!(Ipv4Addr { bits: 0 }.to_text(), "0.0.0.0");
    assert_eq!(Ipv4Addr { bits: u32::MAX }.to_text(), "255.255.255.255");
    assert_eq!(Ipv6Addr { bits: 1 }.to_text(), "::1");
    assert_eq!(
        Ipv6Addr { bits: 0x2001_0db8_0000_0000_0000_0000_0000_0001 }.to_text(),
        "2001:db8::1"
    );
    assert_eq!(render_ip(&Some(Ipv4Addr { bits: 0x0a00_0001 })).as_deref(), Some("10.0.0.1"));
    assert_eq!(render_ip(&None), None);
    assert_eq!(render_ip6(&Some(Ipv6Addr { bits: 2 })).as_deref(), Some("::2"));
    assert_eq!(render_net(&Some(v4(0x0a00_0000, 8))).as_deref(), Some("10.0.0.0/8"));
    assert_eq!(render_net6(&Some(v6(0, 0))).as_deref(), Some("::/0"));
    assert_eq!(render_nets(&[v4(0, 0), v4(1, 32)]), vec!["0.0.0.0/0", "0.0.0.1/32"]);
    assert_eq!(or_none(None), "none");
    assert_eq!(or_none(Some("x".to_string())), "x");
}

#[test]
fn numbers_are_written() {
    let mut s = String::new();
    push_dec(&mut s, 0);
    push_dec(&mut s, 65535);
    push_hex2(&mut s, 0x0a);
    push_hex16(&mut s, 0xff);
    assert_eq!(s, "0655350a00000000000000ff");
    assert_eq!(digits_text(u64::MAX, 10), u64::MAX.to_string());
    assert_eq!(digits_text(255, 2), "11111111");
    assert!(same_text("abc", "abc"));
    assert!(!same_text("abc", "abd"));
    assert!(!same_text("abc", "ab"));
}

#[test]
fn peers_are_their_bytes() {
    let bytes: Vec<u8> = (0..32).collect();
    let id = EndpointId::from_bytes(&bytes).unwrap();
    assert_eq!(id.to_bytes(), bytes);
    assert!(EndpointId::from_bytes(&bytes[..31]).is_none());
    assert_eq!(suffix_of_digest(&[1, 2, 3, 4, 5, 6, 7, 8, 9]), 0x0102_0304_0506_0708);
    assert_eq!(derive_ip6_suffix(&id), 0x153ace2781e635de);
}

#[test]
fn words_are_summed() {
    assert_eq!(add_bytes(0, &[]), 0);
    assert_eq!(add_bytes(1, &[0x12, 0x34]), 0x1235);
    assert_eq!(add_bytes(0, &[0x12, 0x34, 0x56]), 0x1234 + 0x5600);
    assert_eq!(fold_checksum(0x1_ffff), 1);
    assert_eq!(fold_checksum(0xffff_ffff), 0xffff);
    assert_eq!(finalize_checksum(0x1_fffe), 0);
    assert_eq!(finalize_checksum(0x2_ddf0), 0x220d);
}
