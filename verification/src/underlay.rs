//! Which of its own addresses a server publishes, and when.

use vstd::prelude::*;
use crate::addr::{IpAddr, Ipv4Addr, Ipv4Net, Ipv6Addr, Ipv6Net};
use crate::bypass;
use crate::bypass::insert_address;
use crate::signaling::ServerAddrsMsg;

verus! {

/// A link-local IPv6 address: one in fe80::/10.
pub open spec fn link_local6(ip: Ipv6Addr) -> bool {
    0xfe80 <= ip.bits / 0x1_0000_0000_0000_0000_0000_0000_0000 <= 0xfebf
}

/// Whether the address is in fe80::/10.
pub fn is_link_local6(ip: &Ipv6Addr) -> (r: bool)
    ensures
        r == link_local6(*ip),
{
    let first: u128 = ip.bits / 0x1_0000_0000_0000_0000_0000_0000_0000;
    0xfe80 <= first && first <= 0xfebf
}

/// The ranges of an IPv6 prefix and of a bit mask are the same: the first byte is 0xfe and the
/// two highest bits of the second are one and zero.
pub proof fn law_link_local_by_bits(first: u16)
    ensures
        (0xfe80 <= first <= 0xfebf) <==> first & 0xffc0 == 0xfe80,
        (0xfe80 <= first <= 0xfebf) <==> first / 256 == 0xfe && (first % 256) & 0xc0 == 0x80,
{
    assert((0xfe80u16 <= first && first <= 0xfebfu16) == (first & 0xffc0 == 0xfe80)) by (bit_vector);
    assert((0xfe80u16 <= first && first <= 0xfebfu16) == (first / 256 == 0xfe && (first % 256)
        & 0xc0 == 0x80)) by (bit_vector);
}

/// An address on which a client can plausibly reach the server: not loopback, not unspecified
/// and not link-local.
pub open spec fn routable(ip: IpAddr) -> bool {
    match ip {
        IpAddr::V4(a) => {
            &&& a.bits / 0x100_0000 != 127
            &&& a.bits != 0
            &&& a.bits / 0x1_0000 != 0xa9fe
        },
        IpAddr::V6(a) => {
            &&& a.bits != 1
            &&& a.bits != 0
            &&& !link_local6(a)
        },
    }
}

/// Whether the address can plausibly be a transport address on which a client reaches the
/// server.
pub fn is_routable_underlay(ip: IpAddr) -> (r: bool)
    ensures
        r == routable(ip),
{
    match ip {
        IpAddr::V4(a) => a.bits / 0x100_0000 != 127 && a.bits != 0 && a.bits / 0x1_0000 != 0xa9fe,
        IpAddr::V6(a) => a.bits != 1 && a.bits != 0 && !is_link_local6(&a),
    }
}

/// An address that means something within a site only: one of the private IPv4 networks, a
/// unique local IPv6 address, or a link-local address of either family.
pub open spec fn private_scope(ip: IpAddr) -> bool {
    match ip {
        IpAddr::V4(a) => {
            ||| a.bits / 0x100_0000 == 10
            ||| a.bits / 0x10_0000 == 0xac1
            ||| a.bits / 0x1_0000 == 0xc0a8
            ||| a.bits / 0x1_0000 == 0xa9fe
        },
        IpAddr::V6(a) => {
            ||| a.bits / 0x100_0000_0000_0000_0000_0000_0000_0000 == 0xfc
            ||| a.bits / 0x100_0000_0000_0000_0000_0000_0000_0000 == 0xfd
            ||| link_local6(a)
        },
    }
}

/// Whether the address means something within a site only.
pub fn is_private_scope(ip: IpAddr) -> (r: bool)
    ensures
        r == private_scope(ip),
{
    match ip {
        IpAddr::V4(a) => {
            a.bits / 0x100_0000 == 10 || a.bits / 0x10_0000 == 0xac1 || a.bits / 0x1_0000 == 0xc0a8
                || a.bits / 0x1_0000 == 0xa9fe
        },
        IpAddr::V6(a) => {
            let first: u128 = a.bits / 0x100_0000_0000_0000_0000_0000_0000_0000;
            first == 0xfc || first == 0xfd || is_link_local6(&a)
        },
    }
}

/// The address is one of the server's own tunnel network.
pub open spec fn in_overlay(ip: IpAddr, v4: Option<Ipv4Net>, v6: Option<Ipv6Net>) -> bool {
    match ip {
        IpAddr::V4(a) => v4 is Some && v4->0.has(a),
        IpAddr::V6(a) => v6 is Some && v6->0.has(a),
    }
}

/// The prefixes of the tunnel networks fit.
pub open spec fn overlays_wf(v4: Option<Ipv4Net>, v6: Option<Ipv6Net>) -> bool {
    &&& v4 is Some ==> v4->0.wf()
    &&& v6 is Some ==> v6->0.wf()
}

/// Whether the address falls within the server's own tunnel network, and therefore must not be
/// published as a transport address.
pub fn ip_in_overlay(ip: IpAddr, overlay_v4: Option<Ipv4Net>, overlay_v6: Option<Ipv6Net>) -> (r:
    bool)
    requires
        overlays_wf(overlay_v4, overlay_v6),
    ensures
        r == in_overlay(ip, overlay_v4, overlay_v6),
{
    match ip {
        IpAddr::V4(a) => match overlay_v4 {
            Some(net) => net.contains(&a),
            None => false,
        },
        IpAddr::V6(a) => match overlay_v6 {
            Some(net) => net.contains(&a),
            None => false,
        },
    }
}

/// The address may be published: clients can reach it, and it is not the tunnel's own.
pub open spec fn publishable(ip: IpAddr, v4: Option<Ipv4Net>, v6: Option<Ipv6Net>) -> bool {
    !in_overlay(ip, v4, v6) && routable(ip)
}

/// The server's candidate transport addresses, in order and each once: those of its local
/// addresses that are not of its own tunnel network and that a client can reach it on.
///
/// Publishing an address of the tunnel network would make clients pin the gateway off the
/// tunnel.
pub fn server_candidate_addrs(
    local_addrs: &[IpAddr],
    overlay_v4: Option<Ipv4Net>,
    overlay_v6: Option<Ipv6Net>,
) -> (r: Vec<IpAddr>)
    requires
        overlays_wf(overlay_v4, overlay_v6),
    ensures
        bypass::ascending(r@),
        forall|x: IpAddr| #[trigger]
            r@.contains(x) <==> local_addrs@.contains(x) && publishable(x, overlay_v4, overlay_v6),
{
    let mut r: Vec<IpAddr> = Vec::new();
    let mut i: usize = 0;
    while i < local_addrs.len()
        invariant
            i <= local_addrs@.len(),
            overlays_wf(overlay_v4, overlay_v6),
            bypass::ascending(r@),
            forall|x: IpAddr| #[trigger]
                r@.contains(x) <==> local_addrs@.take(i as int).contains(x) && publishable(
                    x,
                    overlay_v4,
                    overlay_v6,
                ),
        decreases local_addrs@.len() - i,
    {
        let ip: IpAddr = local_addrs[i];
        proof {
            bypass::lemma_take_one_more(local_addrs@, i as int);
        }
        if !ip_in_overlay(ip, overlay_v4, overlay_v6) && is_routable_underlay(ip) {
            insert_address(&mut r, ip);
        }
        i += 1;
    }
    proof {
        assert(local_addrs@.take(local_addrs@.len() as int) =~= local_addrs@);
    }
    r
}

/// The message that publishes the candidates; with no candidates there is nothing to publish.
pub fn publication(
    local_addrs: &[IpAddr],
    overlay_v4: Option<Ipv4Net>,
    overlay_v6: Option<Ipv6Net>,
) -> (r: Option<ServerAddrsMsg>)
    requires
        overlays_wf(overlay_v4, overlay_v6),
    ensures
        r is Some <==> exists|x: IpAddr| #[trigger]
            local_addrs@.contains(x) && publishable(x, overlay_v4, overlay_v6),
        r is Some ==> {
            &&& bypass::ascending(r->0.addrs@)
            &&& forall|x: IpAddr| #[trigger]
                r->0.addrs@.contains(x) <==> local_addrs@.contains(x) && publishable(
                    x,
                    overlay_v4,
                    overlay_v6,
                )
        },
{
    let addrs = server_candidate_addrs(local_addrs, overlay_v4, overlay_v6);
    if addrs.len() == 0 {
        proof {
            assert forall|x: IpAddr| #[trigger] local_addrs@.contains(x) implies !publishable(
                x,
                overlay_v4,
                overlay_v6,
            ) by {
                assert(!addrs@.contains(x));
            }
        }
        return None;
    }
    proof {
        assert(addrs@.contains(addrs@[0]));
        assert(local_addrs@.contains(addrs@[0]));
    }
    Some(ServerAddrsMsg::new(addrs))
}

/// What became of something that was offered to a queue without waiting.
#[derive(Debug, Clone, Copy, PartialEq, Eq, Structural)]
pub enum Offered {
    Taken,
    Full,
    Closed,
}

/// What the publisher of one client wakes up for.
#[derive(Debug, Clone, Copy, PartialEq, Eq, Structural)]
pub enum PublisherEvent {
    /// The client's connection closed.
    ConnectionClosed,
    /// The interval passed; the first one passes at once.
    Tick,
    /// The server's addresses changed.
    AddressesChanged,
    /// The server's addresses are no longer watched.
    WatcherEnded,
    /// The outcome of a publication.
    Published(Offered),
}

/// What the publisher does next.
#[derive(Debug, Clone, Copy, PartialEq, Eq, Structural)]
pub enum PublisherAction {
    Publish,
    Wait,
    Stop,
}

/// The publisher of one client.
#[derive(Debug, Clone, Copy, PartialEq, Eq, Structural)]
pub struct AddrPublisher {
    /// Whether changes of the server's addresses are still watched.
    pub watcher_alive: bool,
}

/// What follows an event: the interval and a change publish, a closed connection or queue ends
/// the publisher. A full queue does not: the next tick tries again.
pub open spec fn publisher_action(event: PublisherEvent) -> PublisherAction {
    match event {
        PublisherEvent::ConnectionClosed => PublisherAction::Stop,
        PublisherEvent::Tick => PublisherAction::Publish,
        PublisherEvent::AddressesChanged => PublisherAction::Publish,
        PublisherEvent::WatcherEnded => PublisherAction::Wait,
        PublisherEvent::Published(Offered::Closed) => PublisherAction::Stop,
        PublisherEvent::Published(_) => PublisherAction::Wait,
    }
}

impl AddrPublisher {
    /// A publisher that watches for changes.
    pub fn new() -> (p: Self)
        ensures
            p == (AddrPublisher { watcher_alive: true }),
    {
        AddrPublisher { watcher_alive: true }
    }

    /// Takes up an event. Once the watcher has ended, only the interval publishes.
    pub fn on_event(&mut self, event: PublisherEvent) -> (action: PublisherAction)
        ensures
            action == publisher_action(event),
            final(self).watcher_alive == (old(self).watcher_alive && !(event is WatcherEnded)),
    {
        match event {
            PublisherEvent::ConnectionClosed => PublisherAction::Stop,
            PublisherEvent::Tick => PublisherAction::Publish,
            PublisherEvent::AddressesChanged => PublisherAction::Publish,
            PublisherEvent::WatcherEnded => {
                self.watcher_alive = false;
                PublisherAction::Wait
            },
            PublisherEvent::Published(Offered::Closed) => PublisherAction::Stop,
            PublisherEvent::Published(_) => PublisherAction::Wait,
        }
    }
}

/// The IPv4 ranges, octet by octet: loopback, unspecified and link-local addresses are not
/// routable; the three private networks and link-local are of private scope.
pub proof fn law_ipv4_ranges(a: u8, b: u8, c: u8, d: u8, ip: Ipv4Addr)
    requires
        ip.bits == a * 0x100_0000 + b * 0x1_0000 + c * 0x100 + d,
    ensures
        routable(IpAddr::V4(ip)) <==> a != 127 && !(a == 169 && b == 254) && !(a == 0 && b == 0 && c
            == 0 && d == 0),
        private_scope(IpAddr::V4(ip)) <==> a == 10 || a == 172 && 16 <= b <= 31 || a == 192 && b
            == 168 || a == 169 && b == 254,
{
}

/// The IPv6 ranges, by the first sixteen bits and the rest: loopback, unspecified and link-local
/// addresses are not routable; unique local and link-local addresses are of private scope.
pub proof fn law_ipv6_ranges(first: u16, rest: u128, ip: Ipv6Addr)
    requires
        rest < 0x1_0000_0000_0000_0000_0000_0000_0000,
        ip.bits == first * 0x1_0000_0000_0000_0000_0000_0000_0000 + rest,
    ensures
        routable(IpAddr::V6(ip)) <==> !(0xfe80 <= first <= 0xfebf) && !(first == 0 && rest <= 1),
        private_scope(IpAddr::V6(ip)) <==> 0xfc00 <= first <= 0xfdff || 0xfe80 <= first <= 0xfebf,
        link_local6(ip) <==> 0xfe80 <= first <= 0xfebf,
{
}

/// An address is published exactly if it is routable and outside the VPN's own networks.
pub proof fn law_published_addresses(ip: IpAddr, v4: Option<Ipv4Net>, v6: Option<Ipv6Net>)
    ensures
        publishable(ip, v4, v6) <==> routable(ip) && match ip {
            IpAddr::V4(a) => v4 is None || a.bits < v4->0.first() || a.bits > v4->0.last(),
            IpAddr::V6(a) => v6 is None || a.bits < v6->0.first() || a.bits > v6->0.last(),
        },
{
}

/// Addresses are published on every tick and every change, and no longer once the connection is
/// closed; whatever else happens is waited out.
pub proof fn law_publisher_follows_its_events(event: PublisherEvent)
    ensures
        publisher_action(event) is Publish <==> event is Tick || event is AddressesChanged,
        publisher_action(event) is Stop <==> event is ConnectionClosed || event
            == PublisherEvent::Published(Offered::Closed),
{
}

} // verus!
