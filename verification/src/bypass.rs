//! Which underlay addresses have to stay off the tunnel.
//!
//! A tunnel that routes a prefix also captures the transport's own packets to any address in
//! that prefix. Those addresses are pinned to the underlay, one host route each.

use vstd::prelude::*;
use vstd::string::*;
use crate::addr;
use crate::addr::{IpAddr, Ipv4Addr, Ipv4Net, Ipv6Addr, Ipv6Net};
use crate::render;
use crate::underlay;
use crate::underlay::is_private_scope;

verus! {

/// The place of an address in the order of all addresses: IPv4 before IPv6, and by number.
pub open spec fn rank(ip: IpAddr) -> int {
    match ip {
        IpAddr::V4(a) => a.bits as int,
        IpAddr::V6(a) => 0x1_0000_0000 + a.bits,
    }
}

/// The addresses are in order, and each is there once.
pub open spec fn ascending(s: Seq<IpAddr>) -> bool {
    forall|i: int, j: int| 0 <= i < j < s.len() ==> rank(#[trigger] s[i]) < rank(#[trigger] s[j])
}

/// The prefixes of all the networks fit.
pub open spec fn all_wf4(nets: Seq<Ipv4Net>) -> bool {
    forall|i: int| 0 <= i < nets.len() ==> (#[trigger] nets[i]).wf()
}

/// The prefixes of all the networks fit.
pub open spec fn all_wf6(nets: Seq<Ipv6Net>) -> bool {
    forall|i: int| 0 <= i < nets.len() ==> (#[trigger] nets[i]).wf()
}

/// One of the networks holds the address.
pub open spec fn any_has4(nets: Seq<Ipv4Net>, ip: Ipv4Addr) -> bool {
    exists|i: int| 0 <= i < nets.len() && (#[trigger] nets[i]).has(ip)
}

/// One of the networks holds the address.
pub open spec fn any_has6(nets: Seq<Ipv6Net>, ip: Ipv6Addr) -> bool {
    exists|i: int| 0 <= i < nets.len() && (#[trigger] nets[i]).has(ip)
}

/// A route of the address's family captures it.
pub open spec fn covered(ip: IpAddr, routes4: Seq<Ipv4Net>, routes6: Seq<Ipv6Net>) -> bool {
    match ip {
        IpAddr::V4(a) => any_has4(routes4, a),
        IpAddr::V6(a) => any_has6(routes6, a),
    }
}

/// Two addresses of the same place are the same.
proof fn lemma_rank_is_injective(a: IpAddr, b: IpAddr)
    requires
        rank(a) == rank(b),
    ensures
        a == b,
{
}

/// Whether `a` comes before `b`.
fn precedes(a: &IpAddr, b: &IpAddr) -> (r: bool)
    ensures
        r == (rank(*a) < rank(*b)),
{
    match (a, b) {
        (IpAddr::V4(x), IpAddr::V4(y)) => x.bits < y.bits,
        (IpAddr::V4(_), IpAddr::V6(_)) => true,
        (IpAddr::V6(_), IpAddr::V4(_)) => false,
        (IpAddr::V6(x), IpAddr::V6(y)) => x.bits < y.bits,
    }
}

/// A transport address needs a bypass if a route captures it and it means something beyond a
/// site.
///
/// An address that means something within a site only is not reachable off the tunnel, and
/// keeping it off would cut off whatever shares it inside.
pub open spec fn needs_bypass(ip: IpAddr, routes4: Seq<Ipv4Net>, routes6: Seq<Ipv6Net>) -> bool {
    covered(ip, routes4, routes6) && !underlay::private_scope(ip)
}

/// Adds an address to an ordered list, at its place, unless it is there already.
pub fn insert_address(list: &mut Vec<IpAddr>, ip: IpAddr)
    requires
        ascending(old(list)@),
    ensures
        ascending(final(list)@),
        forall|x: IpAddr| #[trigger] final(list)@.contains(x) <==> old(list)@.contains(x) || x == ip,
{
    let ghost before = list@;
    let mut i: usize = 0;
    while i < list.len() && precedes(&list[i], &ip)
        invariant
            list@ == before,
            ascending(before),
            i <= list@.len(),
            forall|k: int| 0 <= k < i ==> rank(#[trigger] before[k]) < rank(ip),
        decreases list@.len() - i,
    {
        i += 1;
    }
    if i < list.len() && !precedes(&ip, &list[i]) {
        proof {
            lemma_rank_is_injective(before[i as int], ip);
            assert(before.contains(ip));
        }
        return;
    }
    list.insert(i, ip);
    proof {
        let after = list@;
        assert(after == before.insert(i as int, ip));
        assert forall|a: int, b: int| 0 <= a < b < after.len() implies rank(#[trigger] after[a])
            < rank(#[trigger] after[b]) by {
            if a < i && b > i {
                assert(after[a] == before[a] && after[b] == before[b - 1]);
            } else if a < i && b < i {
                assert(after[a] == before[a] && after[b] == before[b]);
            } else if a > i {
                assert(after[a] == before[a - 1] && after[b] == before[b - 1]);
            } else if a == i {
                assert(after[b] == before[b - 1]);
                if b - 1 > i {
                    assert(rank(before[i as int]) < rank(before[b - 1]));
                }
            } else {
                assert(after[a] == before[a]);
            }
        }
        assert forall|x: IpAddr| #[trigger] after.contains(x) <==> before.contains(x) || x == ip by {
            if before.contains(x) {
                let k = choose|k: int| 0 <= k < before.len() && before[k] == x;
                if k < i {
                    assert(after[k] == x);
                } else {
                    assert(after[k + 1] == x);
                }
            }
            if x == ip {
                assert(after[i as int] == x);
            }
            if after.contains(x) {
                let k = choose|k: int| 0 <= k < after.len() && after[k] == x;
                if k < i {
                    assert(before[k] == x);
                } else if k > i {
                    assert(before[k - 1] == x);
                }
            }
        }
    }
}

/// Whether the list holds the address.
fn has_address(list: &Vec<IpAddr>, ip: &IpAddr) -> (r: bool)
    ensures
        r == list@.contains(*ip),
{
    let mut i: usize = 0;
    while i < list.len()
        invariant
            i <= list@.len(),
            forall|k: int| 0 <= k < i ==> list@[k] != *ip,
        decreases list@.len() - i,
    {
        if list[i] == *ip {
            assert(list@[i as int] == *ip);
            return true;
        }
        i += 1;
    }
    false
}

/// Whether one of the networks holds the address.
fn any_contains4(nets: &[Ipv4Net], ip: &Ipv4Addr) -> (r: bool)
    requires
        all_wf4(nets@),
    ensures
        r == any_has4(nets@, *ip),
{
    let mut i: usize = 0;
    while i < nets.len()
        invariant
            i <= nets@.len(),
            all_wf4(nets@),
            forall|k: int| 0 <= k < i ==> !(#[trigger] nets@[k]).has(*ip),
        decreases nets@.len() - i,
    {
        if nets[i].contains(ip) {
            assert(nets@[i as int].has(*ip));
            return true;
        }
        i += 1;
    }
    false
}

/// Whether one of the networks holds the address.
fn any_contains6(nets: &[Ipv6Net], ip: &Ipv6Addr) -> (r: bool)
    requires
        all_wf6(nets@),
    ensures
        r == any_has6(nets@, *ip),
{
    let mut i: usize = 0;
    while i < nets.len()
        invariant
            i <= nets@.len(),
            all_wf6(nets@),
            forall|k: int| 0 <= k < i ==> !(#[trigger] nets@[k]).has(*ip),
        decreases nets@.len() - i,
    {
        if nets[i].contains(ip) {
            assert(nets@[i as int].has(*ip));
            return true;
        }
        i += 1;
    }
    false
}

/// Merges two lists of addresses into one in order, each address once.
pub fn merge_addresses(a: &[IpAddr], b: &[IpAddr]) -> (r: Vec<IpAddr>)
    ensures
        ascending(r@),
        forall|x: IpAddr| #[trigger] r@.contains(x) <==> a@.contains(x) || b@.contains(x),
{
    let mut r: Vec<IpAddr> = Vec::new();
    let mut i: usize = 0;
    while i < a.len()
        invariant
            i <= a@.len(),
            ascending(r@),
            forall|x: IpAddr| #[trigger] r@.contains(x) <==> a@.take(i as int).contains(x),
        decreases a@.len() - i,
    {
        insert_address(&mut r, a[i]);
        proof {
            lemma_take_one_more(a@, i as int);
        }
        i += 1;
    }
    proof {
        assert(a@.take(a@.len() as int) =~= a@);
    }
    let mut k: usize = 0;
    while k < b.len()
        invariant
            k <= b@.len(),
            ascending(r@),
            forall|x: IpAddr|
                #[trigger] r@.contains(x) <==> a@.contains(x) || b@.take(k as int).contains(x),
        decreases b@.len() - k,
    {
        insert_address(&mut r, b[k]);
        proof {
            lemma_take_one_more(b@, k as int);
        }
        k += 1;
    }
    proof {
        assert(b@.take(b@.len() as int) =~= b@);
    }
    r
}

/// A prefix that is one longer holds one address more.
pub proof fn lemma_take_one_more(s: Seq<IpAddr>, i: int)
    requires
        0 <= i < s.len(),
    ensures
        forall|x: IpAddr|
            #[trigger] s.take(i + 1).contains(x) <==> s.take(i).contains(x) || x == s[i],
{
    assert forall|x: IpAddr|
        #[trigger] s.take(i + 1).contains(x) <==> s.take(i).contains(x) || x == s[i] by {
        let more = s.take(i + 1);
        let less = s.take(i);
        if more.contains(x) {
            let k = choose|k: int| 0 <= k < more.len() && more[k] == x;
            if k < i {
                assert(less[k] == x);
            }
        }
        if less.contains(x) {
            let k = choose|k: int| 0 <= k < less.len() && less[k] == x;
            assert(more[k] == x);
        }
        if x == s[i] {
            assert(more[i] == x);
        }
    }
}

/// The bypass routes of a session.
///
/// Add-only: a route stays until the session ends, whether or not its address is still
/// published. Peers come and go between publications, and a route that were removed in
/// between would let the tunnel capture the very path it protects.
#[derive(Debug)]
pub struct BypassRouteManager {
    /// The addresses whose routes are installed, in order.
    pub active_routes: Vec<IpAddr>,
    /// IPv4 prefixes that the tunnel routes.
    pub vpn_routes4: Vec<Ipv4Net>,
    /// IPv6 prefixes that the tunnel routes.
    pub vpn_routes6: Vec<Ipv6Net>,
    /// All the addresses that a bypass was wanted for, in order. A route may have failed to
    /// install, so this can be more than `active_routes`.
    pub collected: Vec<IpAddr>,
}

/// `to_add` are the routes to install for the required addresses, which are collected.
pub open spec fn updated(
    before: BypassRouteManager,
    after: BypassRouteManager,
    required: Seq<IpAddr>,
    to_add: Seq<IpAddr>,
) -> bool {
    &&& after.active_routes@ == before.active_routes@
    &&& forall|x: IpAddr| #[trigger]
        after.collected@.contains(x) <==> before.collected@.contains(x) || (required.contains(x)
            && before.wants(x))
    &&& ascending(to_add)
    &&& forall|x: IpAddr| #[trigger]
        to_add.contains(x) <==> required.contains(x) && before.wants(x)
            && !before.active_routes@.contains(x)
}

impl BypassRouteManager {
    /// The tunnel's prefixes capture the address.
    pub open spec fn captures(self, ip: IpAddr) -> bool {
        covered(ip, self.vpn_routes4@, self.vpn_routes6@)
    }

    /// A bypass keeps the address off the tunnel.
    pub open spec fn wants(self, ip: IpAddr) -> bool {
        needs_bypass(ip, self.vpn_routes4@, self.vpn_routes6@)
    }

    /// Both lists are in order, a route was wanted before it was installed, and only addresses
    /// that need a bypass are wanted.
    pub open spec fn wf(self) -> bool {
        &&& all_wf4(self.vpn_routes4@)
        &&& all_wf6(self.vpn_routes6@)
        &&& ascending(self.active_routes@)
        &&& ascending(self.collected@)
        &&& forall|x: IpAddr| #[trigger]
            self.active_routes@.contains(x) ==> self.collected@.contains(x)
        &&& forall|x: IpAddr| #[trigger] self.collected@.contains(x) ==> self.wants(x)
    }

    /// No routes yet, for a tunnel of these prefixes.
    pub fn new(vpn_routes4: Vec<Ipv4Net>, vpn_routes6: Vec<Ipv6Net>) -> (m: Self)
        requires
            all_wf4(vpn_routes4@),
            all_wf6(vpn_routes6@),
        ensures
            m.wf(),
            m.active_routes@ == Seq::<IpAddr>::empty(),
            m.collected@ == Seq::<IpAddr>::empty(),
            m.vpn_routes4 == vpn_routes4,
            m.vpn_routes6 == vpn_routes6,
    {
        BypassRouteManager {
            active_routes: Vec::new(),
            vpn_routes4,
            vpn_routes6,
            collected: Vec::new(),
        }
    }

    /// Whether the address falls within a prefix that the tunnel routes.
    pub fn ip_covered_by_vpn_routes(&self, ip: IpAddr) -> (r: bool)
        requires
            self.wf(),
        ensures
            r == self.captures(ip),
    {
        match ip {
            IpAddr::V4(a) => any_contains4(self.vpn_routes4.as_slice(), &a),
            IpAddr::V6(a) => any_contains6(self.vpn_routes6.as_slice(), &a),
        }
    }

    /// Takes up a new set of transport addresses, and returns those whose routes are to be
    /// installed now.
    ///
    /// Addresses that the tunnel does not capture are routed correctly already and are passed
    /// over, and so are those that mean something within a site only. The others are remembered
    /// as wanted, and returned unless their routes are up.
    pub fn update(&mut self, required_ips: &[IpAddr]) -> (to_add: Vec<IpAddr>)
        requires
            old(self).wf(),
        ensures
            final(self).wf(),
            final(self).active_routes == old(self).active_routes,
            final(self).vpn_routes4 == old(self).vpn_routes4,
            final(self).vpn_routes6 == old(self).vpn_routes6,
            forall|x: IpAddr| #[trigger]
                final(self).collected@.contains(x) <==> old(self).collected@.contains(x) || (
                required_ips@.contains(x) && old(self).wants(x)),
            ascending(to_add@),
            forall|x: IpAddr| #[trigger]
                to_add@.contains(x) <==> required_ips@.contains(x) && old(self).wants(x)
                    && !old(self).active_routes@.contains(x),
            updated(*old(self), *final(self), required_ips@, to_add@),
    {
        let ghost before = *self;
        let mut to_add: Vec<IpAddr> = Vec::new();
        let mut i: usize = 0;
        while i < required_ips.len()
            invariant
                i <= required_ips@.len(),
                before == *old(self),
                before.wf(),
                self.wf(),
                self.active_routes == before.active_routes,
                self.vpn_routes4 == before.vpn_routes4,
                self.vpn_routes6 == before.vpn_routes6,
                forall|x: IpAddr| #[trigger]
                    self.collected@.contains(x) <==> before.collected@.contains(x) || (
                    required_ips@.take(i as int).contains(x) && before.wants(x)),
                ascending(to_add@),
                forall|x: IpAddr| #[trigger]
                    to_add@.contains(x) <==> required_ips@.take(i as int).contains(x)
                        && before.wants(x) && !before.active_routes@.contains(x),
            decreases required_ips@.len() - i,
        {
            let ip: IpAddr = required_ips[i];
            proof {
                lemma_take_one_more(required_ips@, i as int);
            }
            if self.ip_covered_by_vpn_routes(ip) && !is_private_scope(ip) {
                insert_address(&mut self.collected, ip);
                if !has_address(&self.active_routes, &ip) {
                    insert_address(&mut to_add, ip);
                }
            }
            i += 1;
        }
        proof {
            assert(required_ips@.take(required_ips@.len() as int) =~= required_ips@);
        }
        to_add
    }

    /// Notes that the route for a wanted address is up.
    pub fn route_installed(&mut self, ip: IpAddr)
        requires
            old(self).wf(),
            old(self).collected@.contains(ip),
        ensures
            final(self).wf(),
            final(self).vpn_routes4 == old(self).vpn_routes4,
            final(self).vpn_routes6 == old(self).vpn_routes6,
            final(self).collected == old(self).collected,
            forall|x: IpAddr| #[trigger]
                final(self).active_routes@.contains(x) <==> old(self).active_routes@.contains(x)
                    || x == ip,
    {
        insert_address(&mut self.active_routes, ip);
    }
}

/// The host route that keeps an IPv4 address off the tunnel.
pub open spec fn exclude4(ip: Ipv4Addr) -> Seq<char> {
    ip.text() + "/32"@
}

/// The host route that keeps an IPv6 address off the tunnel.
pub open spec fn exclude6(ip: Ipv6Addr) -> Seq<char> {
    addr::ipv6_text(ip.bits) + "/128"@
}

/// The host routes of the IPv4 addresses that the routes capture, in the order of the list.
pub open spec fn excludes4(addrs: Seq<IpAddr>, routes4: Seq<Ipv4Net>) -> Seq<Seq<char>>
    decreases addrs.len(),
{
    if addrs.len() == 0 {
        Seq::empty()
    } else {
        let head = excludes4(addrs.drop_last(), routes4);
        match addrs.last() {
            IpAddr::V4(a) => if any_has4(routes4, a) {
                head.push(exclude4(a))
            } else {
                head
            },
            IpAddr::V6(_) => head,
        }
    }
}

/// The host routes of the IPv6 addresses that the routes capture, in the order of the list.
pub open spec fn excludes6(addrs: Seq<IpAddr>, routes6: Seq<Ipv6Net>) -> Seq<Seq<char>>
    decreases addrs.len(),
{
    if addrs.len() == 0 {
        Seq::empty()
    } else {
        let head = excludes6(addrs.drop_last(), routes6);
        match addrs.last() {
            IpAddr::V4(_) => head,
            IpAddr::V6(a) => if any_has6(routes6, a) {
                head.push(exclude6(a))
            } else {
                head
            },
        }
    }
}

/// The underlay addresses that fall within a routed prefix, as host routes: those of IPv4 and
/// those of IPv6.
///
/// A tunnel that cannot add routes while it runs excludes these up front.
pub fn overlapping_underlay_excludes(
    server_addrs: &[IpAddr],
    routes4: &[Ipv4Net],
    routes6: &[Ipv6Net],
) -> (r: (Vec<String>, Vec<String>))
    requires
        all_wf4(routes4@),
        all_wf6(routes6@),
    ensures
        render::texts(r.0@) == excludes4(server_addrs@, routes4@),
        render::texts(r.1@) == excludes6(server_addrs@, routes6@),
{
    let mut v4: Vec<String> = Vec::new();
    let mut v6: Vec<String> = Vec::new();
    let mut i: usize = 0;
    assert(render::texts(v4@) =~= excludes4(server_addrs@.take(0), routes4@));
    assert(render::texts(v6@) =~= excludes6(server_addrs@.take(0), routes6@));
    while i < server_addrs.len()
        invariant
            i <= server_addrs@.len(),
            all_wf4(routes4@),
            all_wf6(routes6@),
            render::texts(v4@) == excludes4(server_addrs@.take(i as int), routes4@),
            render::texts(v6@) == excludes6(server_addrs@.take(i as int), routes6@),
        decreases server_addrs@.len() - i,
    {
        let ghost before4 = v4@;
        let ghost before6 = v6@;
        proof {
            assert(server_addrs@.take(i + 1).drop_last() =~= server_addrs@.take(i as int));
        }
        match server_addrs[i] {
            IpAddr::V4(a) => {
                if any_contains4(routes4, &a) {
                    let mut s = a.to_text();
                    s.append("/32");
                    v4.push(s);
                    assert(render::texts(v4@) =~= render::texts(before4).push(exclude4(a)));
                }
            },
            IpAddr::V6(a) => {
                if any_contains6(routes6, &a) {
                    let mut s = a.to_text();
                    s.append("/128");
                    v6.push(s);
                    assert(render::texts(v6@) =~= render::texts(before6).push(exclude6(a)));
                }
            },
        }
        i += 1;
    }
    proof {
        assert(server_addrs@.take(server_addrs@.len() as int) =~= server_addrs@);
    }
    (v4, v6)
}

/// An address of the list is excluded up front exactly when the routes capture it, and without
/// routes nothing is.
pub proof fn law_excludes_are_captured(
    addrs: Seq<IpAddr>,
    routes4: Seq<Ipv4Net>,
    routes6: Seq<Ipv6Net>,
)
    ensures
        forall|a: Ipv4Addr|
            addrs.contains(IpAddr::V4(a)) && covered(IpAddr::V4(a), routes4, routes6) ==> excludes4(
                addrs,
                routes4,
            ).contains(#[trigger] exclude4(a)),
        forall|a: Ipv6Addr|
            addrs.contains(IpAddr::V6(a)) && covered(IpAddr::V6(a), routes4, routes6) ==> excludes6(
                addrs,
                routes6,
            ).contains(#[trigger] exclude6(a)),
        forall|t: Seq<char>| #[trigger]
            excludes4(addrs, routes4).contains(t) ==> exists|a: Ipv4Addr|
                addrs.contains(IpAddr::V4(a)) && covered(IpAddr::V4(a), routes4, routes6) && t
                    == #[trigger] exclude4(a),
        forall|t: Seq<char>| #[trigger]
            excludes6(addrs, routes6).contains(t) ==> exists|a: Ipv6Addr|
                addrs.contains(IpAddr::V6(a)) && covered(IpAddr::V6(a), routes4, routes6) && t
                    == #[trigger] exclude6(a),
    decreases addrs.len(),
{
    if addrs.len() > 0 {
        let head = addrs.drop_last();
        law_excludes_are_captured(head, routes4, routes6);
        assert forall|x: IpAddr| #[trigger] addrs.contains(x) <==> head.contains(x) || x
            == addrs.last() by {
            if addrs.contains(x) {
                let k = choose|k: int| 0 <= k < addrs.len() && addrs[k] == x;
                if k < addrs.len() - 1 {
                    assert(head[k] == x);
                }
            }
            if head.contains(x) {
                let k = choose|k: int| 0 <= k < head.len() && head[k] == x;
                assert(addrs[k] == x);
            }
            if x == addrs.last() {
                assert(addrs[addrs.len() - 1] == x);
            }
        }
        let e4 = excludes4(head, routes4);
        let e6 = excludes6(head, routes6);
        match addrs.last() {
            IpAddr::V4(a) => {
                if any_has4(routes4, a) {
                    assert forall|t: Seq<char>| #[trigger]
                        e4.push(exclude4(a)).contains(t) <==> e4.contains(t) || t == exclude4(a) by {
                        lemma_pushed_text(e4, exclude4(a), t);
                    }
                }
            },
            IpAddr::V6(a) => {
                if any_has6(routes6, a) {
                    assert forall|t: Seq<char>| #[trigger]
                        e6.push(exclude6(a)).contains(t) <==> e6.contains(t) || t == exclude6(a) by {
                        lemma_pushed_text(e6, exclude6(a), t);
                    }
                }
            },
        }
    }
}

/// A list holds what was pushed to it, and what it held before.
proof fn lemma_pushed_text(s: Seq<Seq<char>>, last: Seq<char>, t: Seq<char>)
    ensures
        s.push(last).contains(t) <==> s.contains(t) || t == last,
{
    let p = s.push(last);
    if p.contains(t) {
        let k = choose|k: int| 0 <= k < p.len() && p[k] == t;
        if k < s.len() {
            assert(s[k] == t);
        }
    }
    if s.contains(t) {
        let k = choose|k: int| 0 <= k < s.len() && s[k] == t;
        assert(p[k] == t);
    }
    if t == last {
        assert(p[s.len() as int] == t);
    }
}

/// The transport is led around the tunnel for exactly the addresses that a route of their family
/// would capture and that are not of private scope.
pub proof fn law_captured_addresses_are_bypassed(
    ip: IpAddr,
    routes4: Seq<Ipv4Net>,
    routes6: Seq<Ipv6Net>,
    i: int,
)
    ensures
        needs_bypass(ip, routes4, routes6) ==> !underlay::private_scope(ip),
        needs_bypass(ip, routes4, routes6) ==> match ip {
            IpAddr::V4(a) => exists|k: int|
                0 <= k < routes4.len() && (#[trigger] routes4[k]).first() <= a.bits
                    <= routes4[k].last(),
            IpAddr::V6(a) => exists|k: int|
                0 <= k < routes6.len() && (#[trigger] routes6[k]).first() <= a.bits
                    <= routes6[k].last(),
        },
        !underlay::private_scope(ip) && (match ip {
            IpAddr::V4(a) => 0 <= i < routes4.len() && routes4[i].first() <= a.bits
                <= routes4[i].last(),
            IpAddr::V6(a) => 0 <= i < routes6.len() && routes6[i].first() <= a.bits
                <= routes6[i].last(),
        }) ==> needs_bypass(ip, routes4, routes6),
{
    match ip {
        IpAddr::V4(a) => {
            if any_has4(routes4, a) {
                let k = choose|k: int| 0 <= k < routes4.len() && (#[trigger] routes4[k]).has(a);
                assert(routes4[k].first() <= a.bits <= routes4[k].last());
            }
            if 0 <= i < routes4.len() && routes4[i].first() <= a.bits <= routes4[i].last() {
                assert(routes4[i].has(a));
            }
        },
        IpAddr::V6(a) => {
            if any_has6(routes6, a) {
                let k = choose|k: int| 0 <= k < routes6.len() && (#[trigger] routes6[k]).has(a);
                assert(routes6[k].first() <= a.bits <= routes6[k].last());
            }
            if 0 <= i < routes6.len() && routes6[i].first() <= a.bits <= routes6[i].last() {
                assert(routes6[i].has(a));
            }
        },
    }
}

/// Exclusions are listed in the order of the addresses, each once for each time it is there.
pub proof fn law_excludes_keep_their_order(
    a: Seq<IpAddr>,
    b: Seq<IpAddr>,
    routes4: Seq<Ipv4Net>,
    routes6: Seq<Ipv6Net>,
)
    ensures
        excludes4(a + b, routes4) == excludes4(a, routes4) + excludes4(b, routes4),
        excludes6(a + b, routes6) == excludes6(a, routes6) + excludes6(b, routes6),
        excludes4(a, routes4).len() + excludes6(a, routes6).len() <= a.len(),
    decreases a.len() + b.len(),
{
    if b.len() == 0 {
        assert(a + b =~= a);
        assert(excludes4(a, routes4) + excludes4(b, routes4) =~= excludes4(a, routes4));
        assert(excludes6(a, routes6) + excludes6(b, routes6) =~= excludes6(a, routes6));
        if a.len() > 0 {
            law_excludes_keep_their_order(a.drop_last(), b, routes4, routes6);
        }
    } else {
        assert((a + b).drop_last() =~= a + b.drop_last());
        law_excludes_keep_their_order(a, b.drop_last(), routes4, routes6);
        assert(excludes4(a + b, routes4) =~= excludes4(a, routes4) + excludes4(b, routes4));
        assert(excludes6(a + b, routes6) =~= excludes6(a, routes6) + excludes6(b, routes6));
    }
}

/// Lists in ascending order that hold the same addresses are the same list.
pub proof fn law_ascending_lists_are_unique(s: Seq<IpAddr>, t: Seq<IpAddr>)
    requires
        ascending(s),
        ascending(t),
        forall|x: IpAddr| s.contains(x) <==> #[trigger] t.contains(x),
    ensures
        s == t,
    decreases s.len(),
{
    if s.len() == 0 {
        if t.len() > 0 {
            assert(t.contains(t[0]));
        }
        assert(s =~= t);
    } else {
        let x = s.last();
        assert(s.contains(s[s.len() - 1]));
        assert(t.contains(x));
        let i = choose|i: int| 0 <= i < t.len() && t[i] == x;
        let y = t.last();
        assert(t.contains(t[t.len() - 1]));
        assert(s.contains(y));
        let j = choose|j: int| 0 <= j < s.len() && s[j] == y;
        if i < t.len() - 1 {
            assert(rank(t[i]) < rank(t[t.len() - 1]));
            if j < s.len() - 1 {
                assert(rank(s[j]) < rank(s[s.len() - 1]));
            }
        }
        assert(x == y);
        let p = s.drop_last();
        let q = t.drop_last();
        assert forall|z: IpAddr| p.contains(z) <==> #[trigger] q.contains(z) by {
            if p.contains(z) {
                let k = choose|k: int| 0 <= k < p.len() && p[k] == z;
                assert(s[k] == z && s.contains(z));
                assert(t.contains(z));
                let m = choose|m: int| 0 <= m < t.len() && t[m] == z;
                assert(rank(s[k]) < rank(s[s.len() - 1]));
                assert(m < t.len() - 1);
                assert(q[m] == z);
            }
            if q.contains(z) {
                let k = choose|k: int| 0 <= k < q.len() && q[k] == z;
                assert(t[k] == z && t.contains(z));
                let m = choose|m: int| 0 <= m < s.len() && s[m] == z;
                assert(rank(t[k]) < rank(t[t.len() - 1]));
                assert(m < s.len() - 1);
                assert(p[m] == z);
            }
        }
        assert(ascending(p)) by {
            assert forall|a: int, b: int| 0 <= a < b < p.len() implies rank(#[trigger] p[a]) < rank(
                #[trigger] p[b],
            ) by {
                assert(rank(s[a]) < rank(s[b]));
            }
        }
        assert(ascending(q)) by {
            assert forall|a: int, b: int| 0 <= a < b < q.len() implies rank(#[trigger] q[a]) < rank(
                #[trigger] q[b],
            ) by {
                assert(rank(t[a]) < rank(t[b]));
            }
        }
        law_ascending_lists_are_unique(p, q);
        assert(s =~= p.push(x));
        assert(t =~= q.push(y));
    }
}

/// Every required address that the tunnel would capture has a route around it once the new ones
/// are installed, and no other address gets one; what was collected before stays collected.
pub proof fn law_required_addresses_get_around(
    before: BypassRouteManager,
    after: BypassRouteManager,
    required: Seq<IpAddr>,
    to_add: Seq<IpAddr>,
    x: IpAddr,
)
    requires
        updated(before, after, required, to_add),
    ensures
        required.contains(x) && needs_bypass(x, before.vpn_routes4@, before.vpn_routes6@) ==> (
        to_add.contains(x) || before.active_routes@.contains(x)) && after.collected@.contains(x),
        to_add.contains(x) ==> required.contains(x) && needs_bypass(
            x,
            before.vpn_routes4@,
            before.vpn_routes6@,
        ) && !before.active_routes@.contains(x),
        before.collected@.contains(x) ==> after.collected@.contains(x),
        before.active_routes@.contains(x) <==> after.active_routes@.contains(x),
{
}

} // verus!
