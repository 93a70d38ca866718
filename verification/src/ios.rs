//! The network settings of a tunnel whose routes the system sets up front.

use vstd::prelude::*;
use vstd::string::*;
use crate::addr::{IpAddr, Ipv4Addr, Ipv4Net, Ipv6Addr, Ipv6Net};
use crate::bypass;
use crate::bypass::{insert_address, merge_addresses, overlapping_underlay_excludes};
use crate::render;
use crate::session;
use crate::session::ServerInfo;
use crate::signaling::DEFAULT_VPN_MTU;
use crate::underlay;
use crate::underlay::is_private_scope;
use crate::vpn_error::VpnError;

verus! {

/// Connection parameters supplied by the app.
#[derive(Debug)]
pub struct IosConfig {
    /// Server's endpoint id, as a string.
    pub server_node_id: String,
    /// Optional auth token.
    pub auth_token: Option<String>,
    /// Relay URL hints. When empty, the default relays are used.
    pub relay_urls: Vec<String>,
    /// Use relays only.
    pub relay_only: bool,
    /// IPv4 prefixes routed through the tunnel.
    pub routes: Vec<Ipv4Net>,
    /// IPv6 prefixes routed through the tunnel.
    pub routes6: Vec<Ipv6Net>,
}

impl Default for IosConfig {
    fn default() -> (c: Self)
        ensures
            c.server_node_id@ == Seq::<char>::empty(),
            c.auth_token is None,
            c.relay_urls@ == Seq::<String>::empty(),
            !c.relay_only,
            c.routes@ == Seq::<Ipv4Net>::empty(),
            c.routes6@ == Seq::<Ipv6Net>::empty(),
    {
        IosConfig {
            server_node_id: String::new(),
            auth_token: None,
            relay_urls: Vec::new(),
            relay_only: false,
            routes: Vec::new(),
            routes6: Vec::new(),
        }
    }
}

impl IosConfig {
    /// The prefixes of all the routes fit.
    pub open spec fn wf(self) -> bool {
        bypass::all_wf4(self.routes@) && bypass::all_wf6(self.routes6@)
    }
}

/// The network parameters that the tunnel's settings need.
///
/// Each family is optional, as the server assigned it.
#[derive(Debug)]
pub struct IosNetworkConfig {
    /// Assigned client VPN IPv4 address.
    pub assigned_ip: Option<Ipv4Addr>,
    /// Netmask of the network that the server advertises.
    pub netmask: Option<Ipv4Addr>,
    /// VPN IPv4 gateway (the server's VPN address).
    pub gateway: Option<Ipv4Addr>,
    /// Assigned client VPN IPv6 address.
    pub assigned_ip6: Option<Ipv6Addr>,
    /// Prefix length of the IPv6 network that the server advertises.
    pub prefix_len6: Option<u8>,
    /// VPN IPv6 gateway (the server's VPN address).
    pub gateway6: Option<Ipv6Addr>,
    /// Fixed tunnel MTU.
    pub mtu: u16,
    /// IPv4 underlay addresses to exclude from the tunnel because a routed prefix would capture
    /// them.
    pub excluded_routes: Vec<String>,
    /// IPv6 underlay addresses to exclude, for the same reason.
    pub excluded_routes6: Vec<String>,
}

/// A session whose handshake is done: what the server assigned, and what has to stay off the
/// tunnel.
#[derive(Debug)]
pub struct IosSession {
    pub server_info: ServerInfo,
    pub excluded_routes: Vec<String>,
    pub excluded_routes6: Vec<String>,
}

/// The system is configured with what the server assigned.
pub open spec fn configures(c: IosNetworkConfig, info: ServerInfo) -> bool {
    &&& c.assigned_ip == info.assigned_ip
    &&& c.netmask == (match info.network {
        Some(n) => Some(Ipv4Addr { bits: session::mask_of(n) as u32 }),
        None => None,
    })
    &&& c.gateway == info.server_ip
    &&& c.assigned_ip6 == info.assigned_ip6
    &&& c.prefix_len6 == (match info.network6 {
        Some(n) => Some(n.prefix_len),
        None => None,
    })
    &&& c.gateway6 == info.server_ip6
    &&& c.mtu == DEFAULT_VPN_MTU
}

/// All the IPv4 prefixes that the tunnel routes: the configured ones, and the one that the
/// server advertises.
pub open spec fn routed4(routes: Seq<Ipv4Net>, network: Option<Ipv4Net>) -> Seq<Ipv4Net> {
    match network {
        Some(n) => routes.push(n),
        None => routes,
    }
}

/// All the IPv6 prefixes that the tunnel routes.
pub open spec fn routed6(routes: Seq<Ipv6Net>, network: Option<Ipv6Net>) -> Seq<Ipv6Net> {
    match network {
        Some(n) => routes.push(n),
        None => routes,
    }
}

/// The candidates: the addresses of the relays and those that the server published, in order and
/// each once, without those that mean something within a site only.
///
/// A site-wide address of the server is not reachable off the tunnel, and keeping it off would
/// cut off whatever shares it inside.
pub open spec fn candidates(list: Seq<IpAddr>, relay_ips: Seq<IpAddr>, published: Seq<IpAddr>) -> bool {
    &&& bypass::ascending(list)
    &&& forall|x: IpAddr| #[trigger]
        list.contains(x) <==> (relay_ips.contains(x) || published.contains(x))
            && !underlay::private_scope(x)
}

/// The addresses that mean something beyond a site, in order and each once.
fn global_only(list: &[IpAddr]) -> (r: Vec<IpAddr>)
    ensures
        bypass::ascending(r@),
        forall|x: IpAddr| #[trigger]
            r@.contains(x) <==> list@.contains(x) && !underlay::private_scope(x),
{
    let mut r: Vec<IpAddr> = Vec::new();
    let mut i: usize = 0;
    while i < list.len()
        invariant
            i <= list@.len(),
            bypass::ascending(r@),
            forall|x: IpAddr| #[trigger]
                r@.contains(x) <==> list@.take(i as int).contains(x) && !underlay::private_scope(x),
        decreases list@.len() - i,
    {
        proof {
            bypass::lemma_take_one_more(list@, i as int);
        }
        if !is_private_scope(list[i]) {
            insert_address(&mut r, list[i]);
        }
        i += 1;
    }
    proof {
        assert(list@.take(list@.len() as int) =~= list@);
    }
    r
}

/// Copies a list of texts.
fn copy_texts(v: &[String]) -> (r: Vec<String>)
    ensures
        render::texts(r@) == render::texts(v@),
{
    let mut r: Vec<String> = Vec::new();
    let mut i: usize = 0;
    while i < v.len()
        invariant
            i <= v@.len(),
            r@.len() == i,
            forall|k: int| 0 <= k < i ==> (#[trigger] r@[k])@ == v@[k]@,
        decreases v@.len() - i,
    {
        r.push(v[i].clone());
        i += 1;
    }
    assert(render::texts(r@) =~= render::texts(v@));
    r
}

impl IosSession {
    /// Works out, from the server's information and the addresses of the relays, what has to stay
    /// off the tunnel.
    pub fn from_handshake(cfg: &IosConfig, server_info: ServerInfo, relay_ips: &[IpAddr]) -> (s: Self)
        requires
            cfg.wf(),
            server_info.wf(),
        ensures
            s.server_info == server_info,
            exists|list: Seq<IpAddr>|
                {
                    &&& #[trigger] candidates(list, relay_ips@, server_info.server_addrs@)
                    &&& render::texts(s.excluded_routes@) == bypass::excludes4(
                        list,
                        routed4(cfg.routes@, server_info.network),
                    )
                    &&& render::texts(s.excluded_routes6@) == bypass::excludes6(
                        list,
                        routed6(cfg.routes6@, server_info.network6),
                    )
                },
    {
        let all = merge_addresses(relay_ips, server_info.server_addrs.as_slice());
        let list = global_only(all.as_slice());
        let mut routes4: Vec<Ipv4Net> = Vec::new();
        let mut i: usize = 0;
        while i < cfg.routes.len()
            invariant
                i <= cfg.routes@.len(),
                routes4@ == cfg.routes@.take(i as int),
            decreases cfg.routes@.len() - i,
        {
            routes4.push(cfg.routes[i]);
            i += 1;
            assert(routes4@ =~= cfg.routes@.take(i as int));
        }
        assert(routes4@ =~= cfg.routes@);
        if let Some(net) = server_info.network {
            routes4.push(net);
        }
        let mut routes6: Vec<Ipv6Net> = Vec::new();
        let mut k: usize = 0;
        while k < cfg.routes6.len()
            invariant
                k <= cfg.routes6@.len(),
                routes6@ == cfg.routes6@.take(k as int),
            decreases cfg.routes6@.len() - k,
        {
            routes6.push(cfg.routes6[k]);
            k += 1;
            assert(routes6@ =~= cfg.routes6@.take(k as int));
        }
        assert(routes6@ =~= cfg.routes6@);
        if let Some(net) = server_info.network6 {
            routes6.push(net);
        }
        let (excluded_routes, excluded_routes6) = overlapping_underlay_excludes(
            list.as_slice(),
            routes4.as_slice(),
            routes6.as_slice(),
        );
        assert(candidates(list@, relay_ips@, server_info.server_addrs@));
        IosSession { server_info, excluded_routes, excluded_routes6 }
    }

    /// The network parameters for the tunnel's settings, for whichever families the server
    /// assigned.
    pub fn network_config(&self) -> (r: Result<IosNetworkConfig, VpnError>)
        requires
            self.server_info.wf(),
        ensures
            r is Ok,
            ({
                let c = r->Ok_0;
                let info = self.server_info;
                &&& c.assigned_ip == info.assigned_ip
                &&& c.netmask == (match info.network {
                    Some(n) => Some(Ipv4Addr { bits: session::mask_of(n) as u32 }),
                    None => None,
                })
                &&& c.gateway == info.server_ip
                &&& c.assigned_ip6 == info.assigned_ip6
                &&& c.prefix_len6 == (match info.network6 {
                    Some(n) => Some(n.prefix_len),
                    None => None,
                })
                &&& c.gateway6 == info.server_ip6
                &&& c.mtu == DEFAULT_VPN_MTU
                &&& render::texts(c.excluded_routes@) == render::texts(self.excluded_routes@)
                &&& render::texts(c.excluded_routes6@) == render::texts(self.excluded_routes6@)
                &&& configures(c, info)
            }),
    {
        let info = &self.server_info;
        let netmask: Option<Ipv4Addr> = match info.network {
            Some(n) => {
                proof {
                    session::lemma_mask_fits(n);
                }
                Some(n.netmask())
            },
            None => None,
        };
        let prefix_len6: Option<u8> = match info.network6 {
            Some(n) => Some(n.prefix_len),
            None => None,
        };
        Ok(
            IosNetworkConfig {
                assigned_ip: info.assigned_ip,
                netmask,
                gateway: info.server_ip,
                assigned_ip6: info.assigned_ip6,
                prefix_len6,
                gateway6: info.server_ip6,
                mtu: DEFAULT_VPN_MTU,
                excluded_routes: copy_texts(self.excluded_routes.as_slice()),
                excluded_routes6: copy_texts(self.excluded_routes6.as_slice()),
            },
        )
    }
}

/// A device that excludes addresses up front and one that adds bypasses keep the same transport
/// addresses off the tunnel: of the candidates, those that need a bypass are excluded, and
/// nothing else is.
pub proof fn law_excludes_match_bypasses(
    list: Seq<IpAddr>,
    relay_ips: Seq<IpAddr>,
    published: Seq<IpAddr>,
    routes4: Seq<Ipv4Net>,
    routes6: Seq<Ipv6Net>,
)
    requires
        candidates(list, relay_ips, published),
    ensures
        forall|a: Ipv4Addr|
            (relay_ips.contains(IpAddr::V4(a)) || published.contains(IpAddr::V4(a)))
                && bypass::needs_bypass(IpAddr::V4(a), routes4, routes6) ==> bypass::excludes4(
                list,
                routes4,
            ).contains(#[trigger] bypass::exclude4(a)),
        forall|a: Ipv6Addr|
            (relay_ips.contains(IpAddr::V6(a)) || published.contains(IpAddr::V6(a)))
                && bypass::needs_bypass(IpAddr::V6(a), routes4, routes6) ==> bypass::excludes6(
                list,
                routes6,
            ).contains(#[trigger] bypass::exclude6(a)),
        forall|t: Seq<char>| #[trigger]
            bypass::excludes4(list, routes4).contains(t) ==> exists|a: Ipv4Addr|
                (relay_ips.contains(IpAddr::V4(a)) || published.contains(IpAddr::V4(a)))
                    && bypass::needs_bypass(IpAddr::V4(a), routes4, routes6) && t
                    == #[trigger] bypass::exclude4(a),
        forall|t: Seq<char>| #[trigger]
            bypass::excludes6(list, routes6).contains(t) ==> exists|a: Ipv6Addr|
                (relay_ips.contains(IpAddr::V6(a)) || published.contains(IpAddr::V6(a)))
                    && bypass::needs_bypass(IpAddr::V6(a), routes4, routes6) && t
                    == #[trigger] bypass::exclude6(a),
{
    bypass::law_excludes_are_captured(list, routes4, routes6);
    assert forall|a: Ipv4Addr|
        (relay_ips.contains(IpAddr::V4(a)) || published.contains(IpAddr::V4(a)))
            && bypass::needs_bypass(IpAddr::V4(a), routes4, routes6) implies bypass::excludes4(
        list,
        routes4,
    ).contains(#[trigger] bypass::exclude4(a)) by {
        assert(list.contains(IpAddr::V4(a)));
    }
    assert forall|a: Ipv6Addr|
        (relay_ips.contains(IpAddr::V6(a)) || published.contains(IpAddr::V6(a)))
            && bypass::needs_bypass(IpAddr::V6(a), routes4, routes6) implies bypass::excludes6(
        list,
        routes6,
    ).contains(#[trigger] bypass::exclude6(a)) by {
        assert(list.contains(IpAddr::V6(a)));
    }
}

/// The system is configured as the TUN device of any client is: the same addresses, the same
/// netmask and prefix, and the same gateway.
pub proof fn law_system_is_configured_as_any_client(c: IosNetworkConfig, info: ServerInfo)
    requires
        configures(c, info),
        info.complete(),
    ensures
        match session::client_tun_v4(info) {
            Some(tun) => c.assigned_ip == Some(tun.address) && c.netmask == Some(tun.netmask)
                && c.gateway == Some(tun.gateway),
            None => c.assigned_ip is None && c.netmask is None && c.gateway is None,
        },
        match session::client_tun_v6(info) {
            Some(tun) => c.assigned_ip6 == Some(tun.address) && c.prefix_len6 == Some(
                tun.prefix_len,
            ) && c.gateway6 is Some,
            None => c.assigned_ip6 is None && c.prefix_len6 is None && c.gateway6 is None,
        },
        c.mtu == 1280,
{
}

/// Every route that the system is given takes part in the choice of what is excluded: those that
/// are configured, and the server's own network behind them.
pub proof fn law_own_network_is_routed(
    routes: Seq<Ipv4Net>,
    network: Option<Ipv4Net>,
    routes6: Seq<Ipv6Net>,
    network6: Option<Ipv6Net>,
    n: Ipv4Net,
    n6: Ipv6Net,
)
    ensures
        routed4(routes, network).contains(n) <==> routes.contains(n) || network == Some(n),
        routed6(routes6, network6).contains(n6) <==> routes6.contains(n6) || network6 == Some(n6),
{
    if network is Some {
        let s = routed4(routes, network);
        assert(s[routes.len() as int] == network->0);
        if routes.contains(n) {
            let i = choose|i: int| 0 <= i < routes.len() && routes[i] == n;
            assert(s[i] == n);
        }
        if s.contains(n) {
            let i = choose|i: int| 0 <= i < s.len() && s[i] == n;
            assert(i < routes.len() ==> routes[i] == n);
        }
    }
    if network6 is Some {
        let s = routed6(routes6, network6);
        assert(s[routes6.len() as int] == network6->0);
        if routes6.contains(n6) {
            let i = choose|i: int| 0 <= i < routes6.len() && routes6[i] == n6;
            assert(s[i] == n6);
        }
        if s.contains(n6) {
            let i = choose|i: int| 0 <= i < s.len() && s[i] == n6;
            assert(i < routes6.len() ==> routes6[i] == n6);
        }
    }
}

} // verus!
