//! What a client decides between the server's reply and the first packet.

use vstd::prelude::*;
use vstd::string::*;
use crate::addr::{Ipv4Net, Ipv6Addr, Ipv6Net};
use crate::bypass;
use crate::render;
use crate::render::{
    render_ip, render_ip6, render_net, render_net6, render_nets, render_nets6,
};
use crate::session;
use crate::session::{
    check_params_against, client_handshake, plan_client_tun, server_info_of, NetworkParams,
    ServerInfo, TunPlan, ADVERTISED_GSO,
};
use crate::signaling::{VpnHandshake, VpnHandshakeResponse, DEFAULT_VPN_MTU, VPN_PROTOCOL_VERSION};
use crate::vpn_error;
use crate::vpn_error::{ErrorKind, VpnError};

verus! {

/// What a client is set up with.
#[derive(Debug)]
pub struct ClientConfig {
    /// The token that the server asks for.
    pub auth_token: Option<String>,
    /// IPv4 prefixes routed through the tunnel.
    pub routes: Vec<Ipv4Net>,
    /// IPv6 prefixes routed through the tunnel.
    pub routes6: Vec<Ipv6Net>,
}

impl ClientConfig {
    /// The prefixes of all the routes fit.
    pub open spec fn wf(self) -> bool {
        bypass::all_wf4(self.routes@) && bypass::all_wf6(self.routes6@)
    }
}

/// The routes that a client adds, and what it needs to protect its own transport from them.
#[derive(Debug, Clone, Copy, PartialEq, Eq)]
pub struct RoutePlan {
    /// Bypass the transport's own addresses before any route is added.
    pub bypass: bool,
    /// Ask for the IPv4 default gateway while the routing table is untouched.
    pub capture_gateway4: bool,
    /// Ask for the IPv6 default gateway while the routing table is untouched.
    pub capture_gateway6: bool,
    /// The server's own IPv4 prefix, routed so that the gateway can be reached.
    pub gateway4: Option<Ipv4Net>,
    /// The server's own IPv6 prefix, and the source address for it.
    pub gateway6: Option<(Ipv6Net, Ipv6Addr)>,
    /// Whether the configured IPv4 routes are added.
    pub custom4: bool,
    /// The source address with which the configured IPv6 routes are added, if they are.
    pub custom6: Option<Ipv6Addr>,
}

/// The routes for what the server assigned: a family's configured routes are added if the
/// server assigned an address of it.
pub open spec fn routes_for(info: ServerInfo, config: ClientConfig) -> RoutePlan {
    let custom4 = info.assigned_ip is Some && config.routes@.len() > 0;
    let custom6 = info.assigned_ip6 is Some && config.routes6@.len() > 0;
    RoutePlan {
        bypass: custom4 || custom6,
        capture_gateway4: (custom4 || custom6) && config.routes@.len() > 0,
        capture_gateway6: (custom4 || custom6) && config.routes6@.len() > 0,
        gateway4: info.network,
        gateway6: if info.assigned_ip6 is Some && info.network6 is Some {
            Some((info.network6->0, info.assigned_ip6->0))
        } else {
            None
        },
        custom4,
        custom6: if custom6 {
            info.assigned_ip6
        } else {
            None
        },
    }
}

/// The routes that a connection is reported with: the configured ones of each family of which
/// the server assigned an address.
pub open spec fn reported_routes(info: ServerInfo, config: ClientConfig) -> (
    Seq<Seq<char>>,
    Seq<Seq<char>>,
) {
    (
        if info.assigned_ip is Some {
            config.routes@.map_values(|n: Ipv4Net| n.text())
        } else {
            Seq::empty()
        },
        if info.assigned_ip6 is Some {
            config.routes6@.map_values(|n: Ipv6Net| n.text())
        } else {
            Seq::empty()
        },
    )
}

/// Lays out the routes for what the server assigned.
pub fn plan_routes(info: &ServerInfo, config: &ClientConfig) -> (p: RoutePlan)
    ensures
        p == routes_for(*info, *config),
{
    let custom4: bool = info.assigned_ip.is_some() && config.routes.len() > 0;
    let custom6: bool = info.assigned_ip6.is_some() && config.routes6.len() > 0;
    let will_add_routes: bool = custom4 || custom6;
    RoutePlan {
        bypass: will_add_routes,
        capture_gateway4: will_add_routes && config.routes.len() > 0,
        capture_gateway6: will_add_routes && config.routes6.len() > 0,
        gateway4: info.network,
        gateway6: match (info.assigned_ip6, info.network6) {
            (Some(ip6), Some(net6)) => Some((net6, ip6)),
            _ => None,
        },
        custom4,
        custom6: if custom6 {
            info.assigned_ip6
        } else {
            None
        },
    }
}

/// Everything that a client sets up before it moves packets.
#[derive(Debug)]
pub struct ConnectionPlan {
    pub info: ServerInfo,
    pub tun: TunPlan,
    pub routes: RoutePlan,
}

/// A VPN client: its configuration, its identity for this run and the session it began.
#[derive(Debug)]
pub struct VpnClient {
    pub config: ClientConfig,
    /// Tells the sessions of one endpoint apart.
    pub device_id: u64,
    /// The network parameters of the first handshake, or of the last one that changed the
    /// assigned addresses only.
    pub established_params: Option<NetworkParams>,
}

/// Calls `Rng::random` of `rand` on its thread-local generator. Nothing holds of the number
/// that is drawn.
#[verifier::external_body]
fn random_id() -> (id: u64) {
    rand::Rng::random(&mut rand::rng())
}

/// The networks of the response have prefixes that fit.
pub open spec fn response_wf(r: VpnHandshakeResponse) -> bool {
    &&& r.network is Some ==> r.network->0.wf()
    &&& r.network6 is Some ==> r.network6->0.wf()
}

/// The parameters that a response holds.
pub open spec fn response_params(r: VpnHandshakeResponse) -> NetworkParams {
    NetworkParams {
        assigned_ip: r.assigned_ip,
        network: r.network,
        server_ip: r.server_ip,
        assigned_ip6: r.assigned_ip6,
        network6: r.network6,
        server_ip6: r.server_ip6,
    }
}

impl VpnClient {
    /// A client with a fresh random device id, so that the server can tell its sessions from
    /// others of the same endpoint.
    pub fn new(config: ClientConfig) -> (c: Self)
        ensures
            c.config == config,
            c.established_params is None,
    {
        VpnClient { config, device_id: random_id(), established_params: None }
    }

    /// The handshake that this client sends.
    pub fn handshake(&self) -> (h: VpnHandshake)
        ensures
            h.version == VPN_PROTOCOL_VERSION,
            h.device_id == self.device_id,
            h.gso_enabled == ADVERTISED_GSO,
            h.auth_token is Some <==> self.config.auth_token is Some,
            self.config.auth_token is Some ==> h.auth_token->0@ == self.config.auth_token->0@,
    {
        match &self.config.auth_token {
            Some(token) => client_handshake(self.device_id, Some(token.as_str())),
            None => client_handshake(self.device_id, None),
        }
    }

    /// Compares the server's parameters with those of the session, or begins the session with
    /// them.
    pub fn check_config_consistency(&mut self, info: &ServerInfo) -> (r: Result<(), VpnError>)
        ensures
            final(self).config == old(self).config,
            final(self).device_id == old(self).device_id,
            r is Ok <==> session::params_fit(
                old(self).established_params,
                session::params_of(*info),
            ),
            r is Ok ==> final(self).established_params == Some(session::params_of(*info)),
            r is Err ==> {
                &&& final(self).established_params == old(self).established_params
                &&& vpn_error::fails(
                    r,
                    ErrorKind::ServerConfigChanged,
                    session::config_changed_text(
                        old(self).established_params->0,
                        session::params_of(*info),
                    ),
                )
            },
    {
        check_params_against(&mut self.established_params, info)
    }

    /// Decides, from the server's reply, how the connection is set up.
    ///
    /// A reply that refuses the client, is incomplete or does not fit the session ends the
    /// connection before anything is set up; the session then stays as it was.
    pub fn plan_connection(&mut self, response: VpnHandshakeResponse) -> (r: Result<
        ConnectionPlan,
        VpnError,
    >)
        requires
            response_wf(response),
        ensures
            final(self).config == old(self).config,
            final(self).device_id == old(self).device_id,
            r is Ok <==> session::response_refusal(response) is None && session::params_fit(
                old(self).established_params,
                response_params(response),
            ),
            r is Ok ==> {
                let plan = r->Ok_0;
                &&& final(self).established_params == Some(response_params(response))
                &&& session::params_of(plan.info) == response_params(response)
                &&& plan.info.server_gso_enabled == response.server_gso_enabled
                &&& plan.info.server_addrs == response.server_addrs
                &&& plan.info.complete()
                &&& plan.tun == (TunPlan {
                    v4: session::client_tun_v4(plan.info),
                    v6: session::client_tun_v6(plan.info),
                    mtu: DEFAULT_VPN_MTU,
                    gso: response.server_gso_enabled,
                })
                &&& plan.routes == routes_for(plan.info, old(self).config)
            },
            r is Err ==> final(self).established_params == old(self).established_params,
            match session::response_refusal(response) {
                Some((kind, text)) => vpn_error::fails(r, kind, text),
                None => r is Err ==> vpn_error::fails(
                    r,
                    ErrorKind::ServerConfigChanged,
                    session::config_changed_text(
                        old(self).established_params->0,
                        response_params(response),
                    ),
                ),
            },
    {
        let info = match server_info_of(response) {
            Ok(info) => info,
            Err(e) => {
                return Err(e);
            },
        };
        match self.check_config_consistency(&info) {
            Ok(()) => {},
            Err(e) => {
                return Err(e);
            },
        }
        let tun = match plan_client_tun(&info) {
            Ok(tun) => tun,
            Err(e) => {
                return Err(e);
            },
        };
        let routes = plan_routes(&info, &self.config);
        Ok(ConnectionPlan { info, tun, routes })
    }
}

/// Whether frames with offload metadata go out as they are: both ends have to take them.
pub fn negotiated_gso(local_gso_enabled: bool, server_gso_enabled: bool) -> (r: bool)
    ensures
        r == (local_gso_enabled && server_gso_enabled),
        r == session::gso_agreed(local_gso_enabled, server_gso_enabled),
{
    local_gso_enabled && server_gso_enabled
}

/// Packets travel as QUIC datagrams, so a peer without them is of no use.
pub fn require_datagrams(max_datagram_size: Option<usize>) -> (r: Result<usize, VpnError>)
    ensures
        match max_datagram_size {
            Some(n) => r == Ok::<usize, VpnError>(n),
            None => vpn_error::fails(
                r,
                ErrorKind::Signaling,
                "Peer does not support QUIC datagrams"@,
            ),
        },
{
    match max_datagram_size {
        Some(n) => Ok(n),
        None => Err(VpnError::Signaling("Peer does not support QUIC datagrams".to_owned())),
    }
}

/// What a connected client reports of itself.
#[derive(Debug)]
pub struct ClientConnectedInfo {
    pub assigned_ip: Option<String>,
    pub network: Option<String>,
    pub gateway: Option<String>,
    pub assigned_ip6: Option<String>,
    pub network6: Option<String>,
    pub gateway6: Option<String>,
    pub mtu: u16,
    pub gso_negotiated: bool,
    pub routes: Vec<String>,
    pub routes6: Vec<String>,
}

/// What a connected client reports: its addresses and networks, whether frames with offload
/// metadata are exchanged, and the configured routes that were added.
pub fn connected_info(
    info: &ServerInfo,
    config: &ClientConfig,
    local_gso_enabled: bool,
) -> (c: ClientConnectedInfo)
    ensures
        render::reads(c.assigned_ip, render::ip_text(info.assigned_ip)),
        render::reads(c.network, render::net_text(info.network)),
        render::reads(c.gateway, render::ip_text(info.server_ip)),
        render::reads(c.assigned_ip6, render::ip6_text(info.assigned_ip6)),
        render::reads(c.network6, render::net6_text(info.network6)),
        render::reads(c.gateway6, render::ip6_text(info.server_ip6)),
        c.mtu == DEFAULT_VPN_MTU,
        c.gso_negotiated == (local_gso_enabled && info.server_gso_enabled),
        c.gso_negotiated == session::gso_agreed(local_gso_enabled, info.server_gso_enabled),
        render::texts(c.routes@) == if info.assigned_ip is Some {
            config.routes@.map_values(|n: Ipv4Net| n.text())
        } else {
            Seq::empty()
        },
        render::texts(c.routes6@) == if info.assigned_ip6 is Some {
            config.routes6@.map_values(|n: Ipv6Net| n.text())
        } else {
            Seq::empty()
        },
        (render::texts(c.routes@), render::texts(c.routes6@)) == reported_routes(*info, *config),
{
    let routes: Vec<String> = if info.assigned_ip.is_some() {
        render_nets(config.routes.as_slice())
    } else {
        Vec::new()
    };
    let routes6: Vec<String> = if info.assigned_ip6.is_some() {
        render_nets6(config.routes6.as_slice())
    } else {
        Vec::new()
    };
    proof {
        if info.assigned_ip is None {
            assert(render::texts(routes@) =~= Seq::empty());
        }
        if info.assigned_ip6 is None {
            assert(render::texts(routes6@) =~= Seq::empty());
        }
    }
    ClientConnectedInfo {
        assigned_ip: render_ip(&info.assigned_ip),
        network: render_net(&info.network),
        gateway: render_ip(&info.server_ip),
        assigned_ip6: render_ip6(&info.assigned_ip6),
        network6: render_net6(&info.network6),
        gateway6: render_ip6(&info.server_ip6),
        mtu: DEFAULT_VPN_MTU,
        gso_negotiated: negotiated_gso(local_gso_enabled, info.server_gso_enabled),
        routes,
        routes6,
    }
}

/// The configured routes of a family are added exactly if the server assigned an address of it
/// and there is a route of it to add, those of IPv6 with the assigned address as their source.
/// The families that are routed are those that are reported.
pub proof fn law_routed_families_are_reported(info: ServerInfo, config: ClientConfig)
    ensures
        ({
            let p = routes_for(info, config);
            let (four, six) = reported_routes(info, config);
            &&& p.custom6 is Some <==> info.assigned_ip6 is Some && config.routes6@.len() > 0
            &&& p.custom6 is Some ==> p.custom6 == info.assigned_ip6
            &&& p.custom4 <==> info.assigned_ip is Some && config.routes@.len() > 0
            &&& p.custom4 <==> four.len() > 0
            &&& p.custom6 is Some <==> six.len() > 0
            &&& p.custom4 ==> {
                &&& four.len() == config.routes@.len()
                &&& forall|i: int| 0 <= i < four.len() ==> four[i] == config.routes@[i].text()
            }
            &&& p.custom6 is Some ==> {
                &&& six.len() == config.routes6@.len()
                &&& forall|i: int| 0 <= i < six.len() ==> six[i] == config.routes6@[i].text()
            }
        }),
{
}

/// The transport is protected exactly if a route is added that could capture it, and then a
/// gateway is asked for in each family that has a route configured. The server's own prefix is
/// routed in each family in which the server gave one, for IPv6 with the assigned address as
/// source.
pub proof fn law_added_routes_are_bypassed(info: ServerInfo, config: ClientConfig)
    ensures
        ({
            let p = routes_for(info, config);
            &&& p.bypass <==> p.custom4 || p.custom6 is Some
            &&& p.capture_gateway4 <==> p.bypass && config.routes@.len() > 0
            &&& p.capture_gateway6 <==> p.bypass && config.routes6@.len() > 0
            &&& p.custom4 ==> p.capture_gateway4
            &&& p.custom6 is Some ==> p.capture_gateway6
            &&& p.gateway4 == info.network
            &&& p.gateway6 is Some <==> info.assigned_ip6 is Some && info.network6 is Some
            &&& p.gateway6 matches Some((net, source)) ==> info.network6 == Some(net)
                && info.assigned_ip6 == Some(source)
        }),
{
}

} // verus!
