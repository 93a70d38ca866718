//! What a server decides about its clients: who may connect, which addresses they get, and what
//! is cleaned up behind them.

use vstd::prelude::*;
use vstd::string::*;
use crate::addr;
use crate::addr::{IpAddr, Ipv4Addr, Ipv4Net, Ipv6Addr, Ipv6Net};
use crate::bypass;
use crate::connect::require_datagrams;
use crate::identity::{ClientKey, EndpointId};
use crate::ip6_pool;
use crate::ip6_pool::{Ip6Pool, Ip6Strategy};
use crate::ip_pool;
use crate::ip_pool::IpPool;
use crate::registry;
use crate::registry::{Arrival, ClientRegistry};
use crate::session;
use crate::session::{TunV4, TunV6};
use crate::signaling;
use crate::signaling::{
    TransportTuning, VpnHandshake, VpnHandshakeResponse, WireTransport, DEFAULT_VPN_MTU,
    VPN_PROTOCOL_VERSION,
};
use crate::stats;
use crate::stats::VpnServerStats;
use crate::text::same_text;
use crate::underlay;
use crate::underlay::server_candidate_addrs;
use crate::vpn_error;
use crate::vpn_error::{ErrorKind, VpnError};

verus! {

/// The largest MTU with which every packet fits a QUIC datagram on any path.
pub const DATAGRAM_SAFE_MTU: u16 = 1280;

/// The smaller of the two.
pub open spec fn clamped_mtu(config_mtu: u16) -> u16 {
    if config_mtu <= DATAGRAM_SAFE_MTU {
        config_mtu
    } else {
        DATAGRAM_SAFE_MTU
    }
}

/// The MTU that the server tells its clients: the configured one, at most
/// [`DATAGRAM_SAFE_MTU`].
///
/// It never depends on a measurement of the path: a client that reconnects would take another
/// MTU for a change of the server's configuration.
pub fn advertised_client_mtu(config_mtu: u16) -> (mtu: u16)
    ensures
        mtu == clamped_mtu(config_mtu),
{
    if config_mtu <= DATAGRAM_SAFE_MTU {
        config_mtu
    } else {
        DATAGRAM_SAFE_MTU
    }
}

/// The network of one IPv4 address.
pub fn host_net4(ip: Ipv4Addr) -> (net: Ipv4Net)
    ensures
        net == (Ipv4Net { addr: ip, prefix_len: 32 }),
{
    Ipv4Net { addr: ip, prefix_len: 32 }
}

/// The network of one IPv6 address.
pub fn host_net6(ip: Ipv6Addr) -> (net: Ipv6Net)
    ensures
        net == (Ipv6Net { addr: ip, prefix_len: 128 }),
{
    Ipv6Net { addr: ip, prefix_len: 128 }
}

/// Clients are told to route the server itself and nothing else: the network of an address holds
/// that address alone.
pub proof fn law_host_networks_hold_one_address(ip: Ipv4Addr, other: Ipv4Addr)
    ensures
        (Ipv4Net { addr: ip, prefix_len: 32 }).has(other) <==> other == ip,
{
    vstd::arithmetic::power2::lemma2_to64();
}

/// The IPv6 counterpart of [`law_host_networks_hold_one_address`].
pub proof fn law_host_networks6_hold_one_address(ip: Ipv6Addr, other: Ipv6Addr)
    ensures
        (Ipv6Net { addr: ip, prefix_len: 128 }).has(other) <==> other == ip,
{
    vstd::arithmetic::power2::lemma2_to64();
}

/// What a server is set up with.
#[derive(Debug)]
pub struct ServerConfig {
    /// The VPN network, for IPv4.
    pub network: Option<Ipv4Net>,
    /// The server's own VPN address, if it is not the first of the network.
    pub server_ip: Option<Ipv4Addr>,
    /// The VPN network, for IPv6.
    pub network6: Option<Ipv6Net>,
    /// The server's own IPv6 VPN address, if it is not the first of the network.
    pub server_ip6: Option<Ipv6Addr>,
    /// How IPv6 addresses are chosen.
    pub ip6_strategy: Ip6Strategy,
    /// The MTU of the VPN.
    pub mtu: u16,
    /// How many clients may be connected at once.
    pub max_clients: usize,
    /// The tokens that let a client in.
    pub auth_tokens: Option<Vec<String>>,
    /// Whether packets are dropped when a client's queue is full, instead of waiting.
    pub drop_on_full: bool,
}

impl ServerConfig {
    /// The networks have prefixes that fit, and room for the server's own address and for one
    /// behind it.
    pub open spec fn wf(self) -> bool {
        &&& self.network is Some ==> {
            &&& self.network->0.wf()
            &&& self.network->0.last() > 0
            &&& self.server_ip is None ==> self.network->0.first() + 2 <= u32::MAX
            &&& self.server_ip is Some ==> self.server_ip->0.bits < u32::MAX
        }
        &&& self.network6 is Some ==> {
            &&& self.network6->0.wf()
            &&& self.ip6_strategy is Sequential ==> self.network6->0.prefix_len > 0
            &&& self.ip6_strategy is Sequential && self.server_ip6 is Some
                ==> self.server_ip6->0.bits < u128::MAX
        }
    }
}

/// A VPN server: its configuration, its address pools and its connected clients.
#[derive(Debug)]
pub struct VpnServer {
    pub config: ServerConfig,
    /// The IPv4 addresses for clients, if there is an IPv4 network.
    pub ip_pool: Option<IpPool>,
    /// The IPv6 addresses for clients, if there is an IPv6 network.
    pub ip6_pool: Option<Ip6Pool>,
    /// The connected clients.
    pub registry: ClientRegistry,
    /// How many connections are being served.
    pub active_connections: usize,
    /// What has been counted so far.
    pub stats: VpnServerStats,
    /// The transport settings that clients are told.
    pub wire_transport: WireTransport,
    /// Whether the server's TUN device has offload.
    pub local_gso_enabled: bool,
}

/// How a server's TUN device is to be set up.
#[derive(Debug, Clone, Copy, PartialEq, Eq, Structural)]
pub struct ServerTunPlan {
    pub v4: Option<TunV4>,
    pub v6: Option<TunV6>,
    pub mtu: u16,
}

/// The IPv4 half of the server's TUN device: it is its own gateway.
pub open spec fn server_tun_v4(pool: ip_pool::PoolState) -> TunV4 {
    TunV4 {
        address: pool.server_ip,
        netmask: Ipv4Addr { bits: session::mask_of(pool.network) as u32 },
        gateway: pool.server_ip,
    }
}

/// A client that is turned away: the response that it gets, and the error that is reported.
#[derive(Debug)]
pub struct Refusal {
    pub response: VpnHandshakeResponse,
    pub error: VpnError,
}

/// The response tells the client why it was turned away, and nothing of the server's networks.
pub open spec fn tells_off(r: VpnHandshakeResponse, reason: Seq<char>, gso: bool) -> bool {
    &&& r.version == VPN_PROTOCOL_VERSION
    &&& !r.accepted
    &&& r.server_gso_enabled == gso
    &&& r.reject_reason is Some
    &&& r.reject_reason->0@ == reason
    &&& r.transport == signaling::resolved(signaling::default_tuning())
    &&& r.mtu == DEFAULT_VPN_MTU
    &&& r.assigned_ip is None
    &&& r.network is None
    &&& r.server_ip is None
    &&& r.assigned_ip6 is None
    &&& r.network6 is None
    &&& r.server_ip6 is None
    &&& r.server_addrs@ == Seq::<IpAddr>::empty()
}

/// The refusal tells the client the one text and reports the other.
pub open spec fn turns_away(
    r: Refusal,
    reason: Seq<char>,
    kind: ErrorKind,
    text: Seq<char>,
    gso: bool,
) -> bool {
    &&& tells_off(r.response, reason, gso)
    &&& r.error.kind() == kind
    &&& r.error.text() == text
}

/// The tokens, as texts.
pub open spec fn token_texts(tokens: Seq<String>) -> Set<Seq<char>> {
    Set::new(|t: Seq<char>| exists|i: int| 0 <= i < tokens.len() && (#[trigger] tokens[i])@ == t)
}

/// Why a client is not let in: what it is told, and what is reported.
///
/// A server without tokens lets nobody in.
pub open spec fn auth_refusal(tokens: Option<Vec<String>>, token: Option<String>) -> Option<
    (Seq<char>, Seq<char>),
> {
    match (tokens, token) {
        (None, _) => Some(("Server misconfigured"@, "Server has no auth tokens configured"@)),
        (Some(_), None) => Some(
            ("Authentication token required"@, "Authentication token required"@),
        ),
        (Some(ts), Some(t)) => if token_texts(ts@).contains(t@) {
            None
        } else {
            Some(("Invalid authentication token"@, "Invalid authentication token"@))
        },
    }
}

/// Whether the token is one of those that let a client in.
fn token_listed(tokens: &Vec<String>, token: &String) -> (r: bool)
    ensures
        r == token_texts(tokens@).contains(token@),
{
    let mut i: usize = 0;
    while i < tokens.len()
        invariant
            i <= tokens@.len(),
            forall|k: int| 0 <= k < i ==> (#[trigger] tokens@[k])@ != token@,
        decreases tokens@.len() - i,
    {
        if same_text(tokens[i].as_str(), token.as_str()) {
            assert(tokens@[i as int]@ == token@);
            return true;
        }
        i += 1;
    }
    false
}

/// One more client may connect.
pub open spec fn has_room(s: VpnServer) -> bool {
    s.active_connections < s.config.max_clients
}

/// How a client arrives at a server: with the addresses that the pools give it, and with offload
/// if both sides have it.
pub open spec fn arrival_of(s: VpnServer, key: ClientKey, handshake: VpnHandshake) -> Arrival {
    Arrival {
        key,
        assigned_ip: given4(s.ip_pool, key),
        assigned_ip6: given6(s.ip6_pool, key),
        client_gso_enabled: handshake.gso_enabled,
        connection_gso_active: session::gso_agreed(s.local_gso_enabled, handshake.gso_enabled),
    }
}

/// A server that has just been made: nobody is connected, and its pools have handed out nothing.
pub open spec fn is_new(
    s: VpnServer,
    config: ServerConfig,
    id: EndpointId,
    transport: TransportTuning,
) -> bool {
    &&& s.config == config
    &&& s.registry@ == registry::nobody()
    &&& s.active_connections == 0
    &&& s.stats == stats::no_packets()
    &&& s.wire_transport == signaling::resolved(transport)
    &&& !s.local_gso_enabled
    &&& s.ip_pool is Some <==> config.network is Some
    &&& s.ip6_pool is Some <==> config.network6 is Some
    &&& config.network is Some ==> s.ip_pool->0@ == ip_pool::fresh_pool(
        config.network->0,
        config.server_ip,
    )
    &&& config.network6 is Some ==> ip6_pool::is_fresh(
        s.ip6_pool->0@,
        config.network6->0,
        config.server_ip6,
        config.ip6_strategy,
        id,
    )
}

/// The TUN device of a server: its own address of each family that it serves.
pub open spec fn tun_of(s: VpnServer) -> ServerTunPlan {
    ServerTunPlan {
        v4: match s.ip_pool {
            Some(pool) => Some(server_tun_v4(pool@)),
            None => None,
        },
        v6: match s.ip6_pool {
            Some(pool) => Some(
                TunV6 { address: pool@.server_ip, prefix_len: pool@.network.prefix_len },
            ),
            None => None,
        },
        mtu: clamped_mtu(s.config.mtu),
    }
}

impl VpnServer {
    /// The configuration can be used, and the pools belong to it.
    pub open spec fn wf(self) -> bool {
        &&& self.config.wf()
        &&& self.ip_pool is Some <==> self.config.network is Some
        &&& self.ip_pool is Some ==> {
            &&& self.ip_pool->0.wf()
            &&& self.ip_pool->0@.network == self.config.network->0
        }
        &&& self.ip6_pool is Some <==> self.config.network6 is Some
        &&& self.ip6_pool is Some ==> {
            &&& self.ip6_pool->0.wf()
            &&& self.ip6_pool->0@.network == self.config.network6->0
        }
        &&& self.active_connections <= self.config.max_clients
    }

    /// Creates a server with nobody connected.
    ///
    /// `server_endpoint_id` is the server's own node id, from which it derives its IPv6 address
    /// where addresses go by node id. `transport` is what clients are told to use.
    pub fn new(
        config: ServerConfig,
        server_endpoint_id: EndpointId,
        transport: &TransportTuning,
    ) -> (r: Result<Self, VpnError>)
        requires
            config.wf(),
        ensures
            match config.network6 {
                Some(n6) => match ip6_pool::pool_refusal(
                    n6,
                    config.server_ip6,
                    config.ip6_strategy,
                    server_endpoint_id,
                ) {
                    Some(m) => vpn_error::fails(r, ErrorKind::Config, m),
                    None => r is Ok,
                },
                None => r is Ok,
            },
            r is Ok ==> {
                let s = r->Ok_0;
                &&& s.wf()
                &&& s.config == config
                &&& s.registry@ == registry::nobody()
                &&& s.active_connections == 0
                &&& s.stats == stats::no_packets()
                &&& s.wire_transport == signaling::resolved(*transport)
                &&& !s.local_gso_enabled
                &&& config.network is Some ==> s.ip_pool->0@ == ip_pool::fresh_pool(
                    config.network->0,
                    config.server_ip,
                )
                &&& config.network6 is Some ==> ip6_pool::is_fresh(
                    s.ip6_pool->0@,
                    config.network6->0,
                    config.server_ip6,
                    config.ip6_strategy,
                    server_endpoint_id,
                )
                &&& is_new(s, config, server_endpoint_id, *transport)
            },
    {
        let ip_pool: Option<IpPool> = match config.network {
            Some(network) => {
                proof {
                    addr::law_network_holds_its_ends(network);
                }
                Some(IpPool::new(network, config.server_ip))
            },
            None => None,
        };
        let ip6_pool: Option<Ip6Pool> = match config.network6 {
            Some(network6) => match Ip6Pool::new(
                network6,
                config.server_ip6,
                config.ip6_strategy,
                server_endpoint_id,
            ) {
                Ok(pool) => Some(pool),
                Err(e) => {
                    return Err(e);
                },
            },
            None => None,
        };
        Ok(
            VpnServer {
                config,
                ip_pool,
                ip6_pool,
                registry: ClientRegistry::new(),
                active_connections: 0,
                stats: VpnServerStats::new(),
                wire_transport: WireTransport::from_tuning(transport),
                local_gso_enabled: false,
            },
        )
    }

    /// Lays out the server's TUN device: its own address in each network that it has, and an MTU
    /// with which every packet fits a datagram to any client.
    pub fn plan_tun(&self) -> (r: Result<ServerTunPlan, VpnError>)
        requires
            self.wf(),
        ensures
            r is Ok <==> self.config.network is Some || self.config.network6 is Some,
            r is Ok ==> {
                let plan = r->Ok_0;
                &&& plan.v4 == (match self.ip_pool {
                    Some(pool) => Some(server_tun_v4(pool@)),
                    None => None,
                })
                &&& plan.v6 == (match self.ip6_pool {
                    Some(pool) => Some(
                        TunV6 {
                            address: pool@.server_ip,
                            prefix_len: pool@.network.prefix_len,
                        },
                    ),
                    None => None,
                })
                &&& plan.mtu == clamped_mtu(self.config.mtu)
                &&& plan == tun_of(*self)
            },
            r is Err ==> vpn_error::fails(
                r,
                ErrorKind::Config,
                "No network configured (need at least IPv4 or IPv6)"@,
            ),
    {
        let v4: Option<TunV4> = match &self.ip_pool {
            Some(pool) => {
                let network = pool.network();
                proof {
                    session::lemma_mask_fits(network);
                }
                Some(
                    TunV4 {
                        address: pool.server_ip(),
                        netmask: network.netmask(),
                        gateway: pool.server_ip(),
                    },
                )
            },
            None => None,
        };
        let v6: Option<TunV6> = match &self.ip6_pool {
            Some(pool) => Some(
                TunV6 { address: pool.server_ip(), prefix_len: pool.network().prefix_len },
            ),
            None => None,
        };
        if v4.is_none() && v6.is_none() {
            return Err(
                VpnError::Config("No network configured (need at least IPv4 or IPv6)".to_owned()),
            );
        }
        Ok(ServerTunPlan { v4, v6, mtu: advertised_client_mtu(self.config.mtu) })
    }

    /// Decides whether a client is let in by its token.
    pub fn authenticate(&self, handshake: &VpnHandshake) -> (r: Result<(), Refusal>)
        ensures
            match auth_refusal(self.config.auth_tokens, handshake.auth_token) {
                None => r is Ok,
                Some((reason, text)) => r is Err && turns_away(
                    r->Err_0,
                    reason,
                    ErrorKind::Signaling,
                    text,
                    self.local_gso_enabled,
                ),
            },
    {
        let tokens = match &self.config.auth_tokens {
            Some(tokens) => tokens,
            None => {
                return Err(
                    Refusal {
                        response: VpnHandshakeResponse::rejected(
                            "Server misconfigured",
                            self.local_gso_enabled,
                        ),
                        error: VpnError::Signaling(
                            "Server has no auth tokens configured".to_owned(),
                        ),
                    },
                );
            },
        };
        match &handshake.auth_token {
            Some(token) => if token_listed(tokens, token) {
                Ok(())
            } else {
                Err(
                    Refusal {
                        response: VpnHandshakeResponse::rejected(
                            "Invalid authentication token",
                            self.local_gso_enabled,
                        ),
                        error: VpnError::Signaling("Invalid authentication token".to_owned()),
                    },
                )
            },
            None => Err(
                Refusal {
                    response: VpnHandshakeResponse::rejected(
                        "Authentication token required",
                        self.local_gso_enabled,
                    ),
                    error: VpnError::Signaling("Authentication token required".to_owned()),
                },
            ),
        }
    }

    /// Takes a connection in, unless as many as allowed are being served.
    pub fn take_in(&mut self) -> (r: Result<(), Refusal>)
        requires
            old(self).wf(),
        ensures
            final(self).wf(),
            *final(self) == (VpnServer {
                active_connections: final(self).active_connections,
                ..*old(self)
            }),
            r is Ok <==> old(self).active_connections < old(self).config.max_clients,
            r is Ok <==> has_room(*old(self)),
            r is Ok ==> final(self).active_connections == old(self).active_connections + 1,
            r is Err ==> {
                &&& final(self).active_connections == old(self).active_connections
                &&& turns_away(
                    r->Err_0,
                    "Server full"@,
                    ErrorKind::IpAssignment,
                    "Server full"@,
                    old(self).local_gso_enabled,
                )
            },
    {
        if self.active_connections >= self.config.max_clients {
            return Err(
                Refusal {
                    response: VpnHandshakeResponse::rejected("Server full", self.local_gso_enabled),
                    error: VpnError::IpAssignment("Server full".to_owned()),
                },
            );
        }
        self.active_connections = self.active_connections + 1;
        Ok(())
    }

    /// Lets go of a connection that was taken in, however it ended.
    pub fn dismiss(&mut self)
        requires
            old(self).wf(),
            old(self).active_connections > 0,
        ensures
            final(self).wf(),
            *final(self) == (VpnServer {
                active_connections: (old(self).active_connections - 1) as usize,
                ..*old(self)
            }),
    {
        self.active_connections = self.active_connections - 1;
    }
}

/// What a client that was taken in is told, and how it is entered.
#[derive(Debug)]
pub struct Onboarding {
    pub response: VpnHandshakeResponse,
    pub arrival: Arrival,
}

/// The IPv4 address that a client gets, if the server has one for it.
pub open spec fn given4(pool: Option<IpPool>, key: ClientKey) -> Option<Ipv4Addr> {
    match pool {
        Some(p) => match ip_pool::allocation(p@, key).0 {
            Some(a) => Some(Ipv4Addr { bits: a as u32 }),
            None => None,
        },
        None => None,
    }
}

/// The IPv6 address that a client gets, if the server has one for it.
pub open spec fn given6(pool: Option<Ip6Pool>, key: ClientKey) -> Option<Ipv6Addr> {
    match pool {
        Some(p) => match ip6_pool::allocation(p@, key).0 {
            Some(a) => Some(Ipv6Addr { bits: a as u128 }),
            None => None,
        },
        None => None,
    }
}

/// Why a client gets no address, if it gets none: one family is enough where the server has
/// both.
pub open spec fn no_address_text(s: VpnServer, key: ClientKey) -> Option<Seq<char>> {
    if given4(s.ip_pool, key) is Some || given6(s.ip6_pool, key) is Some {
        None
    } else if s.ip_pool is Some && s.ip6_pool is None {
        Some("IPv4 pool exhausted"@)
    } else if s.ip6_pool is Some && s.ip_pool is None {
        Some("IPv6 pool exhausted"@)
    } else {
        Some("All IP pools exhausted"@)
    }
}

/// The client that a handshake from an endpoint is of.
pub open spec fn client_key(remote_id: EndpointId, handshake: VpnHandshake) -> ClientKey {
    ClientKey { endpoint: remote_id, device_id: handshake.device_id }
}

/// The pools after a client asked for addresses.
pub open spec fn pools_after(before: VpnServer, after: VpnServer, key: ClientKey) -> bool {
    &&& before.ip_pool is Some <==> after.ip_pool is Some
    &&& before.ip_pool is Some ==> after.ip_pool->0@ == ip_pool::allocation(
        before.ip_pool->0@,
        key,
    ).1
    &&& before.ip6_pool is Some <==> after.ip6_pool is Some
    &&& before.ip6_pool is Some ==> after.ip6_pool->0@ == ip6_pool::allocation(
        before.ip6_pool->0@,
        key,
    ).1
}

/// Everything but the pools is as it was.
pub open spec fn same_but_pools(before: VpnServer, after: VpnServer) -> bool {
    after == (VpnServer { ip_pool: after.ip_pool, ip6_pool: after.ip6_pool, ..before })
}

/// The response to a client that was taken in: its addresses, the server's own addresses as
/// gateways and as the only networks to route, and the settings of the server.
pub open spec fn welcomes(r: VpnHandshakeResponse, s: VpnServer, key: ClientKey) -> bool {
    let ip4 = given4(s.ip_pool, key);
    let ip6 = given6(s.ip6_pool, key);
    &&& r.version == VPN_PROTOCOL_VERSION
    &&& r.accepted
    &&& r.reject_reason is None
    &&& r.server_gso_enabled == s.local_gso_enabled
    &&& r.transport == s.wire_transport
    &&& r.mtu == clamped_mtu(s.config.mtu)
    &&& r.assigned_ip == ip4
    &&& r.server_ip == (if ip4 is Some {
        Some(s.ip_pool->0@.server_ip)
    } else {
        None
    })
    &&& r.network == (if ip4 is Some {
        Some(Ipv4Net { addr: s.ip_pool->0@.server_ip, prefix_len: 32 })
    } else {
        None
    })
    &&& r.assigned_ip6 == ip6
    &&& r.server_ip6 == (if ip6 is Some {
        Some(s.ip6_pool->0@.server_ip)
    } else {
        None
    })
    &&& r.network6 == (if ip6 is Some {
        Some(Ipv6Net { addr: s.ip6_pool->0@.server_ip, prefix_len: 128 })
    } else {
        None
    })
}

/// The addresses are those that the server publishes: its local ones that clients can reach and
/// that are not of its own networks, in order.
pub open spec fn publishes(
    addrs: Seq<IpAddr>,
    local_addrs: Seq<IpAddr>,
    config: ServerConfig,
) -> bool {
    &&& bypass::ascending(addrs)
    &&& forall|x: IpAddr| #[trigger]
        addrs.contains(x) <==> local_addrs.contains(x) && underlay::publishable(
            x,
            config.network,
            config.network6,
        )
}

/// The server after a client left: its addresses are free again.
pub open spec fn released(before: VpnServer, after: VpnServer, key: ClientKey, v4: bool, v6: bool) -> bool {
    &&& before.ip_pool is Some <==> after.ip_pool is Some
    &&& before.ip_pool is Some ==> after.ip_pool->0@ == (if v4 {
        ip_pool::after_release(before.ip_pool->0@, key)
    } else {
        before.ip_pool->0@
    })
    &&& before.ip6_pool is Some <==> after.ip6_pool is Some
    &&& before.ip6_pool is Some ==> after.ip6_pool->0@ == (if v6 {
        ip6_pool::after_release(before.ip6_pool->0@, key)
    } else {
        before.ip6_pool->0@
    })
}

impl VpnServer {
    /// Gives a client its addresses and writes the response to its handshake.
    ///
    /// The client gets an address of each network that the server has and that is not exhausted;
    /// with none it is turned away. `max_datagram_size` is what the connection says of QUIC
    /// datagrams, without which it is of no use. `local_addrs` are the server's own addresses, of
    /// which the client is told those that it may have to keep off its tunnel.
    pub fn onboard(
        &mut self,
        remote_id: EndpointId,
        handshake: &VpnHandshake,
        max_datagram_size: Option<usize>,
        local_addrs: &[IpAddr],
    ) -> (r: Result<Onboarding, VpnError>)
        requires
            old(self).wf(),
        ensures
            final(self).wf(),
            same_but_pools(*old(self), *final(self)),
            max_datagram_size is None ==> {
                &&& vpn_error::fails(
                    r,
                    ErrorKind::Signaling,
                    "Peer does not support QUIC datagrams"@,
                )
                &&& *final(self) == *old(self)
            },
            max_datagram_size is Some ==> {
                let key = client_key(remote_id, *handshake);
                &&& pools_after(*old(self), *final(self), key)
                &&& match no_address_text(*old(self), key) {
                    Some(m) => vpn_error::fails(r, ErrorKind::IpAssignment, m),
                    None => {
                        &&& r is Ok
                        &&& welcomes(r->Ok_0.response, *old(self), key)
                        &&& publishes(
                            r->Ok_0.response.server_addrs@,
                            local_addrs@,
                            old(self).config,
                        )
                        &&& r->Ok_0.arrival == (Arrival {
                            key,
                            assigned_ip: given4(old(self).ip_pool, key),
                            assigned_ip6: given6(old(self).ip6_pool, key),
                            client_gso_enabled: handshake.gso_enabled,
                            connection_gso_active: old(self).local_gso_enabled
                                && handshake.gso_enabled,
                        })
                        &&& r->Ok_0.arrival == arrival_of(*old(self), key, *handshake)
                    },
                }
            },
    {
        match require_datagrams(max_datagram_size) {
            Ok(_) => {},
            Err(e) => {
                return Err(e);
            },
        }
        let device_id: u64 = handshake.device_id;
        let key = ClientKey { endpoint: remote_id, device_id };
        let assigned_ip: Option<Ipv4Addr> = match &mut self.ip_pool {
            Some(pool) => pool.allocate(remote_id, device_id),
            None => None,
        };
        if assigned_ip.is_none() && self.ip_pool.is_some() && self.ip6_pool.is_none() {
            return Err(VpnError::IpAssignment("IPv4 pool exhausted".to_owned()));
        }
        let assigned_ip6: Option<Ipv6Addr> = match &mut self.ip6_pool {
            Some(pool) => pool.allocate(remote_id, device_id),
            None => None,
        };
        if assigned_ip6.is_none() && self.ip6_pool.is_some() && self.ip_pool.is_none() {
            return Err(VpnError::IpAssignment("IPv6 pool exhausted".to_owned()));
        }
        let gso: bool = self.local_gso_enabled;
        let mtu: u16 = advertised_client_mtu(self.config.mtu);
        let server_ip: Option<Ipv4Addr> = match &self.ip_pool {
            Some(pool) => Some(pool.server_ip()),
            None => None,
        };
        let server_ip6: Option<Ipv6Addr> = match &self.ip6_pool {
            Some(pool) => Some(pool.server_ip()),
            None => None,
        };
        let response = match (assigned_ip, server_ip, assigned_ip6, server_ip6) {
            (Some(ip4), Some(gw4), Some(ip6), Some(gw6)) => {
                VpnHandshakeResponse::accepted_dual_stack(
                    ip4,
                    host_net4(gw4),
                    gw4,
                    ip6,
                    host_net6(gw6),
                    gw6,
                    gso,
                    self.wire_transport,
                    mtu,
                )
            },
            (Some(ip4), Some(gw4), _, _) => VpnHandshakeResponse::accepted(
                ip4,
                host_net4(gw4),
                gw4,
                gso,
                self.wire_transport,
                mtu,
            ),
            (_, _, Some(ip6), Some(gw6)) => VpnHandshakeResponse::accepted_ipv6_only(
                ip6,
                host_net6(gw6),
                gw6,
                gso,
                self.wire_transport,
                mtu,
            ),
            _ => {
                return Err(VpnError::IpAssignment("All IP pools exhausted".to_owned()));
            },
        };
        let addrs = server_candidate_addrs(
            local_addrs,
            self.config.network,
            self.config.network6,
        );
        Ok(
            Onboarding {
                response: response.with_server_addrs(addrs),
                arrival: Arrival {
                    key,
                    assigned_ip,
                    assigned_ip6,
                    client_gso_enabled: handshake.gso_enabled,
                    connection_gso_active: gso && handshake.gso_enabled,
                },
            },
        )
    }

    /// Enters a client that has its response, and returns the id of its session.
    pub fn connected(&mut self, arrival: Arrival) -> (session_id: u64)
        requires
            old(self).wf(),
        ensures
            final(self).wf(),
            *final(self) == (VpnServer { registry: final(self).registry, ..*old(self) }),
            final(self).registry@ == registry::arrived(old(self).registry@, arrival),
            session_id == old(self).registry@.next_session_id,
    {
        self.registry.register(arrival)
    }

    /// Cleans up behind a session that ended. If the client has connected again meanwhile, its
    /// newer session owns everything, and nothing is done.
    pub fn disconnected(&mut self, arrival: Arrival, session_id: u64)
        requires
            old(self).wf(),
        ensures
            final(self).wf(),
            final(self).registry@ == registry::departed(old(self).registry@, arrival, session_id),
            *final(self) == (VpnServer {
                registry: final(self).registry,
                ip_pool: final(self).ip_pool,
                ip6_pool: final(self).ip6_pool,
                ..*old(self)
            }),
            ({
                let current = registry::is_current(
                    old(self).registry@,
                    arrival.key,
                    session_id,
                );
                let state = old(self).registry@.clients[registry::ident(arrival.key)];
                released(
                    *old(self),
                    *final(self),
                    arrival.key,
                    current && state.assigned_ip is Some,
                    current && state.assigned_ip6 is Some,
                )
            }),
    {
        let state = match self.registry.unregister(arrival, session_id) {
            Some(state) => state,
            None => {
                return;
            },
        };
        if state.assigned_ip.is_some() {
            match &mut self.ip_pool {
                Some(pool) => {
                    pool.release(&arrival.key.endpoint, arrival.key.device_id);
                },
                None => {},
            }
        }
        if state.assigned_ip6.is_some() {
            match &mut self.ip6_pool {
                Some(pool) => {
                    pool.release(&arrival.key.endpoint, arrival.key.device_id);
                },
                None => {},
            }
        }
    }
}

/// A client is let in exactly if the server has tokens and the client shows one of them, letter
/// for letter; it is told apart why it is not.
pub proof fn law_tokens_let_clients_in(tokens: Option<Vec<String>>, token: Option<String>, i: int)
    ensures
        ({
            let refusal = auth_refusal(tokens, token);
            &&& refusal is None ==> tokens is Some && token is Some && exists|k: int|
                0 <= k < tokens->0@.len() && (#[trigger] tokens->0@[k])@ == token->0@
            &&& tokens is Some && token is Some && 0 <= i < tokens->0@.len() && tokens->0@[i]@
                == token->0@ ==> refusal is None
            &&& tokens is None || token is None ==> refusal is Some
            &&& refusal matches Some((reason, _)) ==> reason == (if tokens is None {
                "Server misconfigured"@
            } else if token is None {
                "Authentication token required"@
            } else {
                "Invalid authentication token"@
            })
        }),
{
    if tokens is Some && token is Some && 0 <= i < tokens->0@.len() && tokens->0@[i]@
        == token->0@ {
        assert(token_texts(tokens->0@).contains(token->0@));
    }
}

/// A client is turned away for want of an address exactly if neither pool gives it one; one
/// family is enough.
pub proof fn law_one_family_is_enough(s: VpnServer, key: ClientKey)
    ensures
        ({
            let four = s.ip_pool is Some && ip_pool::allocation(s.ip_pool->0@, key).0 is Some;
            let six = s.ip6_pool is Some && ip6_pool::allocation(s.ip6_pool->0@, key).0 is Some;
            &&& no_address_text(s, key) is None <==> four || six
            &&& given4(s.ip_pool, key) is Some <==> four
            &&& given6(s.ip6_pool, key) is Some <==> six
            &&& no_address_text(s, key) is Some ==> no_address_text(s, key)->0 == (if s.ip_pool
                is Some && s.ip6_pool is None {
                "IPv4 pool exhausted"@
            } else if s.ip_pool is None && s.ip6_pool is Some {
                "IPv6 pool exhausted"@
            } else {
                "All IP pools exhausted"@
            })
        }),
{
}

/// What a server publishes of its addresses is determined: the same addresses give the same list.
pub proof fn law_published_list_is_unique(
    a: Seq<IpAddr>,
    b: Seq<IpAddr>,
    local_addrs: Seq<IpAddr>,
    config: ServerConfig,
)
    requires
        publishes(a, local_addrs, config),
        publishes(b, local_addrs, config),
    ensures
        a == b,
        forall|x: IpAddr| #[trigger]
            a.contains(x) <==> local_addrs.contains(x) && underlay::routable(x)
                && !underlay::in_overlay(x, config.network, config.network6),
{
    assert forall|x: IpAddr| a.contains(x) <==> #[trigger] b.contains(x) by {
        assert(a.contains(x) <==> local_addrs.contains(x) && underlay::publishable(
            x,
            config.network,
            config.network6,
        ));
    }
    bypass::law_ascending_lists_are_unique(a, b);
}

/// The MTU of the device and of the clients is the configured one, unless that is more than a
/// datagram can be trusted to carry.
pub proof fn law_mtu_is_bounded(s: VpnServer)
    ensures
        tun_of(s).mtu <= 1280,
        s.config.mtu <= 1280 ==> tun_of(s).mtu == s.config.mtu,
        s.config.mtu > 1280 ==> tun_of(s).mtu == 1280,
        clamped_mtu(s.config.mtu) == tun_of(s).mtu,
{
}

/// As many clients may be connected at once as are configured: there is room exactly as long as
/// there are fewer.
pub proof fn law_room_is_limited(s: VpnServer, connected: usize)
    requires
        s.active_connections == connected,
    ensures
        connected < s.config.max_clients ==> has_room(s),
        connected >= s.config.max_clients ==> !has_room(s),
{
}

/// A client that leaves gives back the address of each family that it is told to, and keeps that
/// of the other; nobody else loses one.
pub proof fn law_leaving_gives_addresses_back(
    s: VpnServer,
    t: VpnServer,
    key: ClientKey,
    v4: bool,
    v6: bool,
    other: ClientKey,
)
    requires
        released(s, t, key, v4, v6),
        other != key,
    ensures
        s.ip_pool is Some <==> t.ip_pool is Some,
        s.ip6_pool is Some <==> t.ip6_pool is Some,
        s.ip_pool is Some ==> {
            let a = s.ip_pool->0@;
            let b = t.ip_pool->0@;
            &&& v4 ==> !b.in_use.contains_key(key)
            &&& v4 && a.in_use.contains_key(key) ==> b.released.contains(a.in_use[key] as u32)
            &&& !v4 ==> b == a
            &&& b.in_use.contains_key(other) <==> a.in_use.contains_key(other)
            &&& a.in_use.contains_key(other) ==> b.in_use[other] == a.in_use[other]
            &&& b.server_ip == a.server_ip
        },
        s.ip6_pool is Some ==> {
            let a = s.ip6_pool->0@;
            let b = t.ip6_pool->0@;
            &&& v6 ==> !b.in_use.contains_key(key)
            &&& v6 && a.in_use.contains_key(key) && a.strategy is Sequential
                ==> b.released.contains(a.in_use[key])
            &&& !v6 ==> b == a
            &&& b.in_use.contains_key(other) <==> a.in_use.contains_key(other)
            &&& a.in_use.contains_key(other) ==> b.in_use[other] == a.in_use[other]
            &&& b.server_ip == a.server_ip
        },
{
    if s.ip_pool is Some {
        let a = s.ip_pool->0@;
        let b = t.ip_pool->0@;
        ip_pool::law_other_clients_are_untouched(a, key, other, a.server_ip);
        if v4 && a.in_use.contains_key(key) {
            assert(b.released[a.released.len() as int] == a.in_use[key] as u32);
        }
    }
    if s.ip6_pool is Some {
        let a = s.ip6_pool->0@;
        let b = t.ip6_pool->0@;
        ip6_pool::law_other_clients6_are_untouched(a, key, other);
        if v6 && a.in_use.contains_key(key) && a.strategy is Sequential {
            assert(b.released[a.released.len() as int] == a.in_use[key]);
        }
    }
}

/// A client is who connects and which of its devices it says it is.
pub proof fn law_clients_are_told_apart(
    a: EndpointId,
    b: EndpointId,
    g: VpnHandshake,
    h: VpnHandshake,
)
    ensures
        client_key(a, g) == client_key(b, h) <==> a == b && g.device_id == h.device_id,
        client_key(a, g).endpoint == a,
        client_key(a, g).device_id == g.device_id,
{
}

/// Taking a client on board touches nothing but the pools.
pub proof fn law_onboarding_touches_the_pools_only(s: VpnServer, t: VpnServer)
    requires
        same_but_pools(s, t),
    ensures
        t.config == s.config,
        t.registry == s.registry,
        t.stats == s.stats,
        t.active_connections == s.active_connections,
        t.wire_transport == s.wire_transport,
        t.local_gso_enabled == s.local_gso_enabled,
{
}

} // verus!
