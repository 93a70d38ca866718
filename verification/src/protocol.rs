//! What holds between a client and a server that talk to each other.

use vstd::arithmetic::power2::*;
use vstd::prelude::*;
use crate::addr;
use crate::addr::IpAddr;
use crate::connect;
use crate::identity::{ClientKey, EndpointId};
use crate::ip6_pool;
use crate::ip_pool;
use crate::packet::PacketIp;
use crate::registry;
use crate::server;
use crate::server::{ServerConfig, VpnServer};
use crate::session;
use crate::session::ServerInfo;
use crate::signaling;
use crate::signaling::{TransportTuning, VpnHandshake, VpnHandshakeResponse};
use crate::underlay;
use crate::vpn_error::{ErrorKind, VpnError};

verus! {

/// A client that is turned away learns why, word for word, and does not try again.
pub proof fn law_refusal_reaches_the_client(
    r: VpnHandshakeResponse,
    reason: Seq<char>,
    gso: bool,
    e: VpnError,
)
    requires
        server::tells_off(r, reason, gso),
    ensures
        r.complete(),
        session::response_refusal(r) == Some((ErrorKind::AuthenticationFailed, reason)),
        e.kind() == ErrorKind::AuthenticationFailed ==> !e.recoverable(),
{
}

/// A client takes every response that a server welcomes it with: both families are complete or
/// absent, one is there, and a first session begins with it.
pub proof fn law_welcome_is_taken(s: VpnServer, key: ClientKey, r: VpnHandshakeResponse)
    requires
        server::welcomes(r, s, key),
        server::no_address_text(s, key) is None,
    ensures
        r.complete(),
        connect::response_wf(r),
        session::response_refusal(r) is None,
        session::params_fit(None, connect::response_params(r)),
{
}

/// The server is the same one, later: its own addresses are what they were.
pub open spec fn same_server(s: VpnServer, t: VpnServer) -> bool {
    &&& s.ip_pool is Some <==> t.ip_pool is Some
    &&& s.ip_pool is Some ==> s.ip_pool->0@.server_ip == t.ip_pool->0@.server_ip
    &&& s.ip6_pool is Some <==> t.ip6_pool is Some
    &&& s.ip6_pool is Some ==> s.ip6_pool->0@.server_ip == t.ip6_pool->0@.server_ip
}

/// A client that comes back to the same server can go on with its session as long as it gets
/// addresses of the same families, whatever the addresses are. A family that has run out
/// meanwhile ends the session.
pub proof fn law_return_fits_the_session(
    s: VpnServer,
    t: VpnServer,
    key: ClientKey,
    r: VpnHandshakeResponse,
    q: VpnHandshakeResponse,
)
    requires
        same_server(s, t),
        server::welcomes(r, s, key),
        server::welcomes(q, t, key),
    ensures
        session::params_fit(Some(connect::response_params(r)), connect::response_params(q)) <==> (
        r.assigned_ip is Some <==> q.assigned_ip is Some) && (r.assigned_ip6 is Some
            <==> q.assigned_ip6 is Some),
{
}

/// A client that connects again before its addresses were released gets the same ones.
pub proof fn law_second_connection_keeps_the_addresses(s: VpnServer, t: VpnServer, key: ClientKey)
    requires
        s.wf(),
        server::pools_after(s, t, key),
    ensures
        server::given4(s.ip_pool, key) is Some ==> server::given4(t.ip_pool, key)
            == server::given4(s.ip_pool, key),
        server::given6(s.ip6_pool, key) is Some ==> server::given6(t.ip6_pool, key)
            == server::given6(s.ip6_pool, key),
{
    if s.ip_pool is Some {
        ip_pool::law_pool_is_valid(s.ip_pool->0);
        if server::given4(s.ip_pool, key) is Some {
            ip_pool::law_allocation_is_stable(s.ip_pool->0@, key);
        }
    }
    if s.ip6_pool is Some {
        ip6_pool::law_pool6_is_valid(s.ip6_pool->0);
        if server::given6(s.ip6_pool, key) is Some {
            ip6_pool::law_allocation6_is_stable(s.ip6_pool->0@, key);
        }
    }
}

/// Two clients that are connected at the same time never get the same address, and neither gets
/// the server's.
pub proof fn law_clients_get_different_addresses(
    s: VpnServer,
    t: VpnServer,
    first: ClientKey,
    second: ClientKey,
)
    requires
        s.wf(),
        server::pools_after(s, t, first),
        t.wf(),
        first != second,
    ensures
        server::given4(s.ip_pool, first) is Some ==> server::given4(s.ip_pool, first)
            != server::given4(t.ip_pool, second),
        server::given6(s.ip6_pool, first) is Some ==> server::given6(s.ip6_pool, first)
            != server::given6(t.ip6_pool, second),
        s.ip_pool is Some ==> server::given4(s.ip_pool, first) != Some(
            s.ip_pool->0@.server_ip,
        ),
        s.ip6_pool is Some ==> server::given6(s.ip6_pool, first) != Some(
            s.ip6_pool->0@.server_ip,
        ),
{
    if s.ip_pool is Some {
        let p = s.ip_pool->0@;
        ip_pool::law_pool_is_valid(s.ip_pool->0);
        ip_pool::lemma_allocation_valid(p, first);
        let q = ip_pool::allocation(p, first).1;
        if ip_pool::allocation(p, first).0 is Some {
            lemma_leased4(p, first);
            ip_pool::lemma_allocation_valid(q, second);
            if ip_pool::allocation(q, second).0 is Some {
                lemma_leased4(q, second);
                lemma_lease_stays4(q, first, second);
                ip_pool::law_addresses_are_exclusive(
                    ip_pool::allocation(q, second).1,
                    first,
                    second,
                );
            }
            ip_pool::law_addresses_are_exclusive(q, first, second);
        }
    }
    if s.ip6_pool is Some {
        let p = s.ip6_pool->0@;
        ip6_pool::law_pool6_is_valid(s.ip6_pool->0);
        ip6_pool::lemma_allocation_valid(p, first);
        let q = ip6_pool::allocation(p, first).1;
        if ip6_pool::allocation(p, first).0 is Some {
            lemma_leased6(p, first);
            ip6_pool::lemma_allocation_valid(q, second);
            if ip6_pool::allocation(q, second).0 is Some {
                lemma_leased6(q, second);
                lemma_lease_stays6(q, first, second);
                ip6_pool::law_addresses6_are_exclusive(
                    ip6_pool::allocation(q, second).1,
                    first,
                    second,
                );
            }
            ip6_pool::law_addresses6_are_exclusive(q, first, second);
        }
    }
}

/// A client that got an address holds it.
pub proof fn lemma_leased4(p: ip_pool::PoolState, key: ClientKey)
    requires
        p.valid(),
        ip_pool::allocation(p, key).0 is Some,
    ensures
        ip_pool::allocation(p, key).1.in_use.contains_key(key),
        ip_pool::allocation(p, key).1.in_use[key] == ip_pool::allocation(p, key).0->0,
        0 <= ip_pool::allocation(p, key).0->0 <= u32::MAX,
        ip_pool::allocation(p, key).1.server_ip == p.server_ip,
{
    addr::law_network_holds_its_ends(p.network);
    ip_pool::lemma_lowest_free(p.reserved, p.next_ip, p.max_ip);
    ip_pool::lemma_allocation_valid(p, key);
    let q = ip_pool::allocation(p, key).1;
    assert(q.was_issued(q.in_use[key] as int));
}

/// A client keeps its address while others get theirs.
pub proof fn lemma_lease_stays4(p: ip_pool::PoolState, key: ClientKey, other: ClientKey)
    requires
        p.in_use.contains_key(key),
        key != other,
    ensures
        ip_pool::allocation(p, other).1.in_use.contains_key(key),
        ip_pool::allocation(p, other).1.in_use[key] == p.in_use[key],
{
}

/// A client that got an address holds it.
pub proof fn lemma_leased6(p: ip6_pool::Pool6State, key: ClientKey)
    requires
        p.valid(),
        ip6_pool::allocation(p, key).0 is Some,
    ensures
        ip6_pool::allocation(p, key).1.in_use.contains_key(key),
        ip6_pool::allocation(p, key).1.in_use[key] == ip6_pool::allocation(p, key).0->0,
        0 <= ip6_pool::allocation(p, key).0->0 <= u128::MAX,
        ip6_pool::allocation(p, key).1.server_ip == p.server_ip,
{
    addr::law_network6_holds_its_ends(p.network);
    ip6_pool::law_derived_address_in_network(
        p.network,
        crate::identity::node_suffix(key.endpoint),
    );
}

/// A client keeps its address while others get theirs.
pub proof fn lemma_lease_stays6(p: ip6_pool::Pool6State, key: ClientKey, other: ClientKey)
    requires
        p.in_use.contains_key(key),
        key != other,
    ensures
        ip6_pool::allocation(p, other).1.in_use.contains_key(key),
        ip6_pool::allocation(p, other).1.in_use[key] == p.in_use[key],
{
}

/// What a client is told to route is the server alone, so that its netmask has all bits set.
pub proof fn law_advertised_mask_is_a_host_mask(s: VpnServer, key: ClientKey, r: VpnHandshakeResponse)
    requires
        server::welcomes(r, s, key),
    ensures
        r.network is Some ==> session::mask_of(r.network->0) == u32::MAX,
        r.network6 is Some ==> r.network6->0.prefix_len == 128,
{
    lemma2_to64();
    addr::lemma_address_space();
}

/// A client can tell the address of its tunnel from those that it keeps off it: where the
/// server's own address lies in its network, no address that it assigns is ever published.
pub proof fn law_assigned_addresses_are_not_published(s: VpnServer, key: ClientKey)
    requires
        s.wf(),
        s.ip_pool is Some ==> s.config.network->0.has(s.ip_pool->0@.server_ip),
        s.ip6_pool is Some ==> s.config.network6->0.has(s.ip6_pool->0@.server_ip),
    ensures
        server::given4(s.ip_pool, key) matches Some(a) ==> !underlay::publishable(
            IpAddr::V4(a),
            s.config.network,
            s.config.network6,
        ),
        server::given6(s.ip6_pool, key) matches Some(a) ==> !underlay::publishable(
            IpAddr::V6(a),
            s.config.network,
            s.config.network6,
        ),
{
    if s.ip_pool is Some {
        let p = s.ip_pool->0@;
        ip_pool::law_pool_is_valid(s.ip_pool->0);
        if ip_pool::allocation(p, key).0 is Some {
            lemma_leased4(p, key);
            ip_pool::lemma_allocation_valid(p, key);
            ip_pool::law_addresses_are_hosts(ip_pool::allocation(p, key).1, key);
        }
    }
    if s.ip6_pool is Some {
        let p = s.ip6_pool->0@;
        ip6_pool::law_pool6_is_valid(s.ip6_pool->0);
        if ip6_pool::allocation(p, key).0 is Some {
            lemma_leased6(p, key);
            ip6_pool::lemma_allocation_valid(p, key);
            ip6_pool::law_addresses6_are_hosts(ip6_pool::allocation(p, key).1, key);
        }
    }
}

/// A new server with an IPv4 address of its own configured has that address on its TUN device,
/// names it to its clients as their gateway, and gives the first of them the address behind it.
/// Without one it is the first host of the network.
pub proof fn law_new_server_serves_its_address(
    s: VpnServer,
    config: ServerConfig,
    id: EndpointId,
    transport: TransportTuning,
    key: ClientKey,
    r: VpnHandshakeResponse,
)
    requires
        config.wf(),
        config.network is Some,
        server::is_new(s, config, id, transport),
        server::welcomes(r, s, key),
    ensures
        ({
            let network = config.network->0;
            let own = match config.server_ip {
                Some(ip) => ip.bits as int,
                None => network.first() + 1,
            };
            let tun = server::tun_of(s).v4;
            &&& tun is Some
            &&& tun->0.address.bits == own
            &&& tun->0.gateway.bits == own
            &&& tun->0.netmask.bits == session::mask_of(network)
            &&& own + 1 < network.last() <==> r.assigned_ip is Some
            &&& r.assigned_ip is Some ==> {
                &&& r.assigned_ip->0.bits == own + 1
                &&& r.server_ip is Some
                &&& r.server_ip->0.bits == own
                &&& r.network is Some
                &&& r.network->0.addr.bits == own
                &&& r.network->0.prefix_len == 32
            }
        }),
{
    let network = config.network->0;
    addr::law_network_holds_its_ends(network);
    session::lemma_mask_fits(network);
    if config.server_ip is Some {
        ip_pool::law_configured_server_address_is_used(network, config.server_ip->0, key);
    } else {
        ip_pool::law_default_server_address_is_the_first_host(network, key);
    }
}

/// A new server that hands out IPv6 addresses in order has the configured address, or else the
/// first host of the network, on its TUN device, and names it to its clients as their gateway.
pub proof fn law_new_server_serves_its_address6(
    s: VpnServer,
    config: ServerConfig,
    id: EndpointId,
    transport: TransportTuning,
    key: ClientKey,
    r: VpnHandshakeResponse,
)
    requires
        config.wf(),
        config.network6 is Some,
        config.ip6_strategy is Sequential,
        server::is_new(s, config, id, transport),
        server::welcomes(r, s, key),
    ensures
        ({
            let network = config.network6->0;
            let own = match config.server_ip6 {
                Some(ip) => ip.bits as int,
                None => network.first() + 1,
            };
            let tun = server::tun_of(s).v6;
            &&& tun is Some
            &&& tun->0.address.bits == own
            &&& tun->0.prefix_len == network.prefix_len
            &&& own + 1 < network.last() <==> r.assigned_ip6 is Some
            &&& r.assigned_ip6 is Some ==> {
                &&& r.assigned_ip6->0.bits == own + 1
                &&& r.server_ip6 is Some
                &&& r.server_ip6->0.bits == own
                &&& r.network6 is Some
                &&& r.network6->0.addr.bits == own
                &&& r.network6->0.prefix_len == 128
            }
        }),
{
    let network = config.network6->0;
    addr::law_network6_holds_its_ends(network);
    ip6_pool::law_fresh_pool6_starts_at_its_server(
        s.ip6_pool->0@,
        network,
        config.server_ip6,
        id,
        key,
    );
}

/// What a client is told is what its TUN device is set up with, and it is told nothing of a
/// family of which it got no address.
pub proof fn law_client_tun_follows_the_welcome(
    s: VpnServer,
    key: ClientKey,
    r: VpnHandshakeResponse,
    info: ServerInfo,
)
    requires
        server::welcomes(r, s, key),
        session::params_of(info) == connect::response_params(r),
    ensures
        session::client_tun_v4(info) is Some <==> r.assigned_ip is Some,
        session::client_tun_v4(info) matches Some(tun) ==> {
            &&& r.assigned_ip == Some(tun.address)
            &&& r.server_ip == Some(tun.gateway)
            &&& tun.netmask.bits == u32::MAX
            &&& s.ip_pool is Some && tun.gateway == s.ip_pool->0@.server_ip
        },
        session::client_tun_v6(info) is Some <==> r.assigned_ip6 is Some,
        session::client_tun_v6(info) matches Some(tun) ==> {
            &&& r.assigned_ip6 == Some(tun.address)
            &&& tun.prefix_len == 128
        },
        r.server_ip is Some <==> r.assigned_ip is Some,
        r.network is Some <==> r.assigned_ip is Some,
        r.server_ip6 is Some <==> r.assigned_ip6 is Some,
        r.network6 is Some <==> r.assigned_ip6 is Some,
        r.mtu <= s.config.mtu,
        r.mtu <= 1280,
        r.mtu == s.config.mtu || r.mtu == 1280,
{
    law_advertised_mask_is_a_host_mask(s, key, r);
}

/// A server registers a client with what it tells it: the addresses are the same, and both ends
/// come to the same decision on offload.
pub proof fn law_both_ends_agree(
    s: VpnServer,
    key: ClientKey,
    handshake: VpnHandshake,
    r: VpnHandshakeResponse,
)
    requires
        server::welcomes(r, s, key),
    ensures
        ({
            let a = server::arrival_of(s, key, handshake);
            &&& a.key == key
            &&& a.assigned_ip == r.assigned_ip
            &&& a.assigned_ip6 == r.assigned_ip6
            &&& a.client_gso_enabled == handshake.gso_enabled
            &&& a.connection_gso_active == session::gso_agreed(
                handshake.gso_enabled,
                r.server_gso_enabled,
            )
            &&& a.connection_gso_active <==> s.local_gso_enabled && handshake.gso_enabled
        }),
{
}

/// Packets for the addresses that a client was told lead to it, once it has arrived.
pub proof fn law_told_addresses_lead_to_the_client(
    s: VpnServer,
    key: ClientKey,
    handshake: VpnHandshake,
    r: VpnHandshakeResponse,
)
    requires
        server::welcomes(r, s, key),
    ensures
        ({
            let v = registry::arrived(s.registry@, server::arrival_of(s, key, handshake));
            &&& r.assigned_ip matches Some(x) ==> registry::owner_of(v, PacketIp::V4(x)) == Some(
                key,
            )
            &&& r.assigned_ip6 matches Some(x) ==> registry::owner_of(v, PacketIp::V6(x)) == Some(
                key,
            )
        }),
{
    let a = server::arrival_of(s, key, handshake);
    if r.assigned_ip is Some {
        registry::law_arrival_is_found(s.registry@, a, PacketIp::V4(r.assigned_ip->0));
    }
    if r.assigned_ip6 is Some {
        registry::law_arrival_is_found(s.registry@, a, PacketIp::V6(r.assigned_ip6->0));
    }
}

/// What a server is tuned to is what its clients are told: the congestion controller, and the
/// windows that are set, or their defaults. Whoever is welcomed is accepted, under the version of
/// the protocol and without a reason to the contrary.
pub proof fn law_welcome_tells_the_tuning(
    s: VpnServer,
    config: ServerConfig,
    id: EndpointId,
    transport: TransportTuning,
    key: ClientKey,
    r: VpnHandshakeResponse,
)
    requires
        server::is_new(s, config, id, transport),
        server::welcomes(r, s, key),
    ensures
        r.accepted,
        r.reject_reason is None,
        r.version == 4,
        r.server_gso_enabled == s.local_gso_enabled,
        r.transport.congestion_controller == transport.congestion_controller,
        transport.receive_window is Some ==> r.transport.receive_window
            == transport.receive_window->0,
        transport.receive_window is None ==> r.transport.receive_window == 8388608,
        transport.send_window is Some ==> r.transport.send_window == transport.send_window->0,
        transport.send_window is None ==> r.transport.send_window == r.transport.receive_window,
{
}

/// Every answer of a server is taken by a client, be it a welcome or a refusal, and so is every
/// handshake of a client by a server.
pub proof fn law_answers_are_taken(
    s: VpnServer,
    key: ClientKey,
    r: VpnHandshakeResponse,
    reason: Seq<char>,
    gso: bool,
    h: VpnHandshake,
)
    ensures
        server::welcomes(r, s, key) && server::no_address_text(s, key) is None
            ==> signaling::response_taken(r),
        server::tells_off(r, reason, gso) ==> signaling::response_taken(r),
        h.version == 4 <==> signaling::handshake_taken(h),
        r.version != 4 ==> !signaling::response_taken(r),
{
    if server::welcomes(r, s, key) && server::no_address_text(s, key) is None {
        law_welcome_is_taken(s, key, r);
    }
}

} // verus!
