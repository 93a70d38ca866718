//! What every step of a server keeps: its registry and its address pools tell the same story.

use vstd::prelude::*;
use crate::identity::ClientKey;
use crate::ip6_pool;
use crate::ip_pool;
use crate::packet::PacketIp;
use crate::protocol;
use crate::registry;
use crate::registry::{Arrival, ClientState};
use crate::server;
use crate::server::VpnServer;

verus! {

/// The IPv4 address of a connected client leads to it, and is leased to it.
pub open spec fn holds4(s: VpnServer, key: ClientKey, state: ClientState) -> bool {
    state.assigned_ip matches Some(ip) ==> {
        let owners = s.registry@.owners4;
        &&& owners.contains_key(ip.bits as u128)
        &&& owners[ip.bits as u128] == registry::ident(key)
        &&& s.ip_pool is Some
        &&& s.ip_pool->0@.in_use.contains_key(key)
        &&& s.ip_pool->0@.in_use[key] == ip.bits as u128
    }
}

/// The IPv6 address of a connected client leads to it, and is leased to it.
pub open spec fn holds6(s: VpnServer, key: ClientKey, state: ClientState) -> bool {
    state.assigned_ip6 matches Some(ip) ==> {
        let owners = s.registry@.owners6;
        &&& owners.contains_key(ip.bits)
        &&& owners[ip.bits] == registry::ident(key)
        &&& s.ip6_pool is Some
        &&& s.ip6_pool->0@.in_use.contains_key(key)
        &&& s.ip6_pool->0@.in_use[key] == ip.bits
    }
}

/// The registry and the pools agree: the addresses of a connected client lead to it and are
/// leased to it, and an address that leads somewhere leads to a connected client that has it.
pub open spec fn in_step(s: VpnServer) -> bool {
    let v = s.registry@;
    &&& forall|k: ClientKey|
        v.clients.contains_key(#[trigger] registry::ident(k)) ==> {
            &&& holds4(s, k, v.clients[registry::ident(k)])
            &&& holds6(s, k, v.clients[registry::ident(k)])
        }
    &&& forall|a: u128| #[trigger]
        v.owners4.contains_key(a) ==> {
            &&& v.clients.contains_key(v.owners4[a])
            &&& registry::number4(v.clients[v.owners4[a]].assigned_ip) == Some(a)
        }
    &&& forall|a: u128| #[trigger]
        v.owners6.contains_key(a) ==> {
            &&& v.clients.contains_key(v.owners6[a])
            &&& registry::number6(v.clients[v.owners6[a]].assigned_ip6) == Some(a)
        }
}

/// A key and its place in the maps determine each other.
proof fn lemma_ident(k: ClientKey, i: (u128, u128, u64))
    ensures
        registry::client_of(registry::ident(k)) == k,
        registry::ident(registry::client_of(i)) == i,
{
}

/// A server starts in step.
pub proof fn law_new_server_is_in_step(s: VpnServer)
    requires
        s.registry@ == registry::nobody(),
    ensures
        in_step(s),
{
}

/// What entering a client does: the server `mid` has given it addresses, and `t` has entered it
/// with them.
pub open spec fn enters(s: VpnServer, mid: VpnServer, t: VpnServer, a: Arrival) -> bool {
    &&& server::pools_after(s, mid, a.key)
    &&& server::same_but_pools(s, mid)
    &&& a.assigned_ip == server::given4(s.ip_pool, a.key)
    &&& a.assigned_ip6 == server::given6(s.ip6_pool, a.key)
    &&& t == (VpnServer { registry: t.registry, ..mid })
    &&& t.registry@ == registry::arrived(mid.registry@, a)
}

/// The IPv4 half of what entering a client keeps.
proof fn lemma_enter4(s: VpnServer, mid: VpnServer, t: VpnServer, a: Arrival)
    requires
        s.wf(),
        in_step(s),
        enters(s, mid, t, a),
    ensures
        forall|k: ClientKey|
            t.registry@.clients.contains_key(#[trigger] registry::ident(k)) ==> holds4(
                t,
                k,
                t.registry@.clients[registry::ident(k)],
            ),
        forall|x: u128| #[trigger]
            t.registry@.owners4.contains_key(x) ==> {
                let w = t.registry@;
                &&& w.clients.contains_key(w.owners4[x])
                &&& registry::number4(w.clients[w.owners4[x]].assigned_ip) == Some(x)
            },
{
    let v = s.registry@;
    let w = t.registry@;
    let me = registry::ident(a.key);
    if s.ip_pool is Some {
        let p = s.ip_pool->0@;
        ip_pool::law_pool_is_valid(s.ip_pool->0);
        ip_pool::lemma_allocation_valid(p, a.key);
        if ip_pool::allocation(p, a.key).0 is Some {
            protocol::lemma_leased4(p, a.key);
        }
    }
    assert forall|k: ClientKey| w.clients.contains_key(#[trigger] registry::ident(k)) implies holds4(
        t,
        k,
        w.clients[registry::ident(k)],
    ) by {
        if k != a.key {
            lemma_ident(k, me);
            lemma_ident(a.key, me);
            assert(registry::ident(k) != me);
            assert(v.clients.contains_key(registry::ident(k)));
            if w.clients[registry::ident(k)].assigned_ip is Some {
                protocol::lemma_lease_stays4(s.ip_pool->0@, k, a.key);
                let q = ip_pool::allocation(s.ip_pool->0@, a.key).1;
                if a.assigned_ip is Some {
                    ip_pool::law_addresses_are_exclusive(q, k, a.key);
                }
            }
        }
    }
    assert forall|x: u128| #[trigger] w.owners4.contains_key(x) implies w.clients.contains_key(
        w.owners4[x],
    ) && registry::number4(w.clients[w.owners4[x]].assigned_ip) == Some(x) by {
        if registry::number4(a.assigned_ip) != Some(x) {
            assert(v.owners4.contains_key(x));
            if v.owners4[x] == me {
                assert(v.clients.contains_key(registry::ident(a.key)));
            }
        }
    }
}

/// The IPv6 half of what entering a client keeps.
proof fn lemma_enter6(s: VpnServer, mid: VpnServer, t: VpnServer, a: Arrival)
    requires
        s.wf(),
        in_step(s),
        enters(s, mid, t, a),
    ensures
        forall|k: ClientKey|
            t.registry@.clients.contains_key(#[trigger] registry::ident(k)) ==> holds6(
                t,
                k,
                t.registry@.clients[registry::ident(k)],
            ),
        forall|x: u128| #[trigger]
            t.registry@.owners6.contains_key(x) ==> {
                let w = t.registry@;
                &&& w.clients.contains_key(w.owners6[x])
                &&& registry::number6(w.clients[w.owners6[x]].assigned_ip6) == Some(x)
            },
{
    let v = s.registry@;
    let w = t.registry@;
    let me = registry::ident(a.key);
    if s.ip6_pool is Some {
        let p = s.ip6_pool->0@;
        ip6_pool::law_pool6_is_valid(s.ip6_pool->0);
        ip6_pool::lemma_allocation_valid(p, a.key);
        if ip6_pool::allocation(p, a.key).0 is Some {
            protocol::lemma_leased6(p, a.key);
        }
    }
    assert forall|k: ClientKey| w.clients.contains_key(#[trigger] registry::ident(k)) implies holds6(
        t,
        k,
        w.clients[registry::ident(k)],
    ) by {
        if k != a.key {
            lemma_ident(k, me);
            lemma_ident(a.key, me);
            assert(registry::ident(k) != me);
            assert(v.clients.contains_key(registry::ident(k)));
            if w.clients[registry::ident(k)].assigned_ip6 is Some {
                protocol::lemma_lease_stays6(s.ip6_pool->0@, k, a.key);
                let q = ip6_pool::allocation(s.ip6_pool->0@, a.key).1;
                if a.assigned_ip6 is Some {
                    ip6_pool::law_addresses6_are_exclusive(q, k, a.key);
                }
            }
        }
    }
    assert forall|x: u128| #[trigger] w.owners6.contains_key(x) implies w.clients.contains_key(
        w.owners6[x],
    ) && registry::number6(w.clients[w.owners6[x]].assigned_ip6) == Some(x) by {
        if registry::number6(a.assigned_ip6) != Some(x) {
            assert(v.owners6.contains_key(x));
            if v.owners6[x] == me {
                assert(v.clients.contains_key(registry::ident(a.key)));
            }
        }
    }
}

/// A server stays in step when a client connects, for the first time or again, as long as no
/// session of the same client ends between the response and the entry.
pub proof fn law_connecting_keeps_step(s: VpnServer, mid: VpnServer, t: VpnServer, a: Arrival)
    requires
        s.wf(),
        in_step(s),
        enters(s, mid, t, a),
    ensures
        in_step(t),
{
    lemma_enter4(s, mid, t, a);
    lemma_enter6(s, mid, t, a);
}

/// A server stays in step when a session ends, be it the current one of its client or an older
/// one.
pub proof fn law_disconnecting_keeps_step(
    s: VpnServer,
    t: VpnServer,
    a: Arrival,
    session_id: u64,
)
    requires
        s.wf(),
        in_step(s),
        registry::is_current(s.registry@, a.key, session_id) ==> {
            let state = s.registry@.clients[registry::ident(a.key)];
            a.assigned_ip == state.assigned_ip && a.assigned_ip6 == state.assigned_ip6
        },
        t.registry@ == registry::departed(s.registry@, a, session_id),
        ({
            let current = registry::is_current(s.registry@, a.key, session_id);
            let state = s.registry@.clients[registry::ident(a.key)];
            server::released(
                s,
                t,
                a.key,
                current && state.assigned_ip is Some,
                current && state.assigned_ip6 is Some,
            )
        }),
    ensures
        in_step(t),
{
    let v = s.registry@;
    let w = t.registry@;
    let me = registry::ident(a.key);
    if registry::is_current(v, a.key, session_id) {
        assert forall|k: ClientKey| w.clients.contains_key(#[trigger] registry::ident(k)) implies {
            &&& holds4(t, k, w.clients[registry::ident(k)])
            &&& holds6(t, k, w.clients[registry::ident(k)])
        } by {
            lemma_ident(k, me);
            lemma_ident(a.key, me);
            assert(registry::ident(k) != me);
            assert(v.clients.contains_key(registry::ident(k)));
        }
        assert forall|x: u128| #[trigger] w.owners4.contains_key(x) implies w.clients.contains_key(
            w.owners4[x],
        ) && registry::number4(w.clients[w.owners4[x]].assigned_ip) == Some(x) by {
            assert(v.owners4.contains_key(x));
        }
        assert forall|x: u128| #[trigger] w.owners6.contains_key(x) implies w.clients.contains_key(
            w.owners6[x],
        ) && registry::number6(w.clients[w.owners6[x]].assigned_ip6) == Some(x) by {
            assert(v.owners6.contains_key(x));
        }
    } else {
        assert forall|k: ClientKey| w.clients.contains_key(#[trigger] registry::ident(k)) implies {
            &&& holds4(t, k, w.clients[registry::ident(k)])
            &&& holds6(t, k, w.clients[registry::ident(k)])
        } by {
            assert(v.clients.contains_key(registry::ident(k)));
        }
    }
}

/// While a server is in step, an address that belongs to a client belongs to a connected one,
/// and to one alone.
pub proof fn law_addresses_lead_to_connected_clients(s: VpnServer, ip: PacketIp, key: ClientKey)
    requires
        in_step(s),
        registry::owner_of(s.registry@, ip) == Some(key),
    ensures
        ({
            let v = s.registry@;
            let state = v.clients[registry::ident(key)];
            &&& v.clients.contains_key(registry::ident(key))
            &&& match ip {
                PacketIp::V4(x) => state.assigned_ip == Some(x),
                PacketIp::V6(x) => state.assigned_ip6 == Some(x),
            }
        }),
{
    match ip {
        PacketIp::V4(x) => {
            lemma_ident(key, s.registry@.owners4[x.bits as u128]);
        },
        PacketIp::V6(x) => {
            lemma_ident(key, s.registry@.owners6[x.bits]);
        },
    }
}

} // verus!
