//! Who is connected, and whose address is whose.

use dashmap::DashMap;
use vstd::prelude::*;
use crate::addr::{Ipv4Addr, Ipv6Addr};
use crate::identity::{ClientKey, EndpointId};
use crate::packet::PacketIp;

verus! {

/// Concurrent hash map of the `dashmap` crate.
#[verifier::external_type_specification]
#[verifier::external_body]
#[verifier::reject_recursive_types(K)]
#[verifier::reject_recursive_types(V)]
#[verifier::reject_recursive_types(S)]
pub struct ExDashMap<K, V, S>(DashMap<K, V, S>);

/// State for a connected VPN client.
#[derive(Debug, Clone, Copy, PartialEq, Eq, Structural)]
pub struct ClientState {
    /// Unique id of this connection, by which a cleanup that comes late is told.
    pub session_id: u64,
    /// Client's assigned VPN IP (IPv4). `None` for IPv6-only mode.
    pub assigned_ip: Option<Ipv4Addr>,
    /// Client's assigned IPv6 VPN address.
    pub assigned_ip6: Option<Ipv6Addr>,
    /// Reported client GSO capability (from the handshake).
    pub client_gso_enabled: bool,
    /// Effective per-connection GSO mode: the server has it, and the client reported it.
    pub connection_gso_active: bool,
}

/// The clients that a map holds, by the halves of their endpoint id and by device id.
pub uninterp spec fn client_entries(m: DashMap<(u128, u128, u64), ClientState>) -> Map<
    (u128, u128, u64),
    ClientState,
>;

/// The owners that a map holds, by address.
pub uninterp spec fn owner_entries(m: DashMap<u128, (u128, u128, u64)>) -> Map<
    u128,
    (u128, u128, u64),
>;

/// No clients.
pub open spec fn no_clients() -> Map<(u128, u128, u64), ClientState> {
    Map::empty()
}

/// No owners.
pub open spec fn no_owners() -> Map<u128, (u128, u128, u64)> {
    Map::empty()
}

/// Calls `DashMap::new`: an empty map.
#[verifier::external_body]
fn clients_new() -> (m: DashMap<(u128, u128, u64), ClientState>)
    ensures
        client_entries(m) == no_clients(),
{
    DashMap::new()
}

/// Calls `DashMap::insert`: the key then maps to the value, whatever it mapped to before.
#[verifier::external_body]
fn clients_insert(
    m: &mut DashMap<(u128, u128, u64), ClientState>,
    key: (u128, u128, u64),
    state: ClientState,
)
    ensures
        client_entries(*final(m)) == client_entries(*old(m)).insert(key, state),
{
    m.insert(key, state);
}

/// Calls `DashMap::get`, and copies the value that it gives access to, if there is one.
#[verifier::external_body]
fn clients_get(m: &DashMap<(u128, u128, u64), ClientState>, key: (u128, u128, u64)) -> (r: Option<
    ClientState,
>)
    ensures
        r == (if client_entries(*m).contains_key(key) {
            Some(client_entries(*m)[key])
        } else {
            None
        }),
{
    m.get(&key).map(|state| *state)
}

/// The map has an entry for the key, and it is of the session.
pub open spec fn holds_session(
    entries: Map<(u128, u128, u64), ClientState>,
    key: (u128, u128, u64),
    session_id: u64,
) -> bool {
    entries.contains_key(key) && entries[key].session_id == session_id
}

/// Whether the state is that of the given session.
fn is_session(state: &ClientState, session_id: u64) -> (r: bool)
    ensures
        r == (state.session_id == session_id),
{
    state.session_id == session_id
}

/// Calls `DashMap::remove_if` with [`is_session`]: the entry goes, and is returned, if there is
/// one and it is of the session.
#[verifier::external_body]
fn clients_remove_session(
    m: &mut DashMap<(u128, u128, u64), ClientState>,
    key: (u128, u128, u64),
    session_id: u64,
) -> (r: Option<ClientState>)
    ensures
        r == (if holds_session(client_entries(*old(m)), key, session_id) {
            Some(client_entries(*old(m))[key])
        } else {
            None
        }),
        client_entries(*final(m)) == (if holds_session(
            client_entries(*old(m)),
            key,
            session_id,
        ) {
            client_entries(*old(m)).remove(key)
        } else {
            client_entries(*old(m))
        }),
{
    m.remove_if(&key, |_, state| is_session(state, session_id)).map(|(_, state)| state)
}

/// Calls `DashMap::iter`, and copies the entries that it walks over: each of them once, in an
/// order that is not said.
#[verifier::external_body]
fn clients_list(m: &DashMap<(u128, u128, u64), ClientState>) -> (r: Vec<
    ((u128, u128, u64), ClientState),
>)
    ensures
        forall|i: int|
            #![trigger r@[i]]
            0 <= i < r@.len() ==> client_entries(*m).contains_key(r@[i].0) && client_entries(
                *m,
            )[r@[i].0] == r@[i].1,
        forall|k: (u128, u128, u64)| #[trigger]
            client_entries(*m).contains_key(k) ==> exists|i: int|
                0 <= i < r@.len() && (#[trigger] r@[i]).0 == k,
        forall|i: int, j: int| 0 <= i < j < r@.len() ==> (#[trigger] r@[i]).0 != (
        #[trigger] r@[j]).0,
{
    m.iter().map(|entry| (*entry.key(), *entry.value())).collect()
}

/// Calls `DashMap::new`: an empty map.
#[verifier::external_body]
fn owners_new() -> (m: DashMap<u128, (u128, u128, u64)>)
    ensures
        owner_entries(m) == no_owners(),
{
    DashMap::new()
}

/// Calls `DashMap::insert`: the address then maps to the owner, whatever it mapped to before.
#[verifier::external_body]
fn owners_insert(m: &mut DashMap<u128, (u128, u128, u64)>, addr: u128, owner: (u128, u128, u64))
    ensures
        owner_entries(*final(m)) == owner_entries(*old(m)).insert(addr, owner),
{
    m.insert(addr, owner);
}

/// Calls `DashMap::get`, and copies the value that it gives access to, if there is one.
#[verifier::external_body]
fn owners_get(m: &DashMap<u128, (u128, u128, u64)>, addr: u128) -> (r: Option<(u128, u128, u64)>)
    ensures
        r == (if owner_entries(*m).contains_key(addr) {
            Some(owner_entries(*m)[addr])
        } else {
            None
        }),
{
    m.get(&addr).map(|owner| *owner)
}

/// Calls `DashMap::contains_key`: whether the map has an entry for the address.
#[verifier::external_body]
fn owners_contain(m: &DashMap<u128, (u128, u128, u64)>, addr: u128) -> (r: bool)
    ensures
        r == owner_entries(*m).contains_key(addr),
{
    m.contains_key(&addr)
}

/// Whether the owner is the given one.
fn is_owner(found: &(u128, u128, u64), owner: (u128, u128, u64)) -> (r: bool)
    ensures
        r == (*found == owner),
{
    found.0 == owner.0 && found.1 == owner.1 && found.2 == owner.2
}

/// Calls `DashMap::remove_if` with [`is_owner`]: the entry goes if there is one and it names
/// the owner.
#[verifier::external_body]
fn owners_remove_owned(
    m: &mut DashMap<u128, (u128, u128, u64)>,
    addr: u128,
    owner: (u128, u128, u64),
)
    ensures
        owner_entries(*final(m)) == disowned(owner_entries(*old(m)), Some(addr), owner),
{
    m.remove_if(&addr, |_, found| is_owner(found, owner));
}

/// The key of a client in the maps.
pub open spec fn ident(key: ClientKey) -> (u128, u128, u64) {
    (key.endpoint.high, key.endpoint.low, key.device_id)
}

/// The client of a key.
pub open spec fn client_of(ident: (u128, u128, u64)) -> ClientKey {
    ClientKey {
        endpoint: EndpointId { high: ident.0, low: ident.1 },
        device_id: ident.2,
    }
}

/// The connected clients of a server, as mathematics sees them.
pub struct RegistryView {
    /// The clients by key.
    pub clients: Map<(u128, u128, u64), ClientState>,
    /// The owners of IPv4 addresses.
    pub owners4: Map<u128, (u128, u128, u64)>,
    /// The owners of IPv6 addresses.
    pub owners6: Map<u128, (u128, u128, u64)>,
    /// The id of the next session.
    pub next_session_id: u64,
}

/// Nobody is connected.
pub open spec fn nobody() -> RegistryView {
    RegistryView {
        clients: no_clients(),
        owners4: no_owners(),
        owners6: no_owners(),
        next_session_id: 1,
    }
}

/// What a client brings to the registry.
#[derive(Debug, Clone, Copy, PartialEq, Eq, Structural)]
pub struct Arrival {
    pub key: ClientKey,
    pub assigned_ip: Option<Ipv4Addr>,
    pub assigned_ip6: Option<Ipv6Addr>,
    pub client_gso_enabled: bool,
    pub connection_gso_active: bool,
}

/// The owners after an address was given to a client, if one was.
pub open spec fn owned(
    owners: Map<u128, (u128, u128, u64)>,
    addr: Option<u128>,
    owner: (u128, u128, u64),
) -> Map<u128, (u128, u128, u64)> {
    match addr {
        Some(a) => owners.insert(a, owner),
        None => owners,
    }
}

/// The owners after an address was taken from a client, if it was its own.
pub open spec fn disowned(
    owners: Map<u128, (u128, u128, u64)>,
    addr: Option<u128>,
    owner: (u128, u128, u64),
) -> Map<u128, (u128, u128, u64)> {
    match addr {
        Some(a) => if owners.contains_key(a) && owners[a] == owner {
            owners.remove(a)
        } else {
            owners
        },
        None => owners,
    }
}

/// The number of an IPv4 address, if there is one.
pub open spec fn number4(ip: Option<Ipv4Addr>) -> Option<u128> {
    match ip {
        Some(a) => Some(a.bits as u128),
        None => None,
    }
}

/// The number of an IPv6 address, if there is one.
pub open spec fn number6(ip: Option<Ipv6Addr>) -> Option<u128> {
    match ip {
        Some(a) => Some(a.bits),
        None => None,
    }
}

/// The registry after a client connected: an older connection of the same client is replaced.
pub open spec fn arrived(v: RegistryView, a: Arrival) -> RegistryView {
    RegistryView {
        clients: v.clients.insert(
            ident(a.key),
            ClientState {
                session_id: v.next_session_id,
                assigned_ip: a.assigned_ip,
                assigned_ip6: a.assigned_ip6,
                client_gso_enabled: a.client_gso_enabled,
                connection_gso_active: a.connection_gso_active,
            },
        ),
        owners4: owned(v.owners4, number4(a.assigned_ip), ident(a.key)),
        owners6: owned(v.owners6, number6(a.assigned_ip6), ident(a.key)),
        next_session_id: v.next_session_id.wrapping_add(1),
    }
}

/// The session is the one that the client is connected by.
pub open spec fn is_current(v: RegistryView, key: ClientKey, session_id: u64) -> bool {
    holds_session(v.clients, ident(key), session_id)
}

/// The registry after a session ended. One that another session of the client has replaced
/// changes nothing: everything belongs to the newer one.
pub open spec fn departed(v: RegistryView, a: Arrival, session_id: u64) -> RegistryView {
    if is_current(v, a.key, session_id) {
        RegistryView {
            clients: v.clients.remove(ident(a.key)),
            owners4: disowned(v.owners4, number4(a.assigned_ip), ident(a.key)),
            owners6: disowned(v.owners6, number6(a.assigned_ip6), ident(a.key)),
            ..v
        }
    } else {
        v
    }
}

/// The client that an address is assigned to.
pub open spec fn owner_of(v: RegistryView, ip: PacketIp) -> Option<ClientKey> {
    match ip {
        PacketIp::V4(a) => if v.owners4.contains_key(a.bits as u128) {
            Some(client_of(v.owners4[a.bits as u128]))
        } else {
            None
        },
        PacketIp::V6(a) => if v.owners6.contains_key(a.bits) {
            Some(client_of(v.owners6[a.bits]))
        } else {
            None
        },
    }
}

/// The connected clients of a server, and the reverse lookup from an address to its client.
#[derive(Debug)]
pub struct ClientRegistry {
    clients: DashMap<(u128, u128, u64), ClientState>,
    ip_to_endpoint: DashMap<u128, (u128, u128, u64)>,
    ip6_to_endpoint: DashMap<u128, (u128, u128, u64)>,
    next_session_id: u64,
}

impl View for ClientRegistry {
    type V = RegistryView;

    closed spec fn view(&self) -> RegistryView {
        RegistryView {
            clients: client_entries(self.clients),
            owners4: owner_entries(self.ip_to_endpoint),
            owners6: owner_entries(self.ip6_to_endpoint),
            next_session_id: self.next_session_id,
        }
    }
}

/// The key of a client in the maps.
fn key_ident(key: &ClientKey) -> (r: (u128, u128, u64))
    ensures
        r == ident(*key),
{
    (key.endpoint.high, key.endpoint.low, key.device_id)
}

/// The client of a key.
fn ident_key(ident: (u128, u128, u64)) -> (r: ClientKey)
    ensures
        r == client_of(ident),
{
    ClientKey { endpoint: EndpointId { high: ident.0, low: ident.1 }, device_id: ident.2 }
}

impl ClientRegistry {
    /// Nobody is connected.
    pub fn new() -> (r: Self)
        ensures
            r@ == nobody(),
    {
        ClientRegistry {
            clients: clients_new(),
            ip_to_endpoint: owners_new(),
            ip6_to_endpoint: owners_new(),
            next_session_id: 1,
        }
    }

    /// Enters a client, and returns the id of its session. An older connection of the same client
    /// is replaced.
    pub fn register(&mut self, a: Arrival) -> (session_id: u64)
        ensures
            session_id == old(self)@.next_session_id,
            final(self)@ == arrived(old(self)@, a),
    {
        let session_id: u64 = self.next_session_id;
        self.next_session_id = session_id.wrapping_add(1);
        let key = key_ident(&a.key);
        clients_insert(
            &mut self.clients,
            key,
            ClientState {
                session_id,
                assigned_ip: a.assigned_ip,
                assigned_ip6: a.assigned_ip6,
                client_gso_enabled: a.client_gso_enabled,
                connection_gso_active: a.connection_gso_active,
            },
        );
        if let Some(ip) = a.assigned_ip {
            owners_insert(&mut self.ip_to_endpoint, ip.bits as u128, key);
        }
        if let Some(ip6) = a.assigned_ip6 {
            owners_insert(&mut self.ip6_to_endpoint, ip6.bits, key);
        }
        session_id
    }

    /// Removes a session that ended, and returns its state, unless another session of the client
    /// has replaced it.
    pub fn unregister(&mut self, a: Arrival, session_id: u64) -> (r: Option<ClientState>)
        ensures
            final(self)@ == departed(old(self)@, a, session_id),
            r == (if is_current(old(self)@, a.key, session_id) {
                Some(old(self)@.clients[ident(a.key)])
            } else {
                None
            }),
    {
        let key = key_ident(&a.key);
        let removed = clients_remove_session(&mut self.clients, key, session_id);
        if removed.is_some() {
            if let Some(ip) = a.assigned_ip {
                owners_remove_owned(&mut self.ip_to_endpoint, ip.bits as u128, key);
            }
            if let Some(ip6) = a.assigned_ip6 {
                owners_remove_owned(&mut self.ip6_to_endpoint, ip6.bits, key);
            }
        }
        removed
    }

    /// The client that an address is assigned to.
    pub fn owner(&self, ip: PacketIp) -> (r: Option<ClientKey>)
        ensures
            r == owner_of(self@, ip),
    {
        let found: Option<(u128, u128, u64)> = match ip {
            PacketIp::V4(a) => owners_get(&self.ip_to_endpoint, a.bits as u128),
            PacketIp::V6(a) => owners_get(&self.ip6_to_endpoint, a.bits),
        };
        match found {
            Some(ident) => Some(ident_key(ident)),
            None => None,
        }
    }

    /// Whether an address is assigned to a client.
    pub fn is_assigned(&self, ip: PacketIp) -> (r: bool)
        ensures
            r == (owner_of(self@, ip) is Some),
    {
        match ip {
            PacketIp::V4(a) => owners_contain(&self.ip_to_endpoint, a.bits as u128),
            PacketIp::V6(a) => owners_contain(&self.ip6_to_endpoint, a.bits),
        }
    }

    /// The state of a client, if it is connected.
    pub fn client(&self, key: &ClientKey) -> (r: Option<ClientState>)
        ensures
            r == (if self@.clients.contains_key(ident(*key)) {
                Some(self@.clients[ident(*key)])
            } else {
                None
            }),
    {
        clients_get(&self.clients, key_ident(key))
    }

    /// All connected clients, each once.
    pub fn list(&self) -> (r: Vec<(ClientKey, ClientState)>)
        ensures
            forall|i: int|
                #![trigger r@[i]]
                0 <= i < r@.len() ==> self@.clients.contains_key(ident(r@[i].0))
                    && self@.clients[ident(r@[i].0)] == r@[i].1,
            forall|k: ClientKey|
                self@.clients.contains_key(#[trigger] ident(k)) ==> exists|i: int|
                    0 <= i < r@.len() && (#[trigger] r@[i]).0 == k,
            forall|i: int, j: int| 0 <= i < j < r@.len() ==> (#[trigger] r@[i]).0 != (
            #[trigger] r@[j]).0,
    {
        let entries = clients_list(&self.clients);
        let mut r: Vec<(ClientKey, ClientState)> = Vec::new();
        let mut i: usize = 0;
        while i < entries.len()
            invariant
                i <= entries@.len(),
                r@.len() == i,
                forall|k: int| 0 <= k < i ==> #[trigger] r@[k] == (client_of(entries@[k].0), entries@[k].1),
            decreases entries@.len() - i,
        {
            let (ident, state) = entries[i];
            r.push((ident_key(ident), state));
            i += 1;
        }
        proof {
            assert forall|k: int| 0 <= k < r@.len() implies ident((#[trigger] r@[k]).0)
                == entries@[k].0 by {}
            assert forall|k: ClientKey| self@.clients.contains_key(#[trigger] ident(k)) implies exists|
                i: int,
            |
                0 <= i < r@.len() && (#[trigger] r@[i]).0 == k by {
                let i = choose|i: int|
                    0 <= i < entries@.len() && (#[trigger] entries@[i]).0 == ident(k);
                assert(r@[i].0 == k);
            }
        }
        r
    }
}

/// Once a client is entered, its addresses lead to it, and other addresses lead where they led
/// before.
pub proof fn law_arrival_is_found(v: RegistryView, a: Arrival, ip: PacketIp)
    ensures
        ({
            let own = match ip {
                PacketIp::V4(x) => a.assigned_ip == Some(x),
                PacketIp::V6(x) => a.assigned_ip6 == Some(x),
            };
            owner_of(arrived(v, a), ip) == (if own {
                Some(a.key)
            } else {
                owner_of(v, ip)
            })
        }),
{
}

/// A session that ends undoes what its beginning did, if nothing happened in between and its
/// client and addresses were new.
pub proof fn law_departure_undoes_arrival(v: RegistryView, a: Arrival)
    requires
        !v.clients.contains_key(ident(a.key)),
        a.assigned_ip is Some ==> !v.owners4.contains_key(a.assigned_ip->0.bits as u128),
        a.assigned_ip6 is Some ==> !v.owners6.contains_key(a.assigned_ip6->0.bits),
    ensures
        departed(arrived(v, a), a, v.next_session_id) == (RegistryView {
            next_session_id: v.next_session_id.wrapping_add(1),
            ..v
        }),
{
    let w = departed(arrived(v, a), a, v.next_session_id);
    assert(w.clients =~= v.clients);
    assert(w.owners4 =~= v.owners4);
    assert(w.owners6 =~= v.owners6);
}

/// The end of an older session leaves a client that has connected again alone.
pub proof fn law_late_cleanup_changes_nothing(v: RegistryView, a: Arrival, older: u64)
    requires
        older != v.next_session_id,
    ensures
        departed(arrived(v, a), a, older) == arrived(v, a),
{
}

/// Who arrives is registered with what it was assigned and agreed, under a session of its own;
/// who is there already stays as it is.
pub proof fn law_arrival_is_registered(v: RegistryView, a: Arrival, other: ClientKey)
    ensures
        ({
            let w = arrived(v, a);
            let state = w.clients[ident(a.key)];
            &&& w.clients.contains_key(ident(a.key))
            &&& state.session_id == v.next_session_id
            &&& state.assigned_ip == a.assigned_ip
            &&& state.assigned_ip6 == a.assigned_ip6
            &&& state.client_gso_enabled == a.client_gso_enabled
            &&& state.connection_gso_active == a.connection_gso_active
            &&& is_current(w, a.key, v.next_session_id)
            &&& w.next_session_id == (v.next_session_id + 1) % 0x1_0000_0000_0000_0000
            &&& other != a.key ==> (w.clients.contains_key(ident(other)) <==> v.clients.contains_key(
                ident(other),
            ))
            &&& other != a.key && v.clients.contains_key(ident(other)) ==> w.clients[ident(other)]
                == v.clients[ident(other)]
        }),
{
    if other != a.key {
        assert(client_of(ident(other)) == other);
        assert(client_of(ident(a.key)) == a.key);
    }
}

/// Who leaves with its current session is gone, and its addresses lead to it no longer; nobody
/// else, and no address of anybody else, is touched. Without a current session nothing changes.
pub proof fn law_departure_frees_its_own(
    v: RegistryView,
    a: Arrival,
    session_id: u64,
    other: ClientKey,
    ip: PacketIp,
)
    ensures
        ({
            let w = departed(v, a, session_id);
            let current = v.clients.contains_key(ident(a.key)) && v.clients[ident(
                a.key,
            )].session_id == session_id;
            let own = match ip {
                PacketIp::V4(x) => a.assigned_ip == Some(x),
                PacketIp::V6(x) => a.assigned_ip6 == Some(x),
            };
            &&& !current ==> w == v
            &&& current ==> !w.clients.contains_key(ident(a.key))
            &&& other != a.key ==> (w.clients.contains_key(ident(other)) <==> v.clients.contains_key(
                ident(other),
            ))
            &&& other != a.key && v.clients.contains_key(ident(other)) ==> w.clients[ident(other)]
                == v.clients[ident(other)]
            &&& current && own ==> owner_of(w, ip) != Some(a.key)
            &&& !own || owner_of(v, ip) != Some(a.key) ==> owner_of(w, ip) == owner_of(v, ip)
            &&& w.next_session_id == v.next_session_id
        }),
{
    assert(client_of(ident(other)) == other);
    assert(client_of(ident(a.key)) == a.key);
}

} // verus!
