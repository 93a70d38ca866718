//! What a server reports of itself.

use vstd::prelude::*;
use vstd::string::*;
use crate::identity::{ClientKey, EndpointId};
use crate::registry;
use crate::registry::ClientState;
use crate::render;
use crate::render::{render_ip, render_ip6, render_net, render_net6};
use crate::server::{ServerConfig, VpnServer};
use crate::stats::VpnServerStats;
use crate::text;
use crate::text::push_hex16;

verus! {

/// A connected client, in a report.
#[derive(Debug)]
pub struct ClientEntry {
    pub endpoint_id: EndpointId,
    /// The device id in hexadecimal.
    pub device_id: String,
    pub session_id: u64,
    pub assigned_ip: Option<String>,
    pub assigned_ip6: Option<String>,
}

/// A report of the server's state.
#[derive(Debug)]
pub struct ServerStatus {
    pub mode: String,
    pub network: Option<String>,
    pub network6: Option<String>,
    pub connected_clients: usize,
    pub active_connections: usize,
    pub clients: Vec<ClientEntry>,
    pub stats: VpnServerStats,
}

/// The families that a server is configured for.
pub open spec fn mode_text(config: ServerConfig) -> Seq<char> {
    if config.network is None {
        "ipv6"@
    } else if config.network6 is Some {
        "dual-stack"@
    } else {
        "ipv4"@
    }
}

/// The entry describes the client.
pub open spec fn describes(e: ClientEntry, key: ClientKey, state: ClientState) -> bool {
    &&& e.endpoint_id == key.endpoint
    &&& e.device_id@ == text::hex16(key.device_id)
    &&& e.session_id == state.session_id
    &&& render::reads(e.assigned_ip, render::ip_text(state.assigned_ip))
    &&& render::reads(e.assigned_ip6, render::ip6_text(state.assigned_ip6))
}

/// The entry is of a connected client.
pub open spec fn of_client(e: ClientEntry, clients: registry::RegistryView, key: ClientKey) -> bool {
    &&& clients.clients.contains_key(registry::ident(key))
    &&& describes(e, key, clients.clients[registry::ident(key)])
}

/// The entries are those of the connected clients, one for each.
pub open spec fn lists_clients(entries: Seq<ClientEntry>, v: registry::RegistryView) -> bool {
    exists|keys: Seq<ClientKey>| #[trigger] lists_in_order(entries, v, keys)
}

/// The entries are those of the connected clients `keys`, which are all of them, each once.
pub open spec fn lists_in_order(
    entries: Seq<ClientEntry>,
    v: registry::RegistryView,
    keys: Seq<ClientKey>,
) -> bool {
    &&& keys.len() == entries.len()
    &&& keys.no_duplicates()
    &&& forall|i: int| 0 <= i < keys.len() ==> of_client(#[trigger] entries[i], v, keys[i])
    &&& forall|k: ClientKey|
        v.clients.contains_key(#[trigger] registry::ident(k)) ==> keys.contains(k)
}

impl VpnServer {
    /// Reports the server's state: its networks, its connected clients and what it has counted.
    pub fn status_snapshot(&self) -> (s: ServerStatus)
        ensures
            s.mode@ == mode_text(self.config),
            render::reads(s.network, render::net_text(self.config.network)),
            render::reads(s.network6, render::net6_text(self.config.network6)),
            s.connected_clients == s.clients@.len(),
            s.active_connections == self.active_connections,
            lists_clients(s.clients@, self.registry@),
            s.stats == self.stats,
    {
        let mode: String = if self.config.network.is_none() {
            "ipv6".to_owned()
        } else if self.config.network6.is_some() {
            "dual-stack".to_owned()
        } else {
            "ipv4".to_owned()
        };
        let list = self.registry.list();
        let mut clients: Vec<ClientEntry> = Vec::new();
        let mut i: usize = 0;
        while i < list.len()
            invariant
                i <= list@.len(),
                clients@.len() == i,
                forall|k: int|
                    0 <= k < i ==> describes(#[trigger] clients@[k], list@[k].0, list@[k].1),
            decreases list@.len() - i,
        {
            let (key, state) = list[i];
            let mut device_id = String::new();
            push_hex16(&mut device_id, key.device_id);
            assert(device_id@ =~= text::hex16(key.device_id));
            clients.push(
                ClientEntry {
                    endpoint_id: key.endpoint,
                    device_id,
                    session_id: state.session_id,
                    assigned_ip: render_ip(&state.assigned_ip),
                    assigned_ip6: render_ip6(&state.assigned_ip6),
                },
            );
            i += 1;
        }
        proof {
            let keys = list@.map_values(|e: (ClientKey, ClientState)| e.0);
            assert forall|a: int, b: int|
                0 <= a < keys.len() && 0 <= b < keys.len() && a != b implies keys[a] != keys[b] by {
                if a < b {
                    assert(list@[a].0 != list@[b].0);
                } else {
                    assert(list@[b].0 != list@[a].0);
                }
            }
            assert forall|k: ClientKey|
                self.registry@.clients.contains_key(#[trigger] registry::ident(k)) implies keys.contains(k) by {
                let j = choose|j: int| 0 <= j < list@.len() && (#[trigger] list@[j]).0 == k;
                assert(keys[j] == k);
            }
            assert forall|j: int| 0 <= j < keys.len() implies of_client(
                #[trigger] clients@[j],
                self.registry@,
                keys[j],
            ) by {
                assert(list@[j].0 == keys[j]);
            }
            assert(lists_in_order(clients@, self.registry@, keys));
        }
        ServerStatus {
            mode,
            network: render_net(&self.config.network),
            network6: render_net6(&self.config.network6),
            connected_clients: clients.len(),
            active_connections: self.active_connections,
            clients,
            stats: self.stats,
        }
    }
}

/// The mode of a server names the families that it serves.
pub proof fn law_mode_names_the_families(config: ServerConfig)
    ensures
        config.network is Some && config.network6 is Some ==> mode_text(config) == "dual-stack"@,
        config.network is Some && config.network6 is None ==> mode_text(config) == "ipv4"@,
        config.network is None ==> mode_text(config) == "ipv6"@,
{
}

/// A status lists every connected client once: with its device, its session and its addresses.
pub proof fn law_status_lists_every_client(
    entries: Seq<ClientEntry>,
    v: registry::RegistryView,
    keys: Seq<ClientKey>,
    key: ClientKey,
)
    requires
        lists_in_order(entries, v, keys),
    ensures
        v.clients.contains_key(registry::ident(key)) ==> exists|i: int|
            {
                &&& 0 <= i < entries.len()
                &&& keys[i] == key
                &&& (#[trigger] entries[i]).endpoint_id == key.endpoint
                &&& entries[i].device_id@ == text::hex16(key.device_id)
                &&& entries[i].session_id == v.clients[registry::ident(key)].session_id
                &&& render::reads(
                    entries[i].assigned_ip,
                    render::ip_text(v.clients[registry::ident(key)].assigned_ip),
                )
                &&& render::reads(
                    entries[i].assigned_ip6,
                    render::ip6_text(v.clients[registry::ident(key)].assigned_ip6),
                )
            },
        forall|i: int|
            0 <= i < entries.len() ==> v.clients.contains_key(#[trigger] registry::ident(keys[i])),
        forall|i: int, j: int|
            0 <= i < j < entries.len() ==> #[trigger] keys[i] != #[trigger] keys[j],
{
    if v.clients.contains_key(registry::ident(key)) {
        let i = choose|i: int| 0 <= i < keys.len() && keys[i] == key;
        assert(of_client(entries[i], v, keys[i]));
    }
    assert forall|i: int| 0 <= i < entries.len() implies v.clients.contains_key(
        #[trigger] registry::ident(keys[i]),
    ) by {
        assert(of_client(entries[i], v, keys[i]));
    }
}

} // verus!
