//! The IPv6 addresses that a server hands out.

use vstd::arithmetic::power2::*;
use vstd::prelude::*;
use vstd::string::*;
use crate::addr;
use crate::addr::{Ipv6Addr, Ipv6Net};
use crate::identity;
use crate::identity::{derive_ip6_suffix, ClientKey, EndpointId};
use crate::leases::LeaseTable;
use crate::text;
use crate::text::push_dec;
use crate::vpn_error;
use crate::vpn_error::{ErrorKind, VpnError};

verus! {

/// How addresses are chosen.
#[derive(Debug, Clone, Copy, PartialEq, Eq, Structural)]
pub enum Ip6Strategy {
    /// The server first, then its clients, one after the other, with reuse.
    Sequential,
    /// Derived from the node id, without any bookkeeping.
    NodeId,
}

/// The address that a host suffix stands for in a network: the suffix is cut to the host
/// bits, so that the address lies in the network.
pub open spec fn address_of_suffix(network: Ipv6Net, suffix: u64) -> int {
    network.first() + suffix as nat % addr::block(128, network.prefix_len)
}

/// The address of a node in a network.
pub open spec fn node_address(network: Ipv6Net, id: EndpointId) -> int {
    address_of_suffix(network, identity::node_suffix(id))
}

/// A derived address lies in its network.
pub proof fn law_derived_address_in_network(network: Ipv6Net, suffix: u64)
    requires
        network.wf(),
    ensures
        network.first() <= address_of_suffix(network, suffix) <= network.last() <= u128::MAX,
{
    addr::law_network6_holds_its_ends(network);
    addr::lemma_address_space();
    addr::lemma_network_bounds(network.addr.bits as nat, 128, network.prefix_len);
    let b = addr::block(128, network.prefix_len);
    assert(0 <= suffix as nat % b < b) by (nonlinear_arith)
        requires
            b >= 1,
    ;
}

/// Puts a host suffix into a network.
pub fn join_suffix(network: Ipv6Net, suffix: u64) -> (r: Ipv6Addr)
    requires
        network.wf(),
    ensures
        r.bits == address_of_suffix(network, suffix),
{
    let host_bits: u8 = 128 - network.prefix_len;
    proof {
        law_derived_address_in_network(network, suffix);
        addr::lemma_address_space();
    }
    let base: u128 = network.network().bits;
    let host: u64 = if host_bits >= 64 {
        proof {
            if host_bits > 64 {
                lemma_pow2_strictly_increases(64, host_bits as nat);
            }
            vstd::arithmetic::div_mod::lemma_small_mod(suffix as nat, pow2(host_bits as nat));
        }
        suffix
    } else {
        proof {
            lemma_pow2_strictly_increases(host_bits as nat, 64);
            lemma_pow2_pos(host_bits as nat);
            vstd::bits::lemma_u64_shl_is_mul(1, host_bits as u64);
        }
        suffix % (1u64 << (host_bits as u64))
    };
    Ipv6Addr { bits: base + host as u128 }
}

/// Derive a deterministic IPv6 address within `network` from a node id.
///
/// The derived suffix is masked to the host bits, so the address always lands
/// in the subnet (a no-op for /64; defensive for wider prefixes).
pub fn derived_ip6(network: Ipv6Net, node_id: &EndpointId) -> (r: Ipv6Addr)
    requires
        network.wf(),
    ensures
        r.bits == node_address(network, *node_id),
{
    join_suffix(network, derive_ip6_suffix(node_id))
}

/// What a pool remembers.
#[verifier::ext_equal]
pub struct Pool6State {
    pub network: Ipv6Net,
    pub server_ip: Ipv6Addr,
    pub strategy: Ip6Strategy,
    /// The lowest address that was never handed out.
    pub next_ip: int,
    /// The highest address for clients.
    pub max_ip: int,
    /// Addresses given back, the latest last.
    pub released: Seq<u128>,
    pub in_use: Map<ClientKey, u128>,
}

impl Pool6State {
    /// The address was handed out in sequence.
    pub open spec fn was_issued(self, a: int) -> bool {
        &&& self.server_ip.bits < a < self.next_ip
        &&& a <= self.max_ip
    }

    /// No two clients hold the same address.
    pub open spec fn exclusive(self) -> bool {
        forall|k: ClientKey, l: ClientKey|
            self.in_use.contains_key(k) && self.in_use.contains_key(l) && #[trigger] self.in_use[k]
                == #[trigger] self.in_use[l] ==> k == l
    }

    /// The invariant. In sequence: what is in use was issued; what was released was issued,
    /// is listed once, and is not in use. By node id: each client holds the address of its
    /// node, which is neither the server's nor the first of the network.
    pub open spec fn valid(self) -> bool {
        &&& self.network.wf()
        &&& self.exclusive()
        &&& match self.strategy {
            Ip6Strategy::Sequential => {
                &&& self.max_ip == self.network.last() - 1
                &&& self.server_ip.bits < self.next_ip
                &&& self.next_ip <= self.max_ip + 1 || self.next_ip == self.server_ip.bits + 1
                &&& forall|k: ClientKey| #[trigger]
                    self.in_use.contains_key(k) ==> self.was_issued(self.in_use[k] as int)
                &&& forall|i: int|
                    0 <= i < self.released.len() ==> self.was_issued(
                        (#[trigger] self.released[i]) as int,
                    ) && !self.in_use.contains_value(self.released[i])
                &&& self.released.no_duplicates()
            },
            Ip6Strategy::NodeId => {
                &&& self.released.len() == 0
                &&& forall|k: ClientKey| #[trigger]
                    self.in_use.contains_key(k) ==> {
                        &&& self.in_use[k] == node_address(self.network, k.endpoint)
                        &&& self.in_use[k] != self.server_ip.bits
                        &&& self.in_use[k] != self.network.first()
                    }
            },
        }
    }
}

/// What asking for an address comes to: a client keeps the address it has. Otherwise it
/// gets, in sequence, the address that was released last, or else the next; by node id,
/// the address of its node, unless that is the server's, the first of the network, or
/// held by another client.
pub open spec fn allocation(s: Pool6State, key: ClientKey) -> (Option<int>, Pool6State) {
    let derived = node_address(s.network, key.endpoint);
    if s.in_use.contains_key(key) {
        (Some(s.in_use[key] as int), s)
    } else if s.strategy is NodeId {
        if derived == s.network.first() || derived == s.server_ip.bits || s.in_use.contains_value(
            derived as u128,
        ) {
            (None, s)
        } else {
            (
                Some(derived),
                Pool6State { in_use: s.in_use.insert(key, derived as u128), ..s },
            )
        }
    } else if s.released.len() > 0 {
        (
            Some(s.released.last() as int),
            Pool6State {
                in_use: s.in_use.insert(key, s.released.last()),
                released: s.released.drop_last(),
                ..s
            },
        )
    } else if s.next_ip <= s.max_ip {
        (
            Some(s.next_ip),
            Pool6State {
                in_use: s.in_use.insert(key, s.next_ip as u128),
                next_ip: s.next_ip + 1,
                ..s
            },
        )
    } else {
        (None, s)
    }
}

/// The pool after a client has gone: in sequence its address, if it had one, is released;
/// by node id it is forgotten.
pub open spec fn after_release(s: Pool6State, key: ClientKey) -> Pool6State {
    if s.in_use.contains_key(key) {
        Pool6State {
            in_use: s.in_use.remove(key),
            released: if s.strategy is Sequential {
                s.released.push(s.in_use[key])
            } else {
                s.released
            },
            ..s
        }
    } else {
        s
    }
}

/// A pool that has handed out nothing. In sequence the server has the address that was asked
/// for, or else the first behind the network's own, and clients get those behind the server's;
/// by node id the server has the address of its own node.
pub open spec fn is_fresh(
    s: Pool6State,
    network: Ipv6Net,
    server_ip: Option<Ipv6Addr>,
    strategy: Ip6Strategy,
    server_id: EndpointId,
) -> bool {
    &&& s.network == network
    &&& s.strategy == strategy
    &&& s.in_use == Map::<ClientKey, u128>::empty()
    &&& s.released == Seq::<u128>::empty()
    &&& strategy is NodeId ==> s.server_ip.bits == node_address(network, server_id)
    &&& strategy is Sequential ==> {
        &&& s.server_ip.bits == (match server_ip {
            Some(ip) => ip.bits as int,
            None => network.first() + 1,
        })
        &&& s.next_ip == s.server_ip.bits + 1
        &&& s.max_ip == network.last() - 1
    }
}

/// Why no pool can be made.
pub open spec fn pool_refusal(
    network: Ipv6Net,
    server_ip: Option<Ipv6Addr>,
    strategy: Ip6Strategy,
    server_id: EndpointId,
) -> Option<Seq<char>> {
    if network.prefix_len >= 127 {
        Some(
            "IPv6 prefix /"@ + text::dec(network.prefix_len as nat)
                + " is too small for VPN pool (need at least /126 for 1 client)"@,
        )
    } else if strategy is NodeId && network.prefix_len > 64 {
        Some(
            "ip6_strategy node-id needs a network6 of /64 or wider, got /"@ + text::dec(
                network.prefix_len as nat,
            ),
        )
    } else if strategy is NodeId && server_ip is Some {
        Some("ip6_strategy node-id derives the server address: server_ip6 must not be set"@)
    } else if strategy is NodeId && node_address(network, server_id) == network.first() {
        Some(
            "derived server IPv6 collides with the network address; use a different server key or network6"@,
        )
    } else {
        None
    }
}

/// IPv6 address pool for assigning /128 addresses to clients.
#[derive(Debug)]
pub struct Ip6Pool {
    /// Network CIDR (e.g., fd00::/64).
    network: Ipv6Net,
    /// Server's IPv6 (first usable address, or node-id derived).
    server_ip: Ipv6Addr,
    /// Allocation strategy (sequential bookkeeping or stateless node-id).
    strategy: Ip6Strategy,
    /// Next IP to assign in sequence.
    next_ip: u128,
    /// Maximum IP in the sequential range.
    max_ip: u128,
    /// Released IPs available for reuse in sequence.
    released: Vec<u128>,
    /// IPs currently in use.
    in_use: LeaseTable,
}

impl View for Ip6Pool {
    type V = Pool6State;

    closed spec fn view(&self) -> Pool6State {
        Pool6State {
            network: self.network,
            server_ip: self.server_ip,
            strategy: self.strategy,
            next_ip: self.next_ip as int,
            max_ip: self.max_ip as int,
            released: self.released@,
            in_use: self.in_use@,
        }
    }
}

impl Ip6Pool {
    /// The invariant of the pool.
    pub closed spec fn wf(self) -> bool {
        self@.valid() && self.in_use.wf()
    }

    /// Create a new IPv6 pool from a network with optional custom server IP.
    ///
    /// Sequential strategy: if `server_ip` is None, defaults to ::1 within the
    /// network; client IPs start from the address after the server IP.
    ///
    /// Node-id strategy: stateless — the server IP is derived from `server_id`
    /// and client IPs are derived from their node ids at allocation time.
    /// Requires a /64 or wider network; `server_ip` must be None.
    ///
    /// Returns an error if the prefix length is >= 127 (/127 or /128), as these
    /// networks have no usable addresses for client allocation.
    pub fn new(
        network: Ipv6Net,
        server_ip: Option<Ipv6Addr>,
        strategy: Ip6Strategy,
        server_id: EndpointId,
    ) -> (r: Result<Self, VpnError>)
        requires
            network.wf(),
            strategy is Sequential ==> network.prefix_len > 0,
            strategy is Sequential && server_ip is Some ==> server_ip->0.bits < u128::MAX,
        ensures
            match pool_refusal(network, server_ip, strategy, server_id) {
                Some(m) => vpn_error::fails(r, ErrorKind::Config, m),
                None => {
                    &&& r is Ok
                    &&& r->Ok_0.wf()
                    &&& is_fresh(r->Ok_0@, network, server_ip, strategy, server_id)
                },
            },
    {
        if network.prefix_len >= 127 {
            let mut m = "IPv6 prefix /".to_owned();
            push_dec(&mut m, network.prefix_len as u64);
            m.append(" is too small for VPN pool (need at least /126 for 1 client)");
            return Err(VpnError::Config(m));
        }
        proof {
            addr::law_network6_holds_its_ends(network);
            assert(addr::block(128, network.prefix_len) >= 4) by {
                lemma2_to64();
                if network.prefix_len < 126 {
                    lemma_pow2_strictly_increases(2, (128 - network.prefix_len) as nat);
                }
            }
        }
        match strategy {
            Ip6Strategy::Sequential => {
                let server: Ipv6Addr = match server_ip {
                    Some(ip) => ip,
                    None => Ipv6Addr { bits: network.network().bits + 1 },
                };
                let pool = Ip6Pool {
                    network,
                    server_ip: server,
                    strategy,
                    next_ip: server.bits + 1,
                    max_ip: network.broadcast().bits - 1,
                    released: Vec::new(),
                    in_use: LeaseTable::new(),
                };
                assert(pool@.released =~= Seq::<u128>::empty());
                Ok(pool)
            },
            Ip6Strategy::NodeId => {
                if network.prefix_len > 64 {
                    let mut m = "ip6_strategy node-id needs a network6 of /64 or wider, got /".to_owned();
                    push_dec(&mut m, network.prefix_len as u64);
                    return Err(VpnError::Config(m));
                }
                if server_ip.is_some() {
                    return Err(
                        VpnError::Config(
                            "ip6_strategy node-id derives the server address: server_ip6 must not be set".to_owned(),
                        ),
                    );
                }
                let server: Ipv6Addr = derived_ip6(network, &server_id);
                if server == network.network() {
                    return Err(
                        VpnError::Config(
                            "derived server IPv6 collides with the network address; use a different server key or network6".to_owned(),
                        ),
                    );
                }
                let pool = Ip6Pool {
                    network,
                    server_ip: server,
                    strategy,
                    next_ip: 0,
                    max_ip: 0,
                    released: Vec::new(),
                    in_use: LeaseTable::new(),
                };
                assert(pool@.released =~= Seq::<u128>::empty());
                Ok(pool)
            },
        }
    }

    /// Get the server's IPv6 address.
    pub fn server_ip(&self) -> (ip: Ipv6Addr)
        ensures
            ip == self@.server_ip,
    {
        self.server_ip
    }

    /// Get the network CIDR.
    pub fn network(&self) -> (n: Ipv6Net)
        ensures
            n == self@.network,
    {
        self.network
    }

    /// Allocate an IPv6 address for a client.
    pub fn allocate(&mut self, endpoint_id: EndpointId, device_id: u64) -> (r: Option<Ipv6Addr>)
        requires
            old(self).wf(),
        ensures
            final(self).wf(),
            ({
                let key = ClientKey { endpoint: endpoint_id, device_id };
                let (given, s) = allocation(old(self)@, key);
                &&& final(self)@ == s
                &&& match given {
                    Some(a) => r is Some && r->0.bits == a,
                    None => r is None,
                }
            }),
    {
        let ghost s = self@;
        let key = ClientKey { endpoint: endpoint_id, device_id };
        if let Some(ip) = self.in_use.get(&key) {
            return Some(Ipv6Addr { bits: ip });
        }
        proof {
            lemma_allocation_valid(s, key);
            addr::law_network6_holds_its_ends(s.network);
        }
        match self.strategy {
            Ip6Strategy::Sequential => {
                // Released addresses are reused first.
                if let Some(ip) = self.released.pop() {
                    self.in_use.insert(key, ip);
                    assert(self@.released =~= s.released.drop_last());
                    assert(self@ =~= allocation(s, key).1);
                    return Some(Ipv6Addr { bits: ip });
                }
                if self.next_ip <= self.max_ip {
                    let ip: u128 = self.next_ip;
                    self.next_ip = self.next_ip + 1;
                    self.in_use.insert(key, ip);
                    assert(self@ =~= allocation(s, key).1);
                    Some(Ipv6Addr { bits: ip })
                } else {
                    None
                }
            },
            Ip6Strategy::NodeId => {
                let ip: Ipv6Addr = derived_ip6(self.network, &endpoint_id);
                // A second device of a node derives the same address as the first.
                if ip == self.network.network() || ip == self.server_ip || self.in_use.holds(
                    ip.bits,
                ) {
                    return None;
                }
                self.in_use.insert(key, ip.bits);
                assert(self@ =~= allocation(s, key).1);
                Some(ip)
            },
        }
    }

    /// Release an IPv6 address when a client disconnects.
    pub fn release(&mut self, endpoint_id: &EndpointId, device_id: u64)
        requires
            old(self).wf(),
        ensures
            final(self).wf(),
            final(self)@ == after_release(
                old(self)@,
                (ClientKey { endpoint: *endpoint_id, device_id }),
            ),
    {
        let ghost s = self@;
        let key = ClientKey { endpoint: *endpoint_id, device_id };
        proof {
            lemma_release_valid(s, key);
        }
        if let Some(ip) = self.in_use.remove(&key) {
            // By node id the same address is derived again.
            if self.strategy == Ip6Strategy::Sequential {
                self.released.push(ip);
            }
            assert(self@ =~= after_release(s, key));
        } else {
            assert(self@.in_use =~= s.in_use);
            assert(self@ =~= s);
        }
    }
}

/// Handing out an address keeps a pool valid.
pub proof fn lemma_allocation_valid(s: Pool6State, key: ClientKey)
    requires
        s.valid(),
    ensures
        allocation(s, key).1.valid(),
{
    let t = allocation(s, key).1;
    addr::law_network6_holds_its_ends(s.network);
    if s.in_use.contains_key(key) {
    } else if s.strategy is NodeId {
        law_derived_address_in_network(s.network, identity::node_suffix(key.endpoint));
        let a = node_address(s.network, key.endpoint) as u128;
        if t != s {
            assert forall|k: ClientKey, l: ClientKey|
                t.in_use.contains_key(k) && t.in_use.contains_key(l) && #[trigger] t.in_use[k]
                    == #[trigger] t.in_use[l] implies k == l by {
                if k != key && l == key {
                    assert(s.in_use.contains_key(k) && s.in_use[k] == a);
                }
                if l != key && k == key {
                    assert(s.in_use.contains_key(l) && s.in_use[l] == a);
                }
            }
        }
    } else if s.released.len() > 0 {
        let a = s.released.last();
        assert(s.released[s.released.len() - 1] == a);
        assert forall|i: int| 0 <= i < t.released.len() implies t.was_issued(
            (#[trigger] t.released[i]) as int,
        ) && !t.in_use.contains_value(t.released[i]) by {
            assert(t.released[i] == s.released[i]);
            assert(s.released[i] != a);
            if t.in_use.contains_value(t.released[i]) {
                let k = choose|k: ClientKey|
                    t.in_use.contains_key(k) && t.in_use[k] == t.released[i];
                if k != key {
                    assert(s.in_use.contains_key(k) && s.in_use[k] == s.released[i]);
                }
            }
        }
        assert forall|k: ClientKey, l: ClientKey|
            t.in_use.contains_key(k) && t.in_use.contains_key(l) && #[trigger] t.in_use[k]
                == #[trigger] t.in_use[l] implies k == l by {
            if k != key && l == key {
                assert(s.in_use.contains_key(k) && s.in_use[k] == a);
            }
            if l != key && k == key {
                assert(s.in_use.contains_key(l) && s.in_use[l] == a);
            }
        }
    } else if s.next_ip <= s.max_ip {
        assert forall|k: ClientKey, l: ClientKey|
            t.in_use.contains_key(k) && t.in_use.contains_key(l) && #[trigger] t.in_use[k]
                == #[trigger] t.in_use[l] implies k == l by {
            if k != key && l == key {
                assert(s.was_issued(s.in_use[k] as int));
            }
            if l != key && k == key {
                assert(s.was_issued(s.in_use[l] as int));
            }
        }
    }
}

/// Releasing an address keeps a pool valid.
pub proof fn lemma_release_valid(s: Pool6State, key: ClientKey)
    requires
        s.valid(),
    ensures
        after_release(s, key).valid(),
{
    let t = after_release(s, key);
    if s.in_use.contains_key(key) && s.strategy is Sequential {
        let a = s.in_use[key];
        assert(s.was_issued(a as int));
        assert forall|i: int| 0 <= i < t.released.len() implies t.was_issued(
            (#[trigger] t.released[i]) as int,
        ) && !t.in_use.contains_value(t.released[i]) by {
            if t.in_use.contains_value(t.released[i]) {
                let k = choose|k: ClientKey|
                    t.in_use.contains_key(k) && t.in_use[k] == t.released[i];
                if i < s.released.len() {
                    assert(t.released[i] == s.released[i]);
                    assert(s.in_use.contains_key(k) && s.in_use[k] == s.released[i]);
                } else {
                    assert(s.in_use.contains_key(k) && s.in_use[k] == s.in_use[key]);
                }
            }
            if i < s.released.len() {
                assert(t.released[i] == s.released[i]);
            }
        }
        assert(t.released.no_duplicates()) by {
            assert forall|i: int, j: int|
                0 <= i < t.released.len() && 0 <= j < t.released.len() && i
                    != j implies t.released[i] != t.released[j] by {
                if i < s.released.len() && j < s.released.len() {
                    assert(s.released[i] != s.released[j]);
                } else if i < s.released.len() {
                    assert(!s.in_use.contains_value(s.released[i]));
                    assert(s.in_use[key] == a);
                } else if j < s.released.len() {
                    assert(!s.in_use.contains_value(s.released[j]));
                    assert(s.in_use[key] == a);
                }
            }
        }
    }
}

/// A pool is always in a valid state.
pub proof fn law_pool6_is_valid(p: Ip6Pool)
    requires
        p.wf(),
    ensures
        p@.valid(),
{
}

/// Two clients never hold the same address, and no client holds the server's.
pub proof fn law_addresses6_are_exclusive(s: Pool6State, k: ClientKey, l: ClientKey)
    requires
        s.valid(),
        s.in_use.contains_key(k),
    ensures
        s.in_use.contains_key(l) && k != l ==> s.in_use[k] != s.in_use[l],
        s.in_use[k] != s.server_ip.bits,
{
}

/// Where the server's address lies in the network, every client's does, and it is not
/// the first of the network.
pub proof fn law_addresses6_are_hosts(s: Pool6State, k: ClientKey)
    requires
        s.valid(),
        s.network.has(s.server_ip),
        s.in_use.contains_key(k),
    ensures
        s.network.first() < s.in_use[k] <= s.network.last(),
{
    addr::law_network6_holds_its_ends(s.network);
    law_derived_address_in_network(s.network, identity::node_suffix(k.endpoint));
    if s.strategy is Sequential {
        assert(s.was_issued(s.in_use[k] as int));
    }
}

/// Asking again gives the same address and changes nothing.
pub proof fn law_allocation6_is_stable(s: Pool6State, key: ClientKey)
    requires
        s.valid(),
        allocation(s, key).0 is Some,
    ensures
        allocation(allocation(s, key).1, key) == (allocation(s, key).0, allocation(s, key).1),
{
    addr::law_network6_holds_its_ends(s.network);
    law_derived_address_in_network(s.network, identity::node_suffix(key.endpoint));
}

/// By node id, two pools of one network give a node the same address, whatever its device
/// and whatever they have handed out before.
pub proof fn law_node_address_is_stable(a: Pool6State, b: Pool6State, k: ClientKey, l: ClientKey)
    requires
        a.valid(),
        b.valid(),
        a.strategy is NodeId,
        b.strategy is NodeId,
        a.network == b.network,
        k.endpoint == l.endpoint,
        allocation(a, k).0 is Some,
        allocation(b, l).0 is Some,
    ensures
        allocation(a, k).0 == allocation(b, l).0,
{
}

/// By node id, a second device of a node is turned away while the first holds the address.
pub proof fn law_second_device_is_refused(s: Pool6State, first: ClientKey, second: ClientKey)
    requires
        s.valid(),
        s.strategy is NodeId,
        first.endpoint == second.endpoint,
        first != second,
        s.in_use.contains_key(first),
    ensures
        allocation(s, second) == (None::<int>, s),
{
    law_derived_address_in_network(s.network, identity::node_suffix(first.endpoint));
    assert(s.in_use[first] == node_address(s.network, second.endpoint));
    if s.in_use.contains_key(second) {
        assert(s.in_use[second] == s.in_use[first]);
    }
    assert(s.in_use.contains_value(node_address(s.network, second.endpoint) as u128));
}

/// A client without an address is turned away exactly when there is none for it: in sequence,
/// when none is to be reused and the range is used up; by node id, when the address of its node
/// is the server's, the first of the network, or another client's.
pub proof fn law_refused6_only_when_exhausted(s: Pool6State, key: ClientKey)
    requires
        s.valid(),
        !s.in_use.contains_key(key),
    ensures
        s.strategy is Sequential ==> (allocation(s, key).0 is None <==> s.released.len() == 0
            && s.next_ip > s.max_ip),
        s.strategy is NodeId ==> (allocation(s, key).0 is None <==> {
            let a = node_address(s.network, key.endpoint);
            a == s.server_ip.bits || a == s.network.first() || s.in_use.contains_value(a as u128)
        }),
{
}

/// A client that comes back after its release gets the address that it had.
pub proof fn law_released_address6_returns(s: Pool6State, key: ClientKey)
    requires
        s.valid(),
        s.in_use.contains_key(key),
    ensures
        allocation(after_release(s, key), key).0 == Some(s.in_use[key] as int),
{
    law_derived_address_in_network(s.network, identity::node_suffix(key.endpoint));
    let t = after_release(s, key);
    if s.strategy is NodeId {
        let a = node_address(s.network, key.endpoint) as u128;
        if t.in_use.contains_value(a) {
            let k = choose|k: ClientKey| t.in_use.contains_key(k) && t.in_use[k] == a;
            assert(s.in_use.contains_key(k) && s.in_use[k] == s.in_use[key]);
        }
    }
}

/// A fresh pool that hands out addresses in order serves the address that was asked for, or else
/// the first host of the network, and its first client gets the address behind it.
pub proof fn law_fresh_pool6_starts_at_its_server(
    s: Pool6State,
    network: Ipv6Net,
    server_ip: Option<Ipv6Addr>,
    server_id: EndpointId,
    key: ClientKey,
)
    requires
        is_fresh(s, network, server_ip, Ip6Strategy::Sequential, server_id),
    ensures
        s.network == network,
        server_ip is Some ==> s.server_ip == server_ip->0,
        server_ip is None ==> s.server_ip.bits == network.first() + 1,
        s.server_ip.bits + 1 < network.last() ==> allocation(s, key).0 == Some(
            s.server_ip.bits + 1,
        ),
        s.server_ip.bits + 1 >= network.last() ==> allocation(s, key).0 is None,
{
}

/// A fresh pool that derives addresses gives its server and every client the network's prefix
/// with as many low bits of the endpoint's suffix as the prefix leaves free.
pub proof fn law_fresh_pool6_derives_its_addresses(
    s: Pool6State,
    network: Ipv6Net,
    server_id: EndpointId,
    key: ClientKey,
)
    requires
        network.wf(),
        is_fresh(s, network, None, Ip6Strategy::NodeId, server_id),
    ensures
        ({
            let free = vstd::arithmetic::power2::pow2((128 - network.prefix_len) as nat) as int;
            let own = network.first() + identity::node_suffix(server_id) as int % free;
            let a = network.first() + identity::node_suffix(key.endpoint) as int % free;
            &&& s.network == network
            &&& s.server_ip.bits == own
            &&& allocation(s, key).0 == (if a == own || a == network.first() {
                None
            } else {
                Some(a)
            })
        }),
{
    vstd::arithmetic::power2::lemma_pow2_pos((128 - network.prefix_len) as nat);
}

/// Whatever a pool hands out or takes back, its network, its server's address and its strategy
/// stay, and of the clients only the one that asked or left is touched.
pub proof fn law_other_clients6_are_untouched(s: Pool6State, key: ClientKey, other: ClientKey)
    requires
        other != key,
    ensures
        ({
            let t = allocation(s, key).1;
            let u = after_release(s, key);
            &&& t.network == s.network && t.server_ip == s.server_ip && t.strategy == s.strategy
            &&& u.network == s.network && u.server_ip == s.server_ip && u.strategy == s.strategy
            &&& t.in_use.contains_key(other) <==> s.in_use.contains_key(other)
            &&& u.in_use.contains_key(other) <==> s.in_use.contains_key(other)
            &&& s.in_use.contains_key(other) ==> t.in_use[other] == s.in_use[other]
                && u.in_use[other] == s.in_use[other]
            &&& !u.in_use.contains_key(key)
            &&& allocation(s, key).0 matches Some(a) ==> t.in_use.contains_key(key)
                && t.in_use[key] == a as u128
        }),
{
}

/// A pool is made exactly if its network has room for a client, and, where addresses are derived,
/// leaves room for a whole suffix, no server address is asked for and the derived one is not the
/// network's own.
pub proof fn law_pools6_are_made(
    network: Ipv6Net,
    server_ip: Option<Ipv6Addr>,
    strategy: Ip6Strategy,
    server_id: EndpointId,
)
    ensures
        pool_refusal(network, server_ip, strategy, server_id) is None <==> {
            &&& network.prefix_len <= 126
            &&& strategy is NodeId ==> {
                &&& network.prefix_len <= 64
                &&& server_ip is None
                &&& node_address(network, server_id) != network.first()
            }
        },
{
}

/// A client that is new to a pool that hands out addresses in order gets the address that was
/// returned last, or else the next one that was never handed out.
pub proof fn law_newcomers6_get_the_next_address(s: Pool6State, key: ClientKey)
    requires
        s.strategy is Sequential,
        !s.in_use.contains_key(key),
    ensures
        ({
            let (given, t) = allocation(s, key);
            &&& s.released.len() > 0 ==> {
                &&& given == Some(s.released.last() as int)
                &&& t.released == s.released.drop_last()
                &&& t.next_ip == s.next_ip
            }
            &&& s.released.len() == 0 && s.next_ip <= s.max_ip ==> given == Some(s.next_ip)
                && t.next_ip == s.next_ip + 1
            &&& s.released.len() == 0 && s.next_ip > s.max_ip ==> given is None && t == s
        }),
{
}

} // verus!
