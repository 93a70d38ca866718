//! The IPv4 addresses that a server hands out.

use vstd::prelude::*;
use vstd::string::*;
use crate::addr;
use crate::addr::{Ipv4Addr, Ipv4Net};
use crate::identity::{ClientKey, EndpointId};
use crate::leases::LeaseTable;

verus! {

/// What a pool remembers.
#[verifier::ext_equal]
pub struct PoolState {
    pub network: Ipv4Net,
    pub server_ip: Ipv4Addr,
    /// The lowest address that was never considered for a client.
    pub next_ip: int,
    /// The highest address for clients.
    pub max_ip: int,
    pub in_use: Map<ClientKey, u128>,
    /// Addresses given back, the latest last.
    pub released: Seq<u32>,
    /// Addresses that no client gets.
    pub reserved: Set<u32>,
}

impl PoolState {
    /// The address was taken from the range for clients, and may be handed out.
    pub open spec fn was_issued(self, a: int) -> bool {
        &&& self.server_ip.bits < a < self.next_ip
        &&& a <= self.max_ip
        &&& !self.reserved.contains(a as u32)
    }

    /// The invariant: what is in use was issued, to one client each; what was released was
    /// issued, is listed once, and is not in use.
    pub open spec fn valid(self) -> bool {
        &&& self.network.wf()
        &&& self.max_ip == self.network.last() - 1
        &&& self.server_ip.bits < self.next_ip
        &&& self.next_ip <= self.max_ip + 1 || self.next_ip == self.server_ip.bits + 1
        &&& forall|k: ClientKey| #[trigger]
            self.in_use.contains_key(k) ==> self.was_issued(self.in_use[k] as int)
        &&& forall|k: ClientKey, l: ClientKey|
            self.in_use.contains_key(k) && self.in_use.contains_key(l) && #[trigger] self.in_use[k]
                == #[trigger] self.in_use[l] ==> k == l
        &&& forall|i: int|
            0 <= i < self.released.len() ==> self.was_issued((#[trigger] self.released[i]) as int)
                && !self.in_use.contains_value(self.released[i] as u128)
        &&& self.released.no_duplicates()
    }
}

/// A pool that has handed out nothing: the server has the address that was asked for, or else
/// the first behind the network's own, and clients get those behind the server's.
pub open spec fn fresh_pool(network: Ipv4Net, server_ip: Option<Ipv4Addr>) -> PoolState {
    let server = match server_ip {
        Some(ip) => ip,
        None => Ipv4Addr { bits: (network.first() + 1) as u32 },
    };
    PoolState {
        network,
        server_ip: server,
        next_ip: server.bits + 1,
        max_ip: network.last() - 1,
        in_use: Map::empty(),
        released: Seq::empty(),
        reserved: Set::empty(),
    }
}

/// The lowest address from `from` to `max` that is not reserved.
pub open spec fn lowest_free(reserved: Set<u32>, from: int, max: int) -> Option<int>
    decreases max + 1 - from,
{
    if from > max {
        None
    } else if reserved.contains(from as u32) {
        lowest_free(reserved, from + 1, max)
    } else {
        Some(from)
    }
}

/// The highest address from `from` to `max` that is not reserved.
pub open spec fn highest_free(reserved: Set<u32>, from: int, max: int) -> Option<int>
    decreases max + 1 - from,
{
    if from > max {
        None
    } else if reserved.contains(max as u32) {
        highest_free(reserved, from, max - 1)
    } else {
        Some(max)
    }
}

/// The pool once the lowest free address has been taken off its range.
pub open spec fn advanced(s: PoolState) -> PoolState {
    PoolState {
        next_ip: match lowest_free(s.reserved, s.next_ip, s.max_ip) {
            Some(a) => a + 1,
            None => if s.next_ip <= s.max_ip {
                s.max_ip + 1
            } else {
                s.next_ip
            },
        },
        ..s
    }
}

/// What asking for an address comes to: a client keeps the address it has; otherwise it
/// gets the one that was released last, or else the lowest that is free.
pub open spec fn allocation(s: PoolState, key: ClientKey) -> (Option<int>, PoolState) {
    if s.in_use.contains_key(key) {
        (Some(s.in_use[key] as int), s)
    } else if s.released.len() > 0 {
        (
            Some(s.released.last() as int),
            PoolState {
                in_use: s.in_use.insert(key, s.released.last() as u128),
                released: s.released.drop_last(),
                ..s
            },
        )
    } else {
        match lowest_free(s.reserved, s.next_ip, s.max_ip) {
            Some(a) => (
                Some(a),
                PoolState { in_use: s.in_use.insert(key, a as u128), ..advanced(s) },
            ),
            None => (None, advanced(s)),
        }
    }
}

/// The pool after a client has gone: its address, if it had one, is released.
pub open spec fn after_release(s: PoolState, key: ClientKey) -> PoolState {
    if s.in_use.contains_key(key) {
        PoolState {
            in_use: s.in_use.remove(key),
            released: s.released.push(s.in_use[key] as u32),
            ..s
        }
    } else {
        s
    }
}

/// Why an address cannot be reserved.
pub open spec fn reservation_refusal(s: PoolState, ip: Ipv4Addr, label: Seq<char>) -> Option<
    Seq<char>,
> {
    let named = label + " "@ + ip.text();
    if !s.network.has(ip) {
        Some(named + " is not within VPN network "@ + s.network.text())
    } else if ip == s.server_ip {
        Some(named + " must not equal server_ip "@ + s.server_ip.text())
    } else if ip.bits == s.network.first() || ip.bits == s.network.last() {
        Some(named + " is not a usable host address in "@ + s.network.text())
    } else if s.reserved.contains(ip.bits) {
        None
    } else if s.in_use.contains_value(ip.bits as u128) {
        Some(named + " is already assigned to a client"@)
    } else {
        None
    }
}

/// The pool after an address was reserved.
pub open spec fn after_reservation(s: PoolState, ip: Ipv4Addr) -> PoolState {
    PoolState {
        released: s.released.filter(|a: u32| a != ip.bits),
        reserved: s.reserved.insert(ip.bits),
        ..s
    }
}

/// IP address pool for assigning addresses to clients.
#[derive(Debug)]
pub struct IpPool {
    /// Network CIDR.
    network: Ipv4Net,
    /// Server's IP (first usable address).
    server_ip: Ipv4Addr,
    /// Next IP to assign.
    next_ip: u32,
    /// Maximum IP in the range.
    max_ip: u32,
    /// IPs currently in use.
    in_use: LeaseTable,
    /// Released IPs available for reuse.
    released: Vec<u32>,
    /// Reserved IPs that should never be assigned to clients.
    reserved: Vec<u32>,
}

impl View for IpPool {
    type V = PoolState;

    closed spec fn view(&self) -> PoolState {
        PoolState {
            network: self.network,
            server_ip: self.server_ip,
            next_ip: self.next_ip as int,
            max_ip: self.max_ip as int,
            in_use: self.in_use@,
            released: self.released@,
            reserved: self.reserved@.to_set(),
        }
    }
}

/// Whether a list holds an address.
fn lists(v: &Vec<u32>, a: u32) -> (r: bool)
    ensures
        r == v@.to_set().contains(a),
        r == v@.contains(a),
{
    let mut i: usize = 0;
    while i < v.len()
        invariant
            i <= v@.len(),
            forall|k: int| 0 <= k < i ==> v@[k] != a,
        decreases v@.len() - i,
    {
        if v[i] == a {
            assert(v@.contains(a));
            return true;
        }
        i = i + 1;
    }
    false
}

/// A list without an address.
fn without(v: &Vec<u32>, a: u32) -> (r: Vec<u32>)
    ensures
        r@ == v@.filter(|x: u32| x != a),
{
    let ghost keep = |x: u32| x != a;
    let mut out: Vec<u32> = Vec::new();
    let mut i: usize = 0;
    reveal(Seq::filter);
    assert(v@.take(0).filter(keep) =~= Seq::<u32>::empty());
    while i < v.len()
        invariant
            i <= v@.len(),
            keep == (|x: u32| x != a),
            out@ == v@.take(i as int).filter(keep),
        decreases v@.len() - i,
    {
        reveal(Seq::filter);
        assert(v@.take(i + 1).drop_last() =~= v@.take(i as int));
        if v[i] != a {
            out.push(v[i]);
        }
        i = i + 1;
    }
    assert(v@.take(i as int) =~= v@);
    out
}

impl IpPool {
    /// The invariant of the pool.
    pub closed spec fn wf(self) -> bool {
        self@.valid() && self.in_use.wf()
    }

    /// Create a new IP pool from a network with optional custom server IP.
    ///
    /// If `server_ip` is None, defaults to first host in network (e.g., .1).
    /// Client IPs start from the address after the server IP.
    pub fn new(network: Ipv4Net, server_ip: Option<Ipv4Addr>) -> (p: Self)
        requires
            network.wf(),
            network.last() > 0,
            server_ip is None ==> network.first() + 2 <= u32::MAX,
            server_ip is Some ==> server_ip->0.bits < u32::MAX,
        ensures
            p.wf(),
            p@ == fresh_pool(network, server_ip),
    {
        let server: Ipv4Addr = match server_ip {
            Some(ip) => ip,
            None => Ipv4Addr { bits: network.network().bits + 1 },
        };
        let p = IpPool {
            network,
            server_ip: server,
            next_ip: server.bits + 1,
            max_ip: network.broadcast().bits - 1,
            in_use: LeaseTable::new(),
            released: Vec::new(),
            reserved: Vec::new(),
        };
        assert(p@.reserved =~= Set::<u32>::empty());
        assert(p@.released =~= Seq::<u32>::empty());
        p
    }

    /// Get the server's IP address.
    pub fn server_ip(&self) -> (ip: Ipv4Addr)
        ensures
            ip == self@.server_ip,
    {
        self.server_ip
    }

    /// Get the network CIDR.
    pub fn network(&self) -> (n: Ipv4Net)
        ensures
            n == self@.network,
    {
        self.network
    }

    /// Takes the lowest address that is not reserved off the range.
    fn next_unreserved_ip(&mut self) -> (r: Option<u32>)
        requires
            old(self).wf(),
        ensures
            final(self).wf(),
            final(self)@ == advanced(old(self)@),
            ({
                let s = old(self)@;
                match lowest_free(s.reserved, s.next_ip, s.max_ip) {
                    Some(a) => r == Some(a as u32) && s.next_ip <= a <= s.max_ip
                        && !s.reserved.contains(a as u32),
                    None => r is None,
                }
            }),
    {
        let ghost s = self@;
        proof {
            crate::addr::law_network_holds_its_ends(s.network);
        }
        while self.next_ip <= self.max_ip
            invariant
                self.wf(),
                s == old(self)@,
                s.valid(),
                self@ == (PoolState { next_ip: self@.next_ip, ..s }),
                s.next_ip <= self@.next_ip,
                s.next_ip <= s.max_ip ==> self@.next_ip <= s.max_ip + 1,
                s.next_ip > s.max_ip ==> self@.next_ip == s.next_ip,
                s.max_ip < u32::MAX,
                lowest_free(s.reserved, s.next_ip, s.max_ip) == lowest_free(
                    s.reserved,
                    self@.next_ip,
                    s.max_ip,
                ),
            decreases s.max_ip + 1 - self@.next_ip,
        {
            let ip: u32 = self.next_ip;
            self.next_ip = self.next_ip + 1;
            if lists(&self.reserved, ip) {
                continue ;
            }
            return Some(ip);
        }
        None
    }

    /// Allocate an IP address for a client.
    pub fn allocate(&mut self, endpoint_id: EndpointId, device_id: u64) -> (r: Option<Ipv4Addr>)
        requires
            old(self).wf(),
        ensures
            final(self).wf(),
            ({
                let key = ClientKey { endpoint: endpoint_id, device_id };
                let (given, s) = allocation(old(self)@, key);
                &&& final(self)@ == s
                &&& match given {
                    Some(a) => r is Some && r->0.bits == a,
                    None => r is None,
                }
            }),
    {
        let ghost s = self@;
        let key = ClientKey { endpoint: endpoint_id, device_id };
        if let Some(ip) = self.in_use.get(&key) {
            proof {
                crate::addr::law_network_holds_its_ends(s.network);
                assert(s.was_issued(s.in_use[key] as int));
            }
            return Some(Ipv4Addr { bits: ip as u32 });
        }
        // Released addresses are reused first.
        if let Some(ip) = self.released.pop() {
            self.in_use.insert(key, ip as u128);
            proof {
                assert(self@.released =~= s.released.drop_last());
                lemma_allocation_valid(s, key);
                assert(self@ =~= allocation(s, key).1);
            }
            return Some(Ipv4Addr { bits: ip });
        }
        match self.next_unreserved_ip() {
            Some(ip) => {
                self.in_use.insert(key, ip as u128);
                proof {
                    lemma_allocation_valid(s, key);
                    assert(self@ =~= allocation(s, key).1);
                }
                Some(Ipv4Addr { bits: ip })
            },
            None => None,
        }
    }

    /// Release an IP address when a client disconnects.
    pub fn release(&mut self, endpoint_id: &EndpointId, device_id: u64)
        requires
            old(self).wf(),
        ensures
            final(self).wf(),
            final(self)@ == after_release(
                old(self)@,
                (ClientKey { endpoint: *endpoint_id, device_id }),
            ),
    {
        let ghost s = self@;
        let key = ClientKey { endpoint: *endpoint_id, device_id };
        if let Some(ip) = self.in_use.remove(&key) {
            proof {
                crate::addr::law_network_holds_its_ends(s.network);
                assert(s.was_issued(s.in_use[key] as int));
            }
            self.released.push(ip as u32);
            proof {
                lemma_release_valid(s, key);
                assert(self@ =~= after_release(s, key));
            }
        } else {
            assert(self@.in_use =~= s.in_use);
            assert(self@ =~= s);
        }
    }

    /// Reserve a specific IP address so it will not be assigned to clients.
    pub fn reserve_ip(&mut self, ip: Ipv4Addr, label: &str) -> (r: Result<(), String>)
        requires
            old(self).wf(),
        ensures
            final(self).wf(),
            match reservation_refusal(old(self)@, ip, label@) {
                Some(m) => r is Err && r->Err_0@ == m && final(self)@ == old(self)@,
                None => r is Ok && final(self)@ == after_reservation(old(self)@, ip),
            },
    {
        let ghost s = self@;
        let mut named = label.to_owned();
        named.append(" ");
        named.append(ip.to_text().as_str());
        if !self.network.contains(&ip) {
            named.append(" is not within VPN network ");
            named.append(self.network.to_text().as_str());
            return Err(named);
        }
        if ip == self.server_ip {
            named.append(" must not equal server_ip ");
            named.append(self.server_ip.to_text().as_str());
            return Err(named);
        }
        if ip == self.network.network() || ip == self.network.broadcast() {
            named.append(" is not a usable host address in ");
            named.append(self.network.to_text().as_str());
            return Err(named);
        }
        if lists(&self.reserved, ip.bits) {
            proof {
                lemma_reserved_again(s, ip);
            }
            return Ok(());
        }
        if self.in_use.holds(ip.bits as u128) {
            named.append(" is already assigned to a client");
            return Err(named);
        }
        self.reserve(ip);
        Ok(())
    }

    /// Keeps an address that no client holds from being handed out.
    fn reserve(&mut self, ip: Ipv4Addr)
        requires
            old(self).wf(),
            !old(self)@.in_use.contains_value(ip.bits as u128),
        ensures
            final(self).wf(),
            final(self)@ == after_reservation(old(self)@, ip),
    {
        let ghost s = self@;
        let ghost listed = self.reserved@;
        self.released = without(&self.released, ip.bits);
        self.reserved.push(ip.bits);
        proof {
            lemma_reservation_valid(s, ip);
            assert(self.reserved@.to_set() =~= s.reserved.insert(ip.bits)) by {
                let after = self.reserved@;
                let before = listed;
                assert(after =~= before.push(ip.bits));
                assert(after[after.len() - 1] == ip.bits);
                assert forall|a: u32| after.contains(a) == (before.contains(a) || a
                    == ip.bits) by {
                    if before.contains(a) {
                        let i = choose|i: int| 0 <= i < before.len() && before[i] == a;
                        assert(after[i] == a);
                    }
                }
            }
            assert(self@ =~= after_reservation(s, ip));
        }
    }

    /// Reserve the next available IP address for internal use.
    pub fn reserve_next_available(&mut self) -> (r: Option<Ipv4Addr>)
        requires
            old(self).wf(),
        ensures
            final(self).wf(),
            ({
                let s = old(self)@;
                match lowest_free(s.reserved, s.next_ip, s.max_ip) {
                    Some(a) => r is Some && r->0.bits == a && final(self)@ == (PoolState {
                        reserved: s.reserved.insert(a as u32),
                        ..advanced(s)
                    }),
                    None => r is None && final(self)@ == advanced(s),
                }
            }),
    {
        let ghost s = self@;
        match self.next_unreserved_ip() {
            Some(bits) => {
                let ip = Ipv4Addr { bits };
                let ghost t = self@;
                assert(!t.in_use.contains_value(bits as u128));
                self.reserve(ip);
                proof {
                    lemma_filter_keeps_all(t.released, bits);
                    assert(self@ =~= PoolState {
                        reserved: s.reserved.insert(bits),
                        ..advanced(s)
                    });
                }
                Some(ip)
            },
            None => None,
        }
    }

    /// Reserve the highest available IP address for internal use.
    pub fn reserve_last_available(&mut self) -> (r: Option<Ipv4Addr>)
        requires
            old(self).wf(),
        ensures
            final(self).wf(),
            ({
                let s = old(self)@;
                match highest_free(s.reserved, s.next_ip, s.max_ip) {
                    Some(a) => r is Some && r->0.bits == a && final(self)@ == (PoolState {
                        reserved: s.reserved.insert(a as u32),
                        ..s
                    }),
                    None => r is None && final(self)@ == s,
                }
            }),
    {
        let ghost s = self@;
        if self.next_ip > self.max_ip {
            return None;
        }
        let mut candidate: u32 = self.max_ip;
        // Addresses in use lie below the range that is searched.
        while lists(&self.reserved, candidate)
            invariant
                self.wf(),
                self@ == s,
                s == old(self)@,
                s.next_ip <= candidate <= s.max_ip,
                highest_free(s.reserved, s.next_ip, s.max_ip) == highest_free(
                    s.reserved,
                    s.next_ip,
                    candidate as int,
                ),
            decreases candidate,
        {
            if candidate == self.next_ip {
                reveal_with_fuel(highest_free, 2);
                return None;
            }
            candidate = candidate - 1;
        }
        let ip = Ipv4Addr { bits: candidate };
        assert(!s.in_use.contains_value(candidate as u128));
        self.reserve(ip);
        proof {
            lemma_filter_keeps_all(s.released, candidate);
            assert(self@ =~= PoolState { reserved: s.reserved.insert(candidate), ..s });
        }
        Some(ip)
    }
}

/// The lowest free address is free, and lies in the range.
pub proof fn lemma_lowest_free(reserved: Set<u32>, from: int, max: int)
    ensures
        match lowest_free(reserved, from, max) {
            Some(a) => from <= a <= max && !reserved.contains(a as u32),
            None => true,
        },
    decreases max + 1 - from,
{
    if from <= max && reserved.contains(from as u32) {
        lemma_lowest_free(reserved, from + 1, max);
    }
}

/// Handing out an address keeps a pool valid.
pub proof fn lemma_allocation_valid(s: PoolState, key: ClientKey)
    requires
        s.valid(),
    ensures
        allocation(s, key).1.valid(),
{
    let t = allocation(s, key).1;
    crate::addr::law_network_holds_its_ends(s.network);
    lemma_lowest_free(s.reserved, s.next_ip, s.max_ip);
    if !s.in_use.contains_key(key) && s.released.len() > 0 {
        let a = s.released.last();
        assert(s.released[s.released.len() - 1] == a);
        assert forall|i: int| 0 <= i < t.released.len() implies t.was_issued(
            (#[trigger] t.released[i]) as int,
        ) && !t.in_use.contains_value(t.released[i] as u128) by {
            assert(t.released[i] == s.released[i]);
            assert(s.released[i] != a);
            if t.in_use.contains_value(t.released[i] as u128) {
                let k = choose|k: ClientKey|
                    t.in_use.contains_key(k) && t.in_use[k] == t.released[i] as u128;
                if k != key {
                    assert(s.in_use.contains_key(k) && s.in_use[k] == s.released[i] as u128);
                }
            }
        }
        assert forall|k: ClientKey, l: ClientKey|
            t.in_use.contains_key(k) && t.in_use.contains_key(l) && #[trigger] t.in_use[k]
                == #[trigger] t.in_use[l] implies k == l by {
            if k != key && l == key {
                assert(s.in_use.contains_key(k) && s.in_use[k] == a as u128);
            }
            if l != key && k == key {
                assert(s.in_use.contains_key(l) && s.in_use[l] == a as u128);
            }
        }
    } else if !s.in_use.contains_key(key) && lowest_free(s.reserved, s.next_ip, s.max_ip) is Some {
        let a = lowest_free(s.reserved, s.next_ip, s.max_ip)->0;
        assert forall|k: ClientKey, l: ClientKey|
            t.in_use.contains_key(k) && t.in_use.contains_key(l) && #[trigger] t.in_use[k]
                == #[trigger] t.in_use[l] implies k == l by {
            if k != key && l == key {
                assert(s.was_issued(s.in_use[k] as int));
            }
            if l != key && k == key {
                assert(s.was_issued(s.in_use[l] as int));
            }
        }
        assert forall|i: int| 0 <= i < t.released.len() implies t.was_issued(
            (#[trigger] t.released[i]) as int,
        ) && !t.in_use.contains_value(t.released[i] as u128) by {}
    }
}

/// Releasing an address keeps a pool valid.
pub proof fn lemma_release_valid(s: PoolState, key: ClientKey)
    requires
        s.valid(),
    ensures
        after_release(s, key).valid(),
{
    let t = after_release(s, key);
    if s.in_use.contains_key(key) {
        let a = s.in_use[key];
        crate::addr::law_network_holds_its_ends(s.network);
        assert(s.was_issued(a as int));
        assert forall|i: int| 0 <= i < t.released.len() implies t.was_issued(
            (#[trigger] t.released[i]) as int,
        ) && !t.in_use.contains_value(t.released[i] as u128) by {
            if i < s.released.len() {
                assert(t.released[i] == s.released[i]);
                if t.in_use.contains_value(t.released[i] as u128) {
                    let k = choose|k: ClientKey|
                        t.in_use.contains_key(k) && t.in_use[k] == t.released[i] as u128;
                    assert(s.in_use.contains_key(k) && s.in_use[k] == s.released[i] as u128);
                }
            } else {
                assert(t.released[i] == a as u32);
                if t.in_use.contains_value(a) {
                    let k = choose|k: ClientKey| t.in_use.contains_key(k) && t.in_use[k] == a;
                    assert(s.in_use.contains_key(k) && s.in_use[k] == s.in_use[key]);
                }
            }
        }
        assert(t.released.no_duplicates()) by {
            assert forall|i: int, j: int|
                0 <= i < t.released.len() && 0 <= j < t.released.len() && i
                    != j implies t.released[i] != t.released[j] by {
                if i < s.released.len() && j < s.released.len() {
                    assert(s.released[i] != s.released[j]);
                } else if i < s.released.len() {
                    assert(!s.in_use.contains_value(s.released[i] as u128));
                    assert(s.in_use[key] == a);
                } else if j < s.released.len() {
                    assert(!s.in_use.contains_value(s.released[j] as u128));
                    assert(s.in_use[key] == a);
                }
            }
        }
    }
}

/// Filtering keeps the members that pass, in order and at most as often.
proof fn lemma_filtered(v: Seq<u32>, a: u32)
    requires
        v.no_duplicates(),
    ensures
        ({
            let w = v.filter(|x: u32| x != a);
            &&& w.no_duplicates()
            &&& forall|i: int| 0 <= i < w.len() ==> v.contains(#[trigger] w[i]) && w[i] != a
        }),
    decreases v.len(),
{
    reveal(Seq::filter);
    let keep = |x: u32| x != a;
    if v.len() > 0 {
        let front = v.drop_last();
        assert(front.no_duplicates());
        lemma_filtered(front, a);
        let w = v.filter(keep);
        let f = front.filter(keep);
        assert forall|i: int| 0 <= i < w.len() implies v.contains(#[trigger] w[i]) && w[i] != a by {
            if i < f.len() {
                assert(w[i] == f[i]);
                let j = choose|j: int| 0 <= j < front.len() && front[j] == f[i];
                assert(v[j] == w[i]);
            } else {
                assert(w[i] == v.last());
                assert(v[v.len() - 1] == w[i]);
            }
        }
        assert forall|i: int, j: int| 0 <= i < w.len() && 0 <= j < w.len() && i != j implies w[i]
            != w[j] by {
            if i < f.len() && j < f.len() {
                assert(w[i] == f[i] && w[j] == f[j]);
            } else if i < f.len() {
                assert(w[i] == f[i]);
                let m = choose|m: int| 0 <= m < front.len() && front[m] == f[i];
                assert(v[m] != v[v.len() - 1]);
            } else if j < f.len() {
                assert(w[j] == f[j]);
                let m = choose|m: int| 0 <= m < front.len() && front[m] == f[j];
                assert(v[m] != v[v.len() - 1]);
            }
        }
    }
}

/// Filtering out an address that is not listed changes nothing.
proof fn lemma_filter_keeps_all(v: Seq<u32>, a: u32)
    requires
        forall|i: int| 0 <= i < v.len() ==> v[i] != a,
    ensures
        v.filter(|x: u32| x != a) == v,
    decreases v.len(),
{
    reveal(Seq::filter);
    let keep = |x: u32| x != a;
    if v.len() > 0 {
        lemma_filter_keeps_all(v.drop_last(), a);
        assert(v[v.len() - 1] != a);
        assert(v.filter(keep) =~= v.drop_last().push(v.last()));
        assert(v.drop_last().push(v.last()) =~= v);
    } else {
        assert(v.filter(keep) =~= v);
    }
}

/// Reserving an address that no client holds keeps a pool valid.
proof fn lemma_reservation_valid(s: PoolState, ip: Ipv4Addr)
    requires
        s.valid(),
        !s.in_use.contains_value(ip.bits as u128),
    ensures
        after_reservation(s, ip).valid(),
{
    let t = after_reservation(s, ip);
    crate::addr::law_network_holds_its_ends(s.network);
    lemma_filtered(s.released, ip.bits);
    assert forall|k: ClientKey| #[trigger] t.in_use.contains_key(k) implies t.was_issued(
        t.in_use[k] as int,
    ) by {
        assert(s.was_issued(s.in_use[k] as int));
        assert(s.in_use[k] != ip.bits as u128);
    }
    assert forall|i: int| 0 <= i < t.released.len() implies t.was_issued(
        (#[trigger] t.released[i]) as int,
    ) && !t.in_use.contains_value(t.released[i] as u128) by {
        let j = choose|j: int| 0 <= j < s.released.len() && s.released[j] == t.released[i];
        assert(s.was_issued(s.released[j] as int));
    }
}

/// Reserving an address twice is the same as once.
proof fn lemma_reserved_again(s: PoolState, ip: Ipv4Addr)
    requires
        s.valid(),
        s.reserved.contains(ip.bits),
    ensures
        after_reservation(s, ip) == s,
{
    assert forall|i: int| 0 <= i < s.released.len() implies s.released[i] != ip.bits by {
        assert(s.was_issued(s.released[i] as int));
    }
    lemma_filter_keeps_all(s.released, ip.bits);
    assert(s.reserved.insert(ip.bits) =~= s.reserved);
    assert(after_reservation(s, ip) =~= s);
}

/// A pool is always in a valid state.
pub proof fn law_pool_is_valid(p: IpPool)
    requires
        p.wf(),
    ensures
        p@.valid(),
{
}

/// Two clients never hold the same address, and no client holds the server's address, a
/// reserved one, or one that is waiting to be reused.
pub proof fn law_addresses_are_exclusive(s: PoolState, k: ClientKey, l: ClientKey)
    requires
        s.valid(),
        s.in_use.contains_key(k),
    ensures
        s.in_use.contains_key(l) && k != l ==> s.in_use[k] != s.in_use[l],
        s.in_use[k] != s.server_ip.bits as u128,
        !s.reserved.contains(s.in_use[k] as u32),
        !s.released.contains(s.in_use[k] as u32),
{
    crate::addr::law_network_holds_its_ends(s.network);
    assert(s.was_issued(s.in_use[k] as int));
    if s.released.contains(s.in_use[k] as u32) {
        let i = choose|i: int| 0 <= i < s.released.len() && s.released[i] == s.in_use[k] as u32;
        assert(!s.in_use.contains_value(s.released[i] as u128));
    }
}

/// Where the server's address lies in the network, every client's does, and it is
/// neither the first nor the last of the network.
pub proof fn law_addresses_are_hosts(s: PoolState, k: ClientKey)
    requires
        s.valid(),
        s.network.has(s.server_ip),
        s.in_use.contains_key(k),
    ensures
        s.network.first() < s.in_use[k] < s.network.last(),
{
    assert(s.was_issued(s.in_use[k] as int));
}

/// Asking again gives the same address and changes nothing.
pub proof fn law_allocation_is_stable(s: PoolState, key: ClientKey)
    requires
        s.valid(),
        allocation(s, key).0 is Some,
    ensures
        allocation(allocation(s, key).1, key) == (allocation(s, key).0, allocation(s, key).1),
{
    crate::addr::law_network_holds_its_ends(s.network);
    lemma_lowest_free(s.reserved, s.next_ip, s.max_ip);
}

/// An address that was released is the next to be handed out, whoever asks for it.
pub proof fn law_released_address_is_reused(s: PoolState, gone: ClientKey, next: ClientKey)
    requires
        s.valid(),
        s.in_use.contains_key(gone),
        gone == next || !s.in_use.contains_key(next),
    ensures
        allocation(after_release(s, gone), next).0 == Some(s.in_use[gone] as int),
{
    crate::addr::law_network_holds_its_ends(s.network);
    assert(s.was_issued(s.in_use[gone] as int));
}

/// A client without an address is turned away exactly when no address is left: none to be
/// reused, and none in the rest of the range that is not reserved.
pub proof fn law_refused_only_when_exhausted(s: PoolState, key: ClientKey)
    requires
        s.valid(),
        !s.in_use.contains_key(key),
    ensures
        allocation(s, key).0 is None <==> s.released.len() == 0 && (forall|a: u32|
            s.next_ip <= a <= s.max_ip ==> s.reserved.contains(a)),
{
    crate::addr::law_network_holds_its_ends(s.network);
    lemma_lowest_free(s.reserved, s.next_ip, s.max_ip);
    lemma_none_free(s.reserved, s.next_ip, s.max_ip);
}

/// No free address is found only where there is none.
proof fn lemma_none_free(reserved: Set<u32>, from: int, max: int)
    requires
        0 <= from,
        max <= u32::MAX,
    ensures
        lowest_free(reserved, from, max) is None ==> (forall|a: u32|
            from <= a <= max ==> reserved.contains(a)),
    decreases max + 1 - from,
{
    if from <= max && reserved.contains(from as u32) {
        lemma_none_free(reserved, from + 1, max);
    }
}

/// A fresh pool serves the address that was asked for: it is the server's own, and the clients
/// get the addresses behind it, one after the other, up to the last host of the network.
pub proof fn law_configured_server_address_is_used(network: Ipv4Net, ip: Ipv4Addr, key: ClientKey)
    ensures
        ({
            let s = fresh_pool(network, Some(ip));
            &&& s.network == network
            &&& s.server_ip == ip
            &&& ip.bits + 1 < network.last() ==> allocation(s, key).0 == Some(ip.bits + 1)
            &&& ip.bits + 1 >= network.last() ==> allocation(s, key).0 is None
        }),
{
}

/// Without an address asked for, the server has the first host of the network, and the first
/// client the one behind it.
pub proof fn law_default_server_address_is_the_first_host(network: Ipv4Net, key: ClientKey)
    requires
        network.wf(),
        network.first() + 2 <= u32::MAX,
    ensures
        ({
            let s = fresh_pool(network, None);
            &&& s.network == network
            &&& s.server_ip.bits == network.first() + 1
            &&& network.first() + 2 < network.last() ==> allocation(s, key).0 == Some(
                network.first() + 2,
            )
            &&& network.first() + 2 >= network.last() ==> allocation(s, key).0 is None
        }),
{
    addr::law_network_holds_its_ends(network);
}

/// Clients that come one after the other into a pool without returned or reserved addresses get
/// neighbouring addresses.
pub proof fn law_newcomers_get_neighbouring_addresses(
    s: PoolState,
    first: ClientKey,
    second: ClientKey,
)
    requires
        s.released.len() == 0,
        s.reserved == Set::<u32>::empty(),
        first != second,
        !s.in_use.contains_key(first),
        !s.in_use.contains_key(second),
        s.next_ip + 1 <= s.max_ip,
    ensures
        ({
            let (a, t) = allocation(s, first);
            let (b, u) = allocation(t, second);
            &&& a == Some(s.next_ip)
            &&& b == Some(s.next_ip + 1)
            &&& u.in_use.contains_key(first) && u.in_use[first] == s.next_ip as u128
            &&& u.in_use.contains_key(second) && u.in_use[second] == (s.next_ip + 1) as u128
        }),
{
}

/// Whatever a pool hands out, takes back or reserves, its network and its server's address stay,
/// and of the clients only the one that asked or left is touched.
pub proof fn law_other_clients_are_untouched(
    s: PoolState,
    key: ClientKey,
    other: ClientKey,
    ip: Ipv4Addr,
)
    requires
        other != key,
    ensures
        ({
            let t = allocation(s, key).1;
            let u = after_release(s, key);
            let r = after_reservation(s, ip);
            &&& t.network == s.network && t.server_ip == s.server_ip && t.reserved == s.reserved
            &&& u.network == s.network && u.server_ip == s.server_ip && u.reserved == s.reserved
            &&& r.network == s.network && r.server_ip == s.server_ip && r.in_use == s.in_use
            &&& t.in_use.contains_key(other) <==> s.in_use.contains_key(other)
            &&& u.in_use.contains_key(other) <==> s.in_use.contains_key(other)
            &&& s.in_use.contains_key(other) ==> t.in_use[other] == s.in_use[other]
                && u.in_use[other] == s.in_use[other]
            &&& !u.in_use.contains_key(key)
            &&& allocation(s, key).0 matches Some(a) ==> t.in_use.contains_key(key)
                && t.in_use[key] == a as u128
        }),
{
}

/// The lowest free address of a range is free, and none below it is; the highest free address is
/// free, and none above it is. There is one unless the whole range is reserved.
pub proof fn law_free_addresses_are_found(reserved: Set<u32>, from: int, max: int, a: u32)
    requires
        0 <= from,
        max <= u32::MAX,
    ensures
        match lowest_free(reserved, from, max) {
            Some(low) => {
                &&& from <= low <= max
                &&& !reserved.contains(low as u32)
                &&& from <= a < low ==> reserved.contains(a)
            },
            None => from <= a <= max ==> reserved.contains(a),
        },
        match highest_free(reserved, from, max) {
            Some(high) => {
                &&& from <= high <= max
                &&& !reserved.contains(high as u32)
                &&& high < a <= max ==> reserved.contains(a)
            },
            None => from <= a <= max ==> reserved.contains(a),
        },
    decreases max + 1 - from,
{
    if from <= max {
        law_free_addresses_are_found(reserved, from + 1, max, a);
        if max >= 1 {
            law_free_addresses_are_found(reserved, from, max - 1, a);
        }
    }
}

/// An address can be reserved exactly if it is a host of the network other than the server's own
/// and no client holds it, or if it is reserved already. What is reserved is handed out to nobody.
pub proof fn law_reserved_addresses_are_kept(
    s: PoolState,
    ip: Ipv4Addr,
    label: Seq<char>,
    key: ClientKey,
)
    requires
        s.valid(),
    ensures
        reservation_refusal(s, ip, label) is None <==> {
            &&& s.network.first() < ip.bits < s.network.last()
            &&& ip.bits != s.server_ip.bits
            &&& s.reserved.contains(ip.bits) || forall|k: ClientKey| #[trigger]
                s.in_use.contains_key(k) ==> s.in_use[k] != ip.bits
        },
        reservation_refusal(s, ip, label) is None && !s.in_use.contains_key(key) ==> allocation(
            after_reservation(s, ip),
            key,
        ).0 != Some(ip.bits as int),
        forall|a: u32|
            #![trigger after_reservation(s, ip).reserved.contains(a)]
            after_reservation(s, ip).reserved.contains(a) <==> s.reserved.contains(a) || a == ip.bits,
        forall|a: u32|
            #![trigger after_reservation(s, ip).released.contains(a)]
            after_reservation(s, ip).released.contains(a) <==> s.released.contains(a) && a
                != ip.bits,
{
    let t = after_reservation(s, ip);
    let keep = |a: u32| a != ip.bits;
    if s.in_use.contains_value(ip.bits as u128) {
        let k = choose|k: ClientKey| s.in_use.contains_key(k) && s.in_use[k] == ip.bits as u128;
        assert(s.in_use.contains_key(k));
    }
    if exists|k: ClientKey| #[trigger] s.in_use.contains_key(k) && s.in_use[k] == ip.bits {
        let k = choose|k: ClientKey| #[trigger] s.in_use.contains_key(k) && s.in_use[k] == ip.bits;
        assert(s.in_use.dom().contains(k) && s.in_use[k] == ip.bits as u128);
    }
    lemma_filtered(s.released, ip.bits);
    addr::law_network_holds_its_ends(s.network);
    assert forall|a: u32|
        #![trigger t.released.contains(a)]
        t.released.contains(a) <==> s.released.contains(a) && a != ip.bits by {
        if t.released.contains(a) {
            let i = choose|i: int| 0 <= i < t.released.len() && t.released[i] == a;
            assert(s.released.contains(t.released[i]));
        }
        if s.released.contains(a) && a != ip.bits {
            let i = choose|i: int| 0 <= i < s.released.len() && s.released[i] == a;
            s.released.lemma_filter_contains(keep, i);
        }
    }
    if reservation_refusal(s, ip, label) is None && !s.in_use.contains_key(key) {
        if t.released.len() > 0 {
            assert(t.released.contains(t.released.last()));
        } else {
            law_free_addresses_are_found(t.reserved, t.next_ip, t.max_ip, ip.bits);
        }
    }
}

/// A client that is new to a pool gets the address that was returned last, or else the lowest that
/// was never handed out and is not reserved; the pool goes on behind it.
pub proof fn law_newcomers_get_the_next_address(s: PoolState, key: ClientKey, between: u32)
    requires
        s.valid(),
        s.network.wf(),
        !s.in_use.contains_key(key),
    ensures
        ({
            let (given, t) = allocation(s, key);
            &&& s.released.len() > 0 ==> {
                &&& given == Some(s.released.last() as int)
                &&& t.released == s.released.drop_last()
                &&& t.next_ip == s.next_ip
            }
            &&& s.released.len() == 0 ==> match given {
                Some(a) => {
                    &&& s.next_ip <= a <= s.max_ip
                    &&& !s.reserved.contains(a as u32)
                    &&& s.next_ip <= between < a ==> s.reserved.contains(between)
                    &&& t.next_ip == a + 1
                },
                None => s.next_ip <= between <= s.max_ip ==> s.reserved.contains(between),
            }
        }),
{
    addr::law_network_holds_its_ends(s.network);
    law_free_addresses_are_found(s.reserved, s.next_ip, s.max_ip, between);
}

} // verus!
