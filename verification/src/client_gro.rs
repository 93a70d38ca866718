//! The segments that a server coalesces for each of its clients.

use vstd::prelude::*;
use crate::flow_order;
use crate::gro;
use crate::gro::{CoalescedOutput, GroPush, TcpGroTable};
use crate::identity::ClientKey;

verus! {

/// What is coalesced for one client.
#[derive(Debug)]
struct ClientGroState {
    key: ClientKey,
    /// The session that the outputs go to.
    session_id: u64,
    table: TcpGroTable,
}

/// What a flush takes out for one client.
#[derive(Debug)]
pub struct ClientOutputs {
    pub key: ClientKey,
    pub session_id: u64,
    pub outputs: Vec<CoalescedOutput>,
}

/// What is coalesced for the clients of a server, each with a table of its own. Where the
/// server's TUN device has offload, the kernel coalesces and nothing is kept here.
#[derive(Debug)]
pub struct ClientGroStates {
    states: Vec<ClientGroState>,
}

/// For each client the session that the outputs go to, and the pending groups.
pub type PendingByClient = Map<ClientKey, (u64, gro::Pending)>;

/// The client has an entry.
spec fn listed(states: Seq<ClientGroState>, key: ClientKey) -> bool {
    exists|i: int| 0 <= i < states.len() && (#[trigger] states[i]).key == key
}

/// Where the entry of a client is.
spec fn place(states: Seq<ClientGroState>, key: ClientKey) -> int {
    choose|i: int| 0 <= i < states.len() && (#[trigger] states[i]).key == key
}

/// What an entry holds.
spec fn held(s: ClientGroState) -> (u64, gro::Pending) {
    (s.session_id, s.table@)
}

/// The map that a list of entries stands for.
spec fn pending_of(states: Seq<ClientGroState>) -> PendingByClient {
    Map::new(
        |key: ClientKey| listed(states, key),
        |key: ClientKey| held(states[place(states, key)]),
    )
}

/// No client has two entries, and all the tables are in order.
spec fn in_order(states: Seq<ClientGroState>) -> bool {
    &&& forall|i: int, j: int|
        0 <= i < states.len() && 0 <= j < states.len() && (#[trigger] states[i]).key == (
        #[trigger] states[j]).key ==> i == j
    &&& forall|i: int| 0 <= i < states.len() ==> (#[trigger] states[i]).table.wf()
}

/// An entry is found where it is.
proof fn lemma_found(states: Seq<ClientGroState>, i: int)
    requires
        in_order(states),
        0 <= i < states.len(),
    ensures
        pending_of(states).contains_key(states[i].key),
        pending_of(states)[states[i].key] == held(states[i]),
{
    assert(listed(states, states[i].key));
    assert(place(states, states[i].key) == i);
}

/// Taking an entry out takes its client out.
proof fn lemma_removed(states: Seq<ClientGroState>, i: int)
    requires
        in_order(states),
        0 <= i < states.len(),
    ensures
        in_order(states.remove(i)),
        pending_of(states.remove(i)) == pending_of(states).remove(states[i].key),
{
    let after = states.remove(i);
    let key = states[i].key;
    assert forall|k: int| 0 <= k < after.len() implies (#[trigger] after[k]) == states[if k < i {
        k
    } else {
        k + 1
    }] by {}
    assert forall|k: ClientKey| listed(after, k) == (listed(states, k) && k != key) by {
        if listed(states, k) && k != key {
            let b = place(states, k);
            let a = if b < i {
                b
            } else {
                b - 1
            };
            assert(after[a] == states[b]);
        }
        if listed(after, k) {
            let a = place(after, k);
            let b = if a < i {
                a
            } else {
                a + 1
            };
            assert(after[a] == states[b]);
        }
    }
    assert forall|k: ClientKey| listed(after, k) implies pending_of(after)[k] == pending_of(
        states,
    )[k] by {
        let a = place(after, k);
        let b = if a < i {
            a
        } else {
            a + 1
        };
        assert(after[a] == states[b]);
        assert(place(states, k) == b);
    }
    assert(pending_of(after) =~= pending_of(states).remove(key));
}

/// Adding an entry adds its client.
proof fn lemma_added(states: Seq<ClientGroState>, s: ClientGroState)
    requires
        in_order(states),
        !listed(states, s.key),
        s.table.wf(),
    ensures
        in_order(states.push(s)),
        pending_of(states.push(s)) == pending_of(states).insert(s.key, held(s)),
{
    let after = states.push(s);
    assert forall|k: ClientKey| listed(after, k) == (listed(states, k) || k == s.key) by {
        if listed(states, k) {
            assert(after[place(states, k)].key == k);
        }
        if k == s.key {
            assert(after[states.len() as int].key == k);
        }
        if listed(after, k) && k != s.key {
            let a = place(after, k);
            assert(states[a].key == k);
        }
    }
    assert forall|k: ClientKey| listed(after, k) implies pending_of(after)[k] == (if k == s.key {
        held(s)
    } else {
        pending_of(states)[k]
    }) by {
        let a = place(after, k);
        if k == s.key {
            assert(after[states.len() as int].key == k);
            assert(a == states.len());
        } else {
            assert(states[a] == after[a]);
            assert(place(states, k) == a);
        }
    }
    assert(pending_of(after) =~= pending_of(states).insert(s.key, held(s)));
}

impl View for ClientGroStates {
    type V = PendingByClient;

    closed spec fn view(&self) -> PendingByClient {
        pending_of(self.states@)
    }
}

/// The pending groups of a client; nothing is pending for one without an entry.
pub open spec fn pending_for(v: PendingByClient, key: ClientKey) -> gro::Pending {
    if v.contains_key(key) {
        v[key].1
    } else {
        Seq::empty()
    }
}

/// The same clients and sessions, with nothing pending.
pub open spec fn drained(v: PendingByClient) -> PendingByClient {
    v.map_values(|e: (u64, gro::Pending)| (e.0, Seq::empty()))
}

/// What a flush hands out for the clients: one entry for each, with everything that was
/// pending.
pub open spec fn hands_out(r: Seq<ClientOutputs>, v: PendingByClient) -> bool {
    &&& forall|i: int|
        #![trigger r[i]]
        0 <= i < r.len() ==> {
            &&& v.contains_key(r[i].key)
            &&& r[i].session_id == v[r[i].key].0
            &&& gro::output_views(r[i].outputs@) == gro::flushed(v[r[i].key].1)
        }
    &&& forall|k: ClientKey| #[trigger]
        v.contains_key(k) ==> exists|i: int| 0 <= i < r.len() && (#[trigger] r[i]).key == k
    &&& forall|i: int, j: int| 0 <= i < j < r.len() ==> (#[trigger] r[i]).key != (#[trigger] r[j]).key
}

impl ClientGroStates {
    /// The invariant of the tables.
    pub closed spec fn wf(self) -> bool {
        in_order(self.states@)
    }

    /// No clients yet.
    pub fn new() -> (s: Self)
        ensures
            s.wf(),
            s@ == Map::<ClientKey, (u64, gro::Pending)>::empty(),
    {
        let s = ClientGroStates { states: Vec::new() };
        assert(s@ =~= Map::<ClientKey, (u64, gro::Pending)>::empty());
        s
    }

    /// Whether anything is pending for any client.
    pub fn any_pending(&self) -> (r: bool)
        requires
            self.wf(),
        ensures
            r == (exists|k: ClientKey| #[trigger] self@.contains_key(k) && self@[k].1.len() > 0),
    {
        let mut i: usize = 0;
        while i < self.states.len()
            invariant
                self.wf(),
                i <= self.states@.len(),
                forall|k: int| 0 <= k < i ==> (#[trigger] self.states@[k]).table@.len() == 0,
            decreases self.states@.len() - i,
        {
            if !self.states[i].table.is_empty() {
                proof {
                    lemma_found(self.states@, i as int);
                    assert(self@.contains_key(self.states@[i as int].key));
                }
                return true;
            }
            i += 1;
        }
        false
    }

    /// Takes a client's entry out, if it has one.
    fn take(&mut self, key: &ClientKey) -> (r: Option<ClientGroState>)
        requires
            old(self).wf(),
        ensures
            final(self).wf(),
            !listed(final(self).states@, *key),
            final(self)@ == old(self)@.remove(*key),
            r is Some <==> old(self)@.contains_key(*key),
            r is Some ==> r->0.key == *key && held(r->0) == old(self)@[*key] && r->0.table.wf(),
    {
        let ghost before = self.states@;
        let mut i: usize = 0;
        while i < self.states.len()
            invariant
                self.states@ == before,
                before == old(self).states@,
                in_order(before),
                i <= before.len(),
                forall|k: int| 0 <= k < i ==> (#[trigger] before[k]).key != *key,
            decreases before.len() - i,
        {
            if self.states[i].key == *key {
                proof {
                    lemma_found(before, i as int);
                    lemma_removed(before, i as int);
                    let after = before.remove(i as int);
                    assert forall|k: int| 0 <= k < after.len() implies (#[trigger] after[k]).key
                        != *key by {
                        let b = if k < i {
                            k
                        } else {
                            k + 1
                        };
                        assert(after[k] == before[b]);
                    }
                }
                return Some(self.states.remove(i));
            }
            i += 1;
        }
        assert(!listed(before, *key));
        assert(pending_of(before) =~= pending_of(before).remove(*key));
        None
    }

    /// Pushes a packet for a client through its table. The outputs go to the given session: a
    /// client that has connected again gets what is pending on its new connection.
    pub fn push(&mut self, key: ClientKey, session_id: u64, packet: &[u8]) -> (r: GroPush)
        requires
            old(self).wf(),
        ensures
            final(self).wf(),
            ({
                let o = gro::pushed(pending_for(old(self)@, key), packet@);
                &&& final(self)@ == old(self)@.insert(key, (session_id, o.table))
                &&& gro::output_views(r.outputs@) == o.outputs
                &&& r.pass_through == o.pass_through
            }),
    {
        let mut table: TcpGroTable = match self.take(&key) {
            Some(state) => state.table,
            None => TcpGroTable::new(),
        };
        proof {
            assert(table@ =~= pending_for(old(self)@, key));
        }
        let r = table.push(packet);
        let ghost before = self.states@;
        let state = ClientGroState { key, session_id, table };
        proof {
            lemma_added(before, state);
        }
        self.states.push(state);
        proof {
            assert(self@ =~= old(self)@.insert(key, held(state)));
        }
        r
    }

    /// Takes out everything that is pending, client by client.
    pub fn flush(&mut self) -> (r: Vec<ClientOutputs>)
        requires
            old(self).wf(),
        ensures
            final(self).wf(),
            final(self)@ == drained(old(self)@),
            hands_out(r@, old(self)@),
    {
        let ghost v = self@;
        let ghost before = self.states@;
        let mut done: Vec<ClientGroState> = Vec::new();
        let mut r: Vec<ClientOutputs> = Vec::new();
        let mut rest: Vec<ClientGroState> = Vec::new();
        std::mem::swap(&mut rest, &mut self.states);
        let ghost mut n: int = 0;
        while rest.len() > 0
            invariant
                before == old(self).states@,
                in_order(before),
                0 <= n <= before.len(),
                rest@ == before.take(before.len() - n),
                done@.len() == n,
                r@.len() == n,
                forall|k: int|
                    #![trigger done@[k]]
                    0 <= k < n ==> {
                        let b = before[before.len() - 1 - k];
                        &&& done@[k].key == b.key
                        &&& done@[k].session_id == b.session_id
                        &&& done@[k].table@.len() == 0
                        &&& done@[k].table.wf()
                    },
                forall|k: int|
                    #![trigger r@[k]]
                    0 <= k < n ==> {
                        let b = before[before.len() - 1 - k];
                        &&& r@[k].key == b.key
                        &&& r@[k].session_id == b.session_id
                        &&& gro::output_views(r@[k].outputs@) == gro::flushed(b.table@)
                    },
            decreases rest@.len(),
        {
            assert(rest@.last() == before[before.len() - 1 - n]);
            match rest.pop() {
                Some(state) => {
                    let key = state.key;
                    let session_id: u64 = state.session_id;
                    let mut table = state.table;
                    let outputs = table.flush_all();
                    done.push(ClientGroState { key, session_id, table });
                    r.push(ClientOutputs { key, session_id, outputs });
                    proof {
                        n = n + 1;
                        assert(rest@ =~= before.take(before.len() - n));
                    }
                },
                None => {},
            }
        }
        self.states = done;
        proof {
            let after = self.states@;
            assert forall|i: int, j: int|
                0 <= i < after.len() && 0 <= j < after.len() && (#[trigger] after[i]).key == (
                #[trigger] after[j]).key implies i == j by {
                assert(before[before.len() - 1 - i].key == before[before.len() - 1 - j].key);
            }
            assert forall|k: ClientKey| listed(after, k) == listed(before, k) by {
                if listed(after, k) {
                    let a = place(after, k);
                    assert(before[before.len() - 1 - a].key == k);
                }
                if listed(before, k) {
                    let b = place(before, k);
                    assert(after[before.len() - 1 - b].key == k);
                }
            }
            assert forall|k: ClientKey| listed(after, k) implies pending_of(after)[k] == drained(
                v,
            )[k] by {
                let a = place(after, k);
                let b = before.len() - 1 - a;
                assert(before[b].key == k);
                lemma_found(before, b);
                assert(after[a].table@ =~= Seq::empty());
            }
            assert(self@ =~= drained(v));
            assert forall|i: int|
                #![trigger r@[i]]
                0 <= i < r@.len() implies v.contains_key(r@[i].key) && r@[i].session_id
                == v[r@[i].key].0 && gro::output_views(r@[i].outputs@) == gro::flushed(
                v[r@[i].key].1,
            ) by {
                lemma_found(before, before.len() - 1 - i);
            }
            assert forall|k: ClientKey| #[trigger] v.contains_key(k) implies exists|i: int|
                0 <= i < r@.len() && (#[trigger] r@[i]).key == k by {
                let b = place(before, k);
                assert(r@[before.len() - 1 - b].key == k);
            }
            assert forall|i: int, j: int| 0 <= i < j < r@.len() implies (#[trigger] r@[i]).key != (
            #[trigger] r@[j]).key by {
                if r@[i].key == r@[j].key {
                    assert(before[before.len() - 1 - i].key == before[before.len() - 1 - j].key);
                }
            }
        }
        r
    }

    /// Forgets a client whose connection is gone.
    pub fn evict(&mut self, key: &ClientKey)
        requires
            old(self).wf(),
        ensures
            final(self).wf(),
            final(self)@ == old(self)@.remove(*key),
    {
        let _ = self.take(key);
    }
}

/// Flushing hands out what is held for every client, once and under its session, with every flow
/// in order, and holds nothing then.
pub proof fn law_flush_hands_out_everything(
    r: Seq<ClientOutputs>,
    v: PendingByClient,
    key: ClientKey,
    k: gro::TcpFlowKey,
)
    requires
        hands_out(r, v),
        v.contains_key(key),
        flow_order::sorted_by_flow(v[key].1),
    ensures
        pending_for(drained(v), key).len() == 0,
        drained(v).contains_key(key),
        exists|i: int|
            {
                &&& 0 <= i < r.len()
                &&& (#[trigger] r[i]).key == key
                &&& r[i].session_id == v[key].0
                &&& flow_order::outgoing(gro::output_views(r[i].outputs@), k) == flow_order::held(
                    pending_for(v, key),
                    k,
                )
            },
        forall|i: int, j: int|
            0 <= i < r.len() && 0 <= j < r.len() && (#[trigger] r[i]).key == key && (
            #[trigger] r[j]).key == key ==> i == j,
{
    flow_order::law_flush_sends_what_is_held(v[key].1, k);
    let i = choose|i: int| 0 <= i < r.len() && (#[trigger] r[i]).key == key;
    assert(r[i].session_id == v[key].0);
    assert forall|a: int, b: int|
        0 <= a < r.len() && 0 <= b < r.len() && (#[trigger] r[a]).key == key && (
        #[trigger] r[b]).key == key implies a == b by {
        if a < b {
            assert(r[a].key != r[b].key);
        } else if b < a {
            assert(r[b].key != r[a].key);
        }
    }
}

} // verus!
