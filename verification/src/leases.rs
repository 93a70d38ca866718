//! Which client holds which address.

use vstd::prelude::*;
use crate::identity::ClientKey;

verus! {

/// Addresses, as numbers, by the client that holds them. No client holds two.
#[derive(Debug)]
pub struct LeaseTable {
    entries: Vec<(ClientKey, u128)>,
}

impl View for LeaseTable {
    type V = Map<ClientKey, u128>;

    closed spec fn view(&self) -> Map<ClientKey, u128> {
        leases_of(self.entries@)
    }
}

/// The client has an entry.
spec fn listed(entries: Seq<(ClientKey, u128)>, key: ClientKey) -> bool {
    exists|i: int| 0 <= i < entries.len() && (#[trigger] entries[i]).0 == key
}

/// Where the entry of a client is.
spec fn place(entries: Seq<(ClientKey, u128)>, key: ClientKey) -> int {
    choose|i: int| 0 <= i < entries.len() && (#[trigger] entries[i]).0 == key
}

/// The map that a list of entries stands for.
spec fn leases_of(entries: Seq<(ClientKey, u128)>) -> Map<ClientKey, u128> {
    Map::new(|key: ClientKey| listed(entries, key), |key: ClientKey| entries[place(entries, key)].1)
}

/// No client has two entries.
spec fn distinct(entries: Seq<(ClientKey, u128)>) -> bool {
    forall|i: int, j: int|
        0 <= i < entries.len() && 0 <= j < entries.len() && (#[trigger] entries[i]).0 == (
        #[trigger] entries[j]).0 ==> i == j
}

impl LeaseTable {
    /// The invariant of the table.
    pub closed spec fn wf(self) -> bool {
        distinct(self.entries@)
    }

    /// No leases.
    pub fn new() -> (t: Self)
        ensures
            t.wf(),
            t@ == Map::<ClientKey, u128>::empty(),
    {
        let t = LeaseTable { entries: Vec::new() };
        assert(t@ =~= Map::<ClientKey, u128>::empty());
        t
    }

    /// The address that a client holds.
    pub fn get(&self, key: &ClientKey) -> (r: Option<u128>)
        requires
            self.wf(),
        ensures
            r == (if self@.contains_key(*key) {
                Some(self@[*key])
            } else {
                None
            }),
    {
        let mut i: usize = 0;
        while i < self.entries.len()
            invariant
                self.wf(),
                i <= self.entries@.len(),
                forall|k: int| 0 <= k < i ==> (#[trigger] self.entries@[k]).0 != *key,
            decreases self.entries@.len() - i,
        {
            if self.entries[i].0 == *key {
                assert(listed(self.entries@, *key));
                assert(place(self.entries@, *key) == i);
                return Some(self.entries[i].1);
            }
            i = i + 1;
        }
        None
    }

    /// Whether some client holds the address.
    pub fn holds(&self, addr: u128) -> (r: bool)
        requires
            self.wf(),
        ensures
            r == self@.contains_value(addr),
    {
        let mut i: usize = 0;
        while i < self.entries.len()
            invariant
                self.wf(),
                i <= self.entries@.len(),
                forall|k: int| 0 <= k < i ==> (#[trigger] self.entries@[k]).1 != addr,
            decreases self.entries@.len() - i,
        {
            if self.entries[i].1 == addr {
                proof {
                    let key = self.entries@[i as int].0;
                    assert(listed(self.entries@, key));
                    assert(place(self.entries@, key) == i);
                    assert(self@.contains_key(key) && self@[key] == addr);
                }
                return true;
            }
            i = i + 1;
        }
        false
    }

    /// Records the address of a client that has none.
    pub fn insert(&mut self, key: ClientKey, addr: u128)
        requires
            old(self).wf(),
            !old(self)@.contains_key(key),
        ensures
            final(self).wf(),
            final(self)@ == old(self)@.insert(key, addr),
    {
        let ghost before = self.entries@;
        self.entries.push((key, addr));
        proof {
            let after = self.entries@;
            assert forall|i: int, j: int|
                0 <= i < after.len() && 0 <= j < after.len() && (#[trigger] after[i]).0 == (
                #[trigger] after[j]).0 implies i == j by {
                if i < before.len() {
                    assert(before[i].0 == after[i].0);
                    assert(listed(before, before[i].0));
                }
                if j < before.len() {
                    assert(before[j].0 == after[j].0);
                    assert(listed(before, before[j].0));
                }
            }
            assert forall|k: ClientKey| listed(after, k) == (listed(before, k) || k == key) by {
                if listed(before, k) {
                    assert(after[place(before, k)] == before[place(before, k)]);
                }
                if k == key {
                    assert(after[before.len() as int].0 == key);
                }
                if listed(after, k) && k != key {
                    assert(before[place(after, k)] == after[place(after, k)]);
                }
            }
            assert forall|k: ClientKey| listed(after, k) implies leases_of(after)[k]
                == leases_of(before).insert(key, addr)[k] by {
                if k == key {
                    assert(after[before.len() as int].0 == key);
                    assert(place(after, k) == before.len());
                } else {
                    assert(after[place(before, k)] == before[place(before, k)]);
                    assert(place(after, k) == place(before, k));
                }
            }
            assert(leases_of(after) =~= leases_of(before).insert(key, addr));
        }
    }

    /// Drops the lease of a client and gives its address.
    pub fn remove(&mut self, key: &ClientKey) -> (r: Option<u128>)
        requires
            old(self).wf(),
        ensures
            final(self).wf(),
            final(self)@ == old(self)@.remove(*key),
            r == (if old(self)@.contains_key(*key) {
                Some(old(self)@[*key])
            } else {
                None
            }),
    {
        let ghost before = self.entries@;
        let mut i: usize = 0;
        while i < self.entries.len()
            invariant
                self.entries@ == before,
                before == old(self).entries@,
                distinct(before),
                i <= before.len(),
                forall|k: int| 0 <= k < i ==> (#[trigger] before[k]).0 != *key,
            decreases before.len() - i,
        {
            if self.entries[i].0 == *key {
                let (_, addr) = self.entries.remove(i);
                proof {
                    let after = self.entries@;
                    assert(listed(before, *key) && place(before, *key) == i);
                    assert forall|k: int| 0 <= k < after.len() implies (#[trigger] after[k])
                        == before[if k < i {
                        k
                    } else {
                        k + 1
                    }] by {}
                    assert forall|k: ClientKey| listed(after, k) == (listed(before, k) && k
                        != *key) by {
                        if listed(before, k) && k != *key {
                            let b = place(before, k);
                            let a = if b < i {
                                b
                            } else {
                                b - 1
                            };
                            assert(after[a] == before[b]);
                        }
                        if listed(after, k) {
                            let a = place(after, k);
                            let b = if a < i {
                                a
                            } else {
                                a + 1
                            };
                            assert(after[a] == before[b]);
                        }
                    }
                    assert forall|k: ClientKey| listed(after, k) implies leases_of(after)[k]
                        == leases_of(before)[k] by {
                        let a = place(after, k);
                        let b = if a < i {
                            a
                        } else {
                            a + 1
                        };
                        assert(after[a] == before[b]);
                        assert(place(before, k) == b);
                    }
                    assert(leases_of(after) =~= leases_of(before).remove(*key));
                }
                return Some(addr);
            }
            i = i + 1;
        }
        assert(!listed(before, *key));
        assert(leases_of(before) =~= leases_of(before).remove(*key));
        None
    }
}

} // verus!
